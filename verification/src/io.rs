//! From the cells of a file to scenes and layouts.

pub mod agreement;
pub mod element_laws;
pub mod file_laws;
pub mod flatten;
pub mod gds;
pub mod layered;
pub mod layered_laws;
pub mod oasis;
pub mod order;
pub mod view_laws;

use crate::error::{joined, AppError};
use crate::scene::{Scene, SceneBundle};
use vstd::prelude::*;

verus! {

/// The kinds of files that can be read.
#[derive(Debug, Clone, Copy, PartialEq, Eq, Structural)]
pub enum LayoutFormat {
    Gds,
    Oasis,
}

/// The lower-case letter of an upper-case one, any other character as it is.
pub open spec fn lower(c: char) -> char {
    if 'A' <= c <= 'Z' {
        (c as u32 + 32) as char
    } else {
        c
    }
}

/// The text in lower-case letters.
pub open spec fn lowered(text: Seq<char>) -> Seq<char> {
    text.map_values(|c: char| lower(c))
}

/// Whether a character is the given lower-case letter in either case.
fn is_letter(c: char, letter: char, capital: char) -> (same: bool)
    requires
        'a' <= letter <= 'z',
        capital as u32 + 32 == letter as u32,
    ensures
        same == (lower(c) == letter),
{
    c == letter || c == capital
}

/// Whether the text is a word of three letters, in either case.
fn is_word(text: &str, first: (char, char), second: (char, char), third: (char, char)) -> (same: bool)
    requires
        'a' <= first.0 <= 'z',
        'a' <= second.0 <= 'z',
        'a' <= third.0 <= 'z',
        first.1 as u32 + 32 == first.0 as u32,
        second.1 as u32 + 32 == second.0 as u32,
        third.1 as u32 + 32 == third.0 as u32,
    ensures
        same == (lowered(text@) == seq![first.0, second.0, third.0]),
{
    if text.unicode_len() != 3 {
        proof {
            assert(lowered(text@).len() == text@.len());
        }
        return false;
    }
    let same = is_letter(text.get_char(0), first.0, first.1) && is_letter(
        text.get_char(1),
        second.0,
        second.1,
    ) && is_letter(text.get_char(2), third.0, third.1);
    proof {
        let found = lowered(text@);
        let wanted = seq![first.0, second.0, third.0];
        assert(found[0] == lower(text@[0]) && found[1] == lower(text@[1]) && found[2] == lower(
            text@[2],
        ));
        if same {
            assert(found =~= wanted);
        } else {
            assert(wanted[0] == first.0 && wanted[1] == second.0 && wanted[2] == third.0);
        }
    }
    same
}

/// The kind of file that an extension tells, in either case.
pub open spec fn format_of(extension: Option<Seq<char>>) -> Option<LayoutFormat> {
    match extension {
        Some(text) => if lowered(text) == "gds"@ {
            Some(LayoutFormat::Gds)
        } else if lowered(text) == "oas"@ {
            Some(LayoutFormat::Oasis)
        } else {
            None
        },
        None => None,
    }
}

/// The kind of file that an extension tells, in either case.
pub fn format_of_extension(extension: Option<&str>) -> (format: Option<LayoutFormat>)
    ensures
        format == format_of(
            match extension {
                Some(text) => Some(text@),
                None => None,
            },
        ),
{
    match extension {
        Some(text) => {
            proof {
                reveal_strlit("gds");
                reveal_strlit("oas");
                assert("gds"@ =~= seq!['g', 'd', 's']);
                assert("oas"@ =~= seq!['o', 'a', 's']);
            }
            if is_word(text, ('g', 'G'), ('d', 'D'), ('s', 'S')) {
                Some(LayoutFormat::Gds)
            } else if is_word(text, ('o', 'O'), ('a', 'A'), ('s', 'S')) {
                Some(LayoutFormat::Oasis)
            } else {
                None
            }
        },
        None => None,
    }
}

/// Whether a character has the White_Space property of Unicode.
pub open spec fn is_white_space(c: char) -> bool {
    let code = c as u32;
    ||| 0x9 <= code <= 0xd
    ||| code == 0x20
    ||| code == 0x85
    ||| code == 0xa0
    ||| code == 0x1680
    ||| 0x2000 <= code <= 0x200a
    ||| code == 0x2028
    ||| code == 0x2029
    ||| code == 0x202f
    ||| code == 0x205f
    ||| code == 0x3000
}

/// Whether a character has the White_Space property of Unicode.
fn white_space(c: char) -> (white: bool)
    ensures
        white == is_white_space(c),
{
    let code: u32 = c as u32;
    (0x9 <= code && code <= 0xd) || code == 0x20 || code == 0x85 || code == 0xa0 || code == 0x1680
        || (0x2000 <= code && code <= 0x200a) || code == 0x2028 || code == 0x2029 || code == 0x202f
        || code == 0x205f || code == 0x3000
}

/// Whether the text holds nothing but white space.
pub open spec fn is_blank(text: Seq<char>) -> bool {
    forall|i: int| 0 <= i < text.len() ==> is_white_space(#[trigger] text[i])
}

/// Whether the text holds nothing but white space.
pub fn is_blank_text(text: &str) -> (blank: bool)
    ensures
        blank == is_blank(text@),
{
    let count: usize = text.unicode_len();
    let mut i: usize = 0;
    while i < count
        invariant
            i <= count,
            count == text@.len(),
            forall|k: int| 0 <= k < i ==> is_white_space(#[trigger] text@[k]),
        decreases count - i,
    {
        let c: char = text.get_char(i);
        if !white_space(c) {
            assert(!is_white_space(text@[i as int]));
            return false;
        }
        i += 1;
    }
    true
}

/// The scene of the selected view of a file, or an empty one where it has no view.
pub fn layout_scene(bundle: &SceneBundle) -> (scene: Scene)
    ensures
        scene@ == (if bundle.selection() < bundle.listed().len() {
            bundle.listed()[bundle.selection() as int].scene@
        } else {
            Seq::empty()
        }),
{
    match bundle.current_scene() {
        Some(scene) => scene.clone(),
        None => Scene::empty(),
    }
}

/// How a file is to be read: as the extension tells. An error where no file is named, where there
/// is none, or where the extension tells nothing.
pub fn check_layout_path(path: &str, exists: bool, extension: Option<&str>) -> (result: Result<
    LayoutFormat,
    AppError,
>)
    ensures
        ({
            let format = format_of(
                match extension {
                    Some(text) => Some(text@),
                    None => None,
                },
            );
            if is_blank(path@) {
                result matches Err(error) && error is MissingPath
            } else if !exists {
                result matches Err(AppError::MissingFile(name)) && name@ == path@
            } else {
                match format {
                    Some(format) => result matches Ok(found) && found == format,
                    None => result matches Err(AppError::UnsupportedFormat(name)) && name@ == path@,
                }
            }
        }),
{
    if is_blank_text(path) {
        return Err(AppError::MissingPath);
    }
    if !exists {
        return Err(AppError::MissingFile(String::from_str(path)));
    }
    match format_of_extension(extension) {
        Some(format) => Ok(format),
        None => Err(AppError::UnsupportedFormat(String::from_str(path))),
    }
}

/// Whether a file can be read without being flattened: only GDSII files can. The errors are those
/// of reading it flattened, and one for an OASIS file.
pub fn check_hierarchy_path(path: &str, exists: bool, extension: Option<&str>) -> (result: Result<
    (),
    AppError,
>)
    ensures
        ({
            let format = format_of(
                match extension {
                    Some(text) => Some(text@),
                    None => None,
                },
            );
            if is_blank(path@) {
                result matches Err(error) && error is MissingPath
            } else if !exists {
                result matches Err(AppError::MissingFile(name)) && name@ == path@
            } else {
                match format {
                    Some(LayoutFormat::Gds) => result is Ok,
                    Some(LayoutFormat::Oasis) => {
                        &&& result matches Err(AppError::UnsupportedFormat(detail))
                        &&& detail@ == "hierarchical OASIS loading is not implemented yet: "@
                            + path@
                    },
                    None => result matches Err(AppError::UnsupportedFormat(name)) && name@ == path@,
                }
            }
        }),
{
    match check_layout_path(path, exists, extension) {
        Ok(LayoutFormat::Gds) => Ok(()),
        Ok(LayoutFormat::Oasis) => Err(
            AppError::UnsupportedFormat(
                joined("hierarchical OASIS loading is not implemented yet: ", path),
            ),
        ),
        Err(error) => Err(error),
    }
}

} // verus!
