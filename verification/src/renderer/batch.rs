//! Packing the visible vertex segments into few large buffers.

use crate::renderer::queue::TileCacheKey;
use std::collections::hash_map::DefaultHasher;
use std::hash::Hasher;
use vstd::bytes::{u32_to_le_bytes, u64_to_le_bytes};
use vstd::prelude::*;
use vstd::std_specs::hash::DefaultHasherAdditionalSpecFns;

verus! {

/// The sum of the counts.
pub open spec fn total(counts: Seq<usize>) -> nat
    decreases counts.len(),
{
    if counts.len() == 0 {
        0
    } else {
        total(counts.drop_last()) + counts.last() as nat
    }
}

/// `vertices` vertices in buffers of `limit`: full buffers, then one for the rest.
pub open spec fn packed(vertices: nat, limit: nat) -> Seq<usize> {
    Seq::new(vertices / limit, |i: int| limit as usize) + if vertices % limit == 0 {
        Seq::empty()
    } else {
        seq![(vertices % limit) as usize]
    }
}

proof fn lemma_total_take(counts: Seq<usize>, i: int)
    requires
        0 <= i < counts.len(),
    ensures
        total(counts.take(i + 1)) == total(counts.take(i)) + counts[i],
{
    assert(counts.take(i + 1).drop_last() =~= counts.take(i));
}

/// How many vertices each buffer takes where the segments are packed one behind the other.
pub fn batch_visible_vertex_segments(
    segment_vertex_counts: &[usize],
    max_vertices_per_buffer: usize,
) -> (merged: Vec<usize>)
    ensures
        max_vertices_per_buffer == 0 ==> merged@.len() == 0,
        max_vertices_per_buffer > 0 ==> merged@ == packed(
            total(segment_vertex_counts@),
            max_vertices_per_buffer as nat,
        ),
{
    let mut merged: Vec<usize> = Vec::new();
    if max_vertices_per_buffer == 0 {
        return merged;
    }
    let mut current: usize = 0;
    let mut i: usize = 0;
    assert(merged@.len() * max_vertices_per_buffer == 0) by (nonlinear_arith)
        requires
            merged@.len() == 0,
    ;
    while i < segment_vertex_counts.len()
        invariant
            i <= segment_vertex_counts@.len(),
            current < max_vertices_per_buffer,
            forall|k: int| 0 <= k < merged@.len() ==> merged@[k] == max_vertices_per_buffer,
            merged@.len() * max_vertices_per_buffer + current == total(
                segment_vertex_counts@.take(i as int),
            ),
        decreases segment_vertex_counts@.len() - i,
    {
        let count: usize = segment_vertex_counts[i];
        let mut remaining: usize = count;
        while remaining > 0
            invariant
                remaining <= count,
                current < max_vertices_per_buffer,
                forall|k: int| 0 <= k < merged@.len() ==> merged@[k] == max_vertices_per_buffer,
                merged@.len() * max_vertices_per_buffer + current + remaining == total(
                    segment_vertex_counts@.take(i as int),
                ) + count,
            decreases remaining,
        {
            let available: usize = max_vertices_per_buffer - current;
            let take: usize = if remaining < available {
                remaining
            } else {
                available
            };
            current += take;
            remaining -= take;
            if current == max_vertices_per_buffer {
                proof {
                    let n = merged@.len();
                    assert((n + 1) * max_vertices_per_buffer == n * max_vertices_per_buffer
                        + max_vertices_per_buffer) by (nonlinear_arith);
                }
                merged.push(current);
                current = 0;
            }
        }
        proof {
            lemma_total_take(segment_vertex_counts@, i as int);
        }
        i += 1;
    }
    proof {
        assert(segment_vertex_counts@.take(i as int) =~= segment_vertex_counts@);
        let all = total(segment_vertex_counts@) as int;
        vstd::arithmetic::div_mod::lemma_fundamental_div_mod_converse(
            all,
            max_vertices_per_buffer as int,
            merged@.len() as int,
            current as int,
        );
    }
    if current > 0 {
        merged.push(current);
    }
    assert(merged@ =~= packed(total(segment_vertex_counts@), max_vertices_per_buffer as nat));
    merged
}

/// One copy of vertices out of a segment into a batch buffer.
#[derive(Debug, Clone, Copy, PartialEq, Eq, Structural)]
pub struct BatchCopy {
    pub segment: usize,
    pub segment_offset: usize,
    pub buffer: usize,
    pub buffer_offset: usize,
    pub vertex_count: usize,
}

/// Where the copy starts in the segments laid end to end.
pub open spec fn copy_start(counts: Seq<usize>, copy: BatchCopy) -> int {
    total(counts.take(copy.segment as int)) + copy.segment_offset
}

/// Whether one copy takes vertices from within its segment, puts them where the packing puts
/// them, and stops only where the segment or the buffer ends.
pub open spec fn copy_is_placed(counts: Seq<usize>, limit: nat, copy: BatchCopy) -> bool {
    &&& copy.segment < counts.len()
    &&& copy.vertex_count > 0
    &&& copy.segment_offset + copy.vertex_count <= counts[copy.segment as int]
    &&& copy.buffer_offset + copy.vertex_count <= limit
    &&& copy.buffer * limit + copy.buffer_offset == copy_start(counts, copy)
    &&& copy.segment_offset + copy.vertex_count == counts[copy.segment as int]
        || copy.buffer_offset + copy.vertex_count == limit
}

/// Whether a copy starts where the one before it ends.
pub open spec fn starts_in_place(counts: Seq<usize>, copies: Seq<BatchCopy>, i: int) -> bool {
    copy_start(counts, copies[i]) == (if i == 0 {
        0
    } else {
        copy_start(counts, copies[i - 1]) + copies[i - 1].vertex_count
    })
}

/// Whether the copies move `vertices` vertices, one behind the other, without a gap.
pub open spec fn copies_cover(
    counts: Seq<usize>,
    limit: nat,
    copies: Seq<BatchCopy>,
    vertices: int,
) -> bool {
    &&& forall|i: int| 0 <= i < copies.len() ==> copy_is_placed(counts, limit, #[trigger] copies[i])
    &&& forall|i: int| 0 <= i < copies.len() ==> #[trigger] starts_in_place(counts, copies, i)
    &&& vertices == (if copies.len() == 0 {
        0
    } else {
        copy_start(counts, copies.last()) + copies.last().vertex_count
    })
}

/// A copy that starts where the others end goes on where they stop.
proof fn lemma_copy_follows(
    counts: Seq<usize>,
    limit: nat,
    copies: Seq<BatchCopy>,
    copy: BatchCopy,
    vertices: int,
)
    requires
        copies_cover(counts, limit, copies, vertices),
        copy_is_placed(counts, limit, copy),
        copy_start(counts, copy) == vertices,
    ensures
        copies_cover(counts, limit, copies.push(copy), vertices + copy.vertex_count),
{
    let all = copies.push(copy);
    assert(all.last() == copy);
    assert forall|i: int| 0 <= i < all.len() implies copy_is_placed(
        counts,
        limit,
        #[trigger] all[i],
    ) by {
        if i < copies.len() {
            assert(all[i] == copies[i]);
        }
    }
    assert forall|i: int| 0 <= i < all.len() implies #[trigger] starts_in_place(
        counts,
        all,
        i,
    ) by {
        if i < copies.len() {
            assert(starts_in_place(counts, copies, i));
            assert(all[i] == copies[i]);
            if i > 0 {
                assert(all[i - 1] == copies[i - 1]);
            }
        } else if i > 0 {
            assert(all[i - 1] == copies.last());
        }
    }
}

/// The copies that fill the batch buffers from the segments.
pub fn plan_batch_copies(
    segment_vertex_counts: &[usize],
    max_vertices_per_buffer: usize,
) -> (copies: Vec<BatchCopy>)
    requires
        max_vertices_per_buffer > 0,
        total(segment_vertex_counts@) <= usize::MAX,
    ensures
        copies_cover(
            segment_vertex_counts@,
            max_vertices_per_buffer as nat,
            copies@,
            total(segment_vertex_counts@) as int,
        ),
{
    let ghost counts = segment_vertex_counts@;
    let ghost limit = max_vertices_per_buffer as nat;
    let mut copies: Vec<BatchCopy> = Vec::new();
    let mut buffer: usize = 0;
    let mut buffer_offset: usize = 0;
    let mut segment: usize = 0;
    assert(buffer * limit == 0) by (nonlinear_arith)
        requires
            buffer == 0,
    ;
    while segment < segment_vertex_counts.len()
        invariant
            segment <= counts.len(),
            counts == segment_vertex_counts@,
            limit == max_vertices_per_buffer,
            limit > 0,
            total(counts) <= usize::MAX,
            buffer_offset < limit,
            buffer * limit + buffer_offset == total(counts.take(segment as int)),
            copies_cover(counts, limit, copies@, total(counts.take(segment as int)) as int),
        decreases counts.len() - segment,
    {
        let count: usize = segment_vertex_counts[segment];
        let mut segment_offset: usize = 0;
        let ghost first = total(counts.take(segment as int)) as int;
        proof {
            lemma_total_take(counts, segment as int);
            lemma_total_monotone(counts, segment + 1);
        }
        while segment_offset < count
            invariant
                segment < counts.len(),
                counts == segment_vertex_counts@,
                limit == max_vertices_per_buffer,
                limit > 0,
                count == counts[segment as int],
                first == total(counts.take(segment as int)),
                first + count <= usize::MAX,
                segment_offset <= count,
                buffer_offset < limit,
                buffer * limit + buffer_offset == first + segment_offset,
                copies_cover(counts, limit, copies@, first + segment_offset),
            decreases count - segment_offset,
        {
            let remaining: usize = count - segment_offset;
            let available: usize = max_vertices_per_buffer - buffer_offset;
            let vertex_count: usize = if remaining < available {
                remaining
            } else {
                available
            };
            let copy = BatchCopy { segment, segment_offset, buffer, buffer_offset, vertex_count };
            let ghost before = copies@;
            copies.push(copy);
            proof {
                lemma_copy_follows(counts, limit, before, copy, first + segment_offset);
            }
            segment_offset += vertex_count;
            buffer_offset += vertex_count;
            if buffer_offset == max_vertices_per_buffer {
                proof {
                    assert((buffer + 1) * limit == buffer * limit + limit) by (nonlinear_arith);
                    assert(buffer <= buffer * limit) by (nonlinear_arith)
                        requires
                            limit >= 1,
                    ;
                }
                buffer += 1;
                buffer_offset = 0;
            }
        }
        segment += 1;
    }
    assert(counts.take(segment as int) =~= counts);
    copies
}

proof fn lemma_total_monotone(counts: Seq<usize>, i: int)
    requires
        0 <= i <= counts.len(),
    ensures
        total(counts.take(i)) <= total(counts),
    decreases counts.len() - i,
{
    if i == counts.len() {
        assert(counts.take(i) =~= counts);
    } else {
        lemma_total_take(counts, i);
        lemma_total_monotone(counts, i + 1);
    }
}

/// The bytes by which a key enters the hash of the visible set.
pub open spec fn tile_key_bytes(key: TileCacheKey) -> Seq<u8> {
    vstd::bytes::spec_u64_to_le_bytes(key.scene_revision)
        + vstd::bytes::spec_u32_to_le_bytes(key.zoom_bits)
        + vstd::bytes::spec_u32_to_le_bytes(key.tile_id.col as u32)
        + vstd::bytes::spec_u32_to_le_bytes(key.tile_id.row as u32)
        + vstd::bytes::spec_u32_to_le_bytes(key.layer.layer)
        + vstd::bytes::spec_u32_to_le_bytes(key.layer.datatype)
        + vstd::bytes::spec_u64_to_le_bytes(key.hatch_signature)
        + seq![key.effective_mode_tag, key.effective_hatch_style_tag]
}

/// The bytes of a list of keys.
pub open spec fn tile_keys_bytes(keys: Seq<TileCacheKey>) -> Seq<u8>
    decreases keys.len(),
{
    if keys.len() == 0 {
        Seq::empty()
    } else {
        tile_keys_bytes(keys.drop_last()) + tile_key_bytes(keys.last())
    }
}

/// The signature of a list of visible keys: what the standard hasher makes of their bytes.
pub open spec fn visible_keys_hash(keys: Seq<TileCacheKey>) -> u64 {
    DefaultHasher::spec_finish(seq![tile_keys_bytes(keys)])
}

/// A quick signature that tells whether the visible set has changed.
pub fn hash_visible_tile_keys(visible_tile_keys: &[TileCacheKey]) -> (hash: u64)
    ensures
        hash == visible_keys_hash(visible_tile_keys@),
{
    let mut bytes: Vec<u8> = Vec::new();
    let mut i: usize = 0;
    while i < visible_tile_keys.len()
        invariant
            i <= visible_tile_keys@.len(),
            bytes@ == tile_keys_bytes(visible_tile_keys@.take(i as int)),
        decreases visible_tile_keys@.len() - i,
    {
        let key = visible_tile_keys[i];
        let ghost before = bytes@;
        bytes.append(&mut u64_to_le_bytes(key.scene_revision));
        bytes.append(&mut u32_to_le_bytes(key.zoom_bits));
        bytes.append(&mut u32_to_le_bytes(key.tile_id.col as u32));
        bytes.append(&mut u32_to_le_bytes(key.tile_id.row as u32));
        bytes.append(&mut u32_to_le_bytes(key.layer.layer));
        bytes.append(&mut u32_to_le_bytes(key.layer.datatype));
        bytes.append(&mut u64_to_le_bytes(key.hatch_signature));
        bytes.push(key.effective_mode_tag);
        bytes.push(key.effective_hatch_style_tag);
        proof {
            assert(bytes@ =~= before + tile_key_bytes(key));
            assert(visible_tile_keys@.take(i + 1).drop_last() =~= visible_tile_keys@.take(
                i as int,
            ));
        }
        i += 1;
    }
    assert(visible_tile_keys@.take(i as int) =~= visible_tile_keys@);
    let mut hasher = DefaultHasher::new();
    hasher.write(bytes.as_slice());
    assert(hasher@ =~= seq![tile_keys_bytes(visible_tile_keys@)]);
    hasher.finish()
}

/// Whether a batch built for `source_len` keys with `source_hash` still shows the visible set.
pub fn batch_is_current(
    batch: Option<(u64, usize)>,
    source_hash: u64,
    visible_len: usize,
) -> (current: bool)
    ensures
        current == (batch == Some((source_hash, visible_len))),
{
    match batch {
        Some((hash, len)) => hash == source_hash && len == visible_len,
        None => false,
    }
}

} // verus!
