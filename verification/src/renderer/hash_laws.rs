//! What holds of the hashes of overrides.

use crate::layers;
use crate::renderer::geometry;
use crate::renderer::geometry::{
    ClosedShapeDrawMode, HatchParams, HatchStylePreset, ViewBits, HASH_PRIME, HASH_SEED,
};
use crate::scene::LayerId;
use vstd::prelude::*;

verus! {

/// The inverse of the hash prime among the products of sixty-four bits.
const HASH_PRIME_INVERSE: u64 = 0xb46d_d957_aff6_957b;

/// The hash of numbers by ascending layer.
spec fn tags_hash(entries: Seq<(LayerId, u64)>) -> u64
    decreases entries.len(),
{
    if entries.len() == 0 {
        HASH_SEED
    } else {
        geometry::mixed(
            geometry::mixed_layer(tags_hash(entries.drop_last()), entries.last().0),
            entries.last().1,
        )
    }
}

/// Different numbers have different products with the hash prime.
proof fn lemma_products_differ(x: u64, y: u64)
    requires
        x != y,
    ensures
        x.wrapping_mul(HASH_PRIME) != y.wrapping_mul(HASH_PRIME),
{
    let m: int = 0x1_0000_0000_0000_0000;
    let p: int = HASH_PRIME as int;
    let q: int = HASH_PRIME_INVERSE as int;
    let k: int = 12_398_993_177_650;
    assert(p * q == 1 + k * m);
    if x.wrapping_mul(HASH_PRIME) == y.wrapping_mul(HASH_PRIME) {
        let a: int = x as int;
        let b: int = y as int;
        let d: int = a - b;
        let s: int = (a * p) / m;
        let t: int = (b * p) / m;
        let w: int = s - t;
        vstd::arithmetic::div_mod::lemma_fundamental_div_mod(a * p, m);
        vstd::arithmetic::div_mod::lemma_fundamental_div_mod(b * p, m);
        assert((a * p) % m == (b * p) % m);
        assert(d * p == m * w) by (nonlinear_arith)
            requires
                d == a - b,
                w == s - t,
                a * p - m * s == b * p - m * t,
        ;
        let z: int = w * q - k * d;
        assert(d == m * z) by (nonlinear_arith)
            requires
                d * p == m * w,
                p * q == 1 + k * m,
                z == w * q - k * d,
        ;
        assert(-m < d < m);
        assert(d == 0) by (nonlinear_arith)
            requires
                d == m * z,
                -m < d < m,
        ;
    }
}

/// Mixing a number into different hashes, or different numbers into a hash, gives different hashes.
pub proof fn law_mixing_keeps_apart(hash: u64, other: u64, value: u64, another: u64)
    ensures
        hash != other ==> geometry::mixed(hash, value) != geometry::mixed(other, value),
        value != another ==> geometry::mixed(hash, value) != geometry::mixed(hash, another),
{
    assert(hash != other ==> hash ^ value != other ^ value) by (bit_vector);
    assert(value != another ==> hash ^ value != hash ^ another) by (bit_vector);
    if hash != other {
        lemma_products_differ(hash ^ value, other ^ value);
    }
    if value != another {
        lemma_products_differ(hash ^ value, hash ^ another);
    }
}

/// Lists that differ in one number have different hashes.
proof fn lemma_tags_differ(a: Seq<(LayerId, u64)>, b: Seq<(LayerId, u64)>, i: int)
    requires
        a.len() == b.len(),
        0 <= i < a.len(),
        a[i].0 == b[i].0,
        a[i].1 != b[i].1,
        forall|k: int| 0 <= k < a.len() && k != i ==> #[trigger] a[k] == b[k],
    ensures
        tags_hash(a) != tags_hash(b),
    decreases a.len(),
{
    let n = a.len() - 1;
    let head = a.drop_last();
    let other = b.drop_last();
    let h = tags_hash(head);
    let g = tags_hash(other);
    if i == n {
        assert(head =~= other) by {
            assert forall|k: int| 0 <= k < head.len() implies head[k] == other[k] by {
                assert(a[k] == b[k]);
            }
        }
        law_mixing_keeps_apart(geometry::mixed_layer(h, a[n].0), 0, a[n].1, b[n].1);
    } else {
        assert forall|k: int| 0 <= k < head.len() && k != i implies #[trigger] head[k]
            == other[k] by {
            assert(a[k] == b[k]);
        }
        lemma_tags_differ(head, other, i);
        assert(a[n] == b[n]);
        let layer = a[n].0;
        let h1 = geometry::mixed(h, layer.layer as u64);
        let g1 = geometry::mixed(g, layer.layer as u64);
        law_mixing_keeps_apart(h, g, layer.layer as u64, 0);
        law_mixing_keeps_apart(h1, g1, layer.datatype as u64, 0);
        law_mixing_keeps_apart(
            geometry::mixed_layer(h, layer),
            geometry::mixed_layer(g, layer),
            a[n].1,
            0,
        );
    }
}

proof fn lemma_draw_modes_hash(entries: Seq<(LayerId, ClosedShapeDrawMode)>)
    ensures
        geometry::draw_modes_hash(entries) == tags_hash(
            entries.map_values(|e: (LayerId, ClosedShapeDrawMode)| (e.0, e.1.tag() as u64)),
        ),
    decreases entries.len(),
{
    let tagged = entries.map_values(
        |e: (LayerId, ClosedShapeDrawMode)| (e.0, e.1.tag() as u64),
    );
    if entries.len() > 0 {
        lemma_draw_modes_hash(entries.drop_last());
        assert(tagged.drop_last() =~= entries.drop_last().map_values(
            |e: (LayerId, ClosedShapeDrawMode)| (e.0, e.1.tag() as u64),
        ));
    }
}

proof fn lemma_hatch_styles_hash(entries: Seq<(LayerId, HatchStylePreset)>)
    ensures
        geometry::hatch_styles_hash(entries) == tags_hash(
            entries.map_values(|e: (LayerId, HatchStylePreset)| (e.0, e.1.tag() as u64)),
        ),
    decreases entries.len(),
{
    let tagged = entries.map_values(|e: (LayerId, HatchStylePreset)| (e.0, e.1.tag() as u64));
    if entries.len() > 0 {
        lemma_hatch_styles_hash(entries.drop_last());
        assert(tagged.drop_last() =~= entries.drop_last().map_values(
            |e: (LayerId, HatchStylePreset)| (e.0, e.1.tag() as u64),
        ));
    }
}

/// Two maps on the same layers that differ in the draw mode of one layer have different hashes; no
/// changed override is missed.
pub proof fn law_changed_draw_mode_changes_the_hash(
    a: Map<LayerId, ClosedShapeDrawMode>,
    b: Map<LayerId, ClosedShapeDrawMode>,
    layer: LayerId,
)
    requires
        a.dom().finite(),
        a.dom() == b.dom(),
        a.dom().contains(layer),
        a[layer] != b[layer],
        forall|other: LayerId|
            a.dom().contains(other) && other != layer ==> #[trigger] a[other] == b[other],
    ensures
        geometry::draw_modes_hash(layers::ascending_entries(a)) != geometry::draw_modes_hash(
            layers::ascending_entries(b),
        ),
{
    let tag = |e: (LayerId, ClosedShapeDrawMode)| (e.0, e.1.tag() as u64);
    let i = layers::lemma_one_entry_differs(a, b, layer);
    let p = layers::ascending_entries(a);
    let q = layers::ascending_entries(b);
    lemma_draw_modes_hash(p);
    lemma_draw_modes_hash(q);
    let x = p.map_values(tag);
    let y = q.map_values(tag);
    assert forall|k: int| 0 <= k < x.len() && k != i implies #[trigger] x[k] == y[k] by {
        assert(p[k] == q[k]);
    }
    geometry::law_tags_are_distinct(
        a[layer],
        b[layer],
        HatchStylePreset::LeftDiagonal,
        HatchStylePreset::LeftDiagonal,
    );
    lemma_tags_differ(x, y, i);
}

/// Two maps on the same layers that differ in the hatch pattern of one layer have different
/// hashes; no changed override is missed.
pub proof fn law_changed_hatch_style_changes_the_hash(
    a: Map<LayerId, HatchStylePreset>,
    b: Map<LayerId, HatchStylePreset>,
    layer: LayerId,
)
    requires
        a.dom().finite(),
        a.dom() == b.dom(),
        a.dom().contains(layer),
        a[layer] != b[layer],
        forall|other: LayerId|
            a.dom().contains(other) && other != layer ==> #[trigger] a[other] == b[other],
    ensures
        geometry::hatch_styles_hash(layers::ascending_entries(a)) != geometry::hatch_styles_hash(
            layers::ascending_entries(b),
        ),
{
    let tag = |e: (LayerId, HatchStylePreset)| (e.0, e.1.tag() as u64);
    let i = layers::lemma_one_entry_differs(a, b, layer);
    let p = layers::ascending_entries(a);
    let q = layers::ascending_entries(b);
    lemma_hatch_styles_hash(p);
    lemma_hatch_styles_hash(q);
    let x = p.map_values(tag);
    let y = q.map_values(tag);
    assert forall|k: int| 0 <= k < x.len() && k != i implies #[trigger] x[k] == y[k] by {
        assert(p[k] == q[k]);
    }
    geometry::law_tags_are_distinct(
        ClosedShapeDrawMode::Outline,
        ClosedShapeDrawMode::Outline,
        a[layer],
        b[layer],
    );
    lemma_tags_differ(x, y, i);
}

/// Without overrides both hashes are the number that hashes start with.
pub proof fn law_no_overrides_hash_to_the_seed()
    ensures
        geometry::draw_modes_hash(
            layers::ascending_entries(Map::<LayerId, ClosedShapeDrawMode>::empty()),
        ) == HASH_SEED,
        geometry::hatch_styles_hash(
            layers::ascending_entries(Map::<LayerId, HatchStylePreset>::empty()),
        ) == HASH_SEED,
{
    layers::lemma_no_entries::<ClosedShapeDrawMode>();
    layers::lemma_no_entries::<HatchStylePreset>();
}

/// How things look enters the key of a frame in such a way that a single change changes the key:
/// of the overrides of draw modes or of hatch patterns, where their hashes tell them apart, of the
/// general draw mode or pattern, or of the hatch parameters in their ranges.
pub proof fn law_single_change_changes_the_key(
    scene_revision: u64,
    view: ViewBits,
    hidden: Seq<LayerId>,
    modes: Seq<(LayerId, ClosedShapeDrawMode)>,
    other_modes: Seq<(LayerId, ClosedShapeDrawMode)>,
    styles: Seq<(LayerId, HatchStylePreset)>,
    other_styles: Seq<(LayerId, HatchStylePreset)>,
    mode: ClosedShapeDrawMode,
    other_mode: ClosedShapeDrawMode,
    params: HatchParams,
    other_params: HatchParams,
    style: HatchStylePreset,
    other_style: HatchStylePreset,
)
    ensures
        ({
            let key = |
                modes: Seq<(LayerId, ClosedShapeDrawMode)>,
                styles: Seq<(LayerId, HatchStylePreset)>,
                mode: ClosedShapeDrawMode,
                params: HatchParams,
                style: HatchStylePreset,
            |
                geometry::render_cache_key(
                    scene_revision,
                    view,
                    geometry::appearance_hash(hidden, modes, styles, mode, params, style),
                );
            let before = key(modes, styles, mode, params, style);
            &&& geometry::draw_modes_hash(modes) != geometry::draw_modes_hash(other_modes)
                ==> key(other_modes, styles, mode, params, style) != before
            &&& geometry::hatch_styles_hash(styles) != geometry::hatch_styles_hash(other_styles)
                ==> key(modes, other_styles, mode, params, style) != before
            &&& mode != other_mode ==> key(modes, styles, other_mode, params, style) != before
            &&& params.normal_form() != other_params.normal_form() ==> key(
                modes,
                styles,
                mode,
                other_params,
                style,
            ) != before
            &&& style != other_style ==> key(modes, styles, mode, params, other_style) != before
        }),
{
    let a = geometry::layers_hash(hidden);
    let b = geometry::draw_modes_hash(modes);
    let b1 = geometry::draw_modes_hash(other_modes);
    let c = mode.tag() as u64;
    let c1 = other_mode.tag() as u64;
    let d = geometry::hatch_signature(params) as u64;
    let d1 = geometry::hatch_signature(other_params) as u64;
    let e = style.tag() as u64;
    let e1 = other_style.tag() as u64;
    let f = geometry::hatch_styles_hash(styles);
    let f1 = geometry::hatch_styles_hash(other_styles);
    geometry::law_tags_are_distinct(mode, other_mode, style, other_style);
    if geometry::hatch_signature(params) == geometry::hatch_signature(other_params) {
        geometry::law_hatch_signature_is_injective(params, other_params);
    }
    assert(b != b1 ==> a ^ b ^ c ^ d ^ e ^ f != a ^ b1 ^ c ^ d ^ e ^ f) by (bit_vector);
    assert(c != c1 ==> a ^ b ^ c ^ d ^ e ^ f != a ^ b ^ c1 ^ d ^ e ^ f) by (bit_vector);
    assert(d != d1 ==> a ^ b ^ c ^ d ^ e ^ f != a ^ b ^ c ^ d1 ^ e ^ f) by (bit_vector);
    assert(e != e1 ==> a ^ b ^ c ^ d ^ e ^ f != a ^ b ^ c ^ d ^ e1 ^ f) by (bit_vector);
    assert(f != f1 ==> a ^ b ^ c ^ d ^ e ^ f != a ^ b ^ c ^ d ^ e ^ f1) by (bit_vector);
}

} // verus!
