//! Tiles, draw modes and cache keys.

use crate::coords;
use crate::coords::{coord_bits, key_is_nan, keys_equal, HALF_KEY, TWO_KEY};
use crate::layers;
use crate::layers::{LayerMap, LayerSet};
use crate::scene::LayerId;
use vstd::prelude::*;

verus! {

/// Logical number of a tile in the tile grid.
#[derive(Debug, Clone, Copy, PartialEq, Eq, Hash, PartialOrd, Ord, Structural)]
pub struct TileId {
    pub col: i32,
    pub row: i32,
}

/// Everything that decides what one frame shows.
///
/// Lengths and positions enter by the bit patterns of their single-precision values.
#[derive(Debug, Clone, Copy, PartialEq, Eq, Structural)]
pub struct RenderCacheKey {
    pub scene_revision: u64,
    pub pan_x_bits: u32,
    pub pan_y_bits: u32,
    pub zoom_bits: u32,
    pub canvas_origin_x_bits: u32,
    pub canvas_origin_y_bits: u32,
    pub canvas_width_bits: u32,
    pub canvas_height_bits: u32,
    pub viewport_width_bits: u32,
    pub viewport_height_bits: u32,
    pub hidden_layers_hash: u64,
}

impl RenderCacheKey {
    /// The key moved to another pan.
    pub open spec fn with_pan(self, pan_x_bits: u32, pan_y_bits: u32) -> RenderCacheKey {
        RenderCacheKey { pan_x_bits, pan_y_bits, ..self }
    }

    /// Whether the keys are those of two views that a pan leads into each other.
    pub fn differs_only_by_pan(self, other: Self) -> (panned: bool)
        ensures
            panned == (self != other && self.with_pan(other.pan_x_bits, other.pan_y_bits) == other),
    {
        self.scene_revision == other.scene_revision && self.zoom_bits == other.zoom_bits
            && self.canvas_origin_x_bits == other.canvas_origin_x_bits && self.canvas_origin_y_bits
            == other.canvas_origin_y_bits && self.canvas_width_bits == other.canvas_width_bits
            && self.canvas_height_bits == other.canvas_height_bits && self.viewport_width_bits
            == other.viewport_width_bits && self.viewport_height_bits == other.viewport_height_bits
            && self.hidden_layers_hash == other.hidden_layers_hash && (self.pan_x_bits
            != other.pan_x_bits || self.pan_y_bits != other.pan_y_bits)
    }
}

/// Density of the tile grid: the scene is cut into `N x N` tiles.
pub const DEFAULT_TILE_GRID_DIVISIONS: u32 = 8;

pub const MIN_TILE_GRID_DIVISIONS: u32 = 2;

pub const MAX_TILE_GRID_DIVISIONS: u32 = 32;

/// How closed shapes are drawn; open polylines are always drawn as lines.
#[derive(Debug, Clone, Copy, PartialEq, Eq, Hash, Structural)]
pub enum ClosedShapeDrawMode {
    /// The outline alone.
    Outline,
    /// The hatch pattern alone.
    Hatch,
    /// The hatch pattern with the outline on top.
    HatchOutline,
}

impl ClosedShapeDrawMode {
    /// The number by which the mode enters cache keys.
    pub open spec fn tag(self) -> u8 {
        match self {
            ClosedShapeDrawMode::Outline => 0,
            ClosedShapeDrawMode::Hatch => 1,
            ClosedShapeDrawMode::HatchOutline => 2,
        }
    }

    /// The number by which the mode enters cache keys.
    pub fn as_tag(self) -> (tag: u8)
        ensures
            tag == self.tag(),
    {
        match self {
            ClosedShapeDrawMode::Outline => 0,
            ClosedShapeDrawMode::Hatch => 1,
            ClosedShapeDrawMode::HatchOutline => 2,
        }
    }
}

/// The pattern of a hatched area.
#[derive(Debug, Clone, Copy, PartialEq, Eq, Hash, PartialOrd, Ord, Structural)]
pub enum HatchStylePreset {
    LeftDiagonal,
    RightDiagonal,
    Cross,
    Dots,
}

pub const DEFAULT_HATCH_STYLE_PRESET: HatchStylePreset = HatchStylePreset::LeftDiagonal;

impl HatchStylePreset {
    /// The number by which the pattern enters cache keys and vertices.
    pub open spec fn tag(self) -> u8 {
        match self {
            HatchStylePreset::LeftDiagonal => 0,
            HatchStylePreset::RightDiagonal => 1,
            HatchStylePreset::Cross => 2,
            HatchStylePreset::Dots => 3,
        }
    }

    /// The number by which the pattern enters cache keys and vertices.
    pub fn as_tag(self) -> (tag: u8)
        ensures
            tag == self.tag(),
    {
        match self {
            HatchStylePreset::LeftDiagonal => 0,
            HatchStylePreset::RightDiagonal => 1,
            HatchStylePreset::Cross => 2,
            HatchStylePreset::Dots => 3,
        }
    }
}

/// Draw modes, and hatch patterns, are told apart by their numbers.
pub proof fn law_tags_are_distinct(
    a: ClosedShapeDrawMode,
    b: ClosedShapeDrawMode,
    c: HatchStylePreset,
    d: HatchStylePreset,
)
    ensures
        a.tag() == b.tag() ==> a == b,
        c.tag() == d.tag() ==> c == d,
{
}

/// The spacing of the hatch at first, 10, as a coordinate key.
pub const DEFAULT_HATCH_SPACING: i32 = 0x4120_0000;

/// The least spacing that can be set, 4, as a coordinate key.
pub const MIN_HATCH_SPACING: i32 = 0x4080_0000;

/// The greatest spacing that can be set, 32, as a coordinate key.
pub const MAX_HATCH_SPACING: i32 = 0x4200_0000;

/// The line width of the hatch at first, 1.5, as a coordinate key.
pub const DEFAULT_HATCH_WIDTH: i32 = 0x3fc0_0000;

/// The least line width that can be set, 0.5, as a coordinate key.
pub const MIN_HATCH_WIDTH: i32 = 0x3f00_0000;

/// The greatest line width that can be set, 8, as a coordinate key.
pub const MAX_HATCH_WIDTH: i32 = 0x4100_0000;

/// Spacing and line width of the hatch, as coordinate keys.
#[derive(Debug, Clone, Copy, PartialEq, Eq, Structural)]
pub struct HatchParams {
    pub spacing: i32,
    pub width: i32,
}

impl HatchParams {
    /// The parameters with a spacing of two at least and a width from one half to the spacing.
    /// A spacing that is no number counts as two; a width that is no number stays.
    pub open spec fn normal_form(self) -> HatchParams {
        let spacing = if coords::is_nan_key(self.spacing) || self.spacing < TWO_KEY {
            TWO_KEY
        } else {
            self.spacing
        };
        let width = if coords::is_nan_key(self.width) {
            self.width
        } else if self.width < HALF_KEY {
            HALF_KEY
        } else if self.width > spacing {
            spacing
        } else {
            self.width
        };
        HatchParams { spacing, width }
    }

    /// Whether both parameters are the same numbers; what is no number is the same as nothing.
    pub open spec fn matches_params(self, other: HatchParams) -> bool {
        coords::same_number(self.spacing, other.spacing) && coords::same_number(
            self.width,
            other.width,
        )
    }

    /// Whether both parameters are the same numbers; what is no number is the same as nothing.
    pub fn same_as(self, other: HatchParams) -> (same: bool)
        ensures
            same == self.matches_params(other),
    {
        keys_equal(self.spacing, other.spacing) && keys_equal(self.width, other.width)
    }

    /// The parameters brought into their ranges.
    pub fn normalized(self) -> (params: Self)
        ensures
            params == self.normal_form(),
    {
        let spacing: i32 = if key_is_nan(self.spacing) || self.spacing < TWO_KEY {
            TWO_KEY
        } else {
            self.spacing
        };
        let width: i32 = if key_is_nan(self.width) {
            self.width
        } else if self.width < HALF_KEY {
            HALF_KEY
        } else if self.width > spacing {
            spacing
        } else {
            self.width
        };
        HatchParams { spacing, width }
    }
}

/// Normalizing twice changes nothing more.
pub proof fn law_normalization_is_idempotent(params: HatchParams)
    ensures
        params.normal_form().normal_form() == params.normal_form(),
{
}

/// The signature of hatch parameters: the bit patterns of the normalized spacing and width, one
/// above the other.
pub open spec fn hatch_signature(params: HatchParams) -> int {
    coords::bits_of_key(params.normal_form().spacing) * 0x1_0000_0000 + coords::bits_of_key(
        params.normal_form().width,
    )
}

/// The signature by which hatch parameters enter cache keys.
pub fn build_hatch_signature(params: HatchParams) -> (signature: u64)
    ensures
        signature == hatch_signature(params),
{
    let params = params.normalized();
    let spacing: u64 = coord_bits(params.spacing) as u64;
    let width: u64 = coord_bits(params.width) as u64;
    assert(((spacing << 32) | width) == spacing * 0x1_0000_0000 + width) by (bit_vector)
        requires
            spacing <= 0xffff_ffff,
            width <= 0xffff_ffff,
    ;
    (spacing << 32) | width
}

/// Parameters with the same signature are the same after normalization.
pub proof fn law_hatch_signature_is_injective(a: HatchParams, b: HatchParams)
    requires
        hatch_signature(a) == hatch_signature(b),
    ensures
        a.normal_form() == b.normal_form(),
{
    coords::law_key_round_trip(a.normal_form().spacing);
    coords::law_key_round_trip(b.normal_form().spacing);
    coords::law_key_round_trip(a.normal_form().width);
    coords::law_key_round_trip(b.normal_form().width);
}

/// The signature by which a hatch pattern enters cache keys.
pub fn build_hatch_style_signature(style: HatchStylePreset) -> (signature: u64)
    ensures
        signature == style.tag(),
{
    style.as_tag() as u64
}

/// Where the layer hashes start.
pub const HASH_SEED: u64 = 0xcbf2_9ce4_8422_2325;

/// What the layer hashes multiply by.
pub const HASH_PRIME: u64 = 0x1000_0000_01b3;

/// One more number mixed into a hash.
pub open spec fn mixed(hash: u64, value: u64) -> u64 {
    (hash ^ value).wrapping_mul(HASH_PRIME)
}

fn mix(hash: u64, value: u64) -> (next: u64)
    ensures
        next == mixed(hash, value),
{
    (hash ^ value).wrapping_mul(HASH_PRIME)
}

/// One more layer mixed into a hash.
pub open spec fn mixed_layer(hash: u64, layer: LayerId) -> u64 {
    mixed(mixed(hash, layer.layer as u64), layer.datatype as u64)
}

/// The hash of layers in ascending order.
pub open spec fn layers_hash(layers: Seq<LayerId>) -> u64
    decreases layers.len(),
{
    if layers.len() == 0 {
        HASH_SEED
    } else {
        mixed_layer(layers_hash(layers.drop_last()), layers.last())
    }
}

/// The hash of draw modes by ascending layer.
pub open spec fn draw_modes_hash(entries: Seq<(LayerId, ClosedShapeDrawMode)>) -> u64
    decreases entries.len(),
{
    if entries.len() == 0 {
        HASH_SEED
    } else {
        mixed(
            mixed_layer(draw_modes_hash(entries.drop_last()), entries.last().0),
            entries.last().1.tag() as u64,
        )
    }
}

/// The hash of hatch patterns by ascending layer.
pub open spec fn hatch_styles_hash(entries: Seq<(LayerId, HatchStylePreset)>) -> u64
    decreases entries.len(),
{
    if entries.len() == 0 {
        HASH_SEED
    } else {
        mixed(
            mixed_layer(hatch_styles_hash(entries.drop_last()), entries.last().0),
            entries.last().1.tag() as u64,
        )
    }
}

/// A hash of the layers that are hidden.
pub fn hidden_layers_hash_value(hidden_layers: &LayerSet) -> (hash: u64)
    ensures
        hash == layers_hash(layers::ascending(hidden_layers@)),
{
    let layers = hidden_layers.ids();
    let mut hash: u64 = HASH_SEED;
    let mut i: usize = 0;
    while i < layers.len()
        invariant
            i <= layers@.len(),
            hash == layers_hash(layers@.take(i as int)),
        decreases layers@.len() - i,
    {
        assert(layers@.take(i + 1).drop_last() =~= layers@.take(i as int));
        hash = mix(mix(hash, layers[i].layer as u64), layers[i].datatype as u64);
        i += 1;
    }
    assert(layers@.take(i as int) =~= layers@);
    hash
}

/// A hash of the draw modes that single layers have.
pub fn layer_draw_mode_hash_value(layer_draw_modes: &LayerMap<ClosedShapeDrawMode>) -> (hash: u64)
    ensures
        hash == draw_modes_hash(layers::ascending_entries(layer_draw_modes@)),
{
    let entries = layer_draw_modes.entries();
    let mut hash: u64 = HASH_SEED;
    let mut i: usize = 0;
    while i < entries.len()
        invariant
            i <= entries@.len(),
            hash == draw_modes_hash(entries@.take(i as int)),
        decreases entries@.len() - i,
    {
        assert(entries@.take(i + 1).drop_last() =~= entries@.take(i as int));
        let layer = entries[i].0;
        hash = mix(mix(hash, layer.layer as u64), layer.datatype as u64);
        hash = mix(hash, entries[i].1.as_tag() as u64);
        i += 1;
    }
    assert(entries@.take(i as int) =~= entries@);
    hash
}

/// A hash of the hatch patterns that single layers have.
pub fn layer_hatch_style_hash_value(layer_hatch_styles: &LayerMap<HatchStylePreset>) -> (hash: u64)
    ensures
        hash == hatch_styles_hash(layers::ascending_entries(layer_hatch_styles@)),
{
    let entries = layer_hatch_styles.entries();
    let mut hash: u64 = HASH_SEED;
    let mut i: usize = 0;
    while i < entries.len()
        invariant
            i <= entries@.len(),
            hash == hatch_styles_hash(entries@.take(i as int)),
        decreases entries@.len() - i,
    {
        assert(entries@.take(i + 1).drop_last() =~= entries@.take(i as int));
        let layer = entries[i].0;
        hash = mix(mix(hash, layer.layer as u64), layer.datatype as u64);
        hash = mix(hash, build_hatch_style_signature(entries[i].1));
        i += 1;
    }
    assert(entries@.take(i as int) =~= entries@);
    hash
}

/// The draw mode of a layer: its own, or the default.
pub fn effective_draw_mode(
    layer: LayerId,
    default: ClosedShapeDrawMode,
    layer_draw_modes: &LayerMap<ClosedShapeDrawMode>,
) -> (mode: ClosedShapeDrawMode)
    ensures
        mode == (if layer_draw_modes@.dom().contains(layer) {
            layer_draw_modes@[layer]
        } else {
            default
        }),
{
    match layer_draw_modes.get(layer) {
        Some(mode) => mode,
        None => default,
    }
}

/// The hatch pattern of a layer: its own, or the default.
pub fn effective_hatch_style(
    layer: LayerId,
    default: HatchStylePreset,
    layer_hatch_styles: &LayerMap<HatchStylePreset>,
) -> (style: HatchStylePreset)
    ensures
        style == (if layer_hatch_styles@.dom().contains(layer) {
            layer_hatch_styles@[layer]
        } else {
            default
        }),
{
    match layer_hatch_styles.get(layer) {
        Some(style) => style,
        None => default,
    }
}

/// The position and size of the view, by the bit patterns of the values.
#[derive(Debug, Clone, Copy, PartialEq, Eq, Structural)]
pub struct ViewBits {
    pub pan_x: u32,
    pub pan_y: u32,
    pub zoom: u32,
    pub canvas_origin_x: u32,
    pub canvas_origin_y: u32,
    pub canvas_width: u32,
    pub canvas_height: u32,
    pub viewport_width: u32,
    pub viewport_height: u32,
}

/// The part of the key that is made of hidden layers, draw modes and hatches.
pub open spec fn appearance_hash(
    hidden_layers: Seq<LayerId>,
    layer_draw_modes: Seq<(LayerId, ClosedShapeDrawMode)>,
    layer_hatch_styles: Seq<(LayerId, HatchStylePreset)>,
    draw_mode: ClosedShapeDrawMode,
    hatch_params: HatchParams,
    hatch_style: HatchStylePreset,
) -> u64 {
    layers_hash(hidden_layers) ^ draw_modes_hash(layer_draw_modes) ^ (draw_mode.tag() as u64) ^ (
    hatch_signature(hatch_params) as u64) ^ (hatch_style.tag() as u64) ^ hatch_styles_hash(
        layer_hatch_styles,
    )
}

/// The key of one frame.
pub open spec fn render_cache_key(
    scene_revision: u64,
    view: ViewBits,
    appearance: u64,
) -> RenderCacheKey {
    RenderCacheKey {
        scene_revision,
        pan_x_bits: view.pan_x,
        pan_y_bits: view.pan_y,
        zoom_bits: view.zoom,
        canvas_origin_x_bits: view.canvas_origin_x,
        canvas_origin_y_bits: view.canvas_origin_y,
        canvas_width_bits: view.canvas_width,
        canvas_height_bits: view.canvas_height,
        viewport_width_bits: view.viewport_width,
        viewport_height_bits: view.viewport_height,
        hidden_layers_hash: appearance,
    }
}

/// The key of one frame without hatch patterns of single layers.
pub fn build_render_cache_key(
    scene_revision: u64,
    view: ViewBits,
    hidden_layers: &LayerSet,
    layer_draw_modes: &LayerMap<ClosedShapeDrawMode>,
    draw_mode: ClosedShapeDrawMode,
    hatch_params: HatchParams,
) -> (key: RenderCacheKey)
    ensures
        key == render_cache_key(
            scene_revision,
            view,
            appearance_hash(
                layers::ascending(hidden_layers@),
                layers::ascending_entries(layer_draw_modes@),
                Seq::empty(),
                draw_mode,
                hatch_params,
                DEFAULT_HATCH_STYLE_PRESET,
            ),
        ),
{
    let no_styles: LayerMap<HatchStylePreset> = LayerMap::new();
    proof {
        layers::lemma_no_entries::<HatchStylePreset>();
    }
    build_render_cache_key_with_hatch_styles(
        scene_revision,
        view,
        hidden_layers,
        layer_draw_modes,
        &no_styles,
        draw_mode,
        hatch_params,
        DEFAULT_HATCH_STYLE_PRESET,
    )
}

/// The key of one frame; frames with equal keys are taken to show the same.
pub fn build_render_cache_key_with_hatch_styles(
    scene_revision: u64,
    view: ViewBits,
    hidden_layers: &LayerSet,
    layer_draw_modes: &LayerMap<ClosedShapeDrawMode>,
    layer_hatch_styles: &LayerMap<HatchStylePreset>,
    draw_mode: ClosedShapeDrawMode,
    hatch_params: HatchParams,
    hatch_style: HatchStylePreset,
) -> (key: RenderCacheKey)
    ensures
        key == render_cache_key(
            scene_revision,
            view,
            appearance_hash(
                layers::ascending(hidden_layers@),
                layers::ascending_entries(layer_draw_modes@),
                layers::ascending_entries(layer_hatch_styles@),
                draw_mode,
                hatch_params,
                hatch_style,
            ),
        ),
{
    let appearance: u64 = hidden_layers_hash_value(hidden_layers) ^ layer_draw_mode_hash_value(
        layer_draw_modes,
    ) ^ (draw_mode.as_tag() as u64) ^ build_hatch_signature(hatch_params)
        ^ build_hatch_style_signature(hatch_style) ^ layer_hatch_style_hash_value(
        layer_hatch_styles,
    );
    RenderCacheKey {
        scene_revision,
        pan_x_bits: view.pan_x,
        pan_y_bits: view.pan_y,
        zoom_bits: view.zoom,
        canvas_origin_x_bits: view.canvas_origin_x,
        canvas_origin_y_bits: view.canvas_origin_y,
        canvas_width_bits: view.canvas_width,
        canvas_height_bits: view.canvas_height,
        viewport_width_bits: view.viewport_width,
        viewport_height_bits: view.viewport_height,
        hidden_layers_hash: appearance,
    }
}

/// A pan changes the key in the pan alone: the two keys differ only by pan.
pub proof fn law_pan_changes_only_the_pan(
    scene_revision: u64,
    view: ViewBits,
    pan_x: u32,
    pan_y: u32,
    appearance: u64,
)
    requires
        pan_x != view.pan_x || pan_y != view.pan_y,
    ensures
        ({
            let before = render_cache_key(scene_revision, view, appearance);
            let after = render_cache_key(
                scene_revision,
                (ViewBits { pan_x, pan_y, ..view }),
                appearance,
            );
            before != after && before.with_pan(after.pan_x_bits, after.pan_y_bits) == after
        }),
{
}

/// The nearest density that the grid supports.
pub open spec fn clamped_divisions(divisions: u32) -> u32 {
    if divisions < MIN_TILE_GRID_DIVISIONS {
        MIN_TILE_GRID_DIVISIONS
    } else if divisions > MAX_TILE_GRID_DIVISIONS {
        MAX_TILE_GRID_DIVISIONS
    } else {
        divisions
    }
}

/// Brings a grid density into the range that the grid supports.
pub fn clamp_tile_grid_divisions(divisions: u32) -> (clamped: i32)
    ensures
        clamped == clamped_divisions(divisions),
{
    if divisions < MIN_TILE_GRID_DIVISIONS {
        MIN_TILE_GRID_DIVISIONS as i32
    } else if divisions > MAX_TILE_GRID_DIVISIONS {
        MAX_TILE_GRID_DIVISIONS as i32
    } else {
        divisions as i32
    }
}

/// The index of a shape as the buckets hold it.
pub fn encode_shape_index(index: usize) -> (encoded: u32)
    requires
        index <= u32::MAX,
    ensures
        encoded == index,
{
    index as u32
}

/// The colour of a layer that has none of its own: three bytes of a mixed seed, brightened.
pub open spec fn mixed_layer_rgb(layer: LayerId) -> [u8; 3] {
    let seed = layer.layer.wrapping_mul(1_103_515_245) ^ layer.datatype.wrapping_mul(12_345);
    [
        ((seed & 0xff) as u8).saturating_add(40),
        (((seed >> 8) & 0xff) as u8).saturating_add(40),
        (((seed >> 16) & 0xff) as u8).saturating_add(40),
    ]
}

/// The colour of a layer: fixed for three well-known layers, else mixed from its numbers.
pub open spec fn layer_rgb(layer: LayerId) -> Seq<u8> {
    if layer == (LayerId { layer: 1, datatype: 1 }) {
        seq![80u8, 220u8, 120u8]
    } else if layer == (LayerId { layer: 1, datatype: 2 }) {
        seq![120u8, 150u8, 255u8]
    } else if layer == (LayerId { layer: 70, datatype: 31 }) {
        seq![250u8, 180u8, 70u8]
    } else {
        mixed_layer_rgb(layer)@
    }
}

/// The colour of a layer: fixed for three well-known layers, else mixed from its numbers.
pub fn base_layer_rgb(layer: LayerId) -> (rgb: [u8; 3])
    ensures
        rgb@ == layer_rgb(layer),
{
    if layer.layer == 1 && layer.datatype == 1 {
        [80, 220, 120]
    } else if layer.layer == 1 && layer.datatype == 2 {
        [120, 150, 255]
    } else if layer.layer == 70 && layer.datatype == 31 {
        [250, 180, 70]
    } else {
        let seed: u32 = layer.layer.wrapping_mul(1_103_515_245) ^ layer.datatype.wrapping_mul(
            12_345,
        );
        [
            ((seed & 0xff) as u8).saturating_add(40),
            (((seed >> 8) & 0xff) as u8).saturating_add(40),
            (((seed >> 16) & 0xff) as u8).saturating_add(40),
        ]
    }
}

} // verus!
