//! What the controls say and what the user asks for.

use crate::coords;
use crate::coords::key_is_nan;
use crate::layers::{LayerMap, LayerSet};
use crate::renderer::geometry::{
    ClosedShapeDrawMode, HatchParams, HatchStylePreset, MAX_HATCH_SPACING, MAX_HATCH_WIDTH,
    MIN_HATCH_SPACING, MIN_HATCH_WIDTH,
};
use crate::renderer::{
    MAX_LAYER_BYPASS_ENTRY_THRESHOLD, MAX_LAYER_BYPASS_WORK_THRESHOLD,
    MAX_PROGRESSIVE_BYPASS_THRESHOLD, MAX_TILE_CACHE_CAPACITY, MIN_TILE_CACHE_CAPACITY,
};
use crate::scene::{LayerId, Point};
use vstd::prelude::*;

verus! {

/// What a way of drawing is called.
pub open spec fn mode_name(mode: ClosedShapeDrawMode) -> Seq<char> {
    match mode {
        ClosedShapeDrawMode::Outline => "Outline"@,
        ClosedShapeDrawMode::Hatch => "Hatch"@,
        ClosedShapeDrawMode::HatchOutline => "Hatch+Outline"@,
    }
}

/// What a way of drawing is called.
pub fn closed_shape_draw_mode_label(mode: ClosedShapeDrawMode) -> (label: &'static str)
    ensures
        label@ == mode_name(mode),
{
    match mode {
        ClosedShapeDrawMode::Outline => "Outline",
        ClosedShapeDrawMode::Hatch => "Hatch",
        ClosedShapeDrawMode::HatchOutline => "Hatch+Outline",
    }
}

/// What a pattern is called.
pub open spec fn style_name(style: HatchStylePreset) -> Seq<char> {
    match style {
        HatchStylePreset::LeftDiagonal => "LeftDiag (\\)"@,
        HatchStylePreset::RightDiagonal => "RightDiag (//)"@,
        HatchStylePreset::Cross => "Cross (XX)"@,
        HatchStylePreset::Dots => "Dots (..)"@,
    }
}

/// What a pattern is called.
pub fn hatch_style_label(style: HatchStylePreset) -> (label: &'static str)
    ensures
        label@ == style_name(style),
{
    match style {
        HatchStylePreset::LeftDiagonal => "LeftDiag (\\)",
        HatchStylePreset::RightDiagonal => "RightDiag (//)",
        HatchStylePreset::Cross => "Cross (XX)",
        HatchStylePreset::Dots => "Dots (..)",
    }
}

/// What the user asked for in a frame; distances, sizes and factors are coordinate keys.
#[derive(Debug)]
pub struct UiAction {
    pub selected_view: Option<usize>,
    pub request_fit: bool,
    pub canvas_origin: Point,
    pub canvas_size: Point,
    pub pan_delta: Point,
    /// The factor of a zoom, and the point that stays in its place.
    pub zoom: Option<(i32, Point)>,
    pub hidden_layers: Option<LayerSet>,
    pub layer_draw_modes: Option<LayerMap<ClosedShapeDrawMode>>,
    pub layer_hatch_styles: Option<LayerMap<HatchStylePreset>>,
    pub tile_grid_divisions: Option<u32>,
    pub draw_mode: Option<ClosedShapeDrawMode>,
    pub hatch_params: Option<HatchParams>,
    pub min_hierarchy_level: Option<u32>,
    pub max_hierarchy_level: Option<u32>,
    pub tile_cache_capacity: Option<usize>,
    pub progressive_bypass_threshold: Option<usize>,
    pub layer_bypass_entry_threshold: Option<usize>,
    pub layer_bypass_work_threshold: Option<usize>,
    pub request_open_file: bool,
    pub request_reload_layout: bool,
}

/// An action that asks for nothing.
pub open spec fn no_action() -> UiAction {
    UiAction {
        selected_view: None,
        request_fit: false,
        canvas_origin: Point { x: 0, y: 0 },
        canvas_size: Point { x: 0, y: 0 },
        pan_delta: Point { x: 0, y: 0 },
        zoom: None,
        hidden_layers: None,
        layer_draw_modes: None,
        layer_hatch_styles: None,
        tile_grid_divisions: None,
        draw_mode: None,
        hatch_params: None,
        min_hierarchy_level: None,
        max_hierarchy_level: None,
        tile_cache_capacity: None,
        progressive_bypass_threshold: None,
        layer_bypass_entry_threshold: None,
        layer_bypass_work_threshold: None,
        request_open_file: false,
        request_reload_layout: false,
    }
}

impl Default for UiAction {
    fn default() -> (action: Self)
        ensures
            action == no_action(),
    {
        UiAction {
            selected_view: None,
            request_fit: false,
            canvas_origin: Point { x: 0, y: 0 },
            canvas_size: Point { x: 0, y: 0 },
            pan_delta: Point { x: 0, y: 0 },
            zoom: None,
            hidden_layers: None,
            layer_draw_modes: None,
            layer_hatch_styles: None,
            tile_grid_divisions: None,
            draw_mode: None,
            hatch_params: None,
            min_hierarchy_level: None,
            max_hierarchy_level: None,
            tile_cache_capacity: None,
            progressive_bypass_threshold: None,
            layer_bypass_entry_threshold: None,
            layer_bypass_work_threshold: None,
            request_open_file: false,
            request_reload_layout: false,
        }
    }
}

/// The range of levels that the two sliders show.
#[derive(Debug, Clone, Copy, PartialEq, Eq, Structural)]
pub struct LevelSliders {
    pub min_level: u32,
    pub max_level: u32,
}

/// The lesser of two levels.
pub open spec fn lesser(a: u32, b: u32) -> u32 {
    if a <= b {
        a
    } else {
        b
    }
}

/// The greater of two levels.
pub open spec fn greater(a: u32, b: u32) -> u32 {
    if a >= b {
        a
    } else {
        b
    }
}

fn lesser_of(a: u32, b: u32) -> (level: u32)
    ensures
        level == lesser(a, b),
{
    if a <= b {
        a
    } else {
        b
    }
}

fn greater_of(a: u32, b: u32) -> (level: u32)
    ensures
        level == greater(a, b),
{
    if a >= b {
        a
    } else {
        b
    }
}

impl LevelSliders {
    /// Where the sliders stand for a range: no deeper than the deepest level, and the first no
    /// deeper than the last.
    pub fn new(min_level: u32, max_level: u32, deepest: u32) -> (sliders: Self)
        ensures
            sliders.max_level == lesser(max_level, deepest),
            sliders.min_level == lesser(min_level, sliders.max_level),
    {
        let last: u32 = lesser_of(max_level, deepest);
        LevelSliders { min_level: lesser_of(lesser_of(min_level, deepest), last), max_level: last }
    }

    /// Moves the first slider; the last one gives way.
    pub fn move_min(&mut self, level: u32)
        ensures
            *final(self) == (LevelSliders {
                min_level: level,
                max_level: greater(old(self).max_level, level),
            }),
    {
        self.min_level = level;
        self.max_level = greater_of(self.max_level, level);
    }

    /// Moves the last slider; the first one gives way.
    pub fn move_max(&mut self, level: u32)
        ensures
            *final(self) == (LevelSliders {
                min_level: lesser(old(self).min_level, level),
                max_level: level,
            }),
    {
        self.max_level = level;
        self.min_level = lesser_of(self.min_level, level);
    }

    /// What the sliders ask for: the ends of the range that differ from those shown.
    pub fn changes(&self, min_level: u32, max_level: u32) -> (asked: (Option<u32>, Option<u32>))
        ensures
            asked.0 == (if self.min_level != min_level {
                Some(self.min_level)
            } else {
                None
            }),
            asked.1 == (if self.max_level != max_level {
                Some(self.max_level)
            } else {
                None
            }),
    {
        (
            if self.min_level != min_level {
                Some(self.min_level)
            } else {
                None
            },
            if self.max_level != max_level {
                Some(self.max_level)
            } else {
                None
            },
        )
    }
}

/// The numbers that the other sliders show.
#[derive(Debug, Clone, Copy, PartialEq, Eq, Structural)]
pub struct SliderValues {
    pub hatch_params: HatchParams,
    pub tile_cache_capacity: u32,
    pub progressive_bypass_threshold: u32,
    pub layer_bypass_entry_threshold: u32,
    pub layer_bypass_work_threshold: u32,
}

/// The number, kept between two others.
pub open spec fn kept_between(n: usize, low: usize, high: usize) -> int {
    if n < low {
        low as int
    } else if n > high {
        high as int
    } else {
        n as int
    }
}

fn keep_between(n: usize, low: usize, high: usize) -> (kept: u32)
    requires
        low <= high <= u32::MAX,
    ensures
        kept == kept_between(n, low, high),
{
    if n < low {
        low as u32
    } else if n > high {
        high as u32
    } else {
        n as u32
    }
}

/// The coordinate key, kept between two others; what is no number stays as it is.
pub open spec fn key_between(key: i32, low: i32, high: i32) -> i32 {
    if coords::is_nan_key(key) {
        key
    } else if key < low {
        low
    } else if key > high {
        high
    } else {
        key
    }
}

fn keep_key_between(key: i32, low: i32, high: i32) -> (kept: i32)
    ensures
        kept == key_between(key, low, high),
{
    if key_is_nan(key) {
        key
    } else if key < low {
        low
    } else if key > high {
        high
    } else {
        key
    }
}

/// The numbers that the sliders show, each within the limits of its slider.
pub fn slider_values(
    hatch_params: HatchParams,
    tile_cache_capacity: usize,
    progressive_bypass_threshold: usize,
    layer_bypass_entry_threshold: usize,
    layer_bypass_work_threshold: usize,
) -> (values: SliderValues)
    ensures
        values.hatch_params == (HatchParams {
            spacing: key_between(hatch_params.spacing, MIN_HATCH_SPACING, MAX_HATCH_SPACING),
            width: key_between(hatch_params.width, MIN_HATCH_WIDTH, MAX_HATCH_WIDTH),
        }),
        values.tile_cache_capacity == kept_between(
            tile_cache_capacity,
            MIN_TILE_CACHE_CAPACITY,
            MAX_TILE_CACHE_CAPACITY,
        ),
        values.progressive_bypass_threshold == kept_between(
            progressive_bypass_threshold,
            0,
            MAX_PROGRESSIVE_BYPASS_THRESHOLD,
        ),
        values.layer_bypass_entry_threshold == kept_between(
            layer_bypass_entry_threshold,
            0,
            MAX_LAYER_BYPASS_ENTRY_THRESHOLD,
        ),
        values.layer_bypass_work_threshold == kept_between(
            layer_bypass_work_threshold,
            0,
            MAX_LAYER_BYPASS_WORK_THRESHOLD,
        ),
{
    SliderValues {
        hatch_params: HatchParams {
            spacing: keep_key_between(hatch_params.spacing, MIN_HATCH_SPACING, MAX_HATCH_SPACING),
            width: keep_key_between(hatch_params.width, MIN_HATCH_WIDTH, MAX_HATCH_WIDTH),
        },
        tile_cache_capacity: keep_between(
            tile_cache_capacity,
            MIN_TILE_CACHE_CAPACITY,
            MAX_TILE_CACHE_CAPACITY,
        ),
        progressive_bypass_threshold: keep_between(
            progressive_bypass_threshold,
            0,
            MAX_PROGRESSIVE_BYPASS_THRESHOLD,
        ),
        layer_bypass_entry_threshold: keep_between(
            layer_bypass_entry_threshold,
            0,
            MAX_LAYER_BYPASS_ENTRY_THRESHOLD,
        ),
        layer_bypass_work_threshold: keep_between(
            layer_bypass_work_threshold,
            0,
            MAX_LAYER_BYPASS_WORK_THRESHOLD,
        ),
    }
}

/// Shows or hides a layer.
pub fn set_layer_visible(hidden_layers: &mut LayerSet, layer: LayerId, visible: bool)
    ensures
        final(hidden_layers)@ == (if visible {
            old(hidden_layers)@.remove(layer)
        } else {
            old(hidden_layers)@.insert(layer)
        }),
{
    if visible {
        hidden_layers.remove(layer);
    } else {
        hidden_layers.insert(layer);
    }
}

/// How a layer is drawn: in its own way, or in the way of all.
pub open spec fn mode_of(
    modes: Map<LayerId, ClosedShapeDrawMode>,
    layer: LayerId,
    draw_mode: ClosedShapeDrawMode,
) -> ClosedShapeDrawMode {
    if modes.dom().contains(layer) {
        modes[layer]
    } else {
        draw_mode
    }
}

/// Gives a layer the way of drawing that was picked for it; tells whether that changes anything. A
/// layer that is drawn in the way of all has no way of its own.
pub fn pick_layer_draw_mode(
    layer_draw_modes: &mut LayerMap<ClosedShapeDrawMode>,
    layer: LayerId,
    picked: ClosedShapeDrawMode,
    draw_mode: ClosedShapeDrawMode,
) -> (changed: bool)
    ensures
        changed == (picked != mode_of(old(layer_draw_modes)@, layer, draw_mode)),
        final(layer_draw_modes)@ == (if !changed {
            old(layer_draw_modes)@
        } else if picked == draw_mode {
            old(layer_draw_modes)@.remove(layer)
        } else {
            old(layer_draw_modes)@.insert(layer, picked)
        }),
        mode_of(final(layer_draw_modes)@, layer, draw_mode) == picked,
{
    let current = match layer_draw_modes.get(layer) {
        Some(mode) => mode,
        None => draw_mode,
    };
    if picked == current {
        return false;
    }
    if picked == draw_mode {
        layer_draw_modes.remove(layer);
    } else {
        layer_draw_modes.insert(layer, picked);
    }
    true
}

/// The pattern of a layer: its own, or the leftward one.
pub open spec fn style_of(
    styles: Map<LayerId, HatchStylePreset>,
    layer: LayerId,
) -> HatchStylePreset {
    if styles.dom().contains(layer) {
        styles[layer]
    } else {
        HatchStylePreset::LeftDiagonal
    }
}

/// Gives a layer the pattern that was picked for it; tells whether that changes anything.
pub fn pick_layer_hatch_style(
    layer_hatch_styles: &mut LayerMap<HatchStylePreset>,
    layer: LayerId,
    picked: HatchStylePreset,
) -> (changed: bool)
    ensures
        changed == (picked != style_of(old(layer_hatch_styles)@, layer)),
        final(layer_hatch_styles)@ == (if changed {
            old(layer_hatch_styles)@.insert(layer, picked)
        } else {
            old(layer_hatch_styles)@
        }),
        style_of(final(layer_hatch_styles)@, layer) == picked,
{
    let current = match layer_hatch_styles.get(layer) {
        Some(style) => style,
        None => HatchStylePreset::LeftDiagonal,
    };
    if picked == current {
        return false;
    }
    layer_hatch_styles.insert(layer, picked);
    true
}

/// Whether the pattern of a layer can be picked: where areas are hatched.
pub fn hatch_style_is_enabled(mode: ClosedShapeDrawMode) -> (enabled: bool)
    ensures
        enabled == (mode != ClosedShapeDrawMode::Outline),
{
    mode != ClosedShapeDrawMode::Outline
}

/// However the sliders are moved, the first is never deeper than the last, and neither deeper
/// than the deepest level as long as no slider is moved beyond it.
pub proof fn law_sliders_stay_in_order(sliders: LevelSliders, level: u32, deepest: u32)
    requires
        sliders.min_level <= sliders.max_level <= deepest,
        level <= deepest,
    ensures
        level <= greater(sliders.max_level, level) <= deepest,
        lesser(sliders.min_level, level) <= level,
{
}

} // verus!
