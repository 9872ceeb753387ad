//! What holds of zoom, windows of samples, sliders, and first views.

use crate::app;
use crate::app::{WindowEventKind, WindowReaction};
use crate::camera;
use crate::camera::{Camera2D, CameraModel};
use crate::coords;
use crate::layers::{LayerMap, LayerSet};
use crate::perf;
use crate::perf::RenderStatsHistory;
use crate::persistence::{
    PersistedClosedShapeDrawMode, PersistedHatchStylePreset, PersistedLayerId,
};
use crate::renderer::geometry::{ClosedShapeDrawMode, HatchParams, HatchStylePreset};
use crate::renderer::stats::RenderDebugStats;
use crate::scene;
use crate::scene::{Bounds, LayerId, Point};
use crate::ui;
use crate::ui::{LevelSliders, SliderValues};
use vstd::prelude::*;

verus! {

/// A zoom within the limits is taken as it is; one beyond a limit becomes that limit.
pub proof fn law_zoom_is_taken(zoom: i32)
    ensures
        ({
            let low: i32 = 0x3586_37bd;
            let high: i32 = 0x461c_4000;
            &&& coords::at_most(low, zoom) && coords::at_most(zoom, high) ==> camera::clamped_zoom(
                zoom,
            ) == zoom
            &&& coords::exceeds(low, zoom) ==> camera::clamped_zoom(zoom) == low
            &&& coords::exceeds(zoom, high) ==> camera::clamped_zoom(zoom) == high
            &&& coords::is_nan_key(zoom) ==> camera::clamped_zoom(zoom) == zoom
        }),
{
}

/// A sample enters a window last; the others keep their order, and only the oldest leaves, where
/// the window is full.
pub proof fn law_samples_enter_last(samples: Seq<u64>, capacity: usize, value: u64, k: int)
    requires
        samples.len() <= capacity,
        capacity > 0,
    ensures
        ({
            let after = perf::slid(samples, capacity, value);
            let gone: int = if samples.len() == capacity {
                1
            } else {
                0
            };
            &&& after.len() == samples.len() + 1 - gone
            &&& after.last() == value
            &&& 0 <= k < after.len() - 1 ==> after[k] == samples[k + gone]
        }),
{
}

/// Sums of samples add up, and a single one is its own sum.
pub proof fn law_totals_add_up(a: Seq<u64>, b: Seq<u64>, value: u64)
    ensures
        perf::total(a + b) == perf::total(a) + perf::total(b),
        perf::total(seq![value]) == value,
    decreases b.len(),
{
    let one = seq![value];
    assert(one.drop_last() =~= Seq::empty());
    reveal_with_fuel(perf::total, 2);
    if b.len() == 0 {
        assert(a + b =~= a);
    } else {
        law_totals_add_up(a, b.drop_last(), value);
        assert((a + b).drop_last() =~= a + b.drop_last());
    }
}

/// Numbers are kept between two others: those between them stay, and the rest goes to the nearer
/// one. A coordinate that is no number stays as it is.
pub proof fn law_kept_between(n: usize, low: usize, high: usize, key: i32, first: i32, last: i32)
    requires
        low <= high,
        first <= last,
    ensures
        low <= n <= high ==> ui::kept_between(n, low, high) == n,
        n < low ==> ui::kept_between(n, low, high) == low,
        n > high ==> ui::kept_between(n, low, high) == high,
        coords::is_nan_key(key) || first <= key <= last ==> ui::key_between(key, first, last)
            == key,
        !coords::is_nan_key(key) && key < first ==> ui::key_between(key, first, last) == first,
        !coords::is_nan_key(key) && key > last ==> ui::key_between(key, first, last) == last,
{
}

/// Of two levels one is the lesser and the other the greater.
pub proof fn law_lesser_and_greater(a: u32, b: u32)
    ensures
        ui::lesser(a, b) <= a && ui::lesser(a, b) <= b,
        ui::greater(a, b) >= a && ui::greater(a, b) >= b,
        ui::lesser(a, b) + ui::greater(a, b) == a + b,
{
}

/// A layer without a way of its own is drawn in the way of all, and has the leftward pattern.
pub proof fn law_layers_without_their_own_way(
    modes: Map<LayerId, ClosedShapeDrawMode>,
    styles: Map<LayerId, HatchStylePreset>,
    layer: LayerId,
    mode: ClosedShapeDrawMode,
    own: ClosedShapeDrawMode,
    style: HatchStylePreset,
)
    ensures
        !modes.dom().contains(layer) ==> ui::mode_of(modes, layer, mode) == mode,
        ui::mode_of(modes.insert(layer, own), layer, mode) == own,
        !styles.dom().contains(layer) ==> ui::style_of(styles, layer)
            == HatchStylePreset::LeftDiagonal,
        ui::style_of(styles.insert(layer, style), layer) == style,
{
}

/// Nothing is remembered as anything else: layers with both their numbers, ways of drawing and
/// patterns as what they are.
pub proof fn law_remembered_as_what_it_is(
    layer: PersistedLayerId,
    mode: PersistedClosedShapeDrawMode,
    style: PersistedHatchStylePreset,
)
    ensures
        layer.runtime().layer == layer.layer && layer.runtime().datatype == layer.datatype,
        mode.runtime() == ClosedShapeDrawMode::Outline <==> mode
            == PersistedClosedShapeDrawMode::Outline,
        mode.runtime() == ClosedShapeDrawMode::Hatch <==> mode
            == PersistedClosedShapeDrawMode::Hatch,
        mode.runtime() == ClosedShapeDrawMode::HatchOutline <==> mode
            == PersistedClosedShapeDrawMode::HatchOutline,
        style.runtime() == HatchStylePreset::LeftDiagonal <==> style
            == PersistedHatchStylePreset::LeftDiagonal,
        style.runtime() == HatchStylePreset::RightDiagonal <==> style
            == PersistedHatchStylePreset::RightDiagonal,
        style.runtime() == HatchStylePreset::Cross <==> style == PersistedHatchStylePreset::Cross,
        style.runtime() == HatchStylePreset::Dots <==> style == PersistedHatchStylePreset::Dots,
{
}

/// What is no act of the user: what becomes of the window, of files above it and of its looks.
pub proof fn law_which_events_are_no_input(event: WindowEventKind)
    ensures
        !app::is_input(event) <==> {
            ||| event == WindowEventKind::ActivationTokenDone
            ||| event == WindowEventKind::Resized
            ||| event == WindowEventKind::Moved
            ||| event == WindowEventKind::CloseRequested
            ||| event == WindowEventKind::Destroyed
            ||| event == WindowEventKind::DroppedFile
            ||| event == WindowEventKind::HoveredFile
            ||| event == WindowEventKind::HoveredFileCancelled
            ||| event == WindowEventKind::Focused
            ||| event == WindowEventKind::AxisMotion
            ||| event == WindowEventKind::ScaleFactorChanged
            ||| event == WindowEventKind::ThemeChanged
            ||| event == WindowEventKind::Occluded
            ||| event == WindowEventKind::RedrawRequested
        },
{
}

/// A scene serves for a view as long as the view lies within what it was built for and its zoom
/// has not drifted; one that was built for nothing serves for no view. Without a view it need not
/// serve.
pub proof fn law_when_a_scene_serves(
    current: Bounds,
    zoom: i32,
    covered: Option<Bounds>,
    covered_zoom: Option<i32>,
    drifted: spec_fn(i32, i32) -> bool,
)
    ensures
        !app::scene_is_outdated(None, zoom, covered, covered_zoom, drifted),
        !app::scene_is_outdated(Some(current), zoom, covered, covered_zoom, drifted) <==> covered
            is Some && covered_zoom is Some && scene::within(current, covered->0) && !drifted(
            zoom,
            covered_zoom->0,
        ),
{
}

/// Patterns alternate from one layer to the next, starting with the leftward one.
pub proof fn law_patterns_alternate(place: int)
    requires
        place >= 0,
    ensures
        app::default_style(0) == HatchStylePreset::LeftDiagonal,
        app::default_style(place) != app::default_style(place + 1),
        app::default_style(place) == HatchStylePreset::LeftDiagonal || app::default_style(place)
            == HatchStylePreset::RightDiagonal,
{
}

/// A scene of at most fifty thousand shapes and three hundred thousand points is shown with all its
/// levels at first; of a larger one half of its levels are, rounded up where it has an odd number.
pub proof fn law_first_levels_of_a_scene(shapes: Seq<scene::ShapeModel>)
    ensures
        ({
            let levels = scene::deepest_level(shapes) + 1;
            let shown = app::first_max_level(shapes) + 1;
            let small = shapes.len() <= 50_000 && scene::point_count(shapes) <= 300_000;
            &&& small ==> shown == levels
            &&& !small ==> levels <= 2 * shown <= levels + 1
        }),
{
}

/// Setting the zoom leaves the pan, and setting both sets both; the zoom is kept within its limits.
pub proof fn law_camera_is_set(
    a: &mut Camera2D,
    b: &mut Camera2D,
    pan: Point,
    zoom: i32,
)
    requires
        call_ensures(Camera2D::set_zoom, (a, zoom), ()),
        call_ensures(Camera2D::set_state, (b, pan, zoom), ()),
    ensures
        final(a)@.pan == old(a)@.pan,
        final(b)@.pan == pan,
        final(a)@.zoom == final(b)@.zoom,
        coords::at_most(0x3586_37bd, zoom) && coords::at_most(zoom, 0x461c_4000) ==> final(a)@.zoom
            == zoom,
{
}

/// Zooming goes to the zoom times the factor, within the limits, and moves the layout so that the
/// point under the cursor stays; where the zoom would hardly change, nothing does.
pub proof fn law_zooming_keeps_the_cursor_in_place(
    from: CameraModel,
    factor: i32,
    cursor: Point,
    d: camera::Zooming,
)
    ensures
        ({
            let to = camera::zoomed(from, factor, cursor, d);
            let wanted = camera::clamped_zoom((d.product)(from.zoom, factor));
            &&& (d.close)(wanted, from.zoom) ==> to == from
            &&& !(d.close)(wanted, from.zoom) ==> to.zoom == wanted && to.pan == (d.pan)(
                from.pan,
                cursor,
                to.zoom,
                from.zoom,
            )
        }),
{
}

/// A slider that is moved is where it was moved to, and the other one gives way as little as it
/// must.
pub proof fn law_sliders_give_way(a: &mut LevelSliders, b: &mut LevelSliders, level: u32)
    requires
        call_ensures(LevelSliders::move_min, (a, level), ()),
        call_ensures(LevelSliders::move_max, (b, level), ()),
    ensures
        final(a).min_level == level,
        final(b).max_level == level,
        final(a).min_level <= final(a).max_level,
        final(b).min_level <= final(b).max_level,
        level <= old(a).max_level ==> final(a).max_level == old(a).max_level,
        level > old(a).max_level ==> final(a).max_level == level,
        level >= old(b).min_level ==> final(b).min_level == old(b).min_level,
        level < old(b).min_level ==> final(b).min_level == level,
{
}

/// What the sliders show of a range lies within the levels, and asks for nothing where the range
/// did too; a slider asks for its own level just where that is another one than is shown.
pub proof fn law_sliders_ask_for_changes(
    min_level: u32,
    max_level: u32,
    deepest: u32,
    sliders: LevelSliders,
    asked: (Option<u32>, Option<u32>),
)
    requires
        call_ensures(LevelSliders::new, (min_level, max_level, deepest), sliders),
        call_ensures(LevelSliders::changes, (&sliders, min_level, max_level), asked),
    ensures
        sliders.min_level <= sliders.max_level <= deepest,
        min_level <= max_level <= deepest ==> asked.0 is None && asked.1 is None,
        asked.0 is Some <==> sliders.min_level != min_level,
        asked.1 is Some <==> sliders.max_level != max_level,
        asked.0 matches Some(level) ==> level == sliders.min_level,
        asked.1 matches Some(level) ==> level == sliders.max_level,
        max_level <= deepest ==> sliders.max_level == max_level,
{
}

/// What the sliders show of the limits lies in their ranges, and is the limit where that does too.
pub proof fn law_sliders_show_their_ranges(
    params: HatchParams,
    capacity: usize,
    threshold: usize,
    entries: usize,
    work: usize,
    values: SliderValues,
)
    requires
        call_ensures(
            ui::slider_values,
            (params, capacity, threshold, entries, work),
            values,
        ),
    ensures
        32 <= values.tile_cache_capacity <= 4096,
        32 <= capacity <= 4096 ==> values.tile_cache_capacity == capacity,
        values.progressive_bypass_threshold <= 256,
        threshold <= 256 ==> values.progressive_bypass_threshold == threshold,
        values.layer_bypass_entry_threshold <= 64,
        entries <= 64 ==> values.layer_bypass_entry_threshold == entries,
        values.layer_bypass_work_threshold <= 1024,
        work <= 1024 ==> values.layer_bypass_work_threshold == work,
        0x4080_0000 <= params.spacing <= 0x4200_0000 ==> values.hatch_params.spacing
            == params.spacing,
        0x3f00_0000 <= params.width <= 0x4100_0000 ==> values.hatch_params.width == params.width,
{
}

/// A layer that is hidden or shown is so from then on, and no other layer is touched.
pub proof fn law_one_layer_is_hidden_or_shown(
    hidden: &mut LayerSet,
    layer: LayerId,
    visible: bool,
    other: LayerId,
)
    requires
        call_ensures(ui::set_layer_visible, (hidden, layer, visible), ()),
    ensures
        final(hidden)@.contains(layer) <==> !visible,
        other != layer ==> (final(hidden)@.contains(other) <==> old(hidden)@.contains(other)),
{
}

/// A way of drawing that is picked for a layer is that of the layer from then on, whether it is
/// one of its own or that of all; a layer drawn as all others has none of its own once it was
/// picked anew.
pub proof fn law_one_layer_is_drawn_as_picked(
    modes: &mut LayerMap<ClosedShapeDrawMode>,
    layer: LayerId,
    picked: ClosedShapeDrawMode,
    common: ClosedShapeDrawMode,
    changed: bool,
    other: LayerId,
)
    requires
        call_ensures(ui::pick_layer_draw_mode, (modes, layer, picked, common), changed),
    ensures
        ({
            let own = final(modes)@.dom().contains(layer);
            &&& own ==> final(modes)@[layer] == picked
            &&& !own ==> picked == common
            &&& changed && picked == common ==> !own
            &&& !changed ==> final(modes)@ == old(modes)@
            &&& other != layer ==> (final(modes)@.dom().contains(other)
                <==> old(modes)@.dom().contains(other))
            &&& other != layer && old(modes)@.dom().contains(other) ==> final(modes)@[other]
                == old(modes)@[other]
        }),
{
}

/// Closing the window saves and ends, and nothing else does; a frame is drawn just where one was
/// asked for, and the window draws anew in its new size or scale.
pub proof fn law_window_events(event: WindowEventKind, reaction: WindowReaction)
    requires
        call_ensures(app::react_to_window_event, (event,), reaction),
    ensures
        reaction == WindowReaction::SaveAndExit <==> event == WindowEventKind::CloseRequested,
        reaction == WindowReaction::DrawFrame <==> event == WindowEventKind::RedrawRequested,
        reaction == WindowReaction::ResizeAndRequestFrame <==> event == WindowEventKind::Resized,
        reaction == WindowReaction::RequestFrame <==> event == WindowEventKind::ScaleFactorChanged,
{
}

/// A frame is recorded in all four histories, each with its own number, last.
pub proof fn law_frames_are_recorded(h: &mut RenderStatsHistory, stats: &RenderDebugStats)
    requires
        call_ensures(RenderStatsHistory::record, (h, stats), ()),
    ensures
        ({
            let after = final(h)@;
            &&& after.vertices.len() > 0 && after.vertices.last() == stats.vertex_count as u64
            &&& after.tile_misses.len() > 0 && after.tile_misses.last()
                == stats.tile_cache_misses as u64
            &&& after.cache_bytes.len() > 0 && after.cache_bytes.last() == stats.cache_bytes as u64
            &&& after.pending_entries.len() > 0 && after.pending_entries.last()
                == stats.pending_entries as u64
        }),
{
}

} // verus!
