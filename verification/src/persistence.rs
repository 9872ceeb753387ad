//! What the viewer remembers from one session to the next.

use crate::error::joined;
use crate::layers::{LayerMap, LayerSet};
use crate::renderer::geometry::{ClosedShapeDrawMode, HatchStylePreset};
use crate::scene;
use crate::scene::{LayerId, Scene, SceneBundle};
use vstd::prelude::*;

verus! {

/// Why settings could not be read or written.
#[derive(Debug)]
pub enum PersistenceError {
    /// There is no place for settings.
    ConfigDirUnavailable,
    /// The file could not be read or written.
    Io(String),
    /// The file does not hold settings.
    Json(String),
}

impl PersistenceError {
    /// What is said about the error.
    pub open spec fn text(self) -> Seq<char> {
        match self {
            PersistenceError::ConfigDirUnavailable =>
                "viewer config directory is not available on this platform"@,
            PersistenceError::Io(detail) => "viewer config I/O failed: "@ + detail@,
            PersistenceError::Json(detail) => "viewer config JSON failed: "@ + detail@,
        }
    }

    /// What is said about the error.
    pub fn message(&self) -> (message: String)
        ensures
            message@ == self.text(),
    {
        match self {
            PersistenceError::ConfigDirUnavailable => String::from_str(
                "viewer config directory is not available on this platform",
            ),
            PersistenceError::Io(detail) => joined("viewer config I/O failed: ", detail.as_str()),
            PersistenceError::Json(detail) => joined(
                "viewer config JSON failed: ",
                detail.as_str(),
            ),
        }
    }
}

/// A layer, as it is remembered.
#[derive(Debug, Clone, Copy, PartialEq, Eq, Structural)]
pub struct PersistedLayerId {
    pub layer: u32,
    pub datatype: u32,
}

/// A way of drawing closed shapes, as it is remembered.
#[derive(Debug, Clone, Copy, PartialEq, Eq, Structural)]
pub enum PersistedClosedShapeDrawMode {
    Outline,
    Hatch,
    HatchOutline,
}

/// A hatch pattern, as it is remembered.
#[derive(Debug, Clone, Copy, PartialEq, Eq, Structural)]
pub enum PersistedHatchStylePreset {
    LeftDiagonal,
    RightDiagonal,
    Cross,
    Dots,
}

/// How the closed shapes of one layer are drawn.
#[derive(Debug, Clone, Copy, PartialEq, Eq, Structural)]
pub struct PersistedLayerDrawMode {
    pub layer: PersistedLayerId,
    pub mode: PersistedClosedShapeDrawMode,
}

/// The hatch pattern of one layer.
#[derive(Debug, Clone, Copy, PartialEq, Eq, Structural)]
pub struct PersistedLayerHatchStyle {
    pub layer: PersistedLayerId,
    pub style: PersistedHatchStylePreset,
}

/// Where the camera stands; the numbers are coordinate keys.
#[derive(Debug, Clone, Copy, PartialEq, Eq, Structural)]
pub struct PersistedCamera {
    pub pan_x: i32,
    pub pan_y: i32,
    pub zoom: i32,
}

/// The settings that are remembered.
#[derive(Debug)]
pub struct ViewerConfig {
    /// The layout that was open.
    pub layout_path: String,
    /// The name of the view that was shown.
    pub selected_view_name: Option<String>,
    pub camera: PersistedCamera,
    /// The first level that was shown; settings of old do not say.
    pub min_hierarchy_level: Option<u32>,
    /// The last level that was shown; settings of old do not say.
    pub max_hierarchy_level: Option<u32>,
    pub hidden_layers: Vec<PersistedLayerId>,
    pub layer_draw_modes: Vec<PersistedLayerDrawMode>,
    pub layer_hatch_styles: Vec<PersistedLayerHatchStyle>,
    pub draw_mode: PersistedClosedShapeDrawMode,
    /// The distance of hatch lines, a coordinate key.
    pub hatch_spacing: i32,
    /// The width of hatch lines, a coordinate key.
    pub hatch_width: i32,
    pub tile_grid_divisions: u32,
    pub tile_cache_capacity: usize,
    pub progressive_bypass_threshold: usize,
    pub layer_bypass_entry_threshold: usize,
    pub layer_bypass_work_threshold: usize,
}

impl PersistedLayerId {
    /// The layer that is remembered.
    pub open spec fn runtime(self) -> LayerId {
        LayerId { layer: self.layer, datatype: self.datatype }
    }

    /// The layer, as it is remembered.
    pub fn from_runtime(layer: LayerId) -> (persisted: Self)
        ensures
            persisted == (PersistedLayerId { layer: layer.layer, datatype: layer.datatype }),
            persisted.runtime() == layer,
    {
        PersistedLayerId { layer: layer.layer, datatype: layer.datatype }
    }

    /// The layer that is remembered.
    pub fn to_runtime(self) -> (layer: LayerId)
        ensures
            layer == self.runtime(),
    {
        LayerId { layer: self.layer, datatype: self.datatype }
    }
}

impl PersistedClosedShapeDrawMode {
    /// The way of drawing that is remembered.
    pub open spec fn runtime(self) -> ClosedShapeDrawMode {
        match self {
            PersistedClosedShapeDrawMode::Outline => ClosedShapeDrawMode::Outline,
            PersistedClosedShapeDrawMode::Hatch => ClosedShapeDrawMode::Hatch,
            PersistedClosedShapeDrawMode::HatchOutline => ClosedShapeDrawMode::HatchOutline,
        }
    }

    /// The way of drawing, as it is remembered.
    pub fn from_runtime(mode: ClosedShapeDrawMode) -> (persisted: Self)
        ensures
            persisted.runtime() == mode,
    {
        match mode {
            ClosedShapeDrawMode::Outline => PersistedClosedShapeDrawMode::Outline,
            ClosedShapeDrawMode::Hatch => PersistedClosedShapeDrawMode::Hatch,
            ClosedShapeDrawMode::HatchOutline => PersistedClosedShapeDrawMode::HatchOutline,
        }
    }

    /// The way of drawing that is remembered.
    pub fn to_runtime(self) -> (mode: ClosedShapeDrawMode)
        ensures
            mode == self.runtime(),
    {
        match self {
            PersistedClosedShapeDrawMode::Outline => ClosedShapeDrawMode::Outline,
            PersistedClosedShapeDrawMode::Hatch => ClosedShapeDrawMode::Hatch,
            PersistedClosedShapeDrawMode::HatchOutline => ClosedShapeDrawMode::HatchOutline,
        }
    }
}

impl PersistedHatchStylePreset {
    /// The pattern that is remembered.
    pub open spec fn runtime(self) -> HatchStylePreset {
        match self {
            PersistedHatchStylePreset::LeftDiagonal => HatchStylePreset::LeftDiagonal,
            PersistedHatchStylePreset::RightDiagonal => HatchStylePreset::RightDiagonal,
            PersistedHatchStylePreset::Cross => HatchStylePreset::Cross,
            PersistedHatchStylePreset::Dots => HatchStylePreset::Dots,
        }
    }

    /// The pattern, as it is remembered.
    pub fn from_runtime(style: HatchStylePreset) -> (persisted: Self)
        ensures
            persisted.runtime() == style,
    {
        match style {
            HatchStylePreset::LeftDiagonal => PersistedHatchStylePreset::LeftDiagonal,
            HatchStylePreset::RightDiagonal => PersistedHatchStylePreset::RightDiagonal,
            HatchStylePreset::Cross => PersistedHatchStylePreset::Cross,
            HatchStylePreset::Dots => PersistedHatchStylePreset::Dots,
        }
    }

    /// The pattern that is remembered.
    pub fn to_runtime(self) -> (style: HatchStylePreset)
        ensures
            style == self.runtime(),
    {
        match self {
            PersistedHatchStylePreset::LeftDiagonal => HatchStylePreset::LeftDiagonal,
            PersistedHatchStylePreset::RightDiagonal => HatchStylePreset::RightDiagonal,
            PersistedHatchStylePreset::Cross => HatchStylePreset::Cross,
            PersistedHatchStylePreset::Dots => HatchStylePreset::Dots,
        }
    }
}

/// What is remembered tells the things apart: two that come out the same are the same.
pub proof fn law_remembering_loses_nothing(
    a: PersistedLayerId,
    b: PersistedLayerId,
    m: PersistedClosedShapeDrawMode,
    n: PersistedClosedShapeDrawMode,
    s: PersistedHatchStylePreset,
    t: PersistedHatchStylePreset,
)
    ensures
        a.runtime() == b.runtime() ==> a == b,
        m.runtime() == n.runtime() ==> m == n,
        s.runtime() == t.runtime() ==> s == t,
{
}

/// The entry threshold of settings that do not say.
pub fn default_layer_bypass_entry_threshold() -> (threshold: usize)
    ensures
        threshold == 8,
{
    8
}

/// The work threshold of settings that do not say.
pub fn default_layer_bypass_work_threshold() -> (threshold: usize)
    ensures
        threshold == 128,
{
    128
}

/// Whether a view has this name.
pub open spec fn is_named(view: scene::SceneView, name: Seq<char>) -> bool {
    view.name@ == name
}

/// The place of the first view with the saved name.
pub fn resolve_saved_view_index(bundle: &SceneBundle, saved_name: Option<&str>) -> (index: Option<
    usize,
>)
    ensures
        match index {
            Some(at) => {
                &&& saved_name is Some
                &&& at < bundle.listed().len()
                &&& is_named(bundle.listed()[at as int], saved_name->0@)
                &&& forall|k: int|
                    0 <= k < at ==> !is_named(#[trigger] bundle.listed()[k], saved_name->0@)
            },
            None => saved_name is Some ==> forall|k: int|
                0 <= k < bundle.listed().len() ==> !is_named(
                    #[trigger] bundle.listed()[k],
                    saved_name->0@,
                ),
        },
{
    let name = match saved_name {
        Some(name) => String::from_str(name),
        None => {
            return None;
        },
    };
    let views = bundle.views();
    let mut i: usize = 0;
    while i < views.len()
        invariant
            i <= views@.len(),
            views@ == bundle.listed(),
            saved_name is Some,
            name@ == saved_name->0@,
            forall|k: int|
                0 <= k < i ==> !is_named(#[trigger] bundle.listed()[k], saved_name->0@),
        decreases views@.len() - i,
    {
        if views[i].name == name {
            return Some(i);
        }
        i += 1;
    }
    None
}

/// The layers that are remembered as hidden and still there.
pub open spec fn still_hidden(saved: Seq<PersistedLayerId>, existing: Seq<LayerId>) -> Set<LayerId>
    decreases saved.len(),
{
    if saved.len() == 0 {
        Set::empty()
    } else {
        let head = still_hidden(saved.drop_last(), existing);
        let layer = saved.last().runtime();
        if existing.contains(layer) {
            head.insert(layer)
        } else {
            head
        }
    }
}

/// The ways of drawing that are remembered for layers that are still there; of two for one layer
/// the later one counts.
pub open spec fn still_drawn(
    saved: Seq<PersistedLayerDrawMode>,
    existing: Seq<LayerId>,
) -> Map<LayerId, ClosedShapeDrawMode>
    decreases saved.len(),
{
    if saved.len() == 0 {
        Map::empty()
    } else {
        let head = still_drawn(saved.drop_last(), existing);
        let layer = saved.last().layer.runtime();
        if existing.contains(layer) {
            head.insert(layer, saved.last().mode.runtime())
        } else {
            head
        }
    }
}

/// The patterns that are remembered for layers that are still there; of two for one layer the
/// later one counts.
pub open spec fn still_hatched(
    saved: Seq<PersistedLayerHatchStyle>,
    existing: Seq<LayerId>,
) -> Map<LayerId, HatchStylePreset>
    decreases saved.len(),
{
    if saved.len() == 0 {
        Map::empty()
    } else {
        let head = still_hatched(saved.drop_last(), existing);
        let layer = saved.last().layer.runtime();
        if existing.contains(layer) {
            head.insert(layer, saved.last().style.runtime())
        } else {
            head
        }
    }
}

/// The layers that are remembered as hidden and among those listed.
pub fn filter_hidden_layers_for_layer_ids(config: &ViewerConfig, layers: &[LayerId]) -> (hidden:
    LayerSet)
    ensures
        hidden@ == still_hidden(config.hidden_layers@, layers@),
{
    let existing = LayerSet::from_layers(layers);
    let saved = &config.hidden_layers;
    let mut hidden = LayerSet::new();
    let mut i: usize = 0;
    assert(saved@.take(0) =~= Seq::empty());
    while i < saved.len()
        invariant
            i <= saved@.len(),
            existing@ == layers@.to_set(),
            hidden@ == still_hidden(saved@.take(i as int), layers@),
        decreases saved@.len() - i,
    {
        assert(saved@.take(i + 1).drop_last() =~= saved@.take(i as int));
        let layer = saved[i].to_runtime();
        if existing.contains(layer) {
            hidden.insert(layer);
        }
        i += 1;
    }
    assert(saved@.take(i as int) =~= saved@);
    hidden
}

/// The ways of drawing that are remembered for the layers listed.
pub fn filter_layer_draw_modes_for_layer_ids(config: &ViewerConfig, layers: &[LayerId]) -> (modes:
    LayerMap<ClosedShapeDrawMode>)
    ensures
        modes@ == still_drawn(config.layer_draw_modes@, layers@),
{
    let existing = LayerSet::from_layers(layers);
    let saved = &config.layer_draw_modes;
    let mut modes: LayerMap<ClosedShapeDrawMode> = LayerMap::new();
    let mut i: usize = 0;
    assert(saved@.take(0) =~= Seq::empty());
    while i < saved.len()
        invariant
            i <= saved@.len(),
            existing@ == layers@.to_set(),
            modes@ == still_drawn(saved@.take(i as int), layers@),
        decreases saved@.len() - i,
    {
        assert(saved@.take(i + 1).drop_last() =~= saved@.take(i as int));
        let layer = saved[i].layer.to_runtime();
        if existing.contains(layer) {
            modes.insert(layer, saved[i].mode.to_runtime());
        }
        i += 1;
    }
    assert(saved@.take(i as int) =~= saved@);
    modes
}

/// The patterns that are remembered for the layers listed.
pub fn filter_layer_hatch_styles_for_layer_ids(config: &ViewerConfig, layers: &[LayerId]) -> (styles:
    LayerMap<HatchStylePreset>)
    ensures
        styles@ == still_hatched(config.layer_hatch_styles@, layers@),
{
    let existing = LayerSet::from_layers(layers);
    let saved = &config.layer_hatch_styles;
    let mut styles: LayerMap<HatchStylePreset> = LayerMap::new();
    let mut i: usize = 0;
    assert(saved@.take(0) =~= Seq::empty());
    while i < saved.len()
        invariant
            i <= saved@.len(),
            existing@ == layers@.to_set(),
            styles@ == still_hatched(saved@.take(i as int), layers@),
        decreases saved@.len() - i,
    {
        assert(saved@.take(i + 1).drop_last() =~= saved@.take(i as int));
        let layer = saved[i].layer.to_runtime();
        if existing.contains(layer) {
            styles.insert(layer, saved[i].style.to_runtime());
        }
        i += 1;
    }
    assert(saved@.take(i as int) =~= saved@);
    styles
}

/// The layers that are remembered as hidden and still in the scene.
pub fn filter_hidden_layers_for_scene(config: &ViewerConfig, scene: &Scene) -> (hidden: LayerSet)
    ensures
        hidden@ == still_hidden(config.hidden_layers@, scene::shape_layers(scene@)),
{
    let layers = scene.layer_ids();
    proof {
        lemma_same_layers(config, layers@, scene::shape_layers(scene@));
    }
    filter_hidden_layers_for_layer_ids(config, layers.as_slice())
}

/// The ways of drawing that are remembered for the layers of the scene.
pub fn filter_layer_draw_modes_for_scene(config: &ViewerConfig, scene: &Scene) -> (modes: LayerMap<
    ClosedShapeDrawMode,
>)
    ensures
        modes@ == still_drawn(config.layer_draw_modes@, scene::shape_layers(scene@)),
{
    let layers = scene.layer_ids();
    proof {
        lemma_same_layers(config, layers@, scene::shape_layers(scene@));
    }
    filter_layer_draw_modes_for_layer_ids(config, layers.as_slice())
}

/// The patterns that are remembered for the layers of the scene.
pub fn filter_layer_hatch_styles_for_scene(config: &ViewerConfig, scene: &Scene) -> (styles:
    LayerMap<HatchStylePreset>)
    ensures
        styles@ == still_hatched(config.layer_hatch_styles@, scene::shape_layers(scene@)),
{
    let layers = scene.layer_ids();
    proof {
        lemma_same_layers(config, layers@, scene::shape_layers(scene@));
    }
    filter_layer_hatch_styles_for_layer_ids(config, layers.as_slice())
}

proof fn lemma_same_hidden(saved: Seq<PersistedLayerId>, a: Seq<LayerId>, b: Seq<LayerId>)
    requires
        forall|x: LayerId| a.contains(x) <==> b.contains(x),
    ensures
        still_hidden(saved, a) == still_hidden(saved, b),
    decreases saved.len(),
{
    if saved.len() > 0 {
        lemma_same_hidden(saved.drop_last(), a, b);
        assert(a.contains(saved.last().runtime()) <==> b.contains(saved.last().runtime()));
    }
}

proof fn lemma_same_drawn(saved: Seq<PersistedLayerDrawMode>, a: Seq<LayerId>, b: Seq<LayerId>)
    requires
        forall|x: LayerId| a.contains(x) <==> b.contains(x),
    ensures
        still_drawn(saved, a) == still_drawn(saved, b),
    decreases saved.len(),
{
    if saved.len() > 0 {
        lemma_same_drawn(saved.drop_last(), a, b);
        let layer = saved.last().layer.runtime();
        assert(a.contains(layer) <==> b.contains(layer));
    }
}

proof fn lemma_same_hatched(saved: Seq<PersistedLayerHatchStyle>, a: Seq<LayerId>, b: Seq<LayerId>)
    requires
        forall|x: LayerId| a.contains(x) <==> b.contains(x),
    ensures
        still_hatched(saved, a) == still_hatched(saved, b),
    decreases saved.len(),
{
    if saved.len() > 0 {
        lemma_same_hatched(saved.drop_last(), a, b);
        let layer = saved.last().layer.runtime();
        assert(a.contains(layer) <==> b.contains(layer));
    }
}

proof fn lemma_same_layers(config: &ViewerConfig, a: Seq<LayerId>, b: Seq<LayerId>)
    requires
        a.to_set() == b.to_set(),
    ensures
        still_hidden(config.hidden_layers@, a) == still_hidden(config.hidden_layers@, b),
        still_drawn(config.layer_draw_modes@, a) == still_drawn(config.layer_draw_modes@, b),
        still_hatched(config.layer_hatch_styles@, a) == still_hatched(
            config.layer_hatch_styles@,
            b,
        ),
{
    assert forall|x: LayerId| a.contains(x) <==> b.contains(x) by {
        assert(a.contains(x) <==> a.to_set().contains(x));
        assert(b.contains(x) <==> b.to_set().contains(x));
    }
    lemma_same_hidden(config.hidden_layers@, a, b);
    lemma_same_drawn(config.layer_draw_modes@, a, b);
    lemma_same_hatched(config.layer_hatch_styles@, a, b);
}

/// A layer is hidden after settings are restored exactly where they remember it and it is there.
pub proof fn law_hidden_layers_are_known(
    saved: Seq<PersistedLayerId>,
    existing: Seq<LayerId>,
    layer: LayerId,
)
    ensures
        still_hidden(saved, existing).contains(layer) <==> existing.contains(layer) && exists|i: int|
            0 <= i < saved.len() && (#[trigger] saved[i]).runtime() == layer,
    decreases saved.len(),
{
    if saved.len() > 0 {
        let init = saved.drop_last();
        law_hidden_layers_are_known(init, existing, layer);
        if still_hidden(init, existing).contains(layer) {
            let i = choose|i: int| 0 <= i < init.len() && (#[trigger] init[i]).runtime() == layer;
            assert(saved[i].runtime() == layer);
        }
        if exists|i: int| 0 <= i < saved.len() && (#[trigger] saved[i]).runtime() == layer {
            let i = choose|i: int| 0 <= i < saved.len() && (#[trigger] saved[i]).runtime() == layer;
            if i < init.len() {
                assert(init[i].runtime() == layer);
            }
        }
        assert(saved[saved.len() - 1] == saved.last());
    }
}

/// A layer has a way of drawing of its own after settings are restored exactly where they
/// remember one and the layer is there; the last one that they remember counts.
pub proof fn law_last_draw_mode_counts(
    saved: Seq<PersistedLayerDrawMode>,
    existing: Seq<LayerId>,
    at: int,
)
    requires
        0 <= at < saved.len(),
        forall|k: int| at < k < saved.len() ==> (#[trigger] saved[k]).layer != saved[at].layer,
    ensures
        still_drawn(saved, existing).dom().contains(saved[at].layer.runtime()) <==>
            existing.contains(saved[at].layer.runtime()),
        existing.contains(saved[at].layer.runtime()) ==> still_drawn(
            saved,
            existing,
        )[saved[at].layer.runtime()] == saved[at].mode.runtime(),
    decreases saved.len(),
{
    let init = saved.drop_last();
    if at < init.len() {
        law_last_draw_mode_counts(init, existing, at);
        assert(saved[saved.len() - 1].layer != saved[at].layer);
    } else {
        lemma_drawn_are_known(init, existing, saved[at].layer.runtime());
    }
}

proof fn lemma_drawn_are_known(
    saved: Seq<PersistedLayerDrawMode>,
    existing: Seq<LayerId>,
    layer: LayerId,
)
    ensures
        still_drawn(saved, existing).dom().contains(layer) ==> existing.contains(layer),
    decreases saved.len(),
{
    if saved.len() > 0 {
        lemma_drawn_are_known(saved.drop_last(), existing, layer);
    }
}

/// A layer has a pattern of its own after settings are restored exactly where they remember one
/// and the layer is there; the last one that they remember counts.
pub proof fn law_last_hatch_style_counts(
    saved: Seq<PersistedLayerHatchStyle>,
    existing: Seq<LayerId>,
    at: int,
)
    requires
        0 <= at < saved.len(),
        forall|k: int| at < k < saved.len() ==> (#[trigger] saved[k]).layer != saved[at].layer,
    ensures
        still_hatched(saved, existing).dom().contains(saved[at].layer.runtime()) <==>
            existing.contains(saved[at].layer.runtime()),
        existing.contains(saved[at].layer.runtime()) ==> still_hatched(
            saved,
            existing,
        )[saved[at].layer.runtime()] == saved[at].style.runtime(),
    decreases saved.len(),
{
    let init = saved.drop_last();
    if at < init.len() {
        law_last_hatch_style_counts(init, existing, at);
        assert(saved[saved.len() - 1].layer != saved[at].layer);
    } else {
        lemma_hatched_are_known(init, existing, saved[at].layer.runtime());
    }
}

proof fn lemma_hatched_are_known(
    saved: Seq<PersistedLayerHatchStyle>,
    existing: Seq<LayerId>,
    layer: LayerId,
)
    ensures
        still_hatched(saved, existing).dom().contains(layer) ==> existing.contains(layer),
    decreases saved.len(),
{
    if saved.len() > 0 {
        lemma_hatched_are_known(saved.drop_last(), existing, layer);
    }
}

} // verus!
