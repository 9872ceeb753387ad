//! The course of a frame: what is kept from the last one, what is asked for, what is built and
//! what is shown.

pub mod asking_laws;
pub mod display_laws;
pub mod frame;
pub mod frame_laws;
pub mod laws;
pub mod limit_laws;
pub mod refresh;
pub mod work_laws;

use crate::counters;
use crate::counters::capped_sum;
use crate::layers;
use crate::layers::LayerMap;
use crate::renderer;
use crate::renderer::eviction;
use crate::renderer::eviction::{select_tile_eviction_victims, TileUsage};
use crate::renderer::geometry::{
    ClosedShapeDrawMode, HatchParams, HatchStylePreset, RenderCacheKey, DEFAULT_HATCH_SPACING,
    DEFAULT_HATCH_STYLE_PRESET, DEFAULT_HATCH_WIDTH, DEFAULT_TILE_GRID_DIVISIONS,
};
use crate::renderer::queue::{contains_tile_key, PendingTileBuild, TileCacheKey};
use crate::renderer::stats::RenderDebugStats;
use crate::renderer::{tile_cache_byte_budget, LayerAdaptiveBypassConfig};
use crate::scene::LayerId;
use crate::seqs;
use std::collections::VecDeque;
use vstd::prelude::*;

verus! {

/// What all entries of the cache have in common; entries of another kind are of no use.
#[derive(Debug, Clone, Copy, PartialEq, Eq, Structural)]
pub struct TileCacheDomainKey {
    pub scene_revision: u64,
    pub zoom_bits: u32,
    pub hatch_signature: u64,
    pub hatch_style_signature: u64,
}

/// What a build made: how many vertices, in how many buffers, of how many bytes.
#[derive(Debug, Clone, Copy, PartialEq, Eq, Structural)]
pub struct BuiltTile {
    pub vertex_count: usize,
    pub segment_count: usize,
    pub byte_size: usize,
}

/// An entry of the cache.
#[derive(Debug, Clone, Copy, PartialEq, Eq, Structural)]
pub struct CachedTile {
    pub key: TileCacheKey,
    pub built: BuiltTile,
    pub last_used_tick: u64,
}

/// What the last search for visible shapes came across.
#[derive(Debug, Clone, Copy, PartialEq, Eq, Structural)]
pub struct CachedShapeQueryStats {
    pub candidate_shapes: usize,
    pub visible_shapes: usize,
    pub bucket_hits: usize,
    pub visible_tiles: usize,
}

impl Default for CachedShapeQueryStats {
    fn default() -> (stats: Self)
        ensures
            stats == no_query(),
    {
        CachedShapeQueryStats {
            candidate_shapes: 0,
            visible_shapes: 0,
            bucket_hits: 0,
            visible_tiles: 0,
        }
    }
}

/// The search that has not been made.
pub open spec fn no_query() -> CachedShapeQueryStats {
    CachedShapeQueryStats {
        candidate_shapes: 0,
        visible_shapes: 0,
        bucket_hits: 0,
        visible_tiles: 0,
    }
}

/// How things are drawn.
#[derive(Debug)]
pub struct DisplaySettings {
    pub draw_mode: ClosedShapeDrawMode,
    pub layer_draw_modes: LayerMap<ClosedShapeDrawMode>,
    pub hatch_params: HatchParams,
    pub hatch_style: HatchStylePreset,
    pub layer_hatch_styles: LayerMap<HatchStylePreset>,
}

/// How things are drawn, apart from how it is stored.
#[verifier::ext_equal]
pub struct DisplayModel {
    pub draw_mode: ClosedShapeDrawMode,
    pub layer_draw_modes: Map<LayerId, ClosedShapeDrawMode>,
    pub hatch_params: HatchParams,
    pub hatch_style: HatchStylePreset,
    pub layer_hatch_styles: Map<LayerId, HatchStylePreset>,
}

impl View for DisplaySettings {
    type V = DisplayModel;

    open spec fn view(&self) -> DisplayModel {
        DisplayModel {
            draw_mode: self.draw_mode,
            layer_draw_modes: self.layer_draw_modes@,
            hatch_params: self.hatch_params,
            hatch_style: self.hatch_style,
            layer_hatch_styles: self.layer_hatch_styles@,
        }
    }
}

/// How much is built at a time, and how much is kept.
#[derive(Debug, Clone, Copy, PartialEq, Eq, Structural)]
pub struct CacheLimits {
    pub tile_cache_capacity: usize,
    pub progressive_build_budget: usize,
    pub progressive_bypass_threshold: usize,
    pub layer_bypass: LayerAdaptiveBypassConfig,
}

/// The state of the tile cache between frames.
#[derive(Debug)]
pub struct TileSchedule {
    display: DisplaySettings,
    limits: CacheLimits,
    tile_grid_divisions: u32,
    scene_revision: u64,
    view_revision: u64,
    cache_access_tick: u64,
    total_cache_evictions: usize,
    total_stale_drops: usize,
    cached_scene_key: Option<RenderCacheKey>,
    tile_cache_domain: Option<TileCacheDomainKey>,
    cache: Vec<CachedTile>,
    empty_tile_keys: Vec<TileCacheKey>,
    in_flight: Vec<TileCacheKey>,
    arrived: bool,
    visible: Vec<TileCacheKey>,
    requested: Vec<TileCacheKey>,
    pending: VecDeque<PendingTileBuild>,
    active_progressive_layer: Option<LayerId>,
    active_display_layer: Option<LayerId>,
    active_display_budget: usize,
    display_batch: Option<(u64, usize)>,
    query: CachedShapeQueryStats,
    debug_stats: RenderDebugStats,
}

/// The state of the tile cache, apart from how it is stored.
#[verifier::ext_equal]
pub struct ScheduleModel {
    pub display: DisplayModel,
    pub limits: CacheLimits,
    pub tile_grid_divisions: u32,
    pub scene_revision: u64,
    /// Grows with every new view; builds for an older one are given up.
    pub view_revision: u64,
    /// Grows with every round of builds; tells which entries are older.
    pub tick: u64,
    pub evictions: usize,
    pub stale_drops: usize,
    /// The view that the requested entries belong to.
    pub scene_key: Option<RenderCacheKey>,
    pub domain: Option<TileCacheDomainKey>,
    pub cache: Seq<CachedTile>,
    /// The entries that are known to hold nothing.
    pub empty: Seq<TileCacheKey>,
    /// The entries that are being built elsewhere.
    pub in_flight: Seq<TileCacheKey>,
    /// Whether a result has come in from elsewhere since the last frame.
    pub arrived: bool,
    pub visible: Seq<TileCacheKey>,
    pub requested: Seq<TileCacheKey>,
    pub pending: Seq<PendingTileBuild>,
    /// The layer that is being built.
    pub building_layer: Option<LayerId>,
    /// The layer that is being opened to display, and how far it is open.
    pub display_layer: Option<LayerId>,
    pub display_budget: usize,
    /// The visible set that the display batch was made for, as hash and length.
    pub batch: Option<(u64, usize)>,
    pub query: CachedShapeQueryStats,
    pub stats: RenderDebugStats,
}

impl View for TileSchedule {
    type V = ScheduleModel;

    closed spec fn view(&self) -> ScheduleModel {
        ScheduleModel {
            display: self.display@,
            limits: self.limits,
            tile_grid_divisions: self.tile_grid_divisions,
            scene_revision: self.scene_revision,
            view_revision: self.view_revision,
            tick: self.cache_access_tick,
            evictions: self.total_cache_evictions,
            stale_drops: self.total_stale_drops,
            scene_key: self.cached_scene_key,
            domain: self.tile_cache_domain,
            cache: self.cache@,
            empty: self.empty_tile_keys@,
            in_flight: self.in_flight@,
            arrived: self.arrived,
            visible: self.visible@,
            requested: self.requested@,
            pending: self.pending@,
            building_layer: self.active_progressive_layer,
            display_layer: self.active_display_layer,
            display_budget: self.active_display_budget,
            batch: self.display_batch,
            query: self.query,
            stats: self.debug_stats,
        }
    }
}

/// Where the entry stands in the cache; the length of the cache where it is not there.
pub open spec fn place_of(cache: Seq<CachedTile>, key: TileCacheKey) -> int {
    seqs::least_from(0, cache.len() as int, |i: int| cache[i].key == key)
}

/// Whether the entry is in the cache.
pub open spec fn is_cached(cache: Seq<CachedTile>, key: TileCacheKey) -> bool {
    exists|i: int| 0 <= i < cache.len() && (#[trigger] cache[i]).key == key
}

/// The cache with an entry, in place of an earlier one of the same key.
pub open spec fn with_tile(cache: Seq<CachedTile>, tile: CachedTile) -> Seq<CachedTile> {
    if is_cached(cache, tile.key) {
        cache.update(place_of(cache, tile.key), tile)
    } else {
        cache.push(tile)
    }
}

/// The list with a key, once.
pub open spec fn with_key(keys: Seq<TileCacheKey>, key: TileCacheKey) -> Seq<TileCacheKey> {
    if keys.contains(key) {
        keys
    } else {
        keys.push(key)
    }
}

/// The list without a key.
pub open spec fn without_key(keys: Seq<TileCacheKey>, key: TileCacheKey) -> Seq<TileCacheKey> {
    keys.filter(other_than(key))
}

/// Which keys are not the given one.
pub open spec fn other_than(key: TileCacheKey) -> spec_fn(TileCacheKey) -> bool {
    |k: TileCacheKey| k != key
}

/// The keys of the entries.
pub open spec fn cached_keys(cache: Seq<CachedTile>) -> Seq<TileCacheKey> {
    cache.map_values(|tile: CachedTile| tile.key)
}

/// Age and size of the entries.
pub open spec fn usages(cache: Seq<CachedTile>) -> Seq<TileUsage> {
    cache.map_values(
        |tile: CachedTile|
            TileUsage {
                key: tile.key,
                last_used_tick: tile.last_used_tick,
                byte_size: tile.built.byte_size,
            },
    )
}

/// The entries outside a list of keys.
pub open spec fn outside(cache: Seq<CachedTile>, keys: Seq<TileCacheKey>) -> Seq<CachedTile> {
    cache.filter(|tile: CachedTile| !keys.contains(tile.key))
}

/// The byte budget of a cache of this capacity.
pub open spec fn byte_budget(capacity: usize) -> usize {
    counters::capped((capacity * renderer::TILE_CACHE_BYTES_PER_ENTRY_BUDGET) as nat)
}

/// What a cache over its limits drops: entries outside `kept`, least recently used first.
pub open spec fn victims(cache: Seq<CachedTile>, capacity: usize, kept: Seq<TileCacheKey>) -> Seq<
    TileCacheKey,
> {
    eviction::eviction_victims(usages(cache), capacity, byte_budget(capacity), kept)
}

/// The place of the entry in the cache, where it is there.
fn cache_position(cache: &Vec<CachedTile>, key: TileCacheKey) -> (at: Option<usize>)
    ensures
        at is Some <==> is_cached(cache@, key),
        at matches Some(k) ==> k == place_of(cache@, key) && k < cache@.len() && cache@[k as int].key
            == key,
{
    let mut i: usize = 0;
    while i < cache.len()
        invariant
            i <= cache@.len(),
            forall|k: int| 0 <= k < i ==> (#[trigger] cache@[k]).key != key,
        decreases cache@.len() - i,
    {
        if cache[i].key == key {
            proof {
                let p = |j: int| cache@[j].key == key;
                seqs::lemma_least_from(0, cache@.len() as int, p, i as int);
                assert(cache@[i as int].key == key);
            }
            return Some(i);
        }
        i += 1;
    }
    None
}

/// Puts an entry into the cache, in place of an earlier one of the same key.
fn put_tile(cache: &mut Vec<CachedTile>, tile: CachedTile)
    ensures
        final(cache)@ == with_tile(old(cache)@, tile),
{
    match cache_position(cache, tile.key) {
        Some(at) => {
            cache.set(at, tile);
        },
        None => {
            cache.push(tile);
        },
    }
}

/// Puts a key into a list, once.
fn put_key(keys: &mut Vec<TileCacheKey>, key: TileCacheKey)
    ensures
        final(keys)@ == with_key(old(keys)@, key),
{
    if !contains_tile_key(keys, key) {
        keys.push(key);
    }
}

/// The list without a key.
fn remove_key(keys: &Vec<TileCacheKey>, key: TileCacheKey) -> (rest: Vec<TileCacheKey>)
    ensures
        rest@ == without_key(keys@, key),
{
    let ghost other = other_than(key);
    let mut rest: Vec<TileCacheKey> = Vec::new();
    let mut i: usize = 0;
    proof {
        reveal(Seq::filter);
        assert(keys@.take(0).filter(other) =~= Seq::<TileCacheKey>::empty());
    }
    while i < keys.len()
        invariant
            i <= keys@.len(),
            other == other_than(key),
            rest@ == keys@.take(i as int).filter(other),
        decreases keys@.len() - i,
    {
        proof {
            seqs::lemma_filter_take(keys@, i as int, other);
        }
        if keys[i] != key {
            rest.push(keys[i]);
        }
        i += 1;
    }
    assert(keys@.take(i as int) =~= keys@);
    rest
}

/// The keys of the entries.
fn list_cached_keys(cache: &Vec<CachedTile>) -> (keys: Vec<TileCacheKey>)
    ensures
        keys@ == cached_keys(cache@),
{
    let mut keys: Vec<TileCacheKey> = Vec::new();
    let mut i: usize = 0;
    while i < cache.len()
        invariant
            i <= cache@.len(),
            keys@.len() == i,
            forall|k: int| 0 <= k < i ==> #[trigger] keys@[k] == cache@[k].key,
        decreases cache@.len() - i,
    {
        keys.push(cache[i].key);
        i += 1;
    }
    assert(keys@ =~= cached_keys(cache@));
    keys
}

/// What the cache drops, and what it keeps.
fn prune_tile_cache(cache: &Vec<CachedTile>, capacity: usize, kept: &[TileCacheKey]) -> (result: (
    Vec<CachedTile>,
    Vec<TileCacheKey>,
))
    ensures
        result.1@ == victims(cache@, capacity, kept@),
        result.0@ == outside(cache@, result.1@),
{
    let mut usage: Vec<TileUsage> = Vec::new();
    let mut i: usize = 0;
    while i < cache.len()
        invariant
            i <= cache@.len(),
            usage@.len() == i,
            forall|k: int| 0 <= k < i ==> #[trigger] usage@[k] == usages(cache@)[k],
        decreases cache@.len() - i,
    {
        let tile = cache[i];
        usage.push(
            TileUsage {
                key: tile.key,
                last_used_tick: tile.last_used_tick,
                byte_size: tile.built.byte_size,
            },
        );
        i += 1;
    }
    assert(usage@ =~= usages(cache@));
    let budget: usize = tile_cache_byte_budget(capacity);
    let dropped = select_tile_eviction_victims(&usage, capacity, budget, kept);
    let ghost staying = |tile: CachedTile| !dropped@.contains(tile.key);
    let mut rest: Vec<CachedTile> = Vec::new();
    let mut j: usize = 0;
    proof {
        reveal(Seq::filter);
        assert(cache@.take(0).filter(staying) =~= Seq::<CachedTile>::empty());
    }
    while j < cache.len()
        invariant
            j <= cache@.len(),
            staying == (|tile: CachedTile| !dropped@.contains(tile.key)),
            rest@ == cache@.take(j as int).filter(staying),
        decreases cache@.len() - j,
    {
        proof {
            seqs::lemma_filter_take(cache@, j as int, staying);
        }
        if !contains_tile_key(&dropped, cache[j].key) {
            rest.push(cache[j]);
        }
        j += 1;
    }
    assert(cache@.take(j as int) =~= cache@);
    (rest, dropped)
}

/// A number held between two others.
pub open spec fn clamped(n: usize, low: usize, high: usize) -> usize {
    if n < low {
        low
    } else if n > high {
        high
    } else {
        n
    }
}

fn clamp_usize(n: usize, low: usize, high: usize) -> (near: usize)
    ensures
        near == clamped(n, low, high),
{
    if n < low {
        low
    } else if n > high {
        high
    } else {
        n
    }
}

/// The state before the first frame.
pub open spec fn initial() -> ScheduleModel {
    ScheduleModel {
        display: DisplayModel {
            draw_mode: ClosedShapeDrawMode::HatchOutline,
            layer_draw_modes: Map::empty(),
            hatch_params: HatchParams {
                spacing: DEFAULT_HATCH_SPACING,
                width: DEFAULT_HATCH_WIDTH,
            },
            hatch_style: DEFAULT_HATCH_STYLE_PRESET,
            layer_hatch_styles: Map::empty(),
        },
        limits: CacheLimits {
            tile_cache_capacity: renderer::DEFAULT_TILE_CACHE_CAPACITY,
            progressive_build_budget: renderer::DEFAULT_PROGRESSIVE_BUILD_BUDGET,
            progressive_bypass_threshold: renderer::DEFAULT_PROGRESSIVE_BYPASS_THRESHOLD,
            layer_bypass: LayerAdaptiveBypassConfig {
                entry_threshold: renderer::DEFAULT_LAYER_BYPASS_ENTRY_THRESHOLD,
                work_threshold: renderer::DEFAULT_LAYER_BYPASS_WORK_THRESHOLD,
            },
        },
        tile_grid_divisions: DEFAULT_TILE_GRID_DIVISIONS,
        scene_revision: 0,
        view_revision: 0,
        tick: 0,
        evictions: 0,
        stale_drops: 0,
        scene_key: None,
        domain: None,
        cache: Seq::empty(),
        empty: Seq::empty(),
        in_flight: Seq::empty(),
        arrived: false,
        visible: Seq::empty(),
        requested: Seq::empty(),
        pending: Seq::empty(),
        building_layer: None,
        display_layer: None,
        display_budget: 0,
        batch: None,
        query: no_query(),
        stats: RenderDebugStats::blank(),
    }
}

/// The state without the view, its queue and the display batch, in a new revision; with
/// `clear_cache` also without what was built.
pub open spec fn invalidated(m: ScheduleModel, clear_cache: bool) -> ScheduleModel {
    ScheduleModel {
        scene_key: None,
        requested: Seq::empty(),
        visible: Seq::empty(),
        pending: Seq::empty(),
        building_layer: None,
        query: no_query(),
        batch: None,
        view_revision: m.view_revision.wrapping_add(1),
        domain: if clear_cache {
            None
        } else {
            m.domain
        },
        cache: if clear_cache {
            Seq::empty()
        } else {
            m.cache
        },
        empty: if clear_cache {
            Seq::empty()
        } else {
            m.empty
        },
        in_flight: if clear_cache {
            Seq::empty()
        } else {
            m.in_flight
        },
        ..m
    }
}

/// The state with a report that claims no settled frame.
pub open spec fn unsettled(m: ScheduleModel) -> ScheduleModel {
    ScheduleModel { stats: RenderDebugStats { cache_hit: false, ..m.stats }, ..m }
}

/// The state without the view and its queue; what was built is kept.
pub open spec fn without_view(m: ScheduleModel) -> ScheduleModel {
    ScheduleModel {
        scene_key: None,
        requested: Seq::empty(),
        visible: Seq::empty(),
        batch: None,
        pending: Seq::empty(),
        empty: Seq::empty(),
        in_flight: Seq::empty(),
        stats: RenderDebugStats { cache_hit: false, ..m.stats },
        ..m
    }
}

/// The state after a change of how things are drawn.
pub open spec fn redrawn(m: ScheduleModel, display: DisplayModel) -> ScheduleModel {
    unsettled(invalidated(ScheduleModel { display, ..m }, true))
}

/// Whether two lists of draw modes are the same.
fn same_modes(a: &LayerMap<ClosedShapeDrawMode>, b: &LayerMap<ClosedShapeDrawMode>) -> (same: bool)
    ensures
        same == (a@ == b@),
{
    let left = a.entries();
    let right = b.entries();
    if left.len() != right.len() {
        proof {
            if a@ == b@ {
                layers::law_listed_is_canonical(left@, right@);
            }
        }
        return false;
    }
    let mut i: usize = 0;
    while i < left.len()
        invariant
            i <= left@.len(),
            left@.len() == right@.len(),
            layers::keys_ascend(left@),
            layers::keys_ascend(right@),
            layers::entries_map(left@) == a@,
            layers::entries_map(right@) == b@,
            forall|k: int| 0 <= k < i ==> #[trigger] left@[k] == right@[k],
        decreases left@.len() - i,
    {
        if left[i].0 != right[i].0 || left[i].1 != right[i].1 {
            proof {
                if a@ == b@ {
                    layers::law_listed_is_canonical(left@, right@);
                }
            }
            return false;
        }
        i += 1;
    }
    assert(left@ =~= right@);
    true
}

/// Whether two lists of hatch styles are the same.
fn same_styles(a: &LayerMap<HatchStylePreset>, b: &LayerMap<HatchStylePreset>) -> (same: bool)
    ensures
        same == (a@ == b@),
{
    let left = a.entries();
    let right = b.entries();
    if left.len() != right.len() {
        proof {
            if a@ == b@ {
                layers::law_listed_is_canonical(left@, right@);
            }
        }
        return false;
    }
    let mut i: usize = 0;
    while i < left.len()
        invariant
            i <= left@.len(),
            left@.len() == right@.len(),
            layers::keys_ascend(left@),
            layers::keys_ascend(right@),
            layers::entries_map(left@) == a@,
            layers::entries_map(right@) == b@,
            forall|k: int| 0 <= k < i ==> #[trigger] left@[k] == right@[k],
        decreases left@.len() - i,
    {
        if left[i].0 != right[i].0 || left[i].1 != right[i].1 {
            proof {
                if a@ == b@ {
                    layers::law_listed_is_canonical(left@, right@);
                }
            }
            return false;
        }
        i += 1;
    }
    assert(left@ =~= right@);
    true
}

impl TileSchedule {
    /// The state before the first frame.
    pub fn new() -> (schedule: Self)
        ensures
            schedule@ == initial(),
    {
        let schedule = TileSchedule {
            display: DisplaySettings {
                draw_mode: ClosedShapeDrawMode::HatchOutline,
                layer_draw_modes: LayerMap::new(),
                hatch_params: HatchParams {
                    spacing: DEFAULT_HATCH_SPACING,
                    width: DEFAULT_HATCH_WIDTH,
                },
                hatch_style: DEFAULT_HATCH_STYLE_PRESET,
                layer_hatch_styles: LayerMap::new(),
            },
            limits: CacheLimits {
                tile_cache_capacity: renderer::DEFAULT_TILE_CACHE_CAPACITY,
                progressive_build_budget: renderer::DEFAULT_PROGRESSIVE_BUILD_BUDGET,
                progressive_bypass_threshold: renderer::DEFAULT_PROGRESSIVE_BYPASS_THRESHOLD,
                layer_bypass: LayerAdaptiveBypassConfig {
                    entry_threshold: renderer::DEFAULT_LAYER_BYPASS_ENTRY_THRESHOLD,
                    work_threshold: renderer::DEFAULT_LAYER_BYPASS_WORK_THRESHOLD,
                },
            },
            tile_grid_divisions: DEFAULT_TILE_GRID_DIVISIONS,
            scene_revision: 0,
            view_revision: 0,
            cache_access_tick: 0,
            total_cache_evictions: 0,
            total_stale_drops: 0,
            cached_scene_key: None,
            tile_cache_domain: None,
            cache: Vec::new(),
            empty_tile_keys: Vec::new(),
            in_flight: Vec::new(),
            arrived: false,
            visible: Vec::new(),
            requested: Vec::new(),
            pending: VecDeque::new(),
            active_progressive_layer: None,
            active_display_layer: None,
            active_display_budget: 0,
            display_batch: None,
            query: CachedShapeQueryStats::default(),
            debug_stats: RenderDebugStats::default(),
        };
        assert(schedule@ =~= initial());
        schedule
    }

    /// How things are drawn.
    pub fn display(&self) -> (display: &DisplaySettings)
        ensures
            display@ == self@.display,
    {
        &self.display
    }

    /// How much is built at a time, and how much is kept.
    pub fn limits(&self) -> (limits: CacheLimits)
        ensures
            limits == self@.limits,
    {
        self.limits
    }

    /// The density of the tile grid that was asked for.
    pub fn tile_grid_divisions(&self) -> (divisions: u32)
        ensures
            divisions == self@.tile_grid_divisions,
    {
        self.tile_grid_divisions
    }

    /// The general draw mode.
    pub fn draw_mode(&self) -> (mode: ClosedShapeDrawMode)
        ensures
            mode == self@.display.draw_mode,
    {
        self.display.draw_mode
    }

    /// The general hatch parameters.
    pub fn hatch_params(&self) -> (params: HatchParams)
        ensures
            params == self@.display.hatch_params,
    {
        self.display.hatch_params
    }

    /// The general hatch style.
    pub fn hatch_style(&self) -> (style: HatchStylePreset)
        ensures
            style == self@.display.hatch_style,
    {
        self.display.hatch_style
    }

    /// The draw modes of single layers.
    pub fn layer_draw_modes(&self) -> (modes: &LayerMap<ClosedShapeDrawMode>)
        ensures
            modes@ == self@.display.layer_draw_modes,
    {
        &self.display.layer_draw_modes
    }

    /// The hatch styles of single layers.
    pub fn layer_hatch_styles(&self) -> (styles: &LayerMap<HatchStylePreset>)
        ensures
            styles@ == self@.display.layer_hatch_styles,
    {
        &self.display.layer_hatch_styles
    }

    /// The revision of the scene.
    pub fn scene_revision(&self) -> (revision: u64)
        ensures
            revision == self@.scene_revision,
    {
        self.scene_revision
    }

    /// The revision of the view.
    pub fn view_revision(&self) -> (revision: u64)
        ensures
            revision == self@.view_revision,
    {
        self.view_revision
    }

    /// How many entries the cache may hold.
    pub fn tile_cache_capacity(&self) -> (capacity: usize)
        ensures
            capacity == self@.limits.tile_cache_capacity,
    {
        self.limits.tile_cache_capacity
    }

    /// How many entries one frame builds at most.
    pub fn progressive_build_budget(&self) -> (budget: usize)
        ensures
            budget == self@.limits.progressive_build_budget,
    {
        self.limits.progressive_build_budget
    }

    /// Up to how many missing entries a frame completes at once.
    pub fn progressive_bypass_threshold(&self) -> (threshold: usize)
        ensures
            threshold == self@.limits.progressive_bypass_threshold,
    {
        self.limits.progressive_bypass_threshold
    }

    /// Up to how many entries a layer is completed at once.
    pub fn layer_bypass_entry_threshold(&self) -> (threshold: usize)
        ensures
            threshold == self@.limits.layer_bypass.entry_threshold,
    {
        self.limits.layer_bypass.entry_threshold
    }

    /// Up to how much work a layer is completed at once.
    pub fn layer_bypass_work_threshold(&self) -> (threshold: usize)
        ensures
            threshold == self@.limits.layer_bypass.work_threshold,
    {
        self.limits.layer_bypass.work_threshold
    }

    /// What the last frame reported.
    pub fn debug_stats(&self) -> (stats: RenderDebugStats)
        ensures
            stats == self@.stats,
    {
        self.debug_stats
    }

    /// The entries that are shown.
    pub fn visible_tile_keys(&self) -> (keys: &Vec<TileCacheKey>)
        ensures
            keys@ == self@.visible,
    {
        &self.visible
    }

    /// The entries in the cache.
    pub fn cached_tiles(&self) -> (tiles: &Vec<CachedTile>)
        ensures
            tiles@ == self@.cache,
    {
        &self.cache
    }

    /// How many builds wait.
    pub fn pending_count(&self) -> (count: usize)
        ensures
            count == self@.pending.len(),
    {
        self.pending.len()
    }

    /// How many builds are under way elsewhere.
    pub fn in_flight_count(&self) -> (count: usize)
        ensures
            count == self@.in_flight.len(),
    {
        self.in_flight.len()
    }

    /// Whether a settled view is there to be frozen during an interaction.
    pub fn has_stable_view(&self) -> (stable: bool)
        ensures
            stable == (self@.scene_key is Some && self@.visible.len() > 0),
    {
        self.cached_scene_key.is_some() && self.visible.len() > 0
    }

    /// Drops the view, its queue and the display batch, and with `clear_cache` what was built.
    pub fn invalidate_progressive_state(&mut self, clear_cache: bool)
        ensures
            final(self)@ == invalidated(old(self)@, clear_cache),
    {
        self.cached_scene_key = None;
        self.requested = Vec::new();
        self.visible = Vec::new();
        self.pending = VecDeque::new();
        self.active_progressive_layer = None;
        self.query = CachedShapeQueryStats::default();
        self.display_batch = None;
        self.view_revision = self.view_revision.wrapping_add(1);
        if clear_cache {
            self.tile_cache_domain = None;
            self.cache = Vec::new();
            self.empty_tile_keys = Vec::new();
            self.in_flight = Vec::new();
        }
        assert(self@ =~= invalidated(old(self)@, clear_cache));
    }

    /// Drops the view and its queue, and keeps what was built.
    fn drop_view(&mut self)
        ensures
            final(self)@ == without_view(old(self)@),
    {
        self.cached_scene_key = None;
        self.requested = Vec::new();
        self.visible = Vec::new();
        self.display_batch = None;
        self.pending = VecDeque::new();
        self.empty_tile_keys = Vec::new();
        self.in_flight = Vec::new();
        self.debug_stats.cache_hit = false;
        assert(self@ =~= without_view(old(self)@));
    }

    /// Drops all that was drawn in another way.
    fn redraw(&mut self)
        ensures
            final(self)@ == unsettled(invalidated(old(self)@, true)),
    {
        self.invalidate_progressive_state(true);
        self.debug_stats.cache_hit = false;
        assert(self@ =~= unsettled(invalidated(old(self)@, true)));
    }

    /// Sets the density of the tile grid. Says whether the grid has to be built anew.
    pub fn set_tile_grid_divisions(&mut self, divisions: u32) -> (changed: bool)
        ensures
            changed == (old(self)@.tile_grid_divisions != divisions),
            !changed ==> final(self)@ == old(self)@,
            changed ==> final(self)@ == unsettled(
                invalidated(
                    (ScheduleModel { tile_grid_divisions: divisions, ..old(self)@ }),
                    true,
                ),
            ),
    {
        if self.tile_grid_divisions == divisions {
            return false;
        }
        self.tile_grid_divisions = divisions;
        self.redraw();
        true
    }

    /// Sets the general draw mode. Another mode drops what was built.
    pub fn set_draw_mode(&mut self, draw_mode: ClosedShapeDrawMode)
        ensures
            final(self)@ == (if old(self)@.display.draw_mode == draw_mode {
                old(self)@
            } else {
                redrawn(old(self)@, (DisplayModel { draw_mode, ..old(self)@.display }))
            }),
    {
        if self.display.draw_mode == draw_mode {
            return ;
        }
        self.display.draw_mode = draw_mode;
        self.redraw();
    }

    /// Sets the draw modes of single layers. Other modes drop what was built.
    pub fn set_layer_draw_modes(&mut self, layer_draw_modes: LayerMap<ClosedShapeDrawMode>)
        ensures
            final(self)@ == (if old(self)@.display.layer_draw_modes == layer_draw_modes@ {
                old(self)@
            } else {
                redrawn(
                    old(self)@,
                    (DisplayModel {
                        layer_draw_modes: layer_draw_modes@,
                        ..old(self)@.display
                    }),
                )
            }),
    {
        if same_modes(&self.display.layer_draw_modes, &layer_draw_modes) {
            return ;
        }
        self.display.layer_draw_modes = layer_draw_modes;
        self.redraw();
    }

    /// Sets the hatch parameters, brought into their ranges. Others drop what was built.
    pub fn set_hatch_params(&mut self, params: HatchParams)
        ensures
            final(self)@ == (if old(self)@.display.hatch_params.matches_params(
                params.normal_form(),
            ) {
                old(self)@
            } else {
                redrawn(
                    old(self)@,
                    (DisplayModel { hatch_params: params.normal_form(), ..old(self)@.display }),
                )
            }),
    {
        let normalized = params.normalized();
        if self.display.hatch_params.same_as(normalized) {
            return ;
        }
        self.display.hatch_params = normalized;
        self.redraw();
    }

    /// Sets the general hatch style. Another style drops what was built.
    pub fn set_hatch_style(&mut self, hatch_style: HatchStylePreset)
        ensures
            final(self)@ == (if old(self)@.display.hatch_style == hatch_style {
                old(self)@
            } else {
                redrawn(old(self)@, (DisplayModel { hatch_style, ..old(self)@.display }))
            }),
    {
        if self.display.hatch_style == hatch_style {
            return ;
        }
        self.display.hatch_style = hatch_style;
        self.redraw();
    }

    /// Sets the hatch styles of single layers. Other styles drop what was built.
    pub fn set_layer_hatch_styles(&mut self, layer_hatch_styles: LayerMap<HatchStylePreset>)
        ensures
            final(self)@ == (if old(self)@.display.layer_hatch_styles == layer_hatch_styles@ {
                old(self)@
            } else {
                redrawn(
                    old(self)@,
                    (DisplayModel {
                        layer_hatch_styles: layer_hatch_styles@,
                        ..old(self)@.display
                    }),
                )
            }),
    {
        if same_styles(&self.display.layer_hatch_styles, &layer_hatch_styles) {
            return ;
        }
        self.display.layer_hatch_styles = layer_hatch_styles;
        self.redraw();
    }

    /// Sets how many entries the cache may hold, within limits. Another number drops what is too
    /// much, and the view; the keys of the entries that were dropped are handed out.
    pub fn set_tile_cache_capacity(&mut self, capacity: usize) -> (dropped: Vec<TileCacheKey>)
        ensures
            ({
                let m = old(self)@;
                let held = clamped(
                    capacity,
                    renderer::MIN_TILE_CACHE_CAPACITY,
                    renderer::MAX_TILE_CACHE_CAPACITY,
                );
                if m.limits.tile_cache_capacity == held {
                    final(self)@ == m && dropped@ == Seq::<TileCacheKey>::empty()
                } else {
                    &&& dropped@ == victims(m.cache, held, Seq::empty())
                    &&& final(self)@ == without_view(
                        (ScheduleModel {
                            limits: CacheLimits { tile_cache_capacity: held, ..m.limits },
                            cache: outside(m.cache, dropped@),
                            evictions: counters::capped((m.evictions + dropped@.len()) as nat),
                            ..m
                        }),
                    )
                }
            }),
    {
        let held: usize = clamp_usize(
            capacity,
            renderer::MIN_TILE_CACHE_CAPACITY,
            renderer::MAX_TILE_CACHE_CAPACITY,
        );
        if self.limits.tile_cache_capacity == held {
            return Vec::new();
        }
        self.limits.tile_cache_capacity = held;
        let none: Vec<TileCacheKey> = Vec::new();
        let (kept, dropped) = prune_tile_cache(&self.cache, held, &none);
        self.cache = kept;
        self.total_cache_evictions = capped_sum(self.total_cache_evictions, dropped.len());
        self.drop_view();
        assert(none@ =~= Seq::<TileCacheKey>::empty());
        dropped
    }

    /// Sets up to how many missing entries a frame completes at once, within limits. Another
    /// number drops the view.
    pub fn set_progressive_bypass_threshold(&mut self, threshold: usize)
        ensures
            ({
                let m = old(self)@;
                let held = clamped(
                    threshold,
                    renderer::MIN_PROGRESSIVE_BYPASS_THRESHOLD,
                    renderer::MAX_PROGRESSIVE_BYPASS_THRESHOLD,
                );
                final(self)@ == (if m.limits.progressive_bypass_threshold == held {
                    m
                } else {
                    without_view(
                        ScheduleModel {
                            limits: CacheLimits { progressive_bypass_threshold: held, ..m.limits },
                            building_layer: None,
                            ..m
                        },
                    )
                })
            }),
    {
        let held: usize = clamp_usize(
            threshold,
            renderer::MIN_PROGRESSIVE_BYPASS_THRESHOLD,
            renderer::MAX_PROGRESSIVE_BYPASS_THRESHOLD,
        );
        if self.limits.progressive_bypass_threshold == held {
            return ;
        }
        self.limits.progressive_bypass_threshold = held;
        self.active_progressive_layer = None;
        self.drop_view();
    }

    /// Sets up to how many entries and how much work a layer is completed at once, within limits.
    /// Other numbers drop the view.
    pub fn set_layer_bypass_thresholds(&mut self, entry_threshold: usize, work_threshold: usize)
        ensures
            ({
                let m = old(self)@;
                let held = LayerAdaptiveBypassConfig {
                    entry_threshold: clamped(
                        entry_threshold,
                        renderer::MIN_LAYER_BYPASS_ENTRY_THRESHOLD,
                        renderer::MAX_LAYER_BYPASS_ENTRY_THRESHOLD,
                    ),
                    work_threshold: clamped(
                        work_threshold,
                        renderer::MIN_LAYER_BYPASS_WORK_THRESHOLD,
                        renderer::MAX_LAYER_BYPASS_WORK_THRESHOLD,
                    ),
                };
                final(self)@ == (if m.limits.layer_bypass == held {
                    m
                } else {
                    without_view(
                        ScheduleModel {
                            limits: CacheLimits { layer_bypass: held, ..m.limits },
                            building_layer: None,
                            ..m
                        },
                    )
                })
            }),
    {
        let held = LayerAdaptiveBypassConfig {
            entry_threshold: clamp_usize(
                entry_threshold,
                renderer::MIN_LAYER_BYPASS_ENTRY_THRESHOLD,
                renderer::MAX_LAYER_BYPASS_ENTRY_THRESHOLD,
            ),
            work_threshold: clamp_usize(
                work_threshold,
                renderer::MIN_LAYER_BYPASS_WORK_THRESHOLD,
                renderer::MAX_LAYER_BYPASS_WORK_THRESHOLD,
            ),
        };
        if self.limits.layer_bypass == held {
            return ;
        }
        self.limits.layer_bypass = held;
        self.active_progressive_layer = None;
        self.drop_view();
    }

    /// Takes note of a new size of the surface; one without area is passed over. Says whether the
    /// surface has to be set up anew.
    pub fn resize(&mut self, width: u32, height: u32) -> (configured: bool)
        ensures
            configured == (width > 0 && height > 0),
            final(self)@ == (if configured {
                ScheduleModel { scene_key: None, batch: None, ..old(self)@ }
            } else {
                old(self)@
            }),
    {
        if width == 0 || height == 0 {
            return false;
        }
        self.cached_scene_key = None;
        self.display_batch = None;
        true
    }

    /// Starts on another scene, which has these layers: settings of layers that it has not are
    /// dropped, and all that was built.
    pub fn update_scene(&mut self, scene_layers: &[LayerId])
        ensures
            ({
                let m = old(self)@;
                let display = DisplayModel {
                    layer_draw_modes: m.display.layer_draw_modes.restrict(scene_layers@.to_set()),
                    layer_hatch_styles: m.display.layer_hatch_styles.restrict(
                        scene_layers@.to_set(),
                    ),
                    ..m.display
                };
                final(self)@ == (ScheduleModel {
                    stats: RenderDebugStats {
                        cache_capacity: m.limits.tile_cache_capacity,
                        cache_evictions: m.evictions,
                        build_budget: m.limits.progressive_build_budget,
                        dropped_stale_entries: m.stale_drops,
                        layer_bypass_entry_threshold: m.limits.layer_bypass.entry_threshold,
                        layer_bypass_work_threshold: m.limits.layer_bypass.work_threshold,
                        hatch_spacing: m.display.hatch_params.spacing,
                        hatch_width: m.display.hatch_params.width,
                        ..RenderDebugStats::blank()
                    },
                    ..invalidated(
                        ScheduleModel {
                            display,
                            scene_revision: m.scene_revision.wrapping_add(1),
                            ..m
                        },
                        true,
                    )
                })
            }),
    {
        self.scene_revision = self.scene_revision.wrapping_add(1);
        self.display.layer_draw_modes.retain_layers(scene_layers);
        self.display.layer_hatch_styles.retain_layers(scene_layers);
        self.invalidate_progressive_state(true);
        let mut stats = RenderDebugStats::default();
        stats.cache_capacity = self.limits.tile_cache_capacity;
        stats.cache_evictions = self.total_cache_evictions;
        stats.build_budget = self.limits.progressive_build_budget;
        stats.dropped_stale_entries = self.total_stale_drops;
        stats.layer_bypass_entry_threshold = self.limits.layer_bypass.entry_threshold;
        stats.layer_bypass_work_threshold = self.limits.layer_bypass.work_threshold;
        stats.hatch_spacing = self.display.hatch_params.spacing;
        stats.hatch_width = self.display.hatch_params.width;
        self.debug_stats = stats;
    }

    /// Starts on a layout that is drawn without being flattened: the settings of single layers
    /// are dropped, and all that was built.
    pub fn update_hierarchy_tile_source(&mut self)
        ensures
            final(self)@ == (ScheduleModel {
                stats: RenderDebugStats::blank(),
                ..invalidated(
                    ScheduleModel {
                        display: DisplayModel {
                            layer_draw_modes: Map::empty(),
                            layer_hatch_styles: Map::empty(),
                            ..old(self)@.display
                        },
                        scene_revision: old(self)@.scene_revision.wrapping_add(1),
                        ..old(self)@
                    },
                    true,
                )
            }),
    {
        self.scene_revision = self.scene_revision.wrapping_add(1);
        self.display.layer_draw_modes = LayerMap::new();
        self.display.layer_hatch_styles = LayerMap::new();
        self.invalidate_progressive_state(true);
        self.debug_stats = RenderDebugStats::default();
    }
}

} // verus!
