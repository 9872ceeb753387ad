//! Where the layout is seen from.
//!
//! Pan and zoom are held as coordinate keys. What is computed of them is told by the caller; which
//! values the camera takes over is decided here.

use crate::coords;
use crate::coords::{key_is_nan, ONE_KEY};
use crate::scene::{Bounds, Point};
use vstd::prelude::*;

verus! {

/// The least zoom, as a coordinate key: a millionth.
pub const MIN_ZOOM: i32 = 0x3586_37bd;

/// The greatest zoom, as a coordinate key: ten thousand.
pub const MAX_ZOOM: i32 = 0x461c_4000;

/// The zoom that the camera takes for one that is asked for: the nearest within the limits. What
/// is no number stays as it is.
pub open spec fn clamped_zoom(zoom: i32) -> i32 {
    if coords::is_nan_key(zoom) {
        zoom
    } else if zoom < MIN_ZOOM {
        MIN_ZOOM
    } else if zoom > MAX_ZOOM {
        MAX_ZOOM
    } else {
        zoom
    }
}

fn clamp_zoom(zoom: i32) -> (clamped: i32)
    ensures
        clamped == clamped_zoom(zoom),
{
    if key_is_nan(zoom) {
        zoom
    } else if zoom < MIN_ZOOM {
        MIN_ZOOM
    } else if zoom > MAX_ZOOM {
        MAX_ZOOM
    } else {
        zoom
    }
}

/// Where the layout is seen from.
#[derive(Debug, Clone, Copy, PartialEq, Eq, Structural)]
pub struct Camera2D {
    pan: Point,
    zoom: i32,
}

/// What a camera is.
pub struct CameraModel {
    pub pan: Point,
    pub zoom: i32,
}

impl View for Camera2D {
    type V = CameraModel;

    closed spec fn view(&self) -> CameraModel {
        CameraModel { pan: self.pan, zoom: self.zoom }
    }
}

/// How a change of zoom is computed: the zoom times a factor, whether two zooms are too close to
/// be told apart, and the pan that keeps a point of the screen in its place.
pub struct Zooming {
    pub product: spec_fn(i32, i32) -> i32,
    pub close: spec_fn(i32, i32) -> bool,
    pub pan: spec_fn(Point, Point, i32, i32) -> Point,
}

/// Whether the three functions compute in this way.
pub open spec fn zooms<
    M: Fn(i32, i32) -> i32,
    N: Fn(i32, i32) -> bool,
    P: Fn(Point, Point, i32, i32) -> Point,
>(product: M, close: N, pan: P, d: Zooming) -> bool {
    &&& forall|a: i32, b: i32, r: i32| #[trigger]
        product.ensures((a, b), r) ==> r == (d.product)(a, b)
    &&& forall|a: i32, b: i32, r: bool| #[trigger]
        close.ensures((a, b), r) ==> r == (d.close)(a, b)
    &&& forall|from: Point, cursor: Point, next: i32, previous: i32, r: Point| #[trigger]
        pan.ensures((from, cursor, next, previous), r) ==> r == (d.pan)(
            from,
            cursor,
            next,
            previous,
        )
}

/// The camera after a change of zoom by a factor, with the point under the cursor in its place. A
/// change too small to be told leaves it alone.
pub open spec fn zoomed(
    before: CameraModel,
    factor: i32,
    cursor: Point,
    d: Zooming,
) -> CameraModel {
    let next = clamped_zoom((d.product)(before.zoom, factor));
    if (d.close)(next, before.zoom) {
        before
    } else {
        CameraModel { pan: (d.pan)(before.pan, cursor, next, before.zoom), zoom: next }
    }
}

/// Whether the function gives this pan for every view of a rectangle.
pub open spec fn centres<C: Fn(Bounds, Point, i32) -> Point>(
    pan: C,
    d: spec_fn(Bounds, Point, i32) -> Point,
) -> bool {
    forall|bounds: Bounds, viewport: Point, zoom: i32, r: Point| #[trigger]
        pan.ensures((bounds, viewport, zoom), r) ==> r == d(bounds, viewport, zoom)
}

impl Camera2D {
    /// The camera at the origin, at a zoom of one.
    pub fn new() -> (camera: Self)
        ensures
            camera@ == (CameraModel { pan: Point { x: 0, y: 0 }, zoom: ONE_KEY }),
    {
        Camera2D { pan: Point { x: 0, y: 0 }, zoom: ONE_KEY }
    }

    /// How far the layout is shifted on the screen.
    pub fn pan(&self) -> (pan: Point)
        ensures
            pan == self@.pan,
    {
        self.pan
    }

    /// How much the layout is enlarged.
    pub fn zoom(&self) -> (zoom: i32)
        ensures
            zoom == self@.zoom,
    {
        self.zoom
    }

    /// Sets the zoom.
    pub fn set_zoom(&mut self, zoom: i32)
        ensures
            final(self)@ == (CameraModel { pan: old(self)@.pan, zoom: clamped_zoom(zoom) }),
    {
        self.zoom = clamp_zoom(zoom);
    }

    /// Sets pan and zoom.
    pub fn set_state(&mut self, pan: Point, zoom: i32)
        ensures
            final(self)@ == (CameraModel { pan, zoom: clamped_zoom(zoom) }),
    {
        self.pan = pan;
        self.zoom = clamp_zoom(zoom);
    }

    /// Shifts the layout by a distance on the screen; `sum` adds the distance to the pan.
    pub fn translate_screen<F: Fn(Point, Point) -> Point>(&mut self, delta: Point, sum: &F)
        requires
            forall|a: Point, b: Point| #[trigger] sum.requires((a, b)),
        ensures
            sum.ensures((old(self)@.pan, delta), final(self)@.pan),
            final(self)@.zoom == old(self)@.zoom,
    {
        self.pan = sum(self.pan, delta);
    }

    /// Changes the zoom by a factor, with the point under the cursor in its place. A change too
    /// small to be told leaves the camera alone.
    pub fn zoom_by<
        M: Fn(i32, i32) -> i32,
        N: Fn(i32, i32) -> bool,
        P: Fn(Point, Point, i32, i32) -> Point,
    >(&mut self, factor: i32, cursor: Point, product: &M, close: &N, pan: &P)
        requires
            forall|a: i32, b: i32| #[trigger] product.requires((a, b)),
            forall|a: i32, b: i32| #[trigger] close.requires((a, b)),
            forall|from: Point, cursor: Point, next: i32, previous: i32| #[trigger]
                pan.requires((from, cursor, next, previous)),
        ensures
            forall|d: Zooming| #[trigger]
                zooms(*product, *close, *pan, d) ==> final(self)@ == zoomed(
                    old(self)@,
                    factor,
                    cursor,
                    d,
                ),
    {
        let previous: i32 = self.zoom;
        let next: i32 = clamp_zoom(product(previous, factor));
        if close(next, previous) {
            return;
        }
        self.pan = pan(self.pan, cursor, next, previous);
        self.zoom = next;
    }

    /// Shows a rectangle in a viewport; `scale` is the zoom at which it fits, and `pan` the shift
    /// that brings its centre to that of the viewport at a zoom.
    pub fn fit_bounds<C: Fn(Bounds, Point, i32) -> Point>(
        &mut self,
        bounds: Bounds,
        viewport_size: Point,
        scale: i32,
        pan: &C,
    )
        requires
            forall|bounds: Bounds, viewport: Point, zoom: i32| #[trigger]
                pan.requires((bounds, viewport, zoom)),
        ensures
            final(self)@.zoom == clamped_zoom(scale),
            forall|d: spec_fn(Bounds, Point, i32) -> Point| #[trigger]
                centres(*pan, d) ==> final(self)@.pan == d(
                    bounds,
                    viewport_size,
                    clamped_zoom(scale),
                ),
    {
        self.zoom = clamp_zoom(scale);
        self.pan = pan(bounds, viewport_size, self.zoom);
    }
}

impl Default for Camera2D {
    fn default() -> (camera: Self)
        ensures
            camera@ == (CameraModel { pan: Point { x: 0, y: 0 }, zoom: ONE_KEY }),
    {
        Camera2D::new()
    }
}

/// The zoom that the camera takes lies within the limits, and asking for it again changes nothing.
pub proof fn law_zoom_stays_within_limits(zoom: i32)
    ensures
        clamped_zoom(clamped_zoom(zoom)) == clamped_zoom(zoom),
        !coords::is_nan_key(zoom) ==> MIN_ZOOM <= clamped_zoom(zoom) <= MAX_ZOOM,
{
}

} // verus!
