//! What holds of what the user does to a viewer.

use crate::app::source;
use crate::app::viewer::ViewerState;
use crate::scene::Point;
use vstd::prelude::*;

verus! {

/// Moving the layout changes the pan and nothing else of the camera, which is set from then on; the
/// time is noted and the picture lags behind. What is open and how it is drawn stays.
pub proof fn law_moving_changes_the_pan<F: Fn(Point, Point) -> Point>(
    state: &mut ViewerState,
    delta: Point,
    now: u64,
    sum: &F,
)
    requires
        call_ensures(ViewerState::pan_view::<F>, (state, delta, now, sum), ()),
    ensures
        sum.ensures(
            (old(state).viewpoint.camera@.pan, delta),
            final(state).viewpoint.camera@.pan,
        ),
        final(state).viewpoint.camera@.zoom == old(state).viewpoint.camera@.zoom,
        final(state).viewpoint.canvas_size == old(state).viewpoint.canvas_size,
        final(state).viewpoint.initialized,
        final(state).interaction.last_moved_at == Some(now),
        final(state).interaction.view_dirty,
        final(state).interaction.rebuild_pending == old(state).interaction.rebuild_pending,
        final(state).source == old(state).source,
        final(state).shown == old(state).shown,
        final(state).levels == old(state).levels,
        final(state).look == old(state).look,
        final(state).settings == old(state).settings,
{
}

/// A frame that was not simplified has caught up with the camera; a simplified one leaves the
/// picture lagging where it did. Nothing else changes.
pub proof fn law_frames_catch_up(state: &mut ViewerState, simplified: bool)
    requires
        call_ensures(ViewerState::after_frame, (state, simplified), ()),
    ensures
        !simplified ==> !final(state).interaction.view_dirty,
        simplified ==> final(state).interaction.view_dirty == old(state).interaction.view_dirty,
        final(state).interaction.last_moved_at == old(state).interaction.last_moved_at,
        final(state).interaction.rebuild_pending == old(state).interaction.rebuild_pending,
        final(state).viewpoint == old(state).viewpoint,
        final(state).shown == old(state).shown,
        final(state).source == old(state).source,
{
}

/// No other frame follows just where nothing asks for one: neither the controls, nor missing
/// entries, nor a movement less than a hundred and twenty milliseconds old, nor a picture that
/// lags behind, nor a scene to be built anew.
pub proof fn law_when_frames_stop(
    state: &ViewerState,
    missing: usize,
    wanted: bool,
    elapsed: Option<u64>,
    again: bool,
)
    requires
        call_ensures(ViewerState::wants_next_frame, (state, missing, wanted, elapsed), again),
    ensures
        !again <==> !wanted && missing == 0 && !state.interaction.view_dirty
            && !state.interaction.rebuild_pending && (elapsed matches Some(nanos) ==> nanos
            > 120_000_000),
{
}

} // verus!
