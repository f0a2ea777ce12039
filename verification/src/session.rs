//! One pointing device driving the drawing.
//!
//! [`Device`] owns a device's accumulator and resting state and turns
//! each frame event into a [`FrameOutcome`]: the decisions of that
//! input tick. [`apply_outcome`] replays the decisions on a
//! [`DrawState`]. The mouse and each stylus tool run one `Device` each,
//! with the same draw-position policy; only what a leave event does to
//! the resting position is chosen per device.

use vstd::prelude::*;

use crate::draw::DrawState;
use crate::draw::DrawView;
use crate::draw::draw_wf;
use crate::draw::spec_add_point;
use crate::draw::spec_cut_line;
use crate::draw::spec_erase;
use crate::geom::Point;
use crate::geom::device_in_bounds;
use crate::gesture::DeviceState;
use crate::gesture::Event;
use crate::gesture::EventSequence;
use crate::gesture::accumulate;
use crate::gesture::apply_snapshot;
use crate::gesture::draw_pos;
use crate::gesture::empty_sequence;
use crate::gesture::event_in_bounds;
use crate::gesture::sequence_in_bounds;
use crate::gesture::spec_draw_pos;
use crate::gesture::state_in_bounds;

verus! {

/// What one frame of device input decided: the coalesced snapshot, the
/// position to draw at (if any), the position to erase at (if any),
/// and whether the in-progress stroke is to be finalized.
pub struct FrameOutcome {
    /// The frame's coalesced snapshot, for callers that also need its
    /// serials.
    pub snapshot: EventSequence,
    /// Where to extend the in-progress stroke this frame.
    pub draw_at: Option<Point>,
    /// Where to erase this frame.
    pub erase_at: Option<Point>,
    /// The drawing button or pen was released: finalize the stroke.
    pub finalize: bool,
}

/// The outcome the policy derives from a frame's snapshot and the
/// device state already advanced by that snapshot.
pub open spec fn spec_outcome(after: DeviceState, snap: EventSequence) -> FrameOutcome {
    FrameOutcome {
        snapshot: snap,
        draw_at: spec_draw_pos(snap.pressed, snap.motion, after.held, after.pos),
        erase_at: spec_draw_pos(snap.erase_pressed, snap.motion, after.erase_held, after.pos),
        finalize: snap.released,
    }
}

/// Both positions of the outcome, where present, are admissible.
pub open spec fn outcome_in_bounds(o: FrameOutcome) -> bool {
    &&& match o.draw_at {
        Some(p) => device_in_bounds(p.x, p.y),
        None => true,
    }
    &&& match o.erase_at {
        Some(p) => device_in_bounds(p.x, p.y),
        None => true,
    }
}

/// One pointing device: its in-flight accumulator and resting state.
pub struct Device {
    /// The accumulator of the current input tick.
    pub sequence: EventSequence,
    /// The resting state between ticks.
    pub state: DeviceState,
}

/// The device holds admissible positions only.
pub open spec fn device_wf(d: Device) -> bool {
    sequence_in_bounds(d.sequence) && state_in_bounds(d.state)
}

impl Device {
    /// A device that has not been heard from yet. The flag says what a
    /// leave event does to the resting position: a mouse leaving the
    /// surface forgets it, a stylus going out of proximity keeps it.
    pub fn new(forget_pos_on_leave: bool) -> (r: Device)
        ensures
            r.sequence == empty_sequence(),
            r.state == (DeviceState {
                pos: None,
                held: false,
                erase_held: false,
                forget_pos_on_leave,
            }),
            device_wf(r),
    {
        Device { sequence: EventSequence::new(), state: DeviceState::new(forget_pos_on_leave) }
    }

    /// Feed one raw event. Between frames, events only accumulate. On
    /// the frame event, the snapshot advances the resting state and the
    /// draw-position policy decides where, if anywhere, to draw and to
    /// erase this tick.
    pub fn handle(&mut self, ev: Event) -> (r: Option<FrameOutcome>)
        requires
            device_wf(*old(self)),
            event_in_bounds(ev),
        ensures
            device_wf(*final(self)),
            ev != Event::Frame ==> *final(self) == (Device {
                sequence: accumulate(old(self).sequence, ev),
                state: old(self).state,
            }) && r is None,
            ev == Event::Frame ==> *final(self) == (Device {
                sequence: empty_sequence(),
                state: apply_snapshot(old(self).state, old(self).sequence),
            }) && r == Some(
                spec_outcome(apply_snapshot(old(self).state, old(self).sequence), old(self).sequence),
            ),
            r matches Some(o) ==> outcome_in_bounds(o),
    {
        match self.sequence.dispatch(ev) {
            Some(snap) => {
                self.state.update_state(&snap);
                let at = draw_pos(snap.pressed, snap.motion, self.state.held, self.state.pos);
                let erase_at = draw_pos(
                    snap.erase_pressed,
                    snap.motion,
                    self.state.erase_held,
                    self.state.pos,
                );
                Some(FrameOutcome { snapshot: snap, draw_at: at, erase_at, finalize: snap.released })
            },
            None => None,
        }
    }
}

/// The drawing state after one frame's decisions are replayed on it:
/// first the stroke is extended, then the eraser acts, then a released
/// button finalizes the stroke.
pub open spec fn spec_apply_outcome(v: DrawView, o: FrameOutcome) -> DrawView {
    let v1 = match o.draw_at {
        Some(p) => spec_add_point(v, p),
        None => v,
    };
    let v2 = match o.erase_at {
        Some(p) => spec_erase(v1, p),
        None => v1,
    };
    if o.finalize {
        spec_cut_line(v2)
    } else {
        v2
    }
}

/// Replay one frame's decisions on the drawing.
pub fn apply_outcome(draw: &mut DrawState, o: &FrameOutcome)
    requires
        draw_wf(old(draw)@),
        outcome_in_bounds(*o),
        old(draw)@.next_id < u64::MAX - 1,
    ensures
        final(draw)@ == spec_apply_outcome(old(draw)@, *o),
        draw_wf(final(draw)@),
{
    if let Some(p) = o.draw_at {
        draw.add_point_to_line(p);
    }
    if let Some(p) = o.erase_at {
        draw.erase(p);
    }
    if o.finalize {
        draw.cut_line();
    }
}

} // verus!
