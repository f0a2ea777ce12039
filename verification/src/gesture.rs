//! Per-device gesture aggregation.
//!
//! A pointing device delivers a burst of raw events per input tick and
//! closes the burst with a frame event. The aggregator coalesces each
//! burst into one [`EventSequence`] snapshot, emitted exactly once per
//! frame, so the drawing logic sees an atomic view of "where is the
//! pointer and what changed" instead of reacting to every micro-event.

use vstd::prelude::*;

use crate::geom::Point;
use crate::geom::device_in_bounds;

verus! {

/// One raw event of a pointing device, in device space (top-left origin).
///
/// A mouse's left button and a stylus pen touching the surface both act
/// as the drawing edge; the mouse's right button and the stylus barrel
/// button both act as the erasing edge.
#[derive(Clone, Copy, PartialEq, Eq, Structural, Debug)]
pub enum Event {
    /// The pointer moved to a device-space position.
    Motion { x: i64, y: i64 },
    /// The drawing button or pen went down; the serial is kept only for
    /// the display protocol and does not influence drawing.
    Press { serial: u32 },
    /// The drawing button or pen went up.
    Release,
    /// The erasing button went down.
    ErasePress,
    /// The erasing button went up.
    EraseRelease,
    /// The pointer entered the surface (or the pen came into proximity).
    Enter { serial: u32 },
    /// The pointer left the surface (or the pen left proximity).
    Leave,
    /// End of the burst: no more events belong to this input tick.
    Frame,
}

/// A Motion event is admissible if its coordinates are within the
/// engine's coordinate bound; all other events always are.
pub open spec fn event_in_bounds(ev: Event) -> bool {
    match ev {
        Event::Motion { x, y } => device_in_bounds(x, y),
        _ => true,
    }
}

/// The snapshot of one input frame: everything that happened between two
/// frame events, coalesced.
#[derive(Clone, Copy, Debug)]
pub struct EventSequence {
    /// The latest motion position of the frame, if any arrived.
    pub motion: Option<Point>,
    /// The drawing button or pen went down this frame.
    pub pressed: bool,
    /// The drawing button or pen went up this frame.
    pub released: bool,
    /// The erasing button went down this frame.
    pub erase_pressed: bool,
    /// The erasing button went up this frame.
    pub erase_released: bool,
    /// The serial of an enter or proximity-in event of this frame.
    pub enter_serial: Option<u32>,
    /// The pointer left the surface this frame.
    pub left: bool,
}

/// The all-empty snapshot: no motion, no edges, no serial.
pub open spec fn empty_sequence() -> EventSequence {
    EventSequence {
        motion: None,
        pressed: false,
        released: false,
        erase_pressed: false,
        erase_released: false,
        enter_serial: None,
        left: false,
    }
}

/// How one non-frame event folds into the accumulating snapshot: motion
/// overwrites the position, edges set their flags, enter overwrites the
/// serial, and a frame event changes nothing here.
pub open spec fn accumulate(s: EventSequence, ev: Event) -> EventSequence {
    match ev {
        Event::Motion { x, y } => EventSequence { motion: Some(Point { x, y }), ..s },
        Event::Press { serial: _ } => EventSequence { pressed: true, ..s },
        Event::Release => EventSequence { released: true, ..s },
        Event::ErasePress => EventSequence { erase_pressed: true, ..s },
        Event::EraseRelease => EventSequence { erase_released: true, ..s },
        Event::Enter { serial } => EventSequence { enter_serial: Some(serial), ..s },
        Event::Leave => EventSequence { left: true, ..s },
        Event::Frame => s,
    }
}

/// The accumulator holds admissible positions only.
pub open spec fn sequence_in_bounds(s: EventSequence) -> bool {
    match s.motion {
        Some(p) => device_in_bounds(p.x, p.y),
        None => true,
    }
}

impl EventSequence {
    /// A fresh, all-empty accumulator.
    pub fn new() -> (r: EventSequence)
        ensures
            r == empty_sequence(),
    {
        EventSequence {
            motion: None,
            pressed: false,
            released: false,
            erase_pressed: false,
            erase_released: false,
            enter_serial: None,
            left: false,
        }
    }

    /// Feed one raw event. A non-frame event folds into the accumulator
    /// and yields nothing; the frame event resets the accumulator and
    /// yields it as the frame's snapshot. This is the only way a
    /// snapshot is produced, so edges set between frames are never lost
    /// and exactly one snapshot is emitted per frame.
    pub fn dispatch(&mut self, ev: Event) -> (r: Option<EventSequence>)
        ensures
            ev == Event::Frame ==> *final(self) == empty_sequence() && r == Some(*old(self)),
            ev != Event::Frame ==> *final(self) == accumulate(*old(self), ev) && r
                == None::<EventSequence>,
            *final(self) == dispatch_spec(*old(self), ev).0,
            r == dispatch_spec(*old(self), ev).1,
    {
        match ev {
            Event::Motion { x, y } => {
                self.motion = Some(Point { x, y });
                None
            },
            Event::Press { serial: _ } => {
                self.pressed = true;
                None
            },
            Event::Release => {
                self.released = true;
                None
            },
            Event::ErasePress => {
                self.erase_pressed = true;
                None
            },
            Event::EraseRelease => {
                self.erase_released = true;
                None
            },
            Event::Enter { serial } => {
                self.enter_serial = Some(serial);
                None
            },
            Event::Leave => {
                self.left = true;
                None
            },
            Event::Frame => {
                let out = *self;
                *self = EventSequence::new();
                Some(out)
            },
        }
    }
}

impl Default for EventSequence {
    /// Same as [`EventSequence::new`].
    fn default() -> (r: EventSequence)
        ensures
            r == empty_sequence(),
    {
        EventSequence::new()
    }
}

/// The accumulator's whole step: a frame event resets it and emits it;
/// any other event folds in and emits nothing. This is exactly what
/// [`EventSequence::dispatch`] promises.
pub open spec fn dispatch_spec(s: EventSequence, ev: Event) -> (EventSequence, Option<
    EventSequence,
>) {
    if ev == Event::Frame {
        (empty_sequence(), Some(s))
    } else {
        (accumulate(s, ev), None)
    }
}

/// A whole event stream run through the accumulator: the final
/// accumulator state, and every snapshot emitted along the way, in
/// order.
pub open spec fn run(s: EventSequence, evs: Seq<Event>) -> (EventSequence, Seq<EventSequence>)
    decreases evs.len(),
{
    if evs.len() == 0 {
        (s, Seq::<EventSequence>::empty())
    } else {
        let first = dispatch_spec(s, evs[0]);
        let rest = run(first.0, evs.drop_first());
        (
            rest.0,
            match first.1 {
                Some(snap) => seq![snap] + rest.1,
                None => rest.1,
            },
        )
    }
}

/// Frame-coalescing idempotence: feeding only frame events, with no
/// intervening input, to a fresh accumulator yields one snapshot per
/// frame, every one of them the all-empty snapshot, and leaves the
/// accumulator all-empty.
pub proof fn lemma_frame_coalescing_idempotent(evs: Seq<Event>)
    requires
        forall|i: int| 0 <= i < evs.len() ==> #[trigger] evs[i] == Event::Frame,
    ensures
        run(empty_sequence(), evs).0 == empty_sequence(),
        run(empty_sequence(), evs).1 == Seq::new(evs.len(), |i: int| empty_sequence()),
    decreases evs.len(),
{
    if evs.len() > 0 {
        assert(evs[0] == Event::Frame);
        let rest = evs.drop_first();
        assert forall|i: int| 0 <= i < rest.len() implies #[trigger] rest[i]
            == Event::Frame by {
            assert(rest[i] == evs[i + 1]);
        }
        lemma_frame_coalescing_idempotent(rest);
        assert(run(empty_sequence(), evs).1 =~= Seq::new(evs.len(), |i: int| empty_sequence()));
    } else {
        assert(run(empty_sequence(), evs).1 =~= Seq::new(evs.len(), |i: int| empty_sequence()));
    }
}

/// The resting state of one device between frames.
///
/// Devices differ in what a leave event means for the resting
/// position: a mouse that leaves the surface has no position any more,
/// while a stylus that goes out of proximity hovers where it was and
/// keeps it. The policy is fixed when the device is created.
#[derive(Clone, Copy, Debug)]
pub struct DeviceState {
    /// Last known pointer position, if the device has one.
    pub pos: Option<Point>,
    /// The drawing button or pen is held down.
    pub held: bool,
    /// The erasing button is held down.
    pub erase_held: bool,
    /// Whether a leave event forgets the resting position.
    pub forget_pos_on_leave: bool,
}

/// The device state holds admissible positions only.
pub open spec fn state_in_bounds(d: DeviceState) -> bool {
    match d.pos {
        Some(p) => device_in_bounds(p.x, p.y),
        None => true,
    }
}

/// How a frame's snapshot advances the device state: motion updates the
/// position; a leave event forgets it where the device's policy says so
/// (and then wins over motion in the same frame); the edge flags latch
/// the held flags (a release in the same frame wins over a press).
pub open spec fn apply_snapshot(d: DeviceState, s: EventSequence) -> DeviceState {
    DeviceState {
        pos: if s.left && d.forget_pos_on_leave {
            None
        } else if s.motion is Some {
            s.motion
        } else {
            d.pos
        },
        held: if s.released {
            false
        } else if s.pressed {
            true
        } else {
            d.held
        },
        erase_held: if s.erase_released {
            false
        } else if s.erase_pressed {
            true
        } else {
            d.erase_held
        },
        forget_pos_on_leave: d.forget_pos_on_leave,
    }
}

impl DeviceState {
    /// A device that has not been heard from: no position, nothing
    /// held, with the given leave policy.
    pub fn new(forget_pos_on_leave: bool) -> (r: DeviceState)
        ensures
            r == (DeviceState { pos: None, held: false, erase_held: false, forget_pos_on_leave }),
    {
        DeviceState { pos: None, held: false, erase_held: false, forget_pos_on_leave }
    }

    /// Advance the resting state by one frame's snapshot.
    pub fn update_state(&mut self, s: &EventSequence)
        ensures
            *final(self) == apply_snapshot(*old(self), *s),
    {
        if let Some(p) = s.motion {
            self.pos = Some(p);
        }
        if s.left && self.forget_pos_on_leave {
            self.pos = None;
        }
        if s.pressed {
            self.held = true;
        }
        if s.released {
            self.held = false;
        }
        if s.erase_pressed {
            self.erase_held = true;
        }
        if s.erase_released {
            self.erase_held = false;
        }
    }
}

/// Where drawing (or erasing) happens this frame, if anywhere: while the
/// button is held, at the frame's new motion position, if one arrived;
/// on the press edge with no motion yet, at the last known resting
/// position. Motion wins over the press position when both are present,
/// because the held flag is updated before this policy is consulted.
pub open spec fn spec_draw_pos(
    pressed: bool,
    motion: Option<Point>,
    held: bool,
    pos: Option<Point>,
) -> Option<Point> {
    if held && motion is Some {
        motion
    } else if pressed && pos is Some {
        pos
    } else {
        None
    }
}

/// The draw-position policy, used identically for stroking and erasing.
pub fn draw_pos(pressed: bool, motion: Option<Point>, held: bool, pos: Option<Point>) -> (r: Option<
    Point,
>)
    ensures
        r == spec_draw_pos(pressed, motion, held, pos),
{
    if held && motion.is_some() {
        motion
    } else if pressed && pos.is_some() {
        pos
    } else {
        None
    }
}

} // verus!
