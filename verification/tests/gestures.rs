//! Gesture aggregation: coalescing, the draw-position policy, and the
//! per-device frame outcomes.

use chameleos::geom::Point;
use chameleos::gesture::Event;
use chameleos::gesture::EventSequence;
use chameleos::gesture::draw_pos;
use chameleos::session::Device;

fn assert_empty_snapshot(s: &EventSequence) {
    assert!(s.motion.is_none());
    assert!(!s.pressed);
    assert!(!s.released);
    assert!(!s.erase_pressed);
    assert!(!s.erase_released);
    assert!(s.enter_serial.is_none());
    assert!(!s.left);
}

#[test]
fn frame_only_yields_default_snapshots() {
    let mut seq = EventSequence::new();
    for _ in 0..5 {
        let snap = seq.dispatch(Event::Frame).expect("frame emits a snapshot");
        assert_empty_snapshot(&snap);
    }
}

#[test]
fn non_frame_events_emit_nothing() {
    let mut seq = EventSequence::new();
    assert!(seq.dispatch(Event::Motion { x: 3, y: 4 }).is_none());
    assert!(seq.dispatch(Event::Press { serial: 7 }).is_none());
    assert!(seq.dispatch(Event::Enter { serial: 9 }).is_none());
}

#[test]
fn snapshot_coalesces_burst_and_resets() {
    let mut seq = EventSequence::new();
    seq.dispatch(Event::Enter { serial: 11 });
    seq.dispatch(Event::Motion { x: 1, y: 2 });
    seq.dispatch(Event::Motion { x: 5, y: 6 });
    seq.dispatch(Event::Press { serial: 12 });
    let snap = seq.dispatch(Event::Frame).unwrap();
    assert_eq!(snap.motion, Some(Point { x: 5, y: 6 }));
    assert!(snap.pressed);
    assert!(!snap.released);
    assert_eq!(snap.enter_serial, Some(11));
    // the accumulator is fresh again
    let snap2 = seq.dispatch(Event::Frame).unwrap();
    assert_empty_snapshot(&snap2);
}

#[test]
fn edges_between_frames_are_never_lost() {
    let mut seq = EventSequence::new();
    seq.dispatch(Event::Press { serial: 1 });
    seq.dispatch(Event::Release);
    let snap = seq.dispatch(Event::Frame).unwrap();
    assert!(snap.pressed);
    assert!(snap.released);
}

#[test]
fn draw_pos_motion_wins_while_held() {
    let motion = Some(Point { x: 10, y: 10 });
    let resting = Some(Point { x: 1, y: 1 });
    assert_eq!(draw_pos(true, motion, true, resting), motion);
    assert_eq!(draw_pos(false, motion, true, resting), motion);
}

#[test]
fn draw_pos_press_without_motion_uses_resting_position() {
    let resting = Some(Point { x: 1, y: 1 });
    assert_eq!(draw_pos(true, None, true, resting), resting);
    assert_eq!(draw_pos(true, None, false, resting), resting);
}

#[test]
fn draw_pos_idle_device_draws_nowhere() {
    let resting = Some(Point { x: 1, y: 1 });
    assert_eq!(draw_pos(false, None, false, resting), None);
    assert_eq!(draw_pos(false, Some(Point { x: 2, y: 2 }), false, resting), None);
    assert_eq!(draw_pos(true, None, false, None), None);
}

#[test]
fn device_press_with_motion_draws_at_motion() {
    let mut dev = Device::new(true);
    dev.handle(Event::Press { serial: 1 });
    dev.handle(Event::Motion { x: 40, y: 50 });
    let out = dev.handle(Event::Frame).unwrap();
    assert_eq!(out.draw_at, Some(Point { x: 40, y: 50 }));
    assert!(!out.finalize);
}

#[test]
fn device_press_without_motion_draws_at_last_known_position() {
    let mut dev = Device::new(true);
    dev.handle(Event::Motion { x: 7, y: 8 });
    dev.handle(Event::Frame);
    dev.handle(Event::Press { serial: 1 });
    let out = dev.handle(Event::Frame).unwrap();
    assert_eq!(out.draw_at, Some(Point { x: 7, y: 8 }));
}

#[test]
fn device_release_requests_finalize() {
    let mut dev = Device::new(true);
    dev.handle(Event::Press { serial: 1 });
    dev.handle(Event::Motion { x: 0, y: 0 });
    dev.handle(Event::Frame);
    dev.handle(Event::Release);
    let out = dev.handle(Event::Frame).unwrap();
    assert!(out.finalize);
    assert_eq!(out.draw_at, None);
}

#[test]
fn device_erase_button_reports_erase_position() {
    let mut dev = Device::new(true);
    dev.handle(Event::ErasePress);
    dev.handle(Event::Motion { x: 30, y: 31 });
    let out = dev.handle(Event::Frame).unwrap();
    assert_eq!(out.erase_at, Some(Point { x: 30, y: 31 }));
    assert_eq!(out.draw_at, None);
}

#[test]
fn mouse_device_forgets_position_on_leave() {
    let mut dev = Device::new(true);
    dev.handle(Event::Motion { x: 7, y: 8 });
    dev.handle(Event::Frame);
    dev.handle(Event::Leave);
    dev.handle(Event::Frame);
    dev.handle(Event::Press { serial: 2 });
    let out = dev.handle(Event::Frame).unwrap();
    assert_eq!(out.draw_at, None);
}

#[test]
fn stylus_device_keeps_position_out_of_proximity() {
    let mut dev = Device::new(false);
    dev.handle(Event::Motion { x: 7, y: 8 });
    dev.handle(Event::Frame);
    dev.handle(Event::Leave);
    dev.handle(Event::Frame);
    dev.handle(Event::Press { serial: 2 });
    let out = dev.handle(Event::Frame).unwrap();
    assert_eq!(out.draw_at, Some(Point { x: 7, y: 8 }));
}
