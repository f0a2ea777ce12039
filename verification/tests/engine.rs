//! The drawing state machine: decimation, chunking, finalize, undo,
//! clear and spatial erase.

use chameleos::color::Rgba;
use chameleos::draw::DrawState;
use chameleos::geom::Point;
use chameleos::gesture::Event;
use chameleos::session::Device;
use chameleos::session::apply_outcome;

const RED: Rgba = Rgba { r: 255, g: 0, b: 0, a: 255 };

fn engine() -> DrawState {
    // 8 units wide, as the tool's default; widths are in thousandths.
    DrawState::new(8000, RED)
}

fn stroke_points(d: &DrawState, i: usize) -> Vec<Point> {
    d.stroke(i).points.clone()
}

#[test]
fn one_gesture_three_points() {
    let mut d = engine();
    d.add_point_to_line(Point { x: 0, y: 0 });
    d.add_point_to_line(Point { x: 10, y: 0 });
    d.add_point_to_line(Point { x: 20, y: 0 });
    assert_eq!(d.current_points().len(), 3);
    d.cut_line();
    assert_eq!(d.stroke_count(), 1);
    assert_eq!(
        stroke_points(&d, 0),
        vec![Point { x: 0, y: 0 }, Point { x: 10, y: 0 }, Point { x: 20, y: 0 }]
    );
    assert_eq!(d.current_points().len(), 0);
}

#[test]
fn decimation_drops_points_within_epsilon() {
    let mut d = engine();
    d.add_point_to_line(Point { x: 0, y: 0 });
    // Manhattan distance 3: dropped.
    d.add_point_to_line(Point { x: 2, y: 1 });
    // Manhattan distance exactly 5: still dropped, the filter is strict.
    d.add_point_to_line(Point { x: 3, y: 2 });
    // Manhattan distance 6 from the last accepted point: kept.
    d.add_point_to_line(Point { x: 3, y: 3 });
    assert_eq!(
        d.current_points().as_slice(),
        &[Point { x: 0, y: 0 }, Point { x: 3, y: -3 }]
    );
}

#[test]
fn consecutive_accepted_points_are_spaced() {
    let mut d = engine();
    for i in 0..100i64 {
        // a dense zig-zag; most points fall to decimation
        d.add_point_to_line(Point { x: i, y: i % 3 });
    }
    let pts = d.current_points();
    for w in pts.windows(2) {
        let manhattan = (w[0].x - w[1].x).abs() + (w[0].y - w[1].y).abs();
        assert!(manhattan > 5, "{:?} and {:?} too close", w[0], w[1]);
    }
}

#[test]
fn chunking_caps_the_in_progress_stroke() {
    let mut d = engine();
    for i in 0..2049i64 {
        d.add_point_to_line(Point { x: 6 * i, y: 0 });
        assert!(d.current_points().len() <= 2048);
    }
    // crossing the cap finalized exactly one stroke holding everything
    assert_eq!(d.stroke_count(), 1);
    assert_eq!(d.stroke(0).points.len(), 2049);
    assert_eq!(d.current_points().len(), 0);
}

#[test]
fn undo_aborts_the_in_progress_stroke_first() {
    let mut d = engine();
    d.add_point_to_line(Point { x: 0, y: 0 });
    d.add_point_to_line(Point { x: 10, y: 0 });
    d.cut_line();
    d.add_point_to_line(Point { x: 100, y: 0 });
    d.undo();
    assert_eq!(d.current_points().len(), 0);
    assert_eq!(d.stroke_count(), 1);
}

#[test]
fn undo_removes_the_newest_completed_stroke() {
    let mut d = engine();
    d.add_point_to_line(Point { x: 0, y: 0 });
    d.cut_line();
    d.add_point_to_line(Point { x: 100, y: 0 });
    d.cut_line();
    d.undo();
    assert_eq!(d.stroke_count(), 1);
    assert_eq!(stroke_points(&d, 0), vec![Point { x: 0, y: 0 }]);
}

#[test]
fn undo_with_nothing_to_undo_is_a_no_op() {
    let mut d = engine();
    d.undo();
    assert_eq!(d.stroke_count(), 0);
    assert_eq!(d.current_points().len(), 0);
}

#[test]
fn clear_discards_everything() {
    let mut d = engine();
    d.add_point_to_line(Point { x: 0, y: 0 });
    d.cut_line();
    d.add_point_to_line(Point { x: 50, y: 0 });
    d.clear();
    assert_eq!(d.stroke_count(), 0);
    assert_eq!(d.current_points().len(), 0);
}

#[test]
fn erase_removes_only_the_hit_stroke() {
    let mut d = engine();
    d.add_point_to_line(Point { x: 0, y: 0 });
    d.add_point_to_line(Point { x: 10, y: 0 });
    d.cut_line();
    d.add_point_to_line(Point { x: 1000, y: 0 });
    d.add_point_to_line(Point { x: 1010, y: 0 });
    d.cut_line();
    // width 8000 thousandths is 8 units; the eraser circle has radius
    // 80 units, reaching the second stroke only
    d.erase(Point { x: 1005, y: 0 });
    assert_eq!(d.stroke_count(), 1);
    assert_eq!(stroke_points(&d, 0)[0], Point { x: 0, y: 0 });
}

#[test]
fn erase_removes_the_earliest_inserted_match() {
    let mut d = engine();
    d.add_point_to_line(Point { x: 0, y: 0 });
    d.add_point_to_line(Point { x: 10, y: 0 });
    d.cut_line();
    d.add_point_to_line(Point { x: 3, y: 0 });
    d.add_point_to_line(Point { x: 13, y: 0 });
    d.cut_line();
    let first_id = d.stroke(0).id;
    let second_id = d.stroke(1).id;
    // both strokes have a point within reach of (1, 0)
    d.erase(Point { x: 1, y: 0 });
    assert_eq!(d.stroke_count(), 1);
    assert_eq!(d.stroke(0).id, second_id);
    assert_ne!(d.stroke(0).id, first_id);
}

#[test]
fn erase_radius_is_ten_times_the_stroke_width() {
    // width 8 units: the eraser reaches strictly within 80 units
    let mut d = engine();
    d.add_point_to_line(Point { x: 0, y: 0 });
    d.cut_line();
    d.erase(Point { x: 80, y: 0 });
    assert_eq!(d.stroke_count(), 1, "a point exactly on the circle is out");
    d.erase(Point { x: 79, y: 0 });
    assert_eq!(d.stroke_count(), 0, "a point just inside is erased");
}

#[test]
fn erase_misses_leave_the_drawing_unchanged() {
    let mut d = engine();
    d.add_point_to_line(Point { x: 0, y: 0 });
    d.cut_line();
    d.erase(Point { x: 500, y: 500 });
    assert_eq!(d.stroke_count(), 1);
}

#[test]
fn erase_never_touches_the_in_progress_stroke() {
    let mut d = engine();
    d.add_point_to_line(Point { x: 0, y: 0 });
    d.erase(Point { x: 0, y: 0 });
    assert_eq!(d.current_points().len(), 1);
}

#[test]
fn positions_are_flipped_against_the_surface_height() {
    let mut d = engine();
    d.set_height(100);
    d.add_point_to_line(Point { x: 5, y: 30 });
    assert_eq!(d.current_points().as_slice(), &[Point { x: 5, y: 70 }]);
}

#[test]
fn premultiply_scales_color_channels_by_alpha() {
    let mut d = DrawState::new(8000, Rgba { r: 200, g: 100, b: 50, a: 128 });
    d.set_pre_multiply_stroke_color(true);
    assert_eq!(d.stroke_color(), Rgba { r: 100, g: 50, b: 25, a: 128 });
    // with the setting on, a new color is premultiplied on arrival
    d.set_stroke_color(Rgba { r: 255, g: 255, b: 255, a: 0 });
    assert_eq!(d.stroke_color(), Rgba { r: 0, g: 0, b: 0, a: 0 });
}

#[test]
fn stroke_identities_increase_with_insertion() {
    let mut d = engine();
    d.add_point_to_line(Point { x: 0, y: 0 });
    d.cut_line();
    d.add_point_to_line(Point { x: 100, y: 0 });
    d.cut_line();
    assert!(d.stroke(0).id < d.stroke(1).id);
}

#[test]
fn full_pipeline_draws_one_stroke() {
    let mut dev = Device::new(true);
    let mut d = engine();
    let bursts: [&[Event]; 4] = [
        &[Event::Press { serial: 1 }, Event::Motion { x: 0, y: 0 }],
        &[Event::Motion { x: 10, y: 0 }],
        &[Event::Motion { x: 20, y: 0 }],
        &[Event::Release],
    ];
    for burst in bursts {
        for &ev in burst {
            assert!(dev.handle(ev).is_none());
        }
        let out = dev.handle(Event::Frame).unwrap();
        apply_outcome(&mut d, &out);
    }
    assert_eq!(d.stroke_count(), 1);
    assert_eq!(d.stroke(0).points.len(), 3);
    assert_eq!(d.current_points().len(), 0);
}
