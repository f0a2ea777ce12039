//! The drawing state machine.
//!
//! Owns the completed strokes and the in-progress point buffer, applies
//! point decimation and chunking on input, and supports finalize, undo,
//! clear and spatial erase. Positions arrive in device space (top-left
//! origin) and are flipped into drawing space (bottom-left origin) here.

use vstd::prelude::*;

use crate::color::Rgba;
use crate::color::spec_premultiplied;
use crate::geom::EPSILON;
use crate::geom::MAX_COORD;
use crate::geom::Point;
use crate::geom::device_in_bounds;
use crate::geom::dist_sq;
use crate::geom::euclid_dist_sq;
use crate::geom::manhattan;
use crate::geom::manhattan_dist;
use crate::geom::point_in_bounds;

verus! {

/// Hard cap on the in-progress point buffer: one more accepted point and
/// the buffer is force-finalized into a completed stroke, bounding both
/// per-stroke tessellation cost and total memory.
pub const MAX_POINTS: usize = 0x800;

/// One completed freehand stroke: the ordered, non-empty polyline of its
/// accepted points, and a stable identity under which a renderer may
/// cache the stroke's tessellated mesh.
#[derive(Clone, Debug)]
pub struct Stroke {
    /// Identity, unique among the strokes of one drawing for its whole
    /// lifetime; later strokes have larger identities.
    pub id: u64,
    /// The accepted points, in drawing space.
    pub points: Vec<Point>,
}

/// Spec-level value of a [`Stroke`].
#[verifier::ext_equal]
pub struct StrokeView {
    pub id: u64,
    pub points: Seq<Point>,
}

impl View for Stroke {
    type V = StrokeView;

    open spec fn view(&self) -> StrokeView {
        StrokeView { id: self.id, points: self.points@ }
    }
}

/// Spec-level value of a [`DrawState`].
#[verifier::ext_equal]
pub struct DrawView {
    pub changed: bool,
    pub height: u32,
    pub stroke_width: u32,
    pub stroke_color: Rgba,
    pub color_needs_pre_multiply: bool,
    pub current: Seq<Point>,
    pub strokes: Seq<StrokeView>,
    pub next_id: u64,
}

/// Every pair of consecutive points is more than [`EPSILON`] apart in
/// Manhattan distance; the first point of a polyline is exempt, having
/// no predecessor.
pub open spec fn spaced(s: Seq<Point>) -> bool {
    forall|i: int| 1 <= i < s.len() ==> #[trigger] manhattan(s[i - 1], s[i]) > EPSILON
}

/// All points of the polyline lie within the engine's coordinate bound.
pub open spec fn all_in_bounds(s: Seq<Point>) -> bool {
    forall|i: int| 0 <= i < s.len() ==> point_in_bounds(#[trigger] s[i])
}

/// A completed stroke is non-empty, decimated and in bounds.
pub open spec fn stroke_wf(s: StrokeView) -> bool {
    &&& s.points.len() > 0
    &&& spaced(s.points)
    &&& all_in_bounds(s.points)
}

/// Well-formedness of the whole drawing state: the surface height is
/// bounded, the in-progress buffer is decimated, in bounds and within
/// the chunking cap, every completed stroke is well-formed, and stroke
/// identities increase with insertion order and stay below the counter.
pub open spec fn draw_wf(v: DrawView) -> bool {
    &&& v.height <= MAX_COORD
    &&& v.current.len() <= MAX_POINTS
    &&& spaced(v.current)
    &&& all_in_bounds(v.current)
    &&& forall|i: int| 0 <= i < v.strokes.len() ==> stroke_wf(#[trigger] v.strokes[i])
    &&& forall|i: int, j: int|
        #![trigger v.strokes[i].id, v.strokes[j].id]
        0 <= i < j < v.strokes.len() ==> v.strokes[i].id < v.strokes[j].id
    &&& forall|i: int| 0 <= i < v.strokes.len() ==> (#[trigger] v.strokes[i].id) < v.next_id
}

/// Device-space position flipped into drawing space: `y' = height - y`.
pub open spec fn flip_y(height: u32, pos: Point) -> Point {
    Point { x: pos.x, y: (height as int - pos.y as int) as i64 }
}

/// Whether the decimation filter accepts `p` after the points `cur`: the
/// buffer is empty, or `p` is more than [`EPSILON`] away from the last
/// accepted point in Manhattan distance.
pub open spec fn accepts(cur: Seq<Point>, p: Point) -> bool {
    cur.len() == 0 || manhattan(cur.last(), p) > EPSILON
}

/// A stroke's polyline is hit by an eraser at `p` if any of its points
/// lies strictly inside the eraser circle, whose radius is ten times
/// the stroke width. The comparison is squared, never a square root:
/// with the width kept in thousandths of a unit the radius is
/// `width / 100` units, so the test is `dist_sq * 10000 < width * width`.
/// Testing the accepted points equals testing the tessellation source
/// path's segment endpoints, since that path only doubles the first
/// point (see [`spec_source_path`]).
pub open spec fn stroke_hit(points: Seq<Point>, p: Point, width: u32) -> bool {
    exists|i: int|
        0 <= i < points.len() && dist_sq(#[trigger] points[i], p) * 10000 < (width as int) * (
        width as int)
}

/// The tessellation source path of a polyline: the first point doubled,
/// then the remaining points. The doubled first point makes a
/// single-point stroke a zero-length segment, which a tessellator with
/// round caps renders as a filled dot instead of nothing; an empty
/// polyline has no path.
pub open spec fn spec_source_path(points: Seq<Point>) -> Seq<Point> {
    if points.len() == 0 {
        points
    } else {
        seq![points[0]] + points
    }
}

/// The tessellation source path of a polyline, for the renderer to
/// build its stroke path from.
pub fn source_path(points: &Vec<Point>) -> (r: Vec<Point>)
    ensures
        r@ == spec_source_path(points@),
{
    let mut r: Vec<Point> = Vec::new();
    if points.len() == 0 {
        proof {
            assert(r@ =~= spec_source_path(points@));
        }
        return r;
    }
    r.push(points[0]);
    let n = points.len();
    let mut i: usize = 0;
    while i < n
        invariant
            n == points@.len(),
            0 <= i <= n,
            n > 0,
            r@ == seq![points@[0]] + points@.take(i as int),
        decreases n - i,
    {
        r.push(points[i]);
        proof {
            assert(r@ =~= seq![points@[0]] + points@.take(i as int + 1));
        }
        i = i + 1;
    }
    proof {
        assert(points@.take(n as int) =~= points@);
        assert(r@ =~= spec_source_path(points@));
    }
    r
}

/// Index of the earliest-inserted stroke hit by an eraser at `p`, if any.
pub open spec fn first_hit(strokes: Seq<StrokeView>, p: Point, width: u32) -> Option<int>
    decreases strokes.len(),
{
    if strokes.len() == 0 {
        None
    } else if stroke_hit(strokes[0].points, p, width) {
        Some(0)
    } else {
        match first_hit(strokes.drop_first(), p, width) {
            Some(i) => Some(i + 1),
            None => None,
        }
    }
}

/// The drawing state after one device position is offered to
/// [`DrawState::add_point_to_line`]: rejected positions change nothing;
/// an accepted one is appended, and an appended point that brings the
/// buffer over [`MAX_POINTS`] force-finalizes the buffer into a new
/// completed stroke, leaving the in-progress buffer empty.
pub open spec fn spec_add_point(v: DrawView, pos: Point) -> DrawView {
    let p = flip_y(v.height, pos);
    if !accepts(v.current, p) {
        v
    } else {
        let cur = v.current.push(p);
        if cur.len() > MAX_POINTS {
            DrawView {
                changed: true,
                current: Seq::<Point>::empty(),
                strokes: v.strokes.push(StrokeView { id: v.next_id, points: cur }),
                next_id: (v.next_id + 1) as u64,
                ..v
            }
        } else {
            DrawView { changed: true, current: cur, ..v }
        }
    }
}

/// The drawing state after [`DrawState::cut_line`]: a non-empty
/// in-progress buffer becomes the newest completed stroke; an empty one
/// finalizes to nothing.
pub open spec fn spec_cut_line(v: DrawView) -> DrawView {
    if v.current.len() == 0 {
        v
    } else {
        DrawView {
            current: Seq::<Point>::empty(),
            strokes: v.strokes.push(StrokeView { id: v.next_id, points: v.current }),
            next_id: (v.next_id + 1) as u64,
            ..v
        }
    }
}

/// The drawing state after [`DrawState::undo`]: a non-empty in-progress
/// buffer is discarded and the completed strokes are left unchanged;
/// otherwise the most recently completed stroke is removed; with no
/// strokes at all, only the redraw mark is set.
pub open spec fn spec_undo(v: DrawView) -> DrawView {
    if v.current.len() > 0 {
        DrawView { changed: true, current: Seq::<Point>::empty(), ..v }
    } else if v.strokes.len() > 0 {
        DrawView { changed: true, strokes: v.strokes.drop_last(), ..v }
    } else {
        DrawView { changed: true, ..v }
    }
}

/// The drawing state after [`DrawState::clear`]: no strokes, no
/// in-progress points.
pub open spec fn spec_clear(v: DrawView) -> DrawView {
    DrawView {
        changed: true,
        current: Seq::<Point>::empty(),
        strokes: Seq::<StrokeView>::empty(),
        ..v
    }
}

/// The drawing state after [`DrawState::erase`]: the earliest-inserted
/// stroke hit by the eraser is removed; nothing changes when none is
/// hit.
pub open spec fn spec_erase(v: DrawView, pos: Point) -> DrawView {
    let p = flip_y(v.height, pos);
    match first_hit(v.strokes, p, v.stroke_width) {
        Some(i) => DrawView { changed: true, strokes: v.strokes.remove(i), ..v },
        None => v,
    }
}

/// Appending a point the decimation filter accepts keeps a polyline
/// decimated.
proof fn lemma_spaced_push(s: Seq<Point>, p: Point)
    requires
        spaced(s),
        accepts(s, p),
    ensures
        spaced(s.push(p)),
{
    let t = s.push(p);
    assert forall|i: int| 1 <= i < t.len() implies #[trigger] manhattan(t[i - 1], t[i])
        > EPSILON by {
        if i < s.len() {
            assert(t[i - 1] == s[i - 1]);
            assert(t[i] == s[i]);
        } else {
            assert(t[i] == p);
            assert(t[i - 1] == s[i - 1]);
            assert(s[i - 1] == s.last());
        }
    }
}

/// Squared distances of in-bounds points are small enough that the
/// eraser comparison cannot overflow.
proof fn lemma_dist_sq_bound(a: Point, b: Point)
    requires
        point_in_bounds(a),
        point_in_bounds(b),
    ensures
        0 <= dist_sq(a, b) <= 32 * (MAX_COORD as int) * (MAX_COORD as int),
{
    assert(0 <= dist_sq(a, b) <= 32 * (MAX_COORD as int) * (MAX_COORD as int))
        by (nonlinear_arith)
        requires
            point_in_bounds(a),
            point_in_bounds(b),
    ;
}

/// A scan from the front that saw no hit among the first `i` strokes
/// and a hit at stroke `i` has found the first hit.
proof fn lemma_first_hit_at(strokes: Seq<StrokeView>, p: Point, width: u32, i: int)
    requires
        0 <= i < strokes.len(),
        stroke_hit(strokes[i].points, p, width),
        forall|k: int| 0 <= k < i ==> !stroke_hit(#[trigger] strokes[k].points, p, width),
    ensures
        first_hit(strokes, p, width) == Some(i),
    decreases i,
{
    if i == 0 {
    } else {
        assert(!stroke_hit(strokes[0].points, p, width));
        let rest = strokes.drop_first();
        assert(rest[i - 1] == strokes[i]);
        assert forall|k: int| 0 <= k < i - 1 implies !stroke_hit(
            (#[trigger] rest[k]).points,
            p,
            width,
        ) by {
            assert(rest[k] == strokes[k + 1]);
        }
        lemma_first_hit_at(rest, p, width, i - 1);
    }
}

/// A scan from the front that saw no hit at all proves there is none.
proof fn lemma_first_hit_none(strokes: Seq<StrokeView>, p: Point, width: u32)
    requires
        forall|k: int|
            0 <= k < strokes.len() ==> !stroke_hit(#[trigger] strokes[k].points, p, width),
    ensures
        first_hit(strokes, p, width) is None,
    decreases strokes.len(),
{
    if strokes.len() > 0 {
        assert(!stroke_hit(strokes[0].points, p, width));
        let rest = strokes.drop_first();
        assert forall|k: int| 0 <= k < rest.len() implies !stroke_hit(
            (#[trigger] rest[k]).points,
            p,
            width,
        ) by {
            assert(rest[k] == strokes[k + 1]);
        }
        lemma_first_hit_none(rest, p, width);
    }
}

/// Pushing a well-formed stroke with the next identity onto a
/// well-formed drawing, emptying the in-progress buffer and advancing
/// the counter, keeps the drawing well-formed.
proof fn lemma_wf_push_stroke(pre: DrawView, post: DrawView, pts: Seq<Point>)
    requires
        draw_wf(pre),
        stroke_wf(StrokeView { id: pre.next_id, points: pts }),
        post.height == pre.height,
        post.current.len() == 0,
        post.strokes == pre.strokes.push(StrokeView { id: pre.next_id, points: pts }),
        post.next_id == pre.next_id + 1,
    ensures
        draw_wf(post),
{
    assert forall|i: int| 0 <= i < post.strokes.len() implies stroke_wf(
        #[trigger] post.strokes[i],
    ) by {
        if i < pre.strokes.len() {
            assert(post.strokes[i] == pre.strokes[i]);
        }
    }
    assert forall|i: int, j: int|
        #![trigger post.strokes[i].id, post.strokes[j].id]
        0 <= i < j < post.strokes.len() implies post.strokes[i].id < post.strokes[j].id by {
        if j < pre.strokes.len() {
            assert(post.strokes[i] == pre.strokes[i]);
            assert(post.strokes[j] == pre.strokes[j]);
        } else {
            assert(post.strokes[i] == pre.strokes[i]);
            assert(post.strokes[j].id == pre.next_id);
        }
    }
    assert forall|i: int| 0 <= i < post.strokes.len() implies (#[trigger] post.strokes[i].id)
        < post.next_id by {
        if i < pre.strokes.len() {
            assert(post.strokes[i] == pre.strokes[i]);
        }
    }
}

/// Removing one stroke keeps the drawing well-formed.
proof fn lemma_wf_remove_stroke(pre: DrawView, post: DrawView, at: int)
    requires
        draw_wf(pre),
        0 <= at < pre.strokes.len(),
        post == (DrawView { changed: post.changed, strokes: pre.strokes.remove(at), ..pre }),
    ensures
        draw_wf(post),
{
    assert forall|i: int| 0 <= i < post.strokes.len() implies stroke_wf(
        #[trigger] post.strokes[i],
    ) by {
        if i < at {
            assert(post.strokes[i] == pre.strokes[i]);
        } else {
            assert(post.strokes[i] == pre.strokes[i + 1]);
        }
    }
    assert forall|i: int, j: int|
        #![trigger post.strokes[i].id, post.strokes[j].id]
        0 <= i < j < post.strokes.len() implies post.strokes[i].id < post.strokes[j].id by {
        let i0 = if i < at { i } else { i + 1 };
        let j0 = if j < at { j } else { j + 1 };
        assert(post.strokes[i] == pre.strokes[i0]);
        assert(post.strokes[j] == pre.strokes[j0]);
    }
    assert forall|i: int| 0 <= i < post.strokes.len() implies (#[trigger] post.strokes[i].id)
        < post.next_id by {
        let i0 = if i < at { i } else { i + 1 };
        assert(post.strokes[i] == pre.strokes[i0]);
    }
}

/// Whether any point of the polyline is within the eraser's reach.
fn polyline_hit(points: &Vec<Point>, p: Point, width: u32) -> (r: bool)
    requires
        all_in_bounds(points@),
        point_in_bounds(p),
    ensures
        r == stroke_hit(points@, p, width),
{
    let n = points.len();
    let mut j: usize = 0;
    while j < n
        invariant
            n == points@.len(),
            0 <= j <= n,
            all_in_bounds(points@),
            point_in_bounds(p),
            forall|k: int|
                0 <= k < j ==> !(dist_sq(#[trigger] points@[k], p) * 10000 < (width as int) * (
                width as int)),
        decreases n - j,
    {
        let d = euclid_dist_sq(points[j], p);
        proof {
            lemma_dist_sq_bound(points@[j as int], p);
            assert((width as int) * (width as int) <= 0xffff_ffff * 0xffff_ffff)
                by (nonlinear_arith)
                requires
                    width <= 0xffff_ffffu32,
            ;
        }
        if (d as i128) * 10000 < (width as i128) * (width as i128) {
            return true;
        }
        j = j + 1;
    }
    false
}

/// The lowest index of a stroke hit by the eraser, scanning in
/// insertion order.
fn find_first_hit(strokes: &Vec<Stroke>, p: Point, width: u32) -> (r: Option<usize>)
    requires
        forall|i: int|
            0 <= i < strokes@.len() ==> all_in_bounds((#[trigger] strokes@[i])@.points),
        point_in_bounds(p),
    ensures
        r matches Some(i) ==> i < strokes@.len() && first_hit(
            strokes@.map_values(|s: Stroke| s@),
            p,
            width,
        ) == Some(i as int),
        r is None ==> first_hit(strokes@.map_values(|s: Stroke| s@), p, width)
            == None::<int>,
{
    let ghost views = strokes@.map_values(|s: Stroke| s@);
    let n = strokes.len();
    let mut i: usize = 0;
    while i < n
        invariant
            n == strokes@.len(),
            0 <= i <= n,
            views == strokes@.map_values(|s: Stroke| s@),
            point_in_bounds(p),
            forall|k: int|
                0 <= k < strokes@.len() ==> all_in_bounds((#[trigger] strokes@[k])@.points),
            forall|k: int| 0 <= k < i ==> !stroke_hit((#[trigger] views[k]).points, p, width),
        decreases n - i,
    {
        if polyline_hit(&strokes[i].points, p, width) {
            proof {
                assert(views[i as int].points == strokes@[i as int]@.points);
                lemma_first_hit_at(views, p, width, i as int);
            }
            return Some(i);
        }
        proof {
            assert(views[i as int].points == strokes@[i as int]@.points);
        }
        i = i + 1;
    }
    proof {
        lemma_first_hit_none(views, p, width);
    }
    None
}

/// Wherever the first hit lands, it is a real hit, it is the earliest
/// one, and a missing hit means no stroke is hit at all.
pub proof fn lemma_first_hit_sound(strokes: Seq<StrokeView>, p: Point, width: u32)
    ensures
        match first_hit(strokes, p, width) {
            Some(i) => 0 <= i < strokes.len() && stroke_hit(strokes[i].points, p, width)
                && (forall|k: int|
                0 <= k < i ==> !stroke_hit((#[trigger] strokes[k]).points, p, width)),
            None => forall|k: int|
                0 <= k < strokes.len() ==> !stroke_hit(
                    (#[trigger] strokes[k]).points,
                    p,
                    width,
                ),
        },
    decreases strokes.len(),
{
    if strokes.len() > 0 && !stroke_hit(strokes[0].points, p, width) {
        let rest = strokes.drop_first();
        lemma_first_hit_sound(rest, p, width);
        match first_hit(rest, p, width) {
            Some(ri) => {
                assert(strokes[ri + 1] == rest[ri]);
                assert forall|k: int| 0 <= k < ri + 1 implies !stroke_hit(
                    (#[trigger] strokes[k]).points,
                    p,
                    width,
                ) by {
                    if k > 0 {
                        assert(rest[k - 1] == strokes[k]);
                        assert(!stroke_hit(rest[k - 1].points, p, width));
                    }
                }
            },
            None => {
                assert forall|k: int| 0 <= k < strokes.len() implies !stroke_hit(
                    (#[trigger] strokes[k]).points,
                    p,
                    width,
                ) by {
                    if k > 0 {
                        assert(rest[k - 1] == strokes[k]);
                        assert(!stroke_hit(rest[k - 1].points, p, width));
                    }
                }
            },
        }
    }
}

/// Decimation law: in a well-formed drawing — and every operation of
/// the engine both requires and re-establishes well-formedness — any
/// two consecutive accepted points, in the in-progress stroke and in
/// every completed stroke, are more than [`EPSILON`] apart in Manhattan
/// distance; only a polyline's first point has no such constraint.
pub proof fn lemma_decimation(v: DrawView)
    requires
        draw_wf(v),
    ensures
        spaced(v.current),
        forall|k: int| 0 <= k < v.strokes.len() ==> spaced((#[trigger] v.strokes[k]).points),
{
    assert forall|k: int| 0 <= k < v.strokes.len() implies spaced(
        (#[trigger] v.strokes[k]).points,
    ) by {
        assert(stroke_wf(v.strokes[k]));
    }
}

/// Chunking law, resting part: a well-formed in-progress stroke never
/// holds more than [`MAX_POINTS`] points.
pub proof fn lemma_chunking_cap(v: DrawView)
    requires
        draw_wf(v),
    ensures
        v.current.len() <= MAX_POINTS,
{
}

/// Chunking law, crossing part: accepting a point into a full
/// in-progress buffer yields exactly one newly finalized stroke,
/// holding all the buffered points, and an empty in-progress buffer.
pub proof fn lemma_chunking_crossing(v: DrawView, pos: Point)
    requires
        draw_wf(v),
        v.current.len() == MAX_POINTS,
        accepts(v.current, flip_y(v.height, pos)),
    ensures
        spec_add_point(v, pos).strokes.len() == v.strokes.len() + 1,
        spec_add_point(v, pos).strokes.last().points == v.current.push(flip_y(v.height, pos)),
        spec_add_point(v, pos).current.len() == 0,
{
}

/// Undo two-tier law: undoing with a non-empty in-progress stroke
/// clears only that stroke; undoing with an empty one removes exactly
/// the most recent completed stroke; with nothing to undo, nothing but
/// the redraw mark changes.
pub proof fn lemma_undo_two_tier(v: DrawView)
    requires
        draw_wf(v),
    ensures
        v.current.len() > 0 ==> spec_undo(v).current.len() == 0 && spec_undo(v).strokes
            == v.strokes,
        v.current.len() == 0 && v.strokes.len() > 0 ==> spec_undo(v).strokes
            == v.strokes.drop_last() && spec_undo(v).current == v.current,
        v.current.len() == 0 && v.strokes.len() == 0 ==> spec_undo(v).strokes == v.strokes
            && spec_undo(v).current == v.current,
{
}

/// Erase single-removal law: one erase removes at most one stroke; when
/// several strokes are within the eraser's reach, the earliest-inserted
/// one is removed and every earlier stroke is kept untouched; when none
/// is, the drawing is unchanged.
pub proof fn lemma_erase_single_removal(v: DrawView, pos: Point)
    requires
        draw_wf(v),
    ensures
        spec_erase(v, pos).strokes.len() >= v.strokes.len() - 1,
        match first_hit(v.strokes, flip_y(v.height, pos), v.stroke_width) {
            Some(i) => {
                &&& stroke_hit(v.strokes[i].points, flip_y(v.height, pos), v.stroke_width)
                &&& forall|k: int|
                    0 <= k < i ==> !stroke_hit(
                        (#[trigger] v.strokes[k]).points,
                        flip_y(v.height, pos),
                        v.stroke_width,
                    )
                &&& spec_erase(v, pos).strokes == v.strokes.remove(i)
                &&& forall|k: int|
                    0 <= k < i ==> (#[trigger] spec_erase(v, pos).strokes[k]) == v.strokes[k]
            },
            None => spec_erase(v, pos) == v,
        },
{
    lemma_first_hit_sound(v.strokes, flip_y(v.height, pos), v.stroke_width);
}

/// The drawing state machine: the authoritative owner of all strokes.
pub struct DrawState {
    changed: bool,
    height: u32,
    stroke_width: u32,
    stroke_color: Rgba,
    color_needs_pre_multiply: bool,
    current_line: Vec<Point>,
    strokes: Vec<Stroke>,
    next_id: u64,
}

impl View for DrawState {
    type V = DrawView;

    closed spec fn view(&self) -> DrawView {
        DrawView {
            changed: self.changed,
            height: self.height,
            stroke_width: self.stroke_width,
            stroke_color: self.stroke_color,
            color_needs_pre_multiply: self.color_needs_pre_multiply,
            current: self.current_line@,
            strokes: self.strokes@.map_values(|s: Stroke| s@),
            next_id: self.next_id,
        }
    }
}

impl DrawState {
    /// A fresh drawing: no strokes, no in-progress points, the given
    /// stroke width (in thousandths of a unit) and color.
    pub fn new(stroke_width: u32, stroke_color: Rgba) -> (r: DrawState)
        ensures
            r@ == (DrawView {
                changed: true,
                height: 0,
                stroke_width,
                stroke_color,
                color_needs_pre_multiply: false,
                current: Seq::<Point>::empty(),
                strokes: Seq::<StrokeView>::empty(),
                next_id: 0,
            }),
            draw_wf(r@),
    {
        let r = DrawState {
            changed: true,
            height: 0,
            stroke_width,
            stroke_color,
            color_needs_pre_multiply: false,
            current_line: Vec::new(),
            strokes: Vec::new(),
            next_id: 0,
        };
        proof {
            assert(r@.strokes =~= Seq::<StrokeView>::empty());
            assert(r@ =~= (DrawView {
                changed: true,
                height: 0,
                stroke_width,
                stroke_color,
                color_needs_pre_multiply: false,
                current: Seq::<Point>::empty(),
                strokes: Seq::<StrokeView>::empty(),
                next_id: 0,
            }));
        }
        r
    }

    /// The surface height used to flip incoming device positions.
    pub fn set_height(&mut self, height: u32)
        requires
            height <= MAX_COORD as u32,
        ensures
            final(self)@ == (DrawView { height, ..old(self)@ }),
    {
        self.height = height;
    }

    /// The stroke width, in thousandths of a drawing-space unit.
    pub fn set_stroke_width(&mut self, width: u32)
        ensures
            final(self)@ == (DrawView { stroke_width: width, ..old(self)@ }),
    {
        self.stroke_width = width;
    }

    /// The stroke color; premultiplied on arrival when the premultiply
    /// setting is on.
    pub fn set_stroke_color(&mut self, color: Rgba)
        ensures
            final(self)@ == (DrawView {
                stroke_color: if old(self)@.color_needs_pre_multiply {
                    spec_premultiplied(color)
                } else {
                    color
                },
                ..old(self)@
            }),
    {
        self.stroke_color = color;
        if self.color_needs_pre_multiply {
            self.pre_multiply_stroke_color();
        }
    }

    /// Whether colors must be premultiplied for the surface's alpha
    /// mode; turning it on premultiplies the current color at once.
    pub fn set_pre_multiply_stroke_color(&mut self, b: bool)
        ensures
            final(self)@ == (DrawView {
                stroke_color: if b {
                    spec_premultiplied(old(self)@.stroke_color)
                } else {
                    old(self)@.stroke_color
                },
                color_needs_pre_multiply: b,
                ..old(self)@
            }),
    {
        if b {
            self.pre_multiply_stroke_color();
        }
        self.color_needs_pre_multiply = b;
    }

    /// Offer one device-space position to the in-progress stroke.
    ///
    /// The position is flipped into drawing space and accepted only if
    /// the buffer is empty or it is more than [`EPSILON`] away from the
    /// last accepted point (decimation). If accepting it brings the
    /// buffer over [`MAX_POINTS`], the buffer is force-finalized into a
    /// completed stroke and a fresh in-progress stroke begins.
    pub fn add_point_to_line(&mut self, pos: Point)
        requires
            draw_wf(old(self)@),
            device_in_bounds(pos.x, pos.y),
            old(self)@.next_id < u64::MAX,
        ensures
            final(self)@ == spec_add_point(old(self)@, pos),
            draw_wf(final(self)@),
    {
        let p = Point { x: pos.x, y: (self.height as i64) - pos.y };
        proof {
            assert(p == flip_y(self@.height, pos));
        }
        let accept: bool = if self.current_line.len() == 0 {
            true
        } else {
            let last = self.current_line[self.current_line.len() - 1];
            manhattan_dist(last, p) > EPSILON
        };
        if accept {
            self.current_line.push(p);
            self.changed = true;
            if self.current_line.len() > MAX_POINTS {
                let mut points: Vec<Point> = Vec::new();
                core::mem::swap(&mut points, &mut self.current_line);
                let id = self.next_id;
                self.next_id = self.next_id + 1;
                self.strokes.push(Stroke { id, points });
                proof {
                    let p_spec = flip_y(old(self)@.height, pos);
                    let pts = old(self)@.current.push(p_spec);
                    assert(self@.strokes =~= old(self)@.strokes.push(
                        StrokeView { id: old(self)@.next_id, points: pts },
                    ));
                    assert(self@ =~= spec_add_point(old(self)@, pos));
                    lemma_spaced_push(old(self)@.current, p_spec);
                    assert forall|k: int| 0 <= k < pts.len() implies point_in_bounds(
                        #[trigger] pts[k],
                    ) by {
                        if k < old(self)@.current.len() {
                            assert(pts[k] == old(self)@.current[k]);
                        } else {
                            assert(pts[k] == p_spec);
                        }
                    }
                    lemma_wf_push_stroke(old(self)@, self@, pts);
                }
            } else {
                proof {
                    assert(self@ =~= spec_add_point(old(self)@, pos));
                }
            }
        } else {
            proof {
                assert(self@ =~= spec_add_point(old(self)@, pos));
            }
        }
    }

    /// Finalize the in-progress stroke, if it has any points, into a
    /// completed stroke; the in-progress buffer is empty afterwards. A
    /// zero-length in-progress stroke finalizes to nothing.
    pub fn cut_line(&mut self)
        requires
            draw_wf(old(self)@),
            old(self)@.next_id < u64::MAX,
        ensures
            final(self)@ == spec_cut_line(old(self)@),
            draw_wf(final(self)@),
    {
        if self.current_line.len() > 0 {
            let mut points: Vec<Point> = Vec::new();
            core::mem::swap(&mut points, &mut self.current_line);
            let id = self.next_id;
            self.next_id = self.next_id + 1;
            self.strokes.push(Stroke { id, points });
            proof {
                let pts = old(self)@.current;
                assert(self@.strokes =~= old(self)@.strokes.push(
                    StrokeView { id: old(self)@.next_id, points: pts },
                ));
                assert(self@ =~= spec_cut_line(old(self)@));
                lemma_wf_push_stroke(old(self)@, self@, pts);
            }
        } else {
            proof {
                assert(self@ =~= spec_cut_line(old(self)@));
            }
        }
    }

    /// Two-tier undo: a non-empty in-progress stroke is aborted first;
    /// otherwise the most recently completed stroke is removed; with
    /// neither, nothing changes but the redraw mark.
    pub fn undo(&mut self)
        requires
            draw_wf(old(self)@),
        ensures
            final(self)@ == spec_undo(old(self)@),
            draw_wf(final(self)@),
    {
        if self.current_line.len() == 0 {
            self.strokes.pop();
            proof {
                if old(self)@.strokes.len() == 0 {
                    assert(self@.strokes =~= old(self)@.strokes);
                } else {
                    assert(self@.strokes =~= old(self)@.strokes.drop_last());
                }
            }
        } else {
            self.current_line.clear();
        }
        self.changed = true;
        proof {
            assert(self@ =~= spec_undo(old(self)@));
        }
    }

    /// Discard all completed strokes and any in-progress points.
    pub fn clear(&mut self)
        requires
            draw_wf(old(self)@),
        ensures
            final(self)@ == spec_clear(old(self)@),
            draw_wf(final(self)@),
    {
        self.strokes.clear();
        self.current_line.clear();
        self.changed = true;
        proof {
            assert(self@.strokes =~= Seq::<StrokeView>::empty());
            assert(self@ =~= spec_clear(old(self)@));
        }
    }

    /// Erase at a device-space position: among the completed strokes
    /// whose polyline has a point within the eraser's reach, remove the
    /// earliest-inserted one; at most one stroke is removed, and none
    /// when none is hit. The in-progress stroke is never erased.
    pub fn erase(&mut self, pos: Point)
        requires
            draw_wf(old(self)@),
            device_in_bounds(pos.x, pos.y),
        ensures
            final(self)@ == spec_erase(old(self)@, pos),
            draw_wf(final(self)@),
    {
        let p = Point { x: pos.x, y: (self.height as i64) - pos.y };
        proof {
            assert(p == flip_y(self@.height, pos));
        }
        proof {
            assert forall|i: int| 0 <= i < self.strokes@.len() implies all_in_bounds(
                (#[trigger] self.strokes@[i])@.points,
            ) by {
                assert(self@.strokes[i] == self.strokes@[i]@);
                assert(stroke_wf(self@.strokes[i]));
            }
        }
        match find_first_hit(&self.strokes, p, self.stroke_width) {
            Some(i) => {
                self.strokes.remove(i);
                self.changed = true;
                proof {
                    assert(self@.strokes =~= old(self)@.strokes.remove(i as int));
                    assert(self@ =~= spec_erase(old(self)@, pos));
                    lemma_wf_remove_stroke(old(self)@, self@, i as int);
                }
            },
            None => {
                proof {
                    assert(self@ =~= spec_erase(old(self)@, pos));
                }
            },
        }
    }

    /// Number of completed strokes.
    pub fn stroke_count(&self) -> (r: usize)
        ensures
            r == self@.strokes.len(),
    {
        self.strokes.len()
    }

    /// The `i`-th completed stroke, in insertion order.
    pub fn stroke(&self, i: usize) -> (r: &Stroke)
        requires
            i < self@.strokes.len(),
        ensures
            r@ == self@.strokes[i as int],
    {
        &self.strokes[i]
    }

    /// The in-progress stroke's accepted points.
    pub fn current_points(&self) -> (r: &Vec<Point>)
        ensures
            r@ == self@.current,
    {
        &self.current_line
    }

    /// Whether anything changed since the drawing was created; set by
    /// every mutation that affects what is rendered.
    pub fn changed(&self) -> (r: bool)
        ensures
            r == self@.changed,
    {
        self.changed
    }

    /// The current stroke width, in thousandths of a unit.
    pub fn stroke_width(&self) -> (r: u32)
        ensures
            r == self@.stroke_width,
    {
        self.stroke_width
    }

    /// The current stroke color (premultiplied if the setting is on).
    pub fn stroke_color(&self) -> (r: Rgba)
        ensures
            r == self@.stroke_color,
    {
        self.stroke_color
    }

    /// The identity the next finalized stroke will get.
    pub fn next_id(&self) -> (r: u64)
        ensures
            r == self@.next_id,
    {
        self.next_id
    }

    fn pre_multiply_stroke_color(&mut self)
        ensures
            final(self)@ == (DrawView {
                stroke_color: spec_premultiplied(old(self)@.stroke_color),
                ..old(self)@
            }),
    {
        self.stroke_color = self.stroke_color.premultiplied();
    }
}

} // verus!
