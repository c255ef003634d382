//! The laws of the stroke-capture state machine, stated over whole event
//! sequences and proved from the controller's transition function.

use vstd::prelude::*;

use crate::controller::CtlView;
use crate::controller::Event;
use crate::controller::StrokeState;
use crate::controller::spec_run;
use crate::controller::spec_save_count;
use crate::controller::spec_step;
use crate::surface::Point;
use crate::surface::Segment;

verus! {

/// A move event per point, visiting `pts` in order.
pub open spec fn spec_move_events(pts: Seq<Point>) -> Seq<Event> {
    Seq::new(pts.len(), |i: int| Event::Move { x: pts[i].x, y: pts[i].y })
}

/// The events of one full gesture: down at the first point, one move per
/// later point, and up at the last point.
pub open spec fn spec_stroke_events(pts: Seq<Point>) -> Seq<Event>
    recommends
        pts.len() >= 1,
{
    seq![Event::Down { x: pts[0].x, y: pts[0].y }] + spec_move_events(pts.drop_first()) + seq![
        Event::Up { x: pts.last().x, y: pts.last().y },
    ]
}

/// The segments a pen standing at `from` paints while visiting `pts` in
/// order with fixed paint attributes.
pub open spec fn spec_chain(from: Point, pts: Seq<Point>, color: u32, width: u32) -> Seq<Segment>
    decreases pts.len(),
{
    if pts.len() == 0 {
        Seq::<Segment>::empty()
    } else {
        seq![Segment { from, to: pts[0], color, width }] + spec_chain(
            pts[0],
            pts.drop_first(),
            color,
            width,
        )
    }
}

/// The segments one full gesture over `pts` paints: one per move, plus the
/// final up-committed segment at the last point.
pub open spec fn spec_stroke_segments(pts: Seq<Point>, color: u32, width: u32) -> Seq<Segment>
    recommends
        pts.len() >= 1,
{
    spec_chain(pts[0], pts.drop_first(), color, width) + seq![
        Segment { from: pts.last(), to: pts.last(), color, width },
    ]
}

/// A chain paints one segment per visited point, the i-th running from the
/// previous point (or the pen's start) to the i-th point.
pub proof fn lemma_chain_index(from: Point, pts: Seq<Point>, color: u32, width: u32, i: int)
    requires
        0 <= i < pts.len(),
    ensures
        spec_chain(from, pts, color, width).len() == pts.len(),
        spec_chain(from, pts, color, width)[i] == (Segment {
            from: if i == 0 {
                from
            } else {
                pts[i - 1]
            },
            to: pts[i],
            color,
            width,
        }),
    decreases pts.len(),
{
    lemma_chain_len(from, pts, color, width);
    if i > 0 {
        lemma_chain_index(pts[0], pts.drop_first(), color, width, i - 1);
    }
}

/// A chain's length is the number of visited points.
pub proof fn lemma_chain_len(from: Point, pts: Seq<Point>, color: u32, width: u32)
    ensures
        spec_chain(from, pts, color, width).len() == pts.len(),
    decreases pts.len(),
{
    if pts.len() > 0 {
        lemma_chain_len(pts[0], pts.drop_first(), color, width);
    }
}

/// Running a split event sequence is running its parts in turn; saves add
/// up accordingly.
pub proof fn lemma_run_append(c: CtlView, a: Seq<Event>, b: Seq<Event>)
    ensures
        spec_run(c, a + b) == spec_run(spec_run(c, a), b),
        spec_save_count(c, a + b) == spec_save_count(c, a) + spec_save_count(spec_run(c, a), b),
    decreases a.len(),
{
    if a.len() == 0 {
        assert(a + b =~= b);
    } else {
        assert((a + b)[0] == a[0]);
        assert((a + b).drop_first() =~= a.drop_first() + b);
        lemma_run_append(spec_step(c, a[0]).0, a.drop_first(), b);
    }
}

/// Running a single event is stepping it once.
pub proof fn lemma_run_one(c: CtlView, e: Event)
    ensures
        spec_run(c, seq![e]) == spec_step(c, e).0,
        spec_save_count(c, seq![e]) == (if spec_step(c, e).1 {
            1nat
        } else {
            0nat
        }),
{
    let evs = seq![e];
    assert(evs[0] == e);
    assert(evs.drop_first() =~= Seq::<Event>::empty());
    assert(spec_run(spec_step(c, e).0, evs.drop_first()) == spec_step(c, e).0);
    assert(spec_save_count(spec_step(c, e).0, evs.drop_first()) == 0);
}

/// While a stroke is active, each move paints exactly one segment, from
/// the last committed point to the move's point, with the current paint
/// attributes; no move triggers a save.
proof fn lemma_run_moves(c: CtlView, pts: Seq<Point>)
    requires
        c.state is Drawing,
    ensures
        ({
            let c2 = spec_run(c, spec_move_events(pts));
            &&& c2.state == (if pts.len() == 0 {
                c.state
            } else {
                StrokeState::Drawing { last: pts.last() }
            })
            &&& c2.segments == c.segments + spec_chain(c.state->last, pts, c.color, c.line_width)
            &&& c2.color == c.color
            &&& c2.line_width == c.line_width
            &&& spec_save_count(c, spec_move_events(pts)) == 0
        }),
    decreases pts.len(),
{
    let evs = spec_move_events(pts);
    if pts.len() == 0 {
        assert(c.segments + spec_chain(c.state->last, pts, c.color, c.line_width) =~= c.segments);
    } else {
        let c1 = spec_step(c, evs[0]).0;
        let seg0 = Segment { from: c.state->last, to: pts[0], color: c.color, width: c.line_width };
        assert(c1.segments == c.segments.push(seg0));
        assert(evs.drop_first() =~= spec_move_events(pts.drop_first()));
        lemma_run_moves(c1, pts.drop_first());
        let c2 = spec_run(c1, evs.drop_first());
        assert(c2.segments == c1.segments + spec_chain(pts[0], pts.drop_first(), c.color,
            c.line_width));
        assert(c.segments.push(seg0) + spec_chain(pts[0], pts.drop_first(), c.color, c.line_width)
            =~= c.segments + spec_chain(c.state->last, pts, c.color, c.line_width));
        if pts.drop_first().len() > 0 {
            assert(pts.drop_first().last() == pts.last());
        }
    }
}

/// One full gesture — down at the first point, one move per later point,
/// up at the last — takes the idle machine to drawing and back to idle,
/// appends exactly one segment per move plus the final up-committed one,
/// each in order from the previous point to the next, and triggers exactly
/// one save.
pub proof fn lemma_single_stroke(c: CtlView, pts: Seq<Point>)
    requires
        c.state is Idle,
        pts.len() >= 1,
    ensures
        ({
            let c2 = spec_run(c, spec_stroke_events(pts));
            &&& c2.state is Idle
            &&& c2.segments == c.segments + spec_stroke_segments(pts, c.color, c.line_width)
            &&& c2.segments.len() == c.segments.len() + pts.len()
            &&& c2.color == c.color
            &&& c2.line_width == c.line_width
            &&& spec_save_count(c, spec_stroke_events(pts)) == 1
        }),
{
    let evs = spec_stroke_events(pts);
    let down = seq![Event::Down { x: pts[0].x, y: pts[0].y }];
    let moves = spec_move_events(pts.drop_first());
    let up = seq![Event::Up { x: pts.last().x, y: pts.last().y }];
    lemma_run_append(c, down + moves, up);
    lemma_run_append(c, down, moves);
    assert((down + moves) + up =~= evs);
    let c1 = spec_run(c, down);
    lemma_run_one(c, down[0]);
    assert(c1 == spec_step(c, down[0]).0);
    assert(c1.state == StrokeState::Drawing { last: pts[0] });
    lemma_run_moves(c1, pts.drop_first());
    let c2 = spec_run(c1, moves);
    assert(c2.state == StrokeState::Drawing { last: pts.last() }) by {
        if pts.drop_first().len() > 0 {
            assert(pts.drop_first().last() == pts.last());
        }
    }
    let c3 = spec_run(c2, up);
    let fin = Segment {
        from: pts.last(),
        to: pts.last(),
        color: c.color,
        width: c.line_width,
    };
    lemma_run_one(c2, up[0]);
    assert(c3 == spec_step(c2, up[0]).0);
    assert(c3.segments == c2.segments.push(fin));
    assert(c2.segments.push(fin) =~= c.segments + spec_stroke_segments(pts, c.color, c.line_width));
    lemma_chain_len(pts[0], pts.drop_first(), c.color, c.line_width);
    assert(spec_save_count(c2, up) == 1);
    assert(spec_save_count(c, down) == 0);
}

/// Without a pointer-down, nothing happens: from the idle state, any
/// sequence of move and up events — duplicate or out-of-order ups
/// included — paints no segment, triggers no save, and leaves the
/// controller exactly as it was.
pub proof fn lemma_no_ink_without_down(c: CtlView, evs: Seq<Event>)
    requires
        c.state is Idle,
        forall|i: int| 0 <= i < evs.len() ==> (evs[i] is Move || evs[i] is Up),
    ensures
        spec_run(c, evs) == c,
        spec_save_count(c, evs) == 0,
    decreases evs.len(),
{
    if evs.len() > 0 {
        assert(evs[0] is Move || evs[0] is Up);
        assert(spec_step(c, evs[0]).0 == c);
        lemma_no_ink_without_down(c, evs.drop_first());
    }
}

/// Move events received while idle paint nothing: no ink without an
/// active stroke.
pub proof fn lemma_moves_while_idle(c: CtlView, pts: Seq<Point>)
    requires
        c.state is Idle,
    ensures
        spec_run(c, spec_move_events(pts)) == c,
        spec_save_count(c, spec_move_events(pts)) == 0,
{
    lemma_no_ink_without_down(c, spec_move_events(pts));
}

/// A pointer-up with no prior down commits no segment and triggers no
/// save.
pub proof fn lemma_up_while_idle(c: CtlView, x: i32, y: i32)
    requires
        c.state is Idle,
    ensures
        spec_step(c, Event::Up { x, y }).0 == c,
        !spec_step(c, Event::Up { x, y }).1,
{
}

/// Changing the stroke color or width paints nothing and triggers no
/// save: a style change only affects segments committed after it.
pub proof fn lemma_style_change_paints_nothing(c: CtlView, e: Event)
    requires
        e is SetColor || e is SetWidth,
    ensures
        spec_step(c, e).0.segments == c.segments,
        !spec_step(c, e).1,
{
}

/// Releasing the pointer during an active stroke triggers the save, and
/// the stored snapshot decodes back to exactly the painted content at
/// save time: restoring it reproduces the surface as it was just before
/// the save.
pub proof fn lemma_save_roundtrip(c: CtlView, x: i32, y: i32)
    requires
        c.state is Drawing,
    ensures
        spec_step(c, Event::Up { x, y }).1,
        ({
            let after = spec_step(c, Event::Up { x, y }).0.segments;
            crate::codec::spec_decode_image(crate::codec::spec_encode_image(after)) == Some(after)
        }),
{
    crate::codec::lemma_image_roundtrip(spec_step(c, Event::Up { x, y }).0.segments);
}

/// Ink is permanent: no later event — style changes included — alters or
/// removes a segment that is already painted; events only append.
pub proof fn lemma_ink_is_permanent(c: CtlView, evs: Seq<Event>)
    ensures
        spec_run(c, evs).segments.len() >= c.segments.len(),
        spec_run(c, evs).segments.take(c.segments.len() as int) == c.segments,
    decreases evs.len(),
{
    if evs.len() == 0 {
        assert(c.segments.take(c.segments.len() as int) =~= c.segments);
    } else {
        let c1 = spec_step(c, evs[0]).0;
        lemma_ink_is_permanent(c1, evs.drop_first());
        let fin = spec_run(c1, evs.drop_first());
        assert(fin.segments.take(c.segments.len() as int) =~= c.segments) by {
            assert(fin.segments.take(c1.segments.len() as int) == c1.segments);
            assert(forall|i: int|
                0 <= i < c.segments.len() ==> fin.segments[i] == c1.segments[i]);
            assert(forall|i: int| 0 <= i < c.segments.len() ==> c1.segments[i] == c.segments[i]);
        }
    }
}

} // verus!
