//! The stroke controller: a two-state machine driven by pointer events.
//! It owns the drawing surface, tracks whether a stroke is active together
//! with the last committed point, turns each event into surface operations,
//! and triggers persistence when a stroke completes.

use vstd::prelude::*;

use crate::codec::spec_decode_image;
use crate::codec::spec_encode_image;
use crate::surface::DEFAULT_COLOR;
use crate::surface::DEFAULT_WIDTH;
use crate::surface::Point;
use crate::surface::Segment;
use crate::surface::Surface;

verus! {

/// Whether a stroke is currently being drawn. The last committed point
/// exists only while drawing, so "no ink without an active stroke" is
/// structural, not a checked side condition.
#[derive(PartialEq, Eq, Structural, Clone, Copy, Debug)]
pub enum StrokeState {
    Idle,
    Drawing { last: Point },
}

/// One input notification: a pointer event in surface-local coordinates,
/// or a control change pushing a new paint attribute.
#[derive(PartialEq, Eq, Structural, Clone, Copy, Debug)]
pub enum Event {
    Down { x: i32, y: i32 },
    Move { x: i32, y: i32 },
    Up { x: i32, y: i32 },
    SetColor { color: u32 },
    SetWidth { width: u32 },
}

/// The controller's abstract state: the stroke state machine together with
/// the surface's paint attributes and painted content.
#[verifier::ext_equal]
pub struct CtlView {
    pub state: StrokeState,
    pub color: u32,
    pub line_width: u32,
    pub cursor: Option<Point>,
    pub segments: Seq<Segment>,
}

/// One transition of the state machine: the next abstract state, and
/// whether this event completes a stroke and so triggers a save.
pub open spec fn spec_step(c: CtlView, e: Event) -> (CtlView, bool) {
    match e {
        Event::Down { x, y } => (
            CtlView {
                state: StrokeState::Drawing { last: Point { x, y } },
                cursor: Some(Point { x, y }),
                ..c
            },
            false,
        ),
        Event::Move { x, y } => match c.state {
            StrokeState::Idle => (c, false),
            StrokeState::Drawing { last } => (
                CtlView {
                    state: StrokeState::Drawing { last: Point { x, y } },
                    cursor: Some(Point { x, y }),
                    segments: c.segments.push(
                        Segment {
                            from: last,
                            to: Point { x, y },
                            color: c.color,
                            width: c.line_width,
                        },
                    ),
                    ..c
                },
                false,
            ),
        },
        Event::Up { x, y } => match c.state {
            StrokeState::Idle => (c, false),
            StrokeState::Drawing { last } => (
                CtlView {
                    state: StrokeState::Idle,
                    cursor: Some(Point { x, y }),
                    segments: c.segments.push(
                        Segment {
                            from: last,
                            to: Point { x, y },
                            color: c.color,
                            width: c.line_width,
                        },
                    ),
                    ..c
                },
                true,
            ),
        },
        Event::SetColor { color } => (CtlView { color, ..c }, false),
        Event::SetWidth { width } => (CtlView { line_width: width, ..c }, false),
    }
}

/// The abstract state after a whole sequence of events.
pub open spec fn spec_run(c: CtlView, evs: Seq<Event>) -> CtlView
    decreases evs.len(),
{
    if evs.len() == 0 {
        c
    } else {
        spec_run(spec_step(c, evs[0]).0, evs.drop_first())
    }
}

/// How many saves a sequence of events triggers.
pub open spec fn spec_save_count(c: CtlView, evs: Seq<Event>) -> nat
    decreases evs.len(),
{
    if evs.len() == 0 {
        0
    } else {
        (if spec_step(c, evs[0]).1 {
            1nat
        } else {
            0nat
        }) + spec_save_count(spec_step(c, evs[0]).0, evs.drop_first())
    }
}

/// The stroke controller. It owns the drawing surface and the transient
/// stroke state; event handlers are its methods.
pub struct Controller {
    pub surface: Surface,
    pub state: StrokeState,
}

impl View for Controller {
    type V = CtlView;

    open spec fn view(&self) -> CtlView {
        CtlView {
            state: self.state,
            color: self.surface.color,
            line_width: self.surface.line_width,
            cursor: self.surface.cursor,
            segments: self.surface.segments@,
        }
    }
}

impl Controller {
    pub open spec fn wf(self) -> bool {
        self.surface.wf()
    }

    /// A fresh controller over a blank surface of the given dimensions,
    /// idle, with the default paint attributes.
    pub fn new(width: u32, height: u32) -> (c: Controller)
        ensures
            c.wf(),
            c.surface.width == width,
            c.surface.height == height,
            c@ == (CtlView {
                state: StrokeState::Idle,
                color: DEFAULT_COLOR,
                line_width: DEFAULT_WIDTH,
                cursor: None,
                segments: Seq::<Segment>::empty(),
            }),
    {
        Controller { surface: Surface::configure(width, height), state: StrokeState::Idle }
    }

    /// Pointer pressed at `(x, y)`: begin a stroke there. Paints nothing;
    /// only records the starting point and activates the machine.
    pub fn pointer_down(&mut self, x: i32, y: i32)
        requires
            old(self).wf(),
        ensures
            final(self).wf(),
            final(self)@ == spec_step(old(self)@, Event::Down { x, y }).0,
            final(self).surface.width == old(self).surface.width,
            final(self).surface.height == old(self).surface.height,
    {
        self.surface.begin_stroke(x, y);
        self.state = StrokeState::Drawing { last: Point { x, y } };
    }

    /// Pointer moved to `(x, y)`: while drawing, paint a segment from the
    /// last committed point and advance it. While idle, a move is a no-op:
    /// no ink is laid down unless a stroke is active.
    pub fn pointer_move(&mut self, x: i32, y: i32)
        requires
            old(self).wf(),
        ensures
            final(self).wf(),
            final(self)@ == spec_step(old(self)@, Event::Move { x, y }).0,
            final(self).surface.width == old(self).surface.width,
            final(self).surface.height == old(self).surface.height,
    {
        match self.state {
            StrokeState::Idle => {},
            StrokeState::Drawing { last } => {
                self.surface.extend_stroke(x, y, last.x, last.y);
                self.state = StrokeState::Drawing { last: Point { x, y } };
            },
        }
    }

    /// Pointer released at `(x, y)`: while drawing, commit the final
    /// segment, go idle, and return the snapshot to persist — exactly one
    /// save per completed stroke. An `up` with no prior `down` is a no-op:
    /// no segment, no save.
    pub fn pointer_up(&mut self, x: i32, y: i32) -> (saved: Option<Vec<u8>>)
        requires
            old(self).wf(),
        ensures
            final(self).wf(),
            final(self)@ == spec_step(old(self)@, Event::Up { x, y }).0,
            saved is Some <==> spec_step(old(self)@, Event::Up { x, y }).1,
            saved matches Some(img) ==> img@ == spec_encode_image(final(self)@.segments),
            final(self).surface.width == old(self).surface.width,
            final(self).surface.height == old(self).surface.height,
    {
        match self.state {
            StrokeState::Idle => None,
            StrokeState::Drawing { last } => {
                self.surface.extend_stroke(x, y, last.x, last.y);
                self.state = StrokeState::Idle;
                Some(self.surface.snapshot())
            },
        }
    }

    /// Control change: a new stroke color for subsequent segments.
    pub fn set_stroke_color(&mut self, color: u32)
        requires
            old(self).wf(),
        ensures
            final(self).wf(),
            final(self)@ == spec_step(old(self)@, Event::SetColor { color }).0,
            final(self).surface.width == old(self).surface.width,
            final(self).surface.height == old(self).surface.height,
    {
        self.surface.set_stroke_color(color);
    }

    /// Control change: a new stroke width for subsequent segments. The
    /// control clamps its value to the valid range before it gets here.
    pub fn set_stroke_width(&mut self, width: u32)
        requires
            old(self).wf(),
            1 <= width <= 10,
        ensures
            final(self).wf(),
            final(self)@ == spec_step(old(self)@, Event::SetWidth { width }).0,
            final(self).surface.width == old(self).surface.width,
            final(self).surface.height == old(self).surface.height,
    {
        self.surface.set_stroke_width(width);
    }

    /// Dispatches one input notification to its handler. Returns the
    /// snapshot to persist when the event completed a stroke.
    pub fn handle_event(&mut self, e: Event) -> (saved: Option<Vec<u8>>)
        requires
            old(self).wf(),
            e matches Event::SetWidth { width } ==> 1 <= width <= 10,
        ensures
            final(self).wf(),
            final(self)@ == spec_step(old(self)@, e).0,
            saved is Some <==> spec_step(old(self)@, e).1,
            saved matches Some(img) ==> img@ == spec_encode_image(final(self)@.segments),
            final(self).surface.width == old(self).surface.width,
            final(self).surface.height == old(self).surface.height,
    {
        match e {
            Event::Down { x, y } => {
                self.pointer_down(x, y);
                None
            },
            Event::Move { x, y } => {
                self.pointer_move(x, y);
                None
            },
            Event::Up { x, y } => self.pointer_up(x, y),
            Event::SetColor { color } => {
                self.set_stroke_color(color);
                None
            },
            Event::SetWidth { width } => {
                self.set_stroke_width(width);
                None
            },
        }
    }

    /// Startup restoration: given what the store holds under the fixed
    /// key, restore the decoded image onto the surface. An absent value or
    /// one that fails to decode is treated as "no saved image" and leaves
    /// the surface untouched; drawing proceeds unaffected either way.
    pub fn load_if_present(&mut self, stored: Option<&Vec<u8>>)
        requires
            old(self).wf(),
        ensures
            final(self).wf(),
            match stored {
                Some(s) => match spec_decode_image(s@) {
                    Some(img) => final(self)@ == (CtlView { segments: img, ..old(self)@ }),
                    None => final(self)@ == old(self)@,
                },
                None => final(self)@ == old(self)@,
            },
            final(self).surface.width == old(self).surface.width,
            final(self).surface.height == old(self).surface.height,
    {
        match stored {
            None => {},
            Some(s) => {
                match crate::codec::decode_image(s) {
                    None => {},
                    Some(img) => {
                        self.surface.restore(&img);
                    },
                }
            },
        }
    }
}

} // verus!
