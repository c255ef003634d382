//! The drawing surface: a fixed-dimension raster canvas modeled as a log of
//! painted line segments, together with the current paint attributes.

use vstd::prelude::*;

verus! {

/// Default stroke color: black.
pub const DEFAULT_COLOR: u32 = 0;

/// Default stroke width.
pub const DEFAULT_WIDTH: u32 = 3;

/// A point in surface-local pixel coordinates.
#[derive(PartialEq, Eq, Structural, Clone, Copy, Debug)]
pub struct Point {
    pub x: i32,
    pub y: i32,
}

/// One painted straight-line segment, recorded with the paint attributes
/// that were current when it was committed.
#[derive(PartialEq, Eq, Structural, Clone, Copy, Debug)]
pub struct Segment {
    pub from: Point,
    pub to: Point,
    pub color: u32,
    pub width: u32,
}

/// A drawing surface of fixed dimensions. Its pixel content is modeled as
/// the ordered log of line segments painted onto it; the current paint
/// attributes (stroke color, stroke width) are read at segment-paint time.
pub struct Surface {
    pub width: u32,
    pub height: u32,
    pub color: u32,
    pub line_width: u32,
    /// The current path cursor: where the next segment starts from when the
    /// caller does not pass an explicit origin. Holds no ink by itself.
    pub cursor: Option<Point>,
    pub segments: Vec<Segment>,
}

impl Surface {
    /// A surface is well formed when its stroke width is positive; a width
    /// of zero would make rendering undefined.
    pub open spec fn wf(self) -> bool {
        self.line_width >= 1
    }

    /// Allocates the surface at fixed dimensions, blank, with the default
    /// paint attributes. Called exactly once at startup; no resize exists.
    pub fn configure(width: u32, height: u32) -> (s: Surface)
        ensures
            s.wf(),
            s.width == width,
            s.height == height,
            s.color == DEFAULT_COLOR,
            s.line_width == DEFAULT_WIDTH,
            s.cursor is None,
            s.segments@ == Seq::<Segment>::empty(),
    {
        Surface {
            width,
            height,
            color: DEFAULT_COLOR,
            line_width: DEFAULT_WIDTH,
            cursor: None,
            segments: Vec::new(),
        }
    }

    /// Sets the paint color for all subsequent segments. Already painted
    /// segments are unaffected: style changes are forward-only.
    pub fn set_stroke_color(&mut self, color: u32)
        ensures
            final(self).color == color,
            final(self).width == old(self).width,
            final(self).height == old(self).height,
            final(self).line_width == old(self).line_width,
            final(self).cursor == old(self).cursor,
            final(self).segments@ == old(self).segments@,
    {
        self.color = color;
    }

    /// Sets the line thickness for subsequent segments. Already painted
    /// segments are unaffected. A width of zero is undefined rendering, so
    /// callers must guard.
    pub fn set_stroke_width(&mut self, width: u32)
        requires
            width >= 1,
        ensures
            final(self).wf(),
            final(self).line_width == width,
            final(self).width == old(self).width,
            final(self).height == old(self).height,
            final(self).color == old(self).color,
            final(self).cursor == old(self).cursor,
            final(self).segments@ == old(self).segments@,
    {
        self.line_width = width;
    }

    /// Starts a new path at `(x, y)` without painting anything; any
    /// in-progress unstroked path is discarded.
    pub fn begin_stroke(&mut self, x: i32, y: i32)
        ensures
            final(self).cursor == Some(Point { x, y }),
            final(self).width == old(self).width,
            final(self).height == old(self).height,
            final(self).color == old(self).color,
            final(self).line_width == old(self).line_width,
            final(self).segments@ == old(self).segments@,
    {
        self.cursor = Some(Point { x, y });
    }

    /// Paints one line segment from `(from_x, from_y)` to `(to_x, to_y)`
    /// with the current color and width, then re-begins the path at the
    /// segment's end so the next segment starts cleanly.
    pub fn extend_stroke(&mut self, to_x: i32, to_y: i32, from_x: i32, from_y: i32)
        ensures
            final(self).segments@ == old(self).segments@.push(
                Segment {
                    from: Point { x: from_x, y: from_y },
                    to: Point { x: to_x, y: to_y },
                    color: old(self).color,
                    width: old(self).line_width,
                },
            ),
            final(self).cursor == Some(Point { x: to_x, y: to_y }),
            final(self).width == old(self).width,
            final(self).height == old(self).height,
            final(self).color == old(self).color,
            final(self).line_width == old(self).line_width,
    {
        let seg = Segment {
            from: Point { x: from_x, y: from_y },
            to: Point { x: to_x, y: to_y },
            color: self.color,
            width: self.line_width,
        };
        self.segments.push(seg);
        self.cursor = Some(Point { x: to_x, y: to_y });
    }

    /// Serializes the full current painted content into a storable byte
    /// string, suitable for later restoration.
    pub fn snapshot(&self) -> (r: Vec<u8>)
        ensures
            r@ == crate::codec::spec_encode_image(self.segments@),
    {
        crate::codec::encode_image(&self.segments)
    }

    /// Paints a previously snapshotted image onto the surface at offset
    /// (0, 0), overwriting existing content. Used once, on load-if-present.
    pub fn restore(&mut self, image: &Vec<Segment>)
        ensures
            final(self).segments@ == image@,
            final(self).width == old(self).width,
            final(self).height == old(self).height,
            final(self).color == old(self).color,
            final(self).line_width == old(self).line_width,
            final(self).cursor == old(self).cursor,
    {
        let mut copied: Vec<Segment> = Vec::new();
        let mut i: usize = 0;
        while i < image.len()
            invariant
                i <= image.len(),
                copied@ == image@.take(i as int),
            decreases image.len() - i,
        {
            copied.push(image[i]);
            i = i + 1;
            proof {
                assert(copied@ =~= image@.take(i as int));
            }
        }
        proof {
            assert(copied@ =~= image@);
        }
        self.segments = copied;
    }
}

} // verus!
