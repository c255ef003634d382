//! A minimal freehand drawing surface: a stroke-capture state machine that
//! turns pointer events into painted line segments, plus a persistence
//! round-trip that serializes the painted content and restores it on load.

pub mod codec;
pub mod controller;
pub mod controls;
pub mod laws;
pub mod surface;
