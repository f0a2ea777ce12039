//! Freehand-annotation engine for a screen-overlay drawing tool.
//!
//! Raw pointing-device events are coalesced into one snapshot per input
//! frame ([`gesture`]), the snapshots drive a drawing state machine that
//! decimates, chunks, finalizes and erases polyline strokes ([`draw`]),
//! and the strokes' tessellated meshes are packed into fixed-capacity
//! GPU buffers under copy-alignment rules ([`batch`]). An ASCII command
//! protocol controls the tool from outside ([`command`]).

pub mod batch;
pub mod color;
pub mod command;
pub mod draw;
pub mod geom;
pub mod gesture;
pub mod session;
