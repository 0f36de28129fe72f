//! A drag-and-drop list reordering engine.
//!
//! The library models the interactive core of a reorderable list: a drag
//! session carried through a transfer channel, per-element hover feedback,
//! and the relocation of a dragged element to sit immediately before the
//! element it is dropped on. All state is held in plain values, so every
//! operation is specified and verified; a rendering layer owns the actual
//! screen elements and forwards its pointer events here.

pub mod errors;
pub mod gesture;
pub mod identity;
pub mod list;
pub mod session;
pub mod user;
