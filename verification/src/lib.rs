//! Crabix: keeps a rendered markdown view in step with an editor's cursor.
//!
//! The library holds the verified core: the source-position index over a
//! parsed document, the nearest-range locator, the wire-message decoder of
//! the update channel, and the document state transition.

pub mod annotate;
pub mod decimal;
pub mod lines;
pub mod spos;
pub mod state;
pub mod wire;

pub use spos::Spos;
