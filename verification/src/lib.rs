//! Compact, versioned records that locate objects inside a block, inside a
//! piece, and inside the global archival history, together with their
//! canonical binary encoding.

pub mod block;
pub mod error;
pub mod global;
pub mod order;
pub mod packed;
pub mod piece;
pub mod record;
pub mod wire;

pub use block::{BlockObject, BlockObjectMapping};
pub use error::DecodeError;
pub use global::GlobalObject;
pub use piece::{PieceObject, PieceObjectMapping};
