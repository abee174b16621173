//! What the operations are for, in terms of what goes in and what comes out.
//!
//! The statements here speak of documents, fields of sessions and numbers as they are, and
//! of the definitions of the other modules only as far as an operation promises them.

pub mod calls;
pub mod mix;
pub mod proto;
pub mod registry;
pub mod room;
pub mod sdp;
pub mod service;
pub mod small;
pub mod sessions;
