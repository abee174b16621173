//! Decision core of the wolfvoice spatial voice service.

pub mod calendar;
pub mod json;
pub mod laws;
pub mod logctl;
pub mod mix;
pub mod mixer;
pub mod proto;
pub mod registry;
pub mod room;
pub mod sdp;
pub mod service;
pub mod session;
pub mod text;
pub mod tls;
