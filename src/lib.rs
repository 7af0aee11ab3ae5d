//! Connection registry, broadcast fan-out and session decisions for a
//! path-routed message server, together with the small decision functions
//! of its reflect and arithmetic endpoints.
pub mod channel;
pub mod endpoint;
pub mod math;
pub mod registry;
pub mod session;
