//! WebSocket protocol support.

pub mod frame;
pub mod mask;
pub mod proto;
