//! Core of an HTTP application framework: request routing, the middleware
//! chain, the client connection pool and the WebSocket frame codec.

pub mod application;
pub mod client;
pub mod error;
pub mod header;
pub mod httprequest;
pub mod httpresponse;
pub mod middleware;
pub mod param;
pub mod payload;
pub mod pipeline;
pub mod pred;
pub mod resource;
pub mod router;
pub mod server;
pub mod text;
pub mod with;
pub mod ws;
