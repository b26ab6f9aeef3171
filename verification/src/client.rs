//! HTTP client: the connector with its connection pool, and the request
//! pipeline that runs on a leased connection.

pub mod connector;
pub mod pipeline;
