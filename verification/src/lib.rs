//! A small HTTP/1.1 server core: request parsing, virtual-server selection,
//! cookie bookkeeping, routing decisions and response serialisation.

pub mod text;
pub mod number;
pub mod config;
pub mod bridge;
pub mod request;
pub mod find;
pub mod cookie;
pub mod errors;
pub mod reading;
pub mod response;
pub mod files;
pub mod handlers;
