//! Session and protocol core of a JSON-RPC tool/context server.
pub mod codec;
pub mod shapes;
pub mod wire;
pub mod dispatch;
pub mod error;
pub mod json;
pub mod record;
mod registry_map;
pub mod schema;
pub mod server;
pub mod session;
pub mod token;
pub mod transport;
