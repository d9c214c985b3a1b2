//! TLS on the client side.

pub mod certificate;
pub mod client_hello;
pub mod connector;
pub mod ech;
pub mod keys;
pub mod parse;
pub mod reality;
pub mod record;
pub mod server_hello;
pub mod stream;
pub mod utls;
