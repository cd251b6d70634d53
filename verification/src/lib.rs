use vstd::prelude::*;

pub mod bytes;
pub mod connection;
pub mod files;
pub mod handshake;
pub mod io;
pub mod paths;
pub mod request;
pub mod response;
pub mod server;
pub mod tls;

verus! {

/// The version that the `Server` header announces.
pub const VERSION: &'static str = "0.1.0";

} // verus!
