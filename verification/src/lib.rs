use vstd::prelude::*;

pub mod text;
pub mod pool;
pub mod template;
pub mod bridge;
pub mod model;
pub mod errors;
pub mod request;
pub mod subscription;
pub mod jsonrpc;
pub mod metrics;
pub mod protocol;
pub mod connection;
pub mod subscriber;
pub mod monitor;
pub mod transport;
pub mod client;

verus! {

} // verus!
