//! What the outbounds share.

pub mod buffer;
pub mod group;
pub mod interface_finder;
pub mod interrupt;
pub mod local_ranges;
pub mod physical;
pub mod probe;
pub mod proto;
pub mod smux;
pub mod url_test;
