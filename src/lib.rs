//! Directory synchronisation: a server publishes a manifest of its content
//! tree (path key to operation, length and digest), and a client brings its
//! own tree in line with that manifest.

pub mod paths;
pub mod digest;
pub mod model;
pub mod builder;
pub mod client;
pub mod server;
pub mod shared;
