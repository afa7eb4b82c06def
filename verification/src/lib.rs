//! A verified core for packaging a directory tree into one signed, compressed,
//! optionally encrypted container, and for serving that container back through
//! a virtual-filesystem interface: existence checks, directory queries and
//! content reads addressed by relative path.  The container format itself is
//! the `vach` crate's; this library owns the index codec that maps paths onto
//! the container's flat identifier space, the build, check and read logic
//! around it, and the contracts that tie them together.

pub mod builder;
pub mod check;
pub mod codec;
pub mod errors;
pub mod ids;
pub mod paths;
pub mod setup;
pub mod skip;
pub mod reader;
pub mod vach_api;
