//! A single-threaded TCP reactor core: the per-socket state machines, the
//! dispatcher that owns them, and a length-delimited framer, each with a
//! machine-checked contract.

pub mod buffer;
pub mod endpoint;
pub mod frame;
pub mod net;
pub mod reactor;
pub mod table;
