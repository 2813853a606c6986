//! What the operations are for, stated of their inputs and results: each law here speaks
//! in plain sequences, characters and bytes, and takes nothing of how a result is
//! computed for granted.

pub mod headers;
pub mod loopback;
pub mod names;
pub mod params;
pub mod paths;
pub mod peers;
pub mod replies;
pub mod responses;
pub mod routing;
pub mod scripts;
pub mod targets;
pub mod text;
pub mod wire;
