pub mod codec;
pub mod framer;
pub mod graph;
pub mod header;
pub mod io;
pub mod logging;
pub mod message;
pub mod request;
pub mod response;
pub mod round_trip;
pub mod tree;
pub mod utf8_bounds;
pub mod util;
pub mod wire;
