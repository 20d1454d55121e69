//! A stream multiplexor speaking the Nerdbank.Streams framing protocol.
//!
//! The verified core of the library: the wire codec for frames, the
//! bounded in-memory pipe that carries a channel's bytes, the routing
//! decisions of the reading side of a multiplexor, and the buffer logic of
//! the channel-backed reader.
pub mod frame;
pub mod msgpack;
pub mod multiplexor;
pub mod pipe;
pub mod proxy;
pub mod rw;
pub mod streams;
