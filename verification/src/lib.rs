//! The protocol layer of a remote-console (RCON) server: the packet codec and
//! the per-connection session state machine, with their behaviour stated in
//! contracts and proved.

pub mod buffer;
pub mod framing;
pub mod packet;
pub mod session;
pub mod text;
pub mod wire;
