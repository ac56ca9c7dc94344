//! The packet plane of a network reconnaissance tool: who is on the link,
//! learned from the ARP traffic that passes by, and the frames with which to
//! ask.
//!
//! Everything here works on plain values. Reading and writing the wire, the
//! threads and the queues between them belong to the program around this
//! library, which hands over what it read and carries out what it is told.

pub mod addr;
pub mod control;
pub mod discovery;
pub mod fanout;
pub mod hosts;
pub mod probe;
pub mod proc;
pub mod registry;
pub mod text;
pub mod wire;
