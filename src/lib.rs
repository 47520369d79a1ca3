//! A debug channel from a running program to a viewer over TCP: the wire
//! codec, the sending side's mailbox and writer, and the viewer's connector.
pub mod connector;
pub mod decode;
pub mod frame;
pub mod mailbox;
pub mod producer;
pub mod transport;
pub mod wire;
