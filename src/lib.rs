//! Screen streaming and remote control: the frame pipeline, the session
//! gate, the control-event protocol and the relay registry.
pub mod auth;
pub mod bus;
pub mod frame;
pub mod input;
pub mod relay;
pub mod session;
