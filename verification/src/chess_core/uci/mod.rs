//! The UCI protocol as text lines: commands from the GUI and messages from the engine.
pub mod cmd;
pub mod cmd_laws;
pub mod msg;
pub mod msg_laws;
