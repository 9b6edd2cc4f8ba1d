//! The UCI protocol as the engine side reads and writes it: requests from the GUI,
//! responses from the engine and the moves in both.
pub mod engine;
pub mod moves;
pub mod parse;
pub mod req;
pub mod resp;
pub mod req_laws;
pub mod resp_laws;
