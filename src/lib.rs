//! Server side of a text-message WebSocket endpoint, written without I/O:
//! the handshake and the frame codec work on bytes handed in by the caller,
//! and the session collects the bytes that the caller must write out.

pub mod digest;
pub mod error;
pub mod frame;
pub mod handshake;
pub mod session;

pub use error::{ErrorClass, WsError};
pub use session::WebSocket;
