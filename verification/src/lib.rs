//! Verified core of a browser-facing server manager: todo lists, sync
//! targets, and the decision taken on each incoming message. The program
//! around it performs the network, file and process work these decisions ask for.

pub mod text;
pub mod message;
pub mod sync;
pub mod timestamp;
pub mod todo;
pub mod server;
pub mod session;
pub mod process;
pub mod laws;
