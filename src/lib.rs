//! Attributes host network connections to the processes that own them.

pub mod codec;
pub mod table;
pub mod sockets;
pub mod netstat;
pub mod tui;
