//! BGP sessions with peers.

pub mod connector;
pub mod neighbors;
pub mod session_status;
