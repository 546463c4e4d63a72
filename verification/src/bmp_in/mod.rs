//! Connections over which monitored routers send BMP messages.

pub mod transport;
