//! Export of the route history to ClickHouse.

pub mod columns;
pub mod config;
pub mod event;
pub mod hash;
pub mod journal;
pub mod pending;
pub mod receiver;
pub mod record;
pub mod seen;
pub mod shutdown;
pub mod spool;
pub mod target;
pub mod transport;
pub mod uploader;
pub mod wire_form;
pub mod writer;

