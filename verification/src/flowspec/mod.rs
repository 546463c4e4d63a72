//! Storage of FlowSpec rules.
//!
//! All rules that one peer announces for one destination prefix are kept in
//! one octet string:
//!
//! ```text
//! blob  := version:u8 (=1) , entry*
//! entry := flags:u8 , nlri_len:u16 , pa_len:u32 , nlri , attributes
//! flags := bits 0-1: validity; bits 2-7 reserved
//! ```
//!
//! Integers are big-endian. A rule is identified by its NLRI, without the
//! length header that it has on the wire.

pub mod layout;
pub mod metrics;
pub mod nlri;
pub mod rules;
