//! What filter scripts are given and what they hand out.

pub mod explode;
pub mod labels;
pub mod records;
pub mod types;
pub mod unsupported;
