//! Best path selection over the records stored for one prefix.

pub mod attributes;
pub mod decision;
pub mod report;
pub mod select;
