//! Resolution of tabletop dice rolls: dice generation, rerolls, keep/drop
//! selection, totals and modifiers, the folding of a roll command's
//! arguments into roll flags, and the small HTTP-facing helpers around them.

pub mod comparison;
pub mod config;
pub mod cors;
pub mod die;
pub mod flags;
pub mod metrics;
pub mod roll;
pub mod source;
pub mod stages;
pub mod v1;
