//! What the operations of the library mean: what their results are, in terms of what they
//! are given.

pub mod addresses;
pub mod bundles;
pub mod configuration;
pub mod journals;
pub mod messages;
pub mod numerals;
pub mod receiving;
pub mod records;
pub mod steps;
