//! Conversions between values and their transport forms.

pub mod envelope;
pub mod json;
pub mod utf8;
