//! Foundation primitives shared by every other component: a chainable failure
//! value that records where it was observed, the JSON status envelope that
//! carries an outcome across a process boundary, and a codec that packs
//! strings into one flat buffer with explicit bounds checks.

#![allow(non_upper_case_globals)]

pub mod lang;
pub mod exception_names;
pub mod text;
pub mod exception;
pub mod conversion;
pub mod qsort;
pub mod idgen;
pub mod http;
pub mod io;

pub use conversion::envelope::{encode_failure, encode_success, JsonDictGet};
pub use conversion::json::{JsonDict, JsonNumber, JsonValue};
pub use conversion::utf8::{
    bslice_into_partof_vecu8, str_from_partof_vecu8, str_into_partof_vecu8, str_to_u8p,
    u8p_to_bslice, u8p_to_str,
};
pub use exception::{
    assert_throw, exception, throw, Cause, Exception, Outcome,
    TraitStdOptionToOutcome, TraitStdResultToOutcome,
};
pub use exception_names as EXN;
pub use lang::PTRLEN;
pub use qsort::{Permute, QuickSort};
