//! The open namespace of error-kind tags used across the library.
//!
//! A tag is a plain string; collaborators are free to introduce their own.

use vstd::prelude::*;

verus! {

pub const UncategorizedException: &'static str = "Uncategorized";

pub const DummyException: &'static str = "Dummy";

pub const HttpPostException: &'static str = "HttpPost";

pub const SerializationException: &'static str = "Serialization";

pub const DeserializationException: &'static str = "Deserialization";

pub const IndexOutOfBoundException: &'static str = "IndexOutOfBound";

pub const InvalidUTF8BytesException: &'static str = "InvalidUTF8Bytes";

pub const ArithmeticException: &'static str = "Arithmetic";

pub const IOException: &'static str = "IO";

pub const PathResolutionException: &'static str = "PathResolution";

pub const AssertionFailedException: &'static str = "AssertionFailed";

pub const DataFormatException: &'static str = "DataFormatException";

} // verus!
