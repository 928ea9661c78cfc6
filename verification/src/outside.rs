//! Outside types that the library's error values carry.
use vstd::prelude::*;

verus! {

/// Errors of std's I/O operations.
#[verifier::external_type_specification]
#[verifier::external_body]
pub struct ExIoError(std::io::Error);

/// Errors of `serde_json` (de)serialisation.
#[verifier::external_type_specification]
#[verifier::external_body]
pub struct ExJsonError(serde_json::Error);

/// Errors of the `serialport` crate.
#[verifier::external_type_specification]
#[verifier::external_body]
pub struct ExSerialError(serialport::Error);

/// Errors of the `image` crate's codecs and operations.
#[verifier::external_type_specification]
#[verifier::external_body]
pub struct ExImageError(image::ImageError);

} // verus!
