//! Declarations of the outside types that the library carries through
//! without looking inside them.
use vstd::prelude::*;

verus! {

/// A frame's payload, handed over by the framing layer and passed on unread.
#[verifier::external_type_specification]
#[verifier::external_body]
pub struct ExBytes(bytes::Bytes);

/// An I/O error reported by the network layer, carried inside the library's
/// own error values.
#[verifier::external_type_specification]
#[verifier::external_body]
pub struct ExIoError(std::io::Error);

} // verus!
