//! Error types for the codec.
//!
//! Two generations of the API share this module: the buffered [`Reader`] and
//! [`Writer`](crate::coding::Writer) report a flat [`MqttError`], while the
//! pull decoder reports an [`Error`] tagged with a variant enum.
//!
//! [`Reader`]: crate::coding::Reader

use vstd::prelude::*;

verus! {

/// The kind of an [`MqttError`]
#[derive(Debug, Clone, PartialEq, Eq)]
pub enum ErrorKind {
    /// The input ended inside a field
    TruncatedData,
    /// A value violates the wire format
    InvalidValue,
    /// The protocol-level byte names a version this crate does not speak
    UnsupportedVersion,
}

/// A slim error type for the buffered reader and writer
#[derive(Debug, Clone, PartialEq, Eq)]
pub struct MqttError {
    /// The error kind
    pub kind: ErrorKind,
}

impl MqttError {
    /// Creates a new error of the given kind
    pub fn new(kind: ErrorKind) -> (r: Self)
        ensures
            r.kind == kind,
    {
        Self { kind }
    }

    /// The kind of this error
    pub fn kind(&self) -> (r: &ErrorKind)
        ensures
            r == &self.kind,
    {
        &self.kind
    }
}

/// A slim, abstract error type for the pull decoder and the containers
#[derive(Debug, Clone, PartialEq, Eq)]
pub struct Error<Variant> {
    /// The error variant
    pub variant: Variant,
}

impl<Variant> Error<Variant> {
    /// Creates a new error with the given variant
    pub fn new(variant: Variant) -> (r: Self)
        ensures
            r.variant == variant,
    {
        Self { variant }
    }

    /// Converts `self` into a new error variant
    pub fn into_variant<NewVariant>(self, new_variant: NewVariant) -> (r: Error<NewVariant>)
        ensures
            r.variant == new_variant,
    {
        Error { variant: new_variant }
    }
}

/// Some buffer is out of capacity
#[derive(Debug, Clone, PartialEq, Eq)]
pub struct Memory;

/// Some MQTT data is invalid
#[derive(Debug, Clone, PartialEq, Eq)]
pub enum Data {
    /// The data is truncated
    Truncated,
    /// The data violates the specifications
    SpecViolation,
}

/// A general decoding-related error
#[derive(Debug, Clone, PartialEq, Eq)]
pub enum Decoding {
    /// The data is truncated
    Truncated,
    /// The data violates the specifications
    SpecViolation,
    /// Some buffer is out of capacity
    Memory,
    /// The protocol-level byte names a version this crate does not speak
    UnsupportedVersion,
}

/// The [`ErrorKind`] that the buffered reader reports for a decoding error
pub open spec fn kind_of(d: Decoding) -> ErrorKind {
    match d {
        Decoding::Truncated => ErrorKind::TruncatedData,
        Decoding::SpecViolation => ErrorKind::InvalidValue,
        Decoding::Memory => ErrorKind::InvalidValue,
        Decoding::UnsupportedVersion => ErrorKind::UnsupportedVersion,
    }
}

/// [`Error<Memory>`]
pub type MemoryError = Error<Memory>;

/// [`Error<Data>`]
pub type DataError = Error<Data>;

/// [`Error<Decoding>`]
pub type DecoderError = Error<Decoding>;

} // verus!
