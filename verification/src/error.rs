//! The failures that the library reports.

use vstd::prelude::*;

verus! {

/// The five kinds of failure.
#[derive(Clone, Copy, Debug, PartialEq, Eq, Structural)]
pub enum ErrorKind {
    /// A file could not be read or written.
    Io,
    /// A text is not well-formed JSON.
    Parse,
    /// A value has no lossless JSON form.
    Conversion,
    /// An HTTP method outside the supported set.
    UnsupportedMethod,
    /// The transport failed or timed out.
    Network,
}

/// A failure: its kind and a message that can be shown as it is.
#[derive(Debug)]
pub struct BridgeError {
    pub kind: ErrorKind,
    pub message: String,
}

/// The model of a failure: its kind and the text of its message.
pub struct Failure {
    pub kind: ErrorKind,
    pub message: Seq<char>,
}

impl View for BridgeError {
    type V = Failure;

    open spec fn view(&self) -> Failure {
        Failure { kind: self.kind, message: self.message@ }
    }
}

/// Why a value has no lossless JSON form.
#[derive(Clone, Copy, Debug, PartialEq, Eq, Structural)]
pub enum ConversionFault {
    /// An object names one key twice.
    DuplicateKey,
    /// A host object contains itself.
    Cycle,
    /// A host object of a type that JSON does not have.
    UnsupportedType,
    /// A host mapping with a key that is not a string.
    NonStringKey,
    /// A host reference that points outside the heap.
    DanglingReference,
}

impl ConversionFault {
    /// The fault in words.
    pub open spec fn text(self) -> Seq<char> {
        match self {
            ConversionFault::DuplicateKey => "duplicate key in object"@,
            ConversionFault::Cycle => "cyclic reference"@,
            ConversionFault::UnsupportedType => "unsupported type"@,
            ConversionFault::NonStringKey => "key must be a string"@,
            ConversionFault::DanglingReference => "dangling reference"@,
        }
    }

    /// The fault in words.
    pub fn describe(self) -> (r: String)
        ensures
            r@ == self.text(),
    {
        match self {
            ConversionFault::DuplicateKey => "duplicate key in object".to_owned(),
            ConversionFault::Cycle => "cyclic reference".to_owned(),
            ConversionFault::UnsupportedType => "unsupported type".to_owned(),
            ConversionFault::NonStringKey => "key must be a string".to_owned(),
            ConversionFault::DanglingReference => "dangling reference".to_owned(),
        }
    }
}

impl BridgeError {
    /// A failure whose message is `prefix` followed by `cause`.
    pub fn new(kind: ErrorKind, prefix: &str, cause: &str) -> (r: BridgeError)
        ensures
            r.kind == kind,
            r.message@ == prefix@ + cause@,
    {
        let mut message = prefix.to_owned();
        message.append(cause);
        BridgeError { kind, message }
    }

    /// A failure about `subject`, a path for one: its message is `prefix`,
    /// the subject, a colon with a space and then `cause`.
    pub fn about(kind: ErrorKind, prefix: &str, subject: &str, cause: &str) -> (r: BridgeError)
        ensures
            r.kind == kind,
            r.message@ == prefix@ + subject@ + ": "@ + cause@,
    {
        let mut message = prefix.to_owned();
        message.append(subject);
        message.append(": ");
        message.append(cause);
        BridgeError { kind, message }
    }
}

} // verus!
