//! The ways a decode can fail.

use vstd::prelude::*;
use vstd::string::StringExecFns;

verus! {

/// One specific reason a decode failed.
///
/// A decode call returns exactly one of these; failures are never
/// aggregated, retried or downgraded.
#[derive(Debug)]
pub enum Error {
    /// `ACTION=` carried a token outside the closed action vocabulary.
    /// Carries the offending token verbatim.
    UnexpectedAction(String),
    /// `DEVPATH=` carried a value that cannot be stored as a path.
    /// Carries the raw value.
    InvalidDevPath(String),
    /// `SEQNUM=` carried a value that is not an unsigned 64-bit decimal
    /// number.  Carries the raw value.
    InvalidSeqNum(String),
    /// An underlying filesystem read failed; the message of the original
    /// failure is carried verbatim, not reinterpreted.
    Io(String),
    /// The canonicalized device directory does not lie under the given
    /// mountpoint.
    NotInsideMountpoint,
    /// The netlink packet is not valid UTF-8 text.
    NotUtf8,
    /// A netlink packet held no `ACTION=` segment.
    ActionNotFound,
    /// A netlink packet held no `DEVPATH=` segment.
    DevPathNotFound,
    /// No subsystem name could be determined.
    SubsystemNotFound,
    /// A netlink packet held no `SEQNUM=` segment.
    SeqMissing,
}

/// The mathematical shape of an [`Error`]: the same variants with every
/// carried string abstracted to its character sequence.
pub enum ErrorView {
    UnexpectedAction(Seq<char>),
    InvalidDevPath(Seq<char>),
    InvalidSeqNum(Seq<char>),
    Io(Seq<char>),
    NotInsideMountpoint,
    NotUtf8,
    ActionNotFound,
    DevPathNotFound,
    SubsystemNotFound,
    SeqMissing,
}

impl View for Error {
    type V = ErrorView;

    open spec fn view(&self) -> ErrorView {
        match self {
            Error::UnexpectedAction(t) => ErrorView::UnexpectedAction(t@),
            Error::InvalidDevPath(t) => ErrorView::InvalidDevPath(t@),
            Error::InvalidSeqNum(t) => ErrorView::InvalidSeqNum(t@),
            Error::Io(t) => ErrorView::Io(t@),
            Error::NotInsideMountpoint => ErrorView::NotInsideMountpoint,
            Error::NotUtf8 => ErrorView::NotUtf8,
            Error::ActionNotFound => ErrorView::ActionNotFound,
            Error::DevPathNotFound => ErrorView::DevPathNotFound,
            Error::SubsystemNotFound => ErrorView::SubsystemNotFound,
            Error::SeqMissing => ErrorView::SeqMissing,
        }
    }
}

/// The message text of an error, as a spec-level character sequence.
pub open spec fn message_of(e: ErrorView) -> Seq<char> {
    match e {
        ErrorView::UnexpectedAction(t) => "Unexpected action: "@ + t,
        ErrorView::InvalidDevPath(t) => "Invalid DEVPATH: "@ + t,
        ErrorView::InvalidSeqNum(t) => "Unexpected SEQNUM: "@ + t,
        ErrorView::Io(t) => t,
        ErrorView::NotInsideMountpoint => "Path not inside mountpoint"@,
        ErrorView::NotUtf8 => "Packet not UTF-8"@,
        ErrorView::ActionNotFound => "action not found"@,
        ErrorView::DevPathNotFound => "devpath not found"@,
        ErrorView::SubsystemNotFound => "subsystem not found"@,
        ErrorView::SeqMissing => "seq missing"@,
    }
}

impl Error {
    /// A human-readable description of the failure.
    pub fn message(&self) -> (r: String)
        ensures
            r@ == message_of(self@),
    {
        match self {
            Error::UnexpectedAction(t) => join_prefix("Unexpected action: ", t),
            Error::InvalidDevPath(t) => join_prefix("Invalid DEVPATH: ", t),
            Error::InvalidSeqNum(t) => join_prefix("Unexpected SEQNUM: ", t),
            Error::Io(t) => t.clone(),
            Error::NotInsideMountpoint => "Path not inside mountpoint".to_owned(),
            Error::NotUtf8 => "Packet not UTF-8".to_owned(),
            Error::ActionNotFound => "action not found".to_owned(),
            Error::DevPathNotFound => "devpath not found".to_owned(),
            Error::SubsystemNotFound => "subsystem not found".to_owned(),
            Error::SeqMissing => "seq missing".to_owned(),
        }
    }
}

fn join_prefix(prefix: &str, rest: &String) -> (r: String)
    ensures
        r@ == prefix@ + rest@,
{
    let mut r = prefix.to_owned();
    r.append(rest.as_str());
    r
}

} // verus!
