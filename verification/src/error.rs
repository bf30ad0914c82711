//! The error taxonomy of the command engine and its parsers.  Every
//! parse step reports a specific kind; handlers degrade such an error
//! to a protocol-level `NO`/`BAD` completion rather than aborting.
use vstd::prelude::*;

verus! {

#[derive(Clone, Copy, Debug, PartialEq, Eq, Structural)]
pub enum Error {
    /// An input line held a tag but no verb.
    CommandNotRecognised,
    /// A mailbox path could not be resolved for the session's user.
    FolderLookup,
    /// The message has no `To:` header line.
    ToFieldMissing,
    /// The message has no `From:` header line.
    FromFieldMissing,
    /// The message has no `Date:` header line.
    DateFieldMissing,
    /// The message has no `Subject:` header line.
    SubjectFieldMissing,
    /// A `To:` header line holds no `@`-separated address.
    InvalidToField,
    /// A `From:` header line holds no `@`-separated address.
    InvalidFromField,
    /// A date was out of the range this library can convert or format.
    TimeDate,
    /// COPY is not implemented.
    IMAPCopyErr,
    /// A SEARCH date's month token names no month.
    NotAMonth,
    /// A message selector was not a number, list or range of numbers.
    BadSelector,
    /// A sequence number points outside the folder snapshot.
    NoSuchMessage,
    /// A FETCH attribute set this library does not render.
    UnsupportedFetch,
    /// A message filename does not encode a timestamp before the
    /// suffix marker, or encodes one too large for a UID.
    BadMessageFile,
}

impl Error {
    /// A short name for the error, for protocol completion lines.
    pub fn text(&self) -> (r: &'static str)
        ensures
            r@ == error_text(*self),
    {
        match self {
            Error::CommandNotRecognised => "command not recognised",
            Error::FolderLookup => "folder lookup failed",
            Error::ToFieldMissing => "To field missing",
            Error::FromFieldMissing => "From field missing",
            Error::DateFieldMissing => "Date field missing",
            Error::SubjectFieldMissing => "Subject field missing",
            Error::InvalidToField => "To field invalid",
            Error::InvalidFromField => "From field invalid",
            Error::TimeDate => "date out of range",
            Error::IMAPCopyErr => "COPY failed",
            Error::NotAMonth => "not a month",
            Error::BadSelector => "bad message selector",
            Error::NoSuchMessage => "no such message",
            Error::UnsupportedFetch => "unsupported fetch attributes",
            Error::BadMessageFile => "bad message filename",
        }
    }
}

/// The short name of each error kind.
pub open spec fn error_text(e: Error) -> Seq<char> {
    match e {
        Error::CommandNotRecognised => "command not recognised"@,
        Error::FolderLookup => "folder lookup failed"@,
        Error::ToFieldMissing => "To field missing"@,
        Error::FromFieldMissing => "From field missing"@,
        Error::DateFieldMissing => "Date field missing"@,
        Error::SubjectFieldMissing => "Subject field missing"@,
        Error::InvalidToField => "To field invalid"@,
        Error::InvalidFromField => "From field invalid"@,
        Error::TimeDate => "date out of range"@,
        Error::IMAPCopyErr => "COPY failed"@,
        Error::NotAMonth => "not a month"@,
        Error::BadSelector => "bad message selector"@,
        Error::NoSuchMessage => "no such message"@,
        Error::UnsupportedFetch => "unsupported fetch attributes"@,
        Error::BadMessageFile => "bad message filename"@,
    }
}

pub type IMAPResult<T> = Result<T, Error>;

} // verus!
