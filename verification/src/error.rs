//! Error type shared by every stage of the conversion pipeline.

use vstd::prelude::*;

verus! {

/// The distinct failure classes of a conversion.
///
/// `Io` stands for a read or write that ran past the available data; the
/// other variants are format-level rejections of the source container.
#[derive(Debug)]
pub enum ErrorKind {
    Io(String),
    IncorrectQsvVersion,
    IncorrectQsvFormat,
    QsvTagsIsEmpty,
    MediaDurationIsTooShort,
}

impl ErrorKind {
    /// A human-readable message for this failure class: each constant
    /// variant has its fixed text, and `Io` carries its own.
    pub fn to_string(&self) -> (r: String)
        ensures
            self is Io ==> r@ == self->Io_0@,
            self is IncorrectQsvVersion ==> r@ == "incorrect qsv version"@,
            self is IncorrectQsvFormat ==> r@ == "incorrect qsv format"@,
            self is QsvTagsIsEmpty ==> r@ == "qsv has 0 tags"@,
            self is MediaDurationIsTooShort ==> r@ == "media duration is too short"@,
    {
        match self {
            ErrorKind::Io(msg) => msg.clone(),
            ErrorKind::IncorrectQsvVersion => "incorrect qsv version".to_string(),
            ErrorKind::IncorrectQsvFormat => "incorrect qsv format".to_string(),
            ErrorKind::QsvTagsIsEmpty => "qsv has 0 tags".to_string(),
            ErrorKind::MediaDurationIsTooShort => "media duration is too short".to_string(),
        }
    }
}

/// A conversion failure, carrying exactly one [`ErrorKind`].
#[derive(Debug)]
pub struct Error(pub Box<ErrorKind>);

impl Error {
    pub fn new(kind: ErrorKind) -> (r: Error)
        ensures
            *r.0 == kind,
    {
        Error(Box::new(kind))
    }

    pub fn kind(&self) -> (r: &ErrorKind)
        ensures
            *r == *self.0,
    {
        &self.0
    }

    pub fn into_kind(self) -> (r: ErrorKind)
        ensures
            r == *self.0,
    {
        *self.0
    }

    pub fn is_io_error(&self) -> (r: bool)
        ensures
            r == (*self.0 is Io),
    {
        match *self.0 {
            ErrorKind::Io(_) => true,
            _ => false,
        }
    }
}

} // verus!
