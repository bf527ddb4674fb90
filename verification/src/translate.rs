//! The injected translation capability and its error type.

use vstd::prelude::*;

verus! {

/// What went wrong inside a translation backend.
#[derive(Clone, Copy, Debug, PartialEq, Eq, Structural)]
pub enum ErrorType {
    /// Invalid arguments handed to the backend.
    InvalidArguments,
    /// The backend's secret id is not configured.
    MissingSecretId,
    /// The backend's secret key is not configured.
    MissingSecretKey,
    /// The backend could not be reached.
    NetworkError,
    /// The backend's response could not be understood.
    ApiParseError,
    /// Anything else.
    Others,
}

/// A backend failure: a kind together with a human-readable message.
#[derive(Debug)]
pub struct Error {
    error_type: ErrorType,
    message: String,
}

impl Error {
    /// The kind of this error.
    pub closed spec fn kind(&self) -> ErrorType {
        self.error_type
    }

    /// The message carried by this error.
    pub closed spec fn msg(&self) -> Seq<char> {
        self.message@
    }

    pub fn new(error_type: ErrorType, message: &str) -> (e: Self)
        ensures
            e.kind() == error_type,
            e.msg() == message@,
    {
        Error { error_type, message: message.to_owned() }
    }

    pub fn error_type(&self) -> (t: ErrorType)
        ensures
            t == self.kind(),
    {
        self.error_type
    }

    pub fn message(&self) -> (m: &str)
        ensures
            m@ == self.msg(),
    {
        self.message.as_str()
    }
}

/// Turns a failure of some other shape into an [`Error`] of a chosen kind,
/// keeping the original message.
pub trait ErrorCast<T>: Sized {
    fn cast(self, error_type: ErrorType) -> (r: Result<T, Error>);
}

impl<T> ErrorCast<T> for Result<T, String> {
    fn cast(self, error_type: ErrorType) -> (r: Result<T, Error>)
        ensures
            match self {
                Ok(v) => r matches Ok(w) && w == v,
                Err(m) => r matches Err(e) && e.kind() == error_type && e.msg() == m@,
            },
    {
        match self {
            Ok(v) => Ok(v),
            Err(m) => Err(Error::new(error_type, m.as_str())),
        }
    }
}

/// A translation backend.
///
/// The two spec functions describe the backend as a function of the request:
/// on which requests it succeeds, and what text it then returns.  An
/// implementation chooses them to match what its `translate` method does;
/// everything this crate proves about a tree walk holds for every such
/// backend, whatever those functions are.
pub trait Translate {
    /// Whether the backend answers this request at all.
    open spec fn succeeds(&self, src_lang: Seq<char>, dst_lang: Seq<char>, text: Seq<char>) -> bool {
        arbitrary()
    }

    /// The text the backend returns when it succeeds.
    open spec fn translation(&self, src_lang: Seq<char>, dst_lang: Seq<char>, text: Seq<char>) -> Seq<
        char,
    > {
        arbitrary()
    }

    /// Translate `src` from `src_lang` to `dst_lang`, resting at least
    /// `idle` milliseconds if the backend throttles itself.
    fn translate(&self, src_lang: &str, dst_lang: &str, src: &str, idle: u64) -> (r: Result<
        String,
        Error,
    >)
        ensures
            match r {
                Ok(out) => self.succeeds(src_lang@, dst_lang@, src@) && out@ == self.translation(
                    src_lang@,
                    dst_lang@,
                    src@,
                ),
                Err(_) => !self.succeeds(src_lang@, dst_lang@, src@),
            },
    ;
}

} // verus!
