//! The crate's error: a stable code and a human-readable message.
use vstd::prelude::*;

verus! {

#[derive(Debug)]
pub struct CacheError {
    /// A stable, machine-readable error class such as `invalid-input`.
    pub code: &'static str,
    /// A description for people.
    pub message: String,
}

pub type Result<T> = core::result::Result<T, CacheError>;

/// `e` has error class `code` and message `message`.
pub open spec fn is_error(e: CacheError, code: Seq<char>, message: Seq<char>) -> bool {
    e.code@ == code && e.message@ == message
}

/// `r` failed with error class `code` and message `message`.
pub open spec fn fails_with<T>(r: Result<T>, code: Seq<char>, message: Seq<char>) -> bool {
    r is Err && is_error(r->Err_0, code, message)
}

/// `std::io::Error`, carried opaquely into an error's message.
#[verifier::external_type_specification]
#[verifier::external_body]
pub struct ExIoError(std::io::Error);

impl CacheError {
    pub fn new(code: &'static str, message: &str) -> (e: CacheError)
        ensures
            e.code == code,
            e.message@ == message@,
    {
        CacheError { code, message: message.to_owned() }
    }

    /// An error of class `code` whose message is the text of an I/O error.
    pub fn io(code: &'static str, error: std::io::Error) -> (e: CacheError)
        ensures
            e.code == code,
    {
        CacheError { code, message: error.to_string() }
    }

    /// The error's message, which is also how it displays.
    pub fn describe(&self) -> (r: String)
        ensures
            r@ == self.message@,
    {
        self.message.clone()
    }
}

pub trait IoResultExt<T> {
    fn cache_err(self, code: &'static str) -> Result<T>;
}

impl<T> IoResultExt<T> for std::io::Result<T> {
    /// Keeps a success; turns an I/O error into a `CacheError` of class `code`.
    fn cache_err(self, code: &'static str) -> (r: Result<T>)
        ensures
            self is Ok ==> r == Ok::<T, CacheError>(self->Ok_0),
            self is Err ==> r is Err && r->Err_0.code == code,
    {
        match self {
            Ok(value) => Ok(value),
            Err(error) => Err(CacheError::io(code, error)),
        }
    }
}

} // verus!
