use vstd::prelude::*;
use vstd::utf8::{valid_utf8, decode_utf8, encode_utf8, encode_utf8_valid_utf8, encode_utf8_decode_utf8};
use vstd::string::StringSliceAdditionalSpecFns;
use crate::scan::opt_bytes;

verus! {

/// Why an operation on the store failed: one variant for each source of
/// failure, holding that source's own error.
#[derive(Debug)]
pub enum Error {
    /// A call on the file failed: open, seek, read, write, truncate or length.
    FileError(std::io::Error),
    /// The advisory lock could not be taken or released; holds the error
    /// number that the lock call reported.
    LockError(i32),
    /// The popped record is not valid UTF-8; it has been removed all the same.
    Utf8Error(std::string::FromUtf8Error),
}

impl Error {
    /// A short description of the kind of failure.
    pub fn description(&self) -> (r: &'static str)
        ensures
            self is FileError ==> r@ == "File error"@,
            self is LockError ==> r@ == "Locking error"@,
            self is Utf8Error ==> r@ == "UTF8 error"@,
    {
        match self {
            Error::FileError(..) => "File error",
            Error::LockError(..) => "Locking error",
            Error::Utf8Error(..) => "UTF8 error",
        }
    }
}

impl From<std::io::Error> for Error {
    fn from(error: std::io::Error) -> (r: Error) {
        Error::FileError(error)
    }
}

impl vstd::std_specs::convert::FromSpecImpl<std::io::Error> for Error {
    open spec fn obeys_from_spec() -> bool {
        true
    }

    open spec fn from_spec(v: std::io::Error) -> Error {
        Error::FileError(v)
    }
}

impl From<std::string::FromUtf8Error> for Error {
    fn from(error: std::string::FromUtf8Error) -> (r: Error) {
        Error::Utf8Error(error)
    }
}

impl vstd::std_specs::convert::FromSpecImpl<std::string::FromUtf8Error> for Error {
    open spec fn obeys_from_spec() -> bool {
        true
    }

    open spec fn from_spec(v: std::string::FromUtf8Error) -> Error {
        Error::Utf8Error(v)
    }
}

/// Relies on std's String::from_utf8: it succeeds exactly when the bytes are
/// valid UTF-8, and then holds the text they encode.
#[verifier::external_body]
fn utf8_text(bytes: Vec<u8>) -> (r: Result<String, std::string::FromUtf8Error>)
    ensures
        r is Ok <==> valid_utf8(bytes@),
        r is Ok ==> r->Ok_0@ == decode_utf8(bytes@),
{
    String::from_utf8(bytes)
}

/// Turns the bytes that a pop took from the store into its result: `None`
/// stays `None`, and a record's bytes are decoded as UTF-8 text.
pub fn decode_record(record: Option<Vec<u8>>) -> (r: Result<Option<String>, Error>)
    ensures
        opt_bytes(record) is None ==> r is Ok && r->Ok_0 is None,
        opt_bytes(record) matches Some(b) ==> {
            &&& r is Ok <==> valid_utf8(b)
            &&& r is Ok ==> r->Ok_0 is Some && r->Ok_0->Some_0@ == decode_utf8(b)
            &&& r is Err ==> r->Err_0 is Utf8Error
        },
{
    match record {
        None => Ok(None),
        Some(bytes) => match utf8_text(bytes) {
            Ok(text) => Ok(Some(text)),
            Err(e) => Err(Error::Utf8Error(e)),
        },
    }
}

/// The bytes that a push of `s` stores before its newline decode back to
/// exactly the text of `s`.
pub proof fn lemma_pushed_text_decodes(s: &str)
    ensures
        valid_utf8(s.spec_bytes()),
        decode_utf8(s.spec_bytes()) == s@,
{
    encode_utf8_valid_utf8(s@);
    encode_utf8_decode_utf8(s@);
    assert(s.spec_bytes() == encode_utf8(s@));
}

} // verus!
