use vstd::prelude::*;
use vstd::slice::slice_to_vec;
use vstd::utf8::{decode_utf8, valid_utf8};

verus! {

/// One of two outcomes: the preferred one on the left, the fallback on the right.
#[derive(Debug)]
pub enum Either<L, R> {
    Left(L),
    Right(R),
}

pub use Either::{Left, Right};

/// Either the preferred value, or the fallback together with why the preferred one failed.
pub type Try<L, R, E> = Either<L, (R, E)>;

/// A `Try` whose fallback may itself have failed.
pub type TryResult<L, R, E> = Try<L, Result<R, E>, E>;

/// Text, or the raw bytes where they are not UTF-8.
pub type TryString = Try<String, Vec<u8>, std::str::Utf8Error>;

#[verifier::external_type_specification]
#[verifier::external_body]
pub struct ExUtf8Error(std::str::Utf8Error);

/// The error that `std::str::from_utf8` gives for bytes that are not UTF-8; it is a
/// function of the bytes.
pub uninterp spec fn utf8_error(bytes: Seq<u8>) -> std::str::Utf8Error;

/// `std::str::from_utf8`: succeeds exactly when the bytes are well-formed UTF-8, and then
/// gives the text that they encode; else it gives the error for those bytes. What the error
/// holds (where the valid prefix ends) is left unsaid.
#[verifier::external_body]
fn str_from_utf8(data: &[u8]) -> (r: Result<&str, std::str::Utf8Error>)
    ensures
        r is Ok <==> valid_utf8(data@),
        r matches Ok(s) ==> s@ == decode_utf8(data@),
        r matches Err(e) ==> e == utf8_error(data@),
{
    std::str::from_utf8(data)
}

/// The text where decoding `data` succeeded, else the bytes themselves with the error.
pub fn string_or_bytes(data: &[u8], decoded: Result<&str, std::str::Utf8Error>) -> (r: TryString)
    ensures
        match decoded {
            Ok(s) => r matches Left(t) && t@ == s@,
            Err(e) => r matches Right((bytes, err)) && bytes@ == data@ && err == e,
        },
{
    match decoded {
        Ok(val) => Left(val.to_string()),
        Err(err) => Right((slice_to_vec(data), err)),
    }
}

/// The bytes as text where they are UTF-8, else the bytes themselves and the decoding error.
pub fn get_string(data: &[u8]) -> (r: TryString)
    ensures
        match r {
            Left(s) => valid_utf8(data@) && s@ == decode_utf8(data@),
            Right((bytes, err)) => !valid_utf8(data@) && bytes@ == data@ && err == utf8_error(
                data@,
            ),
        },
{
    let result = str_from_utf8(data);
    string_or_bytes(data, result)
}

} // verus!
