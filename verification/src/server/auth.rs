use vstd::prelude::*;

use actix_web::http::HeaderValue;
use actix_web_httpauth::headers::authorization::{Bearer, Scheme};

verus! {

/// A byte that a header value may hold and still read as text: visible
/// ASCII or a tab.
pub open spec fn is_visible_ascii(b: u8) -> bool {
    (32 <= b && b < 127) || b == 9
}

/// The bytes of `"Bearer "`.
pub open spec fn bearer_prefix() -> Seq<u8> {
    seq![66u8, 101u8, 97u8, 114u8, 101u8, 114u8, 32u8]
}

/// `header` is a bearer credential: text of at least eight bytes that starts
/// with `"Bearer "`.
pub open spec fn is_bearer_header(header: Seq<u8>) -> bool {
    &&& header.len() >= 8
    &&& forall|i: int| 0 <= i < header.len() ==> is_visible_ascii(#[trigger] header[i])
    &&& header.take(7) == bearer_prefix()
}

/// ASCII bytes read as characters.
pub open spec fn ascii_text(bytes: Seq<u8>) -> Seq<char> {
    bytes.map_values(|b: u8| b as char)
}

/// The token of a bearer credential: the text after `"Bearer "`.
pub open spec fn bearer_token_of(header: Seq<u8>) -> Seq<char> {
    ascii_text(header.skip(7))
}

/// Reads an `Authorization` header value with `Bearer::parse` of
/// actix-web-httpauth, after `HeaderValue::from_bytes` of actix-web's `http`.
/// Claimed, as their source shows: the parse succeeds exactly on values of at
/// least eight visible-ASCII bytes (tab included) that start with `"Bearer "`,
/// and the token is the text after that prefix.
#[verifier::external_body]
fn parse_bearer(header: &[u8]) -> (res: Option<String>)
    ensures
        res is Some <==> is_bearer_header(header@),
        res matches Some(t) ==> t@ == bearer_token_of(header@),
{
    match HeaderValue::from_bytes(header) {
        Ok(value) => match <Bearer as Scheme>::parse(&value) {
            Ok(bearer) => Some(bearer.token().to_string()),
            Err(_) => None,
        },
        Err(_) => None,
    }
}

/// The request carries no usable bearer credential.
#[derive(Debug, PartialEq, Eq)]
pub struct InvalidAuthorization;

/// The token of the `Authorization` header, where it is a bearer credential.
pub fn bearer_token(header: Option<&[u8]>) -> (res: Result<String, InvalidAuthorization>)
    ensures
        match header {
            Some(h) => if is_bearer_header(h@) {
                res matches Ok(t) && t@ == bearer_token_of(h@)
            } else {
                res is Err
            },
            None => res is Err,
        },
{
    match header {
        Some(h) => match parse_bearer(h) {
            Some(t) => Ok(t),
            None => Err(InvalidAuthorization),
        },
        None => Err(InvalidAuthorization),
    }
}

} // verus!
