//! The calls this library makes into code it does not verify. Each contract
//! below is taken on trust from the called function's source or documentation.

use vstd::prelude::*;
use vstd::utf8::valid_utf8;

verus! {

/// An octet that may stand in a header field name.
pub open spec fn is_name_octet(b: u8) -> bool {
    (33 <= b && b <= 39) || b == 42 || b == 43 || b == 45 || b == 46 || (48 <= b && b <= 57) || (65
        <= b && b <= 90) || (94 <= b && b <= 122) || b == 124 || b == 126
}

/// A header field name: between 1 and 65535 octets, each of them a name octet.
pub open spec fn legal_header_name(s: Seq<u8>) -> bool {
    1 <= s.len() <= 65535 && forall|i: int| 0 <= i < s.len() ==> is_name_octet(#[trigger] s[i])
}

/// An octet that may stand in a header field value: a tab, or anything from
/// 32 upwards but 127.
pub open spec fn is_value_octet(b: u8) -> bool {
    (b >= 32 && b != 127) || b == 9
}

/// A header field value: every octet is a value octet.
pub open spec fn legal_header_value(s: Seq<u8>) -> bool {
    forall|i: int| 0 <= i < s.len() ==> is_value_octet(#[trigger] s[i])
}

/// A status code that an HTTP response can carry.
pub open spec fn legal_status(code: u16) -> bool {
    100 <= code && code < 1000
}

/// Calls `axum::http::HeaderName::from_bytes` and reports whether it accepted
/// the name. Trusted: it accepts exactly the names of 1 to 65535 octets that
/// its table of header characters maps to a non-zero octet throughout.
#[verifier::external_body]
pub(crate) fn header_name_accepted(name: &[u8]) -> (ok: bool)
    ensures
        ok == legal_header_name(name@),
{
    axum::http::HeaderName::from_bytes(name).is_ok()
}

/// Calls `axum::http::HeaderValue::from_bytes` and reports whether it accepted
/// the value. Trusted: it rejects a value exactly when one of its octets is
/// below 32 and not a tab, or is 127.
#[verifier::external_body]
pub(crate) fn header_value_accepted(value: &[u8]) -> (ok: bool)
    ensures
        ok == legal_header_value(value@),
{
    axum::http::HeaderValue::from_bytes(value).is_ok()
}

/// Calls `axum::http::StatusCode::from_u16` and reports whether it accepted the
/// code. Trusted: it accepts exactly the codes from 100 to 999.
#[verifier::external_body]
pub(crate) fn status_accepted(code: u16) -> (ok: bool)
    ensures
        ok == legal_status(code),
{
    axum::http::StatusCode::from_u16(code).is_ok()
}

/// Calls `std::str::from_utf8` and reports whether the octets are UTF-8.
/// Trusted: it succeeds exactly on well-formed UTF-8.
#[verifier::external_body]
pub(crate) fn utf8_accepted(bytes: &[u8]) -> (ok: bool)
    ensures
        ok == valid_utf8(bytes@),
{
    std::str::from_utf8(bytes).is_ok()
}

} // verus!
