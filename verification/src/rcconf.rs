//! rc.conf variables as the API shows and sets them.
use vstd::prelude::*;
use crate::error::{ApiError, ApiResult, bad_request, is_bad_request};
use crate::pattern::{regex_match, regex_is_match};
use crate::text::{byte_len, bytes_exceed, contains_char, owned};

verus! {

/// One `key="value"` assignment.
#[derive(Debug, Clone)]
pub struct RcVar {
    pub key: String,
    pub value: String,
}

/// A request to set one variable.
#[derive(Debug, Clone)]
pub struct SetRequest {
    pub key: String,
    pub value: String,
}

/// A variable named in a query string.
#[derive(Debug, Clone)]
pub struct KeyQuery {
    pub key: String,
}

/// A variable name is accepted when it is 1 to 128 bytes long and matches
/// the shell-identifier pattern.
pub open spec fn key_ok(key: Seq<char>) -> bool {
    &&& 0 < byte_len(key) <= 128
    &&& regex_match(r"^[a-zA-Z_][a-zA-Z0-9_]*$"@, key) == Some(true)
}

/// Validates an rc.conf variable name.
pub fn validate_key(key: &str) -> (r: ApiResult<()>)
    ensures
        r is Ok <==> key_ok(key@),
        (byte_len(key@) == 0 || byte_len(key@) > 128) ==> is_bad_request(
            r,
            "invalid variable name length"@,
        ),
        0 < byte_len(key@) <= 128 && regex_match(r"^[a-zA-Z_][a-zA-Z0-9_]*$"@, key@) == Some(
            false,
        ) ==> is_bad_request(r, "variable name must match [a-zA-Z_][a-zA-Z0-9_]*"@),
{
    proof {
        crate::text::lemma_byte_len_zero(key@);
    }
    if key.is_empty() || bytes_exceed(key, 128) {
        return bad_request("invalid variable name length");
    }
    match regex_is_match(r"^[a-zA-Z_][a-zA-Z0-9_]*$", key) {
        Some(true) => Ok(()),
        Some(false) => bad_request("variable name must match [a-zA-Z_][a-zA-Z0-9_]*"),
        None => Err(ApiError::Internal(owned("variable name pattern does not compile"))),
    }
}

/// Values that could break the file: a NUL, a newline or a carriage return.
pub open spec fn value_ok(value: Seq<char>) -> bool {
    !value.contains('\0') && !value.contains('\n') && !value.contains('\r')
}

/// Rejects values that would corrupt rc.conf.
pub fn validate_value(value: &str) -> (r: ApiResult<()>)
    ensures
        r is Ok <==> value_ok(value@),
        r is Ok || crate::error::is_bad(r),
        !value_ok(value@) ==> is_bad_request(r, "value must not contain newlines or null bytes"@),
{
    if contains_char(value, '\0') || contains_char(value, '\n') || contains_char(value, '\r') {
        return bad_request("value must not contain newlines or null bytes");
    }
    Ok(())
}

} // verus!
