//! `glctl auth`: the stored glhub token.

use vstd::prelude::*;
use vstd::utf8::{decode_utf8, encode_utf8, encode_utf8_decode_utf8, is_char_boundary};
use crate::error::{CliError, CliResult};
use crate::text::{concat, trim, trim_ws};

verus! {

/// Options of `glctl auth`.
#[derive(Debug, Clone, PartialEq, Eq)]
pub struct AuthArgs {
    /// The token; asked for interactively when absent.
    pub token: Option<String>,
    /// Only report whether a token is stored.
    pub status: bool,
}

/// How a token is shown: `****` for a token of at most eight bytes, else
/// its first eight bytes, `…` and `****`.
pub open spec fn spec_mask(token: Seq<char>) -> Seq<char> {
    let b = encode_utf8(token);
    if b.len() <= 8 {
        "****"@
    } else {
        decode_utf8(b.take(8)) + "\u{2026}****"@
    }
}

/// A token can be masked unless it is longer than eight bytes and its
/// eighth byte ends inside a character (where cutting it would panic).
pub open spec fn maskable(token: Seq<char>) -> bool {
    encode_utf8(token).len() <= 8 || is_char_boundary(encode_utf8(token), 8)
}

/// Shows a token without revealing more than its first eight bytes.
pub fn mask(token: &str) -> (m: String)
    requires
        maskable(token@),
    ensures
        m@ == spec_mask(token@),
{
    if token.as_bytes().len() <= 8 {
        return "****".to_string();
    }
    let (head, _) = token.split_at(8);
    proof {
        encode_utf8_decode_utf8(head@);
        assert(head@ == decode_utf8(encode_utf8(token@).take(8)));
    }
    concat(head, "\u{2026}****")
}

/// Whether the token can be masked: `str::is_char_boundary(8)` or short.
pub fn can_mask(token: &str) -> (r: bool)
    ensures
        r == maskable(token@),
{
    token.as_bytes().len() <= 8 || token.is_char_boundary(8)
}

/// The message when the token is blank.
pub open spec fn empty_token_message() -> Seq<char> {
    "token cannot be empty"@
}

/// The token to store: the input without surrounding whitespace, which
/// must not be empty.
pub fn normalize_token(raw: &str) -> (r: CliResult<String>)
    ensures
        trim_ws(raw@).len() == 0 ==> (r matches Err(CliError::Error(m)) && m@ == empty_token_message()),
        trim_ws(raw@).len() > 0 ==> (r matches Ok(t) && t@ == trim_ws(raw@)),
{
    let t = trim(raw);
    if t.as_str().is_empty() {
        Err(CliError::Error("token cannot be empty".to_string()))
    } else {
        Ok(t)
    }
}

} // verus!
