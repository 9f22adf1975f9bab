//! Collapsing the upstream's error envelopes into one `TokenError`.
//!
//! The shapes are tried in a fixed order, and the first that matches wins:
//! `{"error": {"status": {"error_code", "error_message"}}}`, then
//! `{"error": "<message>"}` (reported with code 404), then
//! `{"status": {"error_code", "error_message"}}`.
use vstd::prelude::*;
use crate::error::{TokenError, UNKNOWN_ERROR_CODE, unknown_error, unknown_error_message};
use crate::json::{Json, field, get_field, parse_json, parsed_json};
use crate::text::{all_digits, digit_value, digits_value, is_digit, lemma_digits_value_nonneg};

verus! {

/// Code given to a flat `{"error": "<message>"}` envelope.
pub const NOT_FOUND_CODE: u16 = 404;

/// One more than the largest error code.
pub const CODE_CEILING: u32 = 65536;

/// The `u16` that a number's text denotes, where it is a non-negative
/// integer that fits.
pub open spec fn code_of(text: Seq<char>) -> Option<u16> {
    if 0 < text.len() && all_digits(text) && digits_value(text) < CODE_CEILING {
        Some(digits_value(text) as u16)
    } else {
        None
    }
}

/// `{"error_code": <u16>, "error_message": "<text>"}`, as a code and a message.
pub open spec fn status_of(st: Json) -> Option<(u16, Seq<char>)> {
    match (field(st, "error_code"@), field(st, "error_message"@)) {
        (Some(Json::Number(t)), Some(Json::Str(m))) => match code_of(t@) {
            Some(c) => Some((c, m@)),
            None => None,
        },
        _ => None,
    }
}

/// The first shape: a status nested under `error`.
pub open spec fn nested_status(doc: Json) -> Option<(u16, Seq<char>)> {
    match field(doc, "error"@) {
        Some(e) => match field(e, "status"@) {
            Some(st) => status_of(st),
            None => None,
        },
        None => None,
    }
}

/// The second shape: a bare message under `error`.
pub open spec fn flat_message(doc: Json) -> Option<Seq<char>> {
    match field(doc, "error"@) {
        Some(Json::Str(m)) => Some(m@),
        _ => None,
    }
}

/// The third shape: a status at the top level.
pub open spec fn bare_status(doc: Json) -> Option<(u16, Seq<char>)> {
    match field(doc, "status"@) {
        Some(st) => status_of(st),
        None => None,
    }
}

/// The canonical error for an error body that parsed to `doc` (`None`: it
/// did not parse at all).
pub open spec fn normalized(doc: Option<Json>) -> (u16, Seq<char>) {
    match doc {
        None => (UNKNOWN_ERROR_CODE, unknown_error_message()),
        Some(d) => if nested_status(d) is Some {
            nested_status(d)->0
        } else if flat_message(d) is Some {
            (NOT_FOUND_CODE, flat_message(d)->0)
        } else if bare_status(d) is Some {
            bare_status(d)->0
        } else {
            (UNKNOWN_ERROR_CODE, unknown_error_message())
        },
    }
}

fn digit_of(c: char) -> (r: Option<u32>)
    ensures
        r == (if is_digit(c) {
            Some(digit_value(c) as u32)
        } else {
            None::<u32>
        }),
{
    if '0' <= c && c <= '9' {
        Some((c as u32) - ('0' as u32))
    } else {
        None
    }
}

/// Reads an error code from a number's text.
pub fn parse_code(text: &str) -> (r: Option<u16>)
    ensures
        r == code_of(text@),
{
    let n = text.unicode_len();
    if n == 0 {
        return None;
    }
    let mut acc: u32 = 0;
    let mut i: usize = 0;
    while i < n
        invariant
            n == text@.len(),
            0 <= i <= n,
            all_digits(text@.take(i as int)),
            acc == (if digits_value(text@.take(i as int)) < CODE_CEILING {
                digits_value(text@.take(i as int))
            } else {
                CODE_CEILING as int
            }),
        decreases n - i,
    {
        let c = text.get_char(i);
        let ghost pre = text@.take(i as int);
        let ghost next = text@.take(i + 1);
        assert(next.drop_last() =~= pre);
        assert(next.last() == c);
        assert(digits_value(pre) >= 0) by {
            lemma_digits_value_nonneg(pre);
        }
        match digit_of(c) {
            None => {
                assert(!all_digits(text@)) by {
                    assert(text@[i as int] == c);
                }
                return None;
            },
            Some(d) => {
                let v: u32 = acc * 10 + d;
                acc = if v < CODE_CEILING { v } else { CODE_CEILING };
            },
        }
        assert forall|j: int| 0 <= j < next.len() implies is_digit(#[trigger] next[j]) by {
            if j < i {
                assert(next[j] == pre[j]);
            }
        }
        i = i + 1;
    }
    assert(text@.take(n as int) =~= text@);
    if acc < CODE_CEILING {
        Some(acc as u16)
    } else {
        None
    }
}

/// Reads a `{"error_code", "error_message"}` object.
pub fn read_status(st: &Json) -> (r: Option<(u16, String)>)
    ensures
        match r {
            Some((c, m)) => status_of(*st) == Some((c, m@)),
            None => status_of(*st) is None,
        },
{
    let code = get_field(st, "error_code");
    let message = get_field(st, "error_message");
    match (code, message) {
        (Some(Json::Number(t)), Some(Json::Str(m))) => match parse_code(t.as_str()) {
            Some(c) => Some((c, m.clone())),
            None => None,
        },
        _ => None,
    }
}

/// Maps a parsed error body to the canonical error; `None` stands for a body
/// that is not JSON.
pub fn normalize_error(doc: &Option<Json>) -> (r: TokenError)
    ensures
        r.model() == normalized(*doc),
{
    let d = match doc {
        None => return unknown_error(),
        Some(d) => d,
    };
    if let Some(e) = get_field(d, "error") {
        if let Some(st) = get_field(e, "status") {
            if let Some((c, m)) = read_status(st) {
                return TokenError { error_code: c, error_message: m };
            }
        }
        if let Json::Str(m) = e {
            return TokenError { error_code: NOT_FOUND_CODE, error_message: m.clone() };
        }
    }
    if let Some(st) = get_field(d, "status") {
        if let Some((c, m)) = read_status(st) {
            return TokenError { error_code: c, error_message: m };
        }
    }
    unknown_error()
}

/// Maps the body of a non-success upstream response to the canonical error.
pub fn normalize_error_body(body: &str) -> (r: TokenError)
    ensures
        r.model() == normalized(parsed_json(body@)),
{
    let doc = parse_json(body);
    normalize_error(&doc)
}

/// A body in the nested status shape yields its inner code and message,
/// whatever else it holds.
pub proof fn lemma_nested_shape_wins(doc: Json)
    requires
        nested_status(doc) is Some,
    ensures
        normalized(Some(doc)) == nested_status(doc)->0,
{
}

/// A body that matches the flat shape and not the nested one yields code 404
/// with its message.
pub proof fn lemma_flat_shape_not_found(doc: Json)
    requires
        nested_status(doc) is None,
        flat_message(doc) is Some,
    ensures
        normalized(Some(doc)) == (NOT_FOUND_CODE, flat_message(doc)->0),
{
}

/// A body that matches none of the shapes, or is no JSON at all, yields the
/// unknown-error sentinel.
pub proof fn lemma_no_shape_unknown(doc: Option<Json>)
    requires
        doc matches Some(d) ==> nested_status(d) is None && flat_message(d) is None && bare_status(d) is None,
    ensures
        normalized(doc) == (UNKNOWN_ERROR_CODE, unknown_error_message()),
{
}

} // verus!
