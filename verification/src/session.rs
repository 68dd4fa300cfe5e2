//! Bounded session attribution for request records.
//!
//! Extraction priority: the `x-maul-session-id` header; then the JSON
//! `user` field; then `metadata.maul_session_id`; else unattributed. A
//! present but invalid header does not fall through to body fields; an
//! invalid `user` falls through to the metadata field.

use vstd::prelude::*;
use vstd::utf8::*;

use crate::proxy::headers::{headers_view, name_index, HeaderEntry, HeaderV};
use crate::json::{get_spec, Json, JsonV};
use crate::text::{
    is_control, is_control_spec, is_whitespace, is_whitespace_spec, str_chars, str_eq, trim_spec,
    trim_str,
};

verus! {

/// HTTP header agents use to attribute retries to one workflow session.
pub const SESSION_HEADER: &'static str = "x-maul-session-id";

/// Maximum accepted session identifier length in bytes.
pub const MAX_SESSION_ID_LEN: usize = 128;

/// Validated session identifier used on request records.
#[derive(Debug, Clone)]
pub struct SessionId {
    id: String,
}

impl View for SessionId {
    type V = Seq<char>;

    closed spec fn view(&self) -> Seq<char> {
        self.id@
    }
}

/// A candidate identifier, trimmed, is accepted when it is non-empty, at
/// most 128 bytes of UTF-8, and free of whitespace and control characters.
pub open spec fn session_id_spec(raw: Seq<char>) -> Option<Seq<char>> {
    let t = trim_spec(raw);
    if t.len() == 0 || encode_utf8(t).len() > 128 {
        None
    } else if exists|i: int|
        0 <= i < t.len() && (is_whitespace_spec(#[trigger] t[i]) || is_control_spec(t[i])) {
        None
    } else {
        Some(t)
    }
}

impl SessionId {
    pub fn as_str(&self) -> (r: &str)
        ensures
            r@ == self@,
    {
        self.id.as_str()
    }

    pub fn into_string(self) -> (r: String)
        ensures
            r@ == self@,
    {
        self.id
    }
}

fn has_bad_char(s: &str) -> (r: bool)
    ensures
        r == exists|i: int|
            0 <= i < s@.len() && (is_whitespace_spec(#[trigger] s@[i]) || is_control_spec(s@[i])),
{
    let v = str_chars(s);
    let mut i: usize = 0;
    while i < v.len()
        invariant
            v@ == s@,
            i <= v@.len(),
            forall|k: int|
                0 <= k < i ==> !(is_whitespace_spec(#[trigger] s@[k]) || is_control_spec(s@[k])),
        decreases v@.len() - i,
    {
        if is_whitespace(v[i]) || is_control(v[i]) {
            assert(is_whitespace_spec(s@[i as int]) || is_control_spec(s@[i as int]));
            return true;
        }
        i = i + 1;
    }
    false
}

/// Parse a candidate identifier. Empty, oversized, whitespace and control
/// characters are rejected so reports cannot be poisoned by prompt-sized values.
pub fn parse_session_id(raw: &str) -> (r: Option<SessionId>)
    ensures
        match r {
            Some(id) => session_id_spec(raw@) == Some(id@),
            None => session_id_spec(raw@) is None,
        },
{
    let trimmed = trim_str(raw);
    if trimmed.is_empty() || trimmed.as_bytes().len() > MAX_SESSION_ID_LEN {
        return None;
    }
    if has_bad_char(trimmed) {
        return None;
    }
    Some(SessionId { id: trimmed.to_owned() })
}

/// Visible ASCII or tab, the bytes an HTTP header value may hold to be read as text.
pub open spec fn is_visible_ascii(b: u8) -> bool {
    (32 <= b && b < 127) || b == 9
}

/// A header value as text: every byte visible ASCII (or tab), read as characters.
pub open spec fn header_text_spec(value: Seq<u8>) -> Option<Seq<char>> {
    if forall|i: int| 0 <= i < value.len() ==> is_visible_ascii(#[trigger] value[i]) {
        Some(value.map_values(|b: u8| b as char))
    } else {
        None
    }
}

/// Read a header value as text, as `HeaderValue::to_str` does.
pub fn header_text(value: &[u8]) -> (r: Option<String>)
    ensures
        match r {
            Some(s) => header_text_spec(value@) == Some(s@),
            None => header_text_spec(value@) is None,
        },
{
    let mut s = String::new();
    let mut i: usize = 0;
    while i < value.len()
        invariant
            i <= value@.len(),
            forall|k: int| 0 <= k < i ==> is_visible_ascii(#[trigger] value@[k]),
            s@ == value@.subrange(0, i as int).map_values(|b: u8| b as char),
        decreases value@.len() - i,
    {
        let b = value[i];
        if !((32u8 <= b && b < 127u8) || b == 9u8) {
            return None;
        }
        s.push(b as char);
        assert(s@ =~= value@.subrange(0, i as int + 1).map_values(|b: u8| b as char));
        i = i + 1;
    }
    assert(value@.subrange(0, value@.len() as int) =~= value@);
    Some(s)
}

/// The session identifier the header gives, when the header is present.
pub open spec fn header_session_spec(hs: Seq<HeaderV>) -> Option<Seq<char>> {
    let k = name_index(hs, "x-maul-session-id"@);
    if k < 0 {
        None
    } else {
        match header_text_spec(hs[k].1) {
            Some(t) => session_id_spec(t),
            None => None,
        }
    }
}

/// The session identifier the body gives: `user`, else `metadata.maul_session_id`.
pub open spec fn body_session_spec(body: JsonV) -> Option<Seq<char>> {
    let from_user = match get_spec(body, "user"@) {
        Some(JsonV::Str(u)) => session_id_spec(u),
        _ => None,
    };
    if from_user is Some {
        from_user
    } else {
        match get_spec(body, "metadata"@) {
            Some(m) => match get_spec(m, "maul_session_id"@) {
                Some(JsonV::Str(s)) => session_id_spec(s),
                _ => None,
            },
            None => None,
        }
    }
}

fn find_header(headers: &Vec<HeaderEntry>, name: &str) -> (r: Option<usize>)
    ensures
        match r {
            Some(k) => k == name_index(headers_view(headers@), name@) && k < headers@.len(),
            None => name_index(headers_view(headers@), name@) == -1,
        },
{
    let ghost v = headers_view(headers@);
    let mut k: usize = 0;
    while k < headers.len()
        invariant
            v == headers_view(headers@),
            k <= headers@.len(),
            name_index(v.subrange(0, k as int), name@) == -1,
        decreases headers@.len() - k,
    {
        proof {
            assert(v.subrange(0, k as int + 1).drop_last() =~= v.subrange(0, k as int));
        }
        if str_eq(headers[k].name.as_str(), name) {
            proof {
                lemma_name_index_extend(v, k as int + 1, name@);
            }
            return Some(k);
        }
        k = k + 1;
    }
    assert(v.subrange(0, k as int) =~= v);
    None
}

proof fn lemma_name_index_extend(v: Seq<HeaderV>, m: int, name: Seq<char>)
    requires
        0 < m <= v.len(),
        name_index(v.subrange(0, m), name) == m - 1,
    ensures
        name_index(v, name) == m - 1,
    decreases v.len() - m,
{
    if m == v.len() {
        assert(v.subrange(0, m) =~= v);
    } else {
        assert(v.drop_last() =~= v.subrange(0, v.len() - 1));
        assert(v.subrange(0, v.len() - 1).subrange(0, m) =~= v.subrange(0, m));
        lemma_name_index_extend(v.subrange(0, v.len() - 1), m, name);
    }
}

/// Extract a session id from headers only. A present but invalid header
/// yields `None`.
pub fn from_headers(headers: &Vec<HeaderEntry>) -> (r: Option<SessionId>)
    ensures
        match r {
            Some(id) => header_session_spec(headers_view(headers@)) == Some(id@),
            None => header_session_spec(headers_view(headers@)) is None,
        },
{
    match find_header(headers, SESSION_HEADER) {
        None => None,
        Some(k) => match header_text(headers[k].value.as_slice()) {
            Some(text) => parse_session_id(text.as_str()),
            None => None,
        },
    }
}

fn from_body(body: &Json) -> (r: Option<SessionId>)
    ensures
        match r {
            Some(id) => body_session_spec(body@) == Some(id@),
            None => body_session_spec(body@) is None,
        },
{
    match body.get("user") {
        Some(u) => match u.as_str() {
            Some(s) => match parse_session_id(s.as_str()) {
                Some(id) => return Some(id),
                None => {},
            },
            None => {},
        },
        None => {},
    }
    match body.get("metadata") {
        Some(m) => match m.get("maul_session_id") {
            Some(x) => match x.as_str() {
                Some(s) => parse_session_id(s.as_str()),
                None => None,
            },
            None => None,
        },
        None => None,
    }
}

/// The session a request is attributed to: the header's, when the header
/// is present (valid or not); otherwise the body's.
pub open spec fn request_session_spec(hs: Seq<HeaderV>, body: JsonV) -> Option<Seq<char>> {
    if name_index(hs, "x-maul-session-id"@) >= 0 {
        header_session_spec(hs)
    } else {
        body_session_spec(body)
    }
}

/// Extract using the documented source priority.
pub fn from_headers_and_body(headers: &Vec<HeaderEntry>, body: &Json) -> (r: Option<SessionId>)
    ensures
        match r {
            Some(id) => request_session_spec(headers_view(headers@), body@) == Some(id@),
            None => request_session_spec(headers_view(headers@), body@) is None,
        },
{
    match find_header(headers, SESSION_HEADER) {
        Some(_) => from_headers(headers),
        None => from_body(body),
    }
}

} // verus!
