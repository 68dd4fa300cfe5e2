//! Small verified string and byte helpers shared by the protocol modules.

use vstd::prelude::*;
use vstd::string::*;
use vstd::utf8::*;

verus! {

broadcast use vstd::utf8::encode_utf8_decode_utf8;

/// Byte-wise equality of two byte slices.
pub fn bytes_eq(a: &[u8], b: &[u8]) -> (r: bool)
    ensures
        r == (a@ == b@),
{
    if a.len() != b.len() {
        return false;
    }
    let mut i: usize = 0;
    while i < a.len()
        invariant
            a@.len() == b@.len(),
            i <= a@.len(),
            forall|k: int| 0 <= k < i ==> a@[k] == b@[k],
        decreases a@.len() - i,
    {
        if a[i] != b[i] {
            return false;
        }
        i = i + 1;
    }
    assert(a@ =~= b@);
    true
}

/// Equality of two string slices, by their characters.
pub fn str_eq(a: &str, b: &str) -> (r: bool)
    ensures
        r == (a@ == b@),
{
    let ab = a.as_bytes();
    let bb = b.as_bytes();
    let r = bytes_eq(ab, bb);
    proof {
        assert(decode_utf8(encode_utf8(a@)) == a@);
        assert(decode_utf8(encode_utf8(b@)) == b@);
    }
    r
}

/// Appending a character to a `String` extends its characters by that one.
pub assume_specification[ String::push ](s: &mut String, ch: char)
    ensures
        final(s)@ == old(s)@.push(ch),
;

/// Appending a string slice to a `String` extends its characters by the slice's.
pub assume_specification[ String::push_str ](s: &mut String, string: &str)
    ensures
        final(s)@ == old(s)@ + string@,
;

/// The ASCII character of decimal digit `d`.
pub open spec fn digit_char(d: int) -> char {
    (d + 48) as char
}

/// Decimal representation of `n`, most significant digit first, no padding.
pub open spec fn decimal_chars(n: nat) -> Seq<char>
    decreases n,
{
    if n < 10 {
        seq![digit_char(n as int)]
    } else {
        decimal_chars(n / 10).push(digit_char((n % 10) as int))
    }
}

fn digit(d: u64) -> (c: char)
    requires
        d < 10,
    ensures
        c == digit_char(d as int),
{
    ((d as u8) + 48u8) as char
}

/// Append the decimal representation of `n`.
pub fn push_decimal(s: &mut String, n: u64)
    ensures
        final(s)@ == old(s)@ + decimal_chars(n as nat),
    decreases n,
{
    if n >= 10 {
        push_decimal(s, n / 10);
    }
    s.push(digit(n % 10));
    proof {
        assert(old(s)@ + decimal_chars(n as nat) =~= if n >= 10 {
            (old(s)@ + decimal_chars((n / 10) as nat)).push(digit_char((n % 10) as int))
        } else {
            old(s)@.push(digit_char((n % 10) as int))
        });
    }
}

/// Exactly six decimal digits of `n`, zero-padded on the left.
pub open spec fn six_digit_chars(n: nat) -> Seq<char> {
    seq![
        digit_char(((n / 100000) % 10) as int),
        digit_char(((n / 10000) % 10) as int),
        digit_char(((n / 1000) % 10) as int),
        digit_char(((n / 100) % 10) as int),
        digit_char(((n / 10) % 10) as int),
        digit_char((n % 10) as int),
    ]
}

/// Append `n` as six zero-padded decimal digits.
pub fn push_six_digits(s: &mut String, n: u64)
    ensures
        final(s)@ == old(s)@ + six_digit_chars(n as nat),
{
    s.push(digit((n / 100000) % 10));
    s.push(digit((n / 10000) % 10));
    s.push(digit((n / 1000) % 10));
    s.push(digit((n / 100) % 10));
    s.push(digit((n / 10) % 10));
    s.push(digit(n % 10));
    proof {
        assert(final(s)@ =~= old(s)@ + six_digit_chars(n as nat));
    }
}

/// The characters of `s`, in order.
pub fn str_chars(s: &str) -> (v: Vec<char>)
    ensures
        v@ == s@,
{
    let mut v: Vec<char> = Vec::new();
    for c in it: s.chars()
        invariant
            v@ == it.seq().take(it.index() as int),
            it.seq() == s@,
    {
        v.push(c);
    }
    v
}

/// Unicode `White_Space`, the set that `char::is_whitespace` and `str::trim` use.
pub open spec fn is_whitespace_spec(c: char) -> bool {
    let u = c as u32;
    (9 <= u && u <= 13) || u == 32 || u == 0x85 || u == 0xA0 || u == 0x1680 || (0x2000 <= u && u
        <= 0x200A) || u == 0x2028 || u == 0x2029 || u == 0x202F || u == 0x205F || u == 0x3000
}

/// Unicode general category `Cc`, the set that `char::is_control` uses.
pub open spec fn is_control_spec(c: char) -> bool {
    let u = c as u32;
    u <= 0x1F || (0x7F <= u && u <= 0x9F)
}

pub fn is_whitespace(c: char) -> (r: bool)
    ensures
        r == is_whitespace_spec(c),
{
    let u = c as u32;
    (9 <= u && u <= 13) || u == 32 || u == 0x85 || u == 0xA0 || u == 0x1680 || (0x2000 <= u && u
        <= 0x200A) || u == 0x2028 || u == 0x2029 || u == 0x202F || u == 0x205F || u == 0x3000
}

pub fn is_control(c: char) -> (r: bool)
    ensures
        r == is_control_spec(c),
{
    let u = c as u32;
    u <= 0x1F || (0x7F <= u && u <= 0x9F)
}

/// `s` without leading whitespace.
pub open spec fn trim_start_spec(s: Seq<char>) -> Seq<char>
    decreases s.len(),
{
    if s.len() > 0 && is_whitespace_spec(s[0]) {
        trim_start_spec(s.drop_first())
    } else {
        s
    }
}

/// `s` without trailing whitespace.
pub open spec fn trim_end_spec(s: Seq<char>) -> Seq<char>
    decreases s.len(),
{
    if s.len() > 0 && is_whitespace_spec(s.last()) {
        trim_end_spec(s.drop_last())
    } else {
        s
    }
}

/// `s` without leading or trailing whitespace, as `str::trim`.
pub open spec fn trim_spec(s: Seq<char>) -> Seq<char> {
    trim_end_spec(trim_start_spec(s))
}

/// `s` with leading and trailing whitespace removed.
pub fn trim_str(s: &str) -> (r: &str)
    ensures
        r@ == trim_spec(s@),
{
    let v = str_chars(s);
    let n = v.len();
    let mut i: usize = 0;
    assert(s@.subrange(0, n as int) =~= s@);
    while i < n && is_whitespace(v[i])
        invariant
            v@ == s@,
            n == v@.len(),
            i <= n,
            trim_start_spec(s@) == trim_start_spec(s@.subrange(i as int, n as int)),
        decreases n - i,
    {
        proof {
            assert(s@.subrange(i as int, n as int).drop_first() =~= s@.subrange(i as int + 1, n as int));
        }
        i = i + 1;
    }
    assert(trim_start_spec(s@.subrange(i as int, n as int)) == s@.subrange(i as int, n as int));
    let mut j: usize = n;
    while j > i && is_whitespace(v[j - 1])
        invariant
            v@ == s@,
            n == v@.len(),
            i <= j <= n,
            trim_spec(s@) == trim_end_spec(s@.subrange(i as int, j as int)),
        decreases j,
    {
        proof {
            assert(s@.subrange(i as int, j as int).drop_last() =~= s@.subrange(i as int, j as int - 1));
        }
        j = j - 1;
    }
    assert(trim_end_spec(s@.subrange(i as int, j as int)) == s@.subrange(i as int, j as int));
    s.substring_char(i, j)
}

/// `s` with leading whitespace removed.
pub fn trim_start_str(s: &str) -> (r: &str)
    ensures
        r@ == trim_start_spec(s@),
{
    let v = str_chars(s);
    let n = v.len();
    let mut i: usize = 0;
    assert(s@.subrange(0, n as int) =~= s@);
    while i < n && is_whitespace(v[i])
        invariant
            v@ == s@,
            n == v@.len(),
            i <= n,
            trim_start_spec(s@) == trim_start_spec(s@.subrange(i as int, n as int)),
        decreases n - i,
    {
        proof {
            assert(s@.subrange(i as int, n as int).drop_first() =~= s@.subrange(i as int + 1, n as int));
        }
        i = i + 1;
    }
    assert(trim_start_spec(s@.subrange(i as int, n as int)) == s@.subrange(i as int, n as int));
    s.substring_char(i, n)
}

/// Starts with the five characters `data:`.
pub open spec fn has_data_prefix(t: Seq<char>) -> bool {
    t.len() >= 5 && t[0] == 'd' && t[1] == 'a' && t[2] == 't' && t[3] == 'a' && t[4] == ':'
}

/// The trimmed payload of an SSE `data:` line, after leading whitespace.
pub open spec fn data_payload_spec(line: Seq<char>) -> Option<Seq<char>> {
    let t = trim_start_spec(line);
    if has_data_prefix(t) {
        Some(trim_spec(t.skip(5)))
    } else {
        None
    }
}

/// The payload of a `data:` line, trimmed; `None` for any other line.
pub fn data_payload(line: &str) -> (r: Option<&str>)
    ensures
        match r {
            Some(p) => data_payload_spec(line@) == Some(p@),
            None => data_payload_spec(line@) is None,
        },
{
    let t = trim_start_str(line);
    let v = str_chars(t);
    if v.len() >= 5 && v[0] == 'd' && v[1] == 'a' && v[2] == 't' && v[3] == 'a' && v[4] == ':' {
        let rest = t.substring_char(5, v.len());
        assert(rest@ =~= t@.skip(5));
        Some(trim_str(rest))
    } else {
        None
    }
}

/// `s` without one trailing carriage return.
pub open spec fn strip_cr(s: Seq<char>) -> Seq<char> {
    if s.len() > 0 && s.last() == '\r' {
        s.drop_last()
    } else {
        s
    }
}

/// After reading `t`: the lines finished by a newline, and the piece that
/// follows the last newline.
pub open spec fn split_state(t: Seq<char>) -> (Seq<Seq<char>>, Seq<char>)
    decreases t.len(),
{
    if t.len() == 0 {
        (Seq::empty(), Seq::empty())
    } else {
        let prev = split_state(t.drop_last());
        if t.last() == '\n' {
            (prev.0.push(strip_cr(prev.1)), Seq::empty())
        } else {
            (prev.0, prev.1.push(t.last()))
        }
    }
}

/// The lines of `t` as `str::lines` yields them: split at `\n`, a `\r`
/// right before the `\n` dropped, and no empty line after a final newline.
pub open spec fn lines_spec(t: Seq<char>) -> Seq<Seq<char>> {
    let st = split_state(t);
    if st.1.len() == 0 {
        st.0
    } else {
        st.0.push(st.1)
    }
}

/// The characters of each string.
pub open spec fn strings_view(v: Seq<String>) -> Seq<Seq<char>> {
    Seq::new(v.len(), |i: int| v[i]@)
}

/// The lines of `text`, as `str::lines`.
pub fn split_lines(text: &str) -> (r: Vec<String>)
    ensures
        strings_view(r@) == lines_spec(text@),
{
    let chars = str_chars(text);
    let mut lines: Vec<String> = Vec::new();
    let mut cur = String::new();
    let mut cur_len: usize = 0;
    let mut pending_cr = false;
    let mut i: usize = 0;
    assert(text@.take(0) =~= Seq::<char>::empty());
    while i < chars.len()
        invariant
            chars@ == text@,
            i <= chars@.len(),
            cur_len == cur@.len(),
            cur_len + (if pending_cr {
                1int
            } else {
                0int
            }) <= i,
            split_state(text@.take(i as int)).0 == strings_view(lines@),
            split_state(text@.take(i as int)).1 == (if pending_cr {
                cur@.push('\r')
            } else {
                cur@
            }),
            !pending_cr ==> (cur@.len() == 0 || cur@.last() != '\r'),
        decreases chars@.len() - i,
    {
        let c = chars[i];
        proof {
            assert(text@.take(i as int + 1).drop_last() =~= text@.take(i as int));
            assert(text@.take(i as int + 1).last() == c);
        }
        if c == '\n' {
            let ghost prev = cur@;
            let ghost old_lines = lines@;
            proof {
                if pending_cr {
                    assert(cur@.push('\r').drop_last() =~= cur@);
                }
            }
            lines.push(cur);
            assert(strings_view(lines@) =~= strings_view(old_lines).push(prev));
            cur = String::new();
            cur_len = 0;
            pending_cr = false;
        } else {
            if pending_cr {
                cur.push('\r');
                cur_len = cur_len + 1;
                pending_cr = false;
            }
            if c == '\r' {
                pending_cr = true;
            } else {
                cur.push(c);
                cur_len = cur_len + 1;
            }
        }
        i = i + 1;
    }
    assert(text@.take(chars@.len() as int) =~= text@);
    if pending_cr {
        cur.push('\r');
        cur_len = cur_len + 1;
    }
    if cur_len > 0 {
        let ghost old_lines = lines@;
        let ghost last = cur@;
        lines.push(cur);
        assert(strings_view(lines@) =~= strings_view(old_lines).push(last));
    }
    lines
}

/// Strict UTF-8 decoding, as `std::str::from_utf8`: `None` unless the
/// bytes are valid UTF-8, whose characters the result then holds.
#[verifier::external_body]
pub(crate) fn utf8_str(bytes: &[u8]) -> (r: Option<&str>)
    ensures
        r is Some <==> valid_utf8(bytes@),
        r matches Some(s) ==> s@ == decode_utf8(bytes@),
{
    std::str::from_utf8(bytes).ok()
}

/// Lossy UTF-8 decoding, as `String::from_utf8_lossy`.
pub uninterp spec fn spec_utf8_lossy(bytes: Seq<u8>) -> Seq<char>;

/// Calls `String::from_utf8_lossy`; valid UTF-8 decodes unchanged, other
/// input is named: which replacement characters appear is the standard
/// library's.
#[verifier::external_body]
pub(crate) fn utf8_lossy(bytes: &[u8]) -> (r: String)
    ensures
        r@ == spec_utf8_lossy(bytes@),
        valid_utf8(bytes@) ==> r@ == decode_utf8(bytes@),
{
    String::from_utf8_lossy(bytes).into_owned()
}

/// A copy of `bytes[from..to]`.
pub fn copy_range(bytes: &[u8], from: usize, to: usize) -> (r: Vec<u8>)
    requires
        from <= to <= bytes@.len(),
    ensures
        r@ == bytes@.subrange(from as int, to as int),
{
    let mut r: Vec<u8> = Vec::new();
    let mut i = from;
    while i < to
        invariant
            from <= i <= to <= bytes@.len(),
            r@ == bytes@.subrange(from as int, i as int),
        decreases to - i,
    {
        r.push(bytes[i]);
        assert(r@ =~= bytes@.subrange(from as int, i as int + 1));
        i = i + 1;
    }
    r
}

/// Append all of `src` to `dst`.
pub fn append_bytes(dst: &mut Vec<u8>, src: &[u8])
    ensures
        final(dst)@ == old(dst)@ + src@,
{
    let mut i: usize = 0;
    let ghost start = dst@;
    while i < src.len()
        invariant
            i <= src@.len(),
            dst@ == start + src@.subrange(0, i as int),
        decreases src@.len() - i,
    {
        dst.push(src[i]);
        assert(dst@ =~= start + src@.subrange(0, i as int + 1));
        i = i + 1;
    }
    assert(src@.subrange(0, src@.len() as int) =~= src@);
}

} // verus!
