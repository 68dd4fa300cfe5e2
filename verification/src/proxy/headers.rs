//! Header preparation for proxied requests and responses: hop-by-hop
//! filtering, framing headers, and forced identity encoding.
//!
//! Headers are held as an ordered list of `(lowercase name, raw value)`
//! entries; a name may repeat, as in an HTTP header map with several values.

use vstd::prelude::*;

use crate::text::str_eq;

verus! {

/// One header value under a lowercase header name.
#[derive(Debug, Clone)]
pub struct HeaderEntry {
    pub name: String,
    pub value: Vec<u8>,
}

/// A header as its name's characters and its value's bytes.
pub type HeaderV = (Seq<char>, Seq<u8>);

pub open spec fn entry_view(e: HeaderEntry) -> HeaderV {
    (e.name@, e.value@)
}

pub open spec fn headers_view(hs: Seq<HeaderEntry>) -> Seq<HeaderV> {
    hs.map_values(|e: HeaderEntry| entry_view(e))
}

/// RFC 7230 hop-by-hop / connection-local names (lowercase).
pub const HOP_BY_HOP: [&'static str; 9] = [
    "connection",
    "keep-alive",
    "proxy-authenticate",
    "proxy-authorization",
    "te",
    "trailers",
    "transfer-encoding",
    "upgrade",
    "host",
];

pub open spec fn is_hop_by_hop(name: Seq<char>) -> bool {
    name == "connection"@ || name == "keep-alive"@ || name == "proxy-authenticate"@ || name
        == "proxy-authorization"@ || name == "te"@ || name == "trailers"@ || name
        == "transfer-encoding"@ || name == "upgrade"@ || name == "host"@
}

/// Index of the first entry named `name`, or -1.
pub open spec fn name_index(hs: Seq<HeaderV>, name: Seq<char>) -> int
    decreases hs.len(),
{
    if hs.len() == 0 {
        -1
    } else if name_index(hs.drop_last(), name) >= 0 {
        name_index(hs.drop_last(), name)
    } else if hs.last().0 == name {
        hs.len() - 1
    } else {
        -1
    }
}

/// Every forwardable header: all entries whose name is not hop-by-hop, in
/// order, repeated names and all their values included.
pub open spec fn hop_by_hop_filter_spec(hs: Seq<HeaderV>) -> Seq<HeaderV> {
    hs.filter(|e: HeaderV| !is_hop_by_hop(e.0))
}

/// All entries except those named `name`.
pub open spec fn remove_spec(hs: Seq<HeaderV>, name: Seq<char>) -> Seq<HeaderV> {
    hs.filter(|e: HeaderV| e.0 != name)
}

pub open spec fn prepare_upstream_spec(hs: Seq<HeaderV>) -> Seq<HeaderV> {
    remove_spec(
        remove_spec(
            remove_spec(hop_by_hop_filter_spec(hs), "content-length"@),
            "accept-encoding"@,
        ).push(("accept-encoding"@, "identity"@.map_values(|c: char| c as u8))),
        "x-maul-session-id"@,
    )
}

pub open spec fn prepare_response_spec(hs: Seq<HeaderV>) -> Seq<HeaderV> {
    remove_spec(remove_spec(hop_by_hop_filter_spec(hs), "content-length"@), "content-encoding"@)
}

fn is_hop_by_hop_name(name: &str) -> (r: bool)
    ensures
        r == is_hop_by_hop(name@),
{
    str_eq(name, "connection") || str_eq(name, "keep-alive") || str_eq(name, "proxy-authenticate")
        || str_eq(name, "proxy-authorization") || str_eq(name, "te") || str_eq(name, "trailers")
        || str_eq(name, "transfer-encoding") || str_eq(name, "upgrade") || str_eq(name, "host")
}

/// Drop hop-by-hop / connection-local headers; keep everything else to forward.
pub fn hop_by_hop_filter(headers: &Vec<HeaderEntry>) -> (out: Vec<HeaderEntry>)
    ensures
        headers_view(out@) == hop_by_hop_filter_spec(headers_view(headers@)),
{
    let ghost input = headers_view(headers@);
    let mut out: Vec<HeaderEntry> = Vec::new();
    let mut i: usize = 0;
    while i < headers.len()
        invariant
            input == headers_view(headers@),
            i <= headers@.len(),
            headers_view(out@) == hop_by_hop_filter_spec(input.subrange(0, i as int)),
        decreases headers@.len() - i,
    {
        proof {
            assert(input.subrange(0, i as int + 1).drop_last() =~= input.subrange(0, i as int));
            reveal(Seq::filter);
        }
        if !is_hop_by_hop_name(headers[i].name.as_str()) {
            let entry = HeaderEntry { name: headers[i].name.clone(), value: headers[i].value.clone() };
            assert(entry.value@ =~= headers@[i as int].value@);
            let ghost before = headers_view(out@);
            out.push(entry);
            assert(headers_view(out@) =~= before.push(input[i as int]));
        }
        i = i + 1;
    }
    assert(input.subrange(0, headers@.len() as int) =~= input);
    out
}

/// Remove every entry named `name`.
pub fn remove_header(headers: &mut Vec<HeaderEntry>, name: &str)
    ensures
        headers_view(final(headers)@) == remove_spec(headers_view(old(headers)@), name@),
{
    let ghost input = headers_view(headers@);
    let mut out: Vec<HeaderEntry> = Vec::new();
    let mut rest: Vec<HeaderEntry> = Vec::new();
    std::mem::swap(&mut rest, headers);
    let mut i: usize = 0;
    let n = rest.len();
    while i < n
        invariant
            n == rest@.len(),
            input == headers_view(rest@),
            i <= n,
            headers_view(out@) == remove_spec(input.subrange(0, i as int), name@),
        decreases n - i,
    {
        proof {
            assert(input.subrange(0, i as int + 1).drop_last() =~= input.subrange(0, i as int));
            reveal(Seq::filter);
        }
        if !str_eq(rest[i].name.as_str(), name) {
            let entry = HeaderEntry { name: rest[i].name.clone(), value: rest[i].value.clone() };
            assert(entry.value@ =~= rest@[i as int].value@);
            out.push(entry);
            assert(headers_view(out@) =~= remove_spec(input.subrange(0, i as int), name@).push(input[i as int]));
        }
        i = i + 1;
    }
    assert(input.subrange(0, n as int) =~= input);
    *headers = out;
}

/// After re-streaming a body, drop Content-Length so framing stays consistent.
pub fn strip_content_length(headers: Vec<HeaderEntry>) -> (out: Vec<HeaderEntry>)
    ensures
        headers_view(out@) == remove_spec(headers_view(headers@), "content-length"@),
{
    let mut out = headers;
    remove_header(&mut out, "content-length");
    out
}

/// Headers for the upstream request: filter hop-by-hop, force plaintext
/// bodies with `accept-encoding: identity`, and never forward the session
/// header, which is Maul-internal.
pub fn prepare_upstream_request_headers(headers: &Vec<HeaderEntry>) -> (out: Vec<HeaderEntry>)
    ensures
        headers_view(out@) == prepare_upstream_spec(headers_view(headers@)),
{
    let mut out = strip_content_length(hop_by_hop_filter(headers));
    remove_header(&mut out, "accept-encoding");
    let mut value: Vec<u8> = Vec::new();
    value.push(105u8);
    value.push(100u8);
    value.push(101u8);
    value.push(110u8);
    value.push(116u8);
    value.push(105u8);
    value.push(116u8);
    value.push(121u8);
    proof {
        reveal_strlit("identity");
        assert(value@ =~= "identity"@.map_values(|c: char| c as u8));
    }
    let ghost before = headers_view(out@);
    let entry = HeaderEntry { name: "accept-encoding".to_owned(), value };
    out.push(entry);
    assert(headers_view(out@) =~= before.push(entry_view(entry)));
    remove_header(&mut out, "x-maul-session-id");
    out
}

/// Headers for a response whose body was rebuilt in memory.
pub fn prepare_response_headers(headers: &Vec<HeaderEntry>) -> (out: Vec<HeaderEntry>)
    ensures
        headers_view(out@) == prepare_response_spec(headers_view(headers@)),
{
    let mut out = strip_content_length(hop_by_hop_filter(headers));
    remove_header(&mut out, "content-encoding");
    out
}

/// Every element of a filtered sequence occurs in the sequence it was taken from.
proof fn lemma_filter_subset(s: Seq<HeaderV>, pred: spec_fn(HeaderV) -> bool, i: int)
    requires
        0 <= i < s.filter(pred).len(),
    ensures
        s.contains(s.filter(pred)[i]),
    decreases s.len(),
{
    reveal(Seq::filter);
    if s.len() > 0 {
        let prev = s.drop_last().filter(pred);
        if i < prev.len() {
            lemma_filter_subset(s.drop_last(), pred, i);
            let j = choose|j: int| 0 <= j < s.drop_last().len() && s.drop_last()[j] == prev[i];
            assert(s[j] == prev[i]);
        } else {
            assert(s[s.len() - 1] == s.filter(pred)[i]);
        }
    }
}

proof fn lemma_filter_no_hop(hs: Seq<HeaderV>)
    ensures
        forall|i: int|
            0 <= i < hop_by_hop_filter_spec(hs).len() ==> !is_hop_by_hop(
                #[trigger] hop_by_hop_filter_spec(hs)[i].0,
            ),
{
    broadcast use vstd::seq_lib::group_filter_ensures;

}

/// No hop-by-hop or connection-local header survives filtering.
pub proof fn law_filter_drops_hop_by_hop(hs: Seq<HeaderV>, i: int)
    requires
        0 <= i < hop_by_hop_filter_spec(hs).len(),
    ensures
        !is_hop_by_hop(hop_by_hop_filter_spec(hs)[i].0),
{
    lemma_filter_no_hop(hs);
}

/// The entries of `hs` named `name`, in order.
pub open spec fn values_named(hs: Seq<HeaderV>, name: Seq<char>) -> Seq<HeaderV> {
    hs.filter(|e: HeaderV| e.0 == name)
}

/// Every header that is not hop-by-hop is forwarded with all its values,
/// in their order: for such a name the filtered headers hold exactly the
/// entries of the input with that name; for a hop-by-hop name, none.
pub proof fn law_filter_keeps_every_value(hs: Seq<HeaderV>, name: Seq<char>)
    ensures
        !is_hop_by_hop(name) ==> values_named(hop_by_hop_filter_spec(hs), name) == values_named(hs, name),
        is_hop_by_hop(name) ==> values_named(hop_by_hop_filter_spec(hs), name).len() == 0,
    decreases hs.len(),
{
    broadcast use Seq::lemma_filter_push;

    let p = |e: HeaderV| !is_hop_by_hop(e.0);
    let q = |e: HeaderV| e.0 == name;
    if hs.len() == 0 {
        assert(hs.filter(p) =~= Seq::<HeaderV>::empty()) by {
            reveal(Seq::filter);
        }
        assert(hs.filter(q) =~= Seq::<HeaderV>::empty()) by {
            reveal(Seq::filter);
        }
    } else {
        let prev = hs.drop_last();
        let last = hs.last();
        law_filter_keeps_every_value(prev, name);
        assert(hs == prev.push(last));
        assert(hs.filter(p) == if p(last) { prev.filter(p).push(last) } else { prev.filter(p) });
        assert(hs.filter(q) == if q(last) { prev.filter(q).push(last) } else { prev.filter(q) });
    }
}

/// Upstream request headers carry `accept-encoding: identity`, and never a
/// hop-by-hop header, a `content-length`, or the internal session header.
pub proof fn law_upstream_headers(hs: Seq<HeaderV>)
    ensures
        prepare_upstream_spec(hs).contains(
            ("accept-encoding"@, "identity"@.map_values(|c: char| c as u8)),
        ),
        forall|i: int|
            0 <= i < prepare_upstream_spec(hs).len() ==> {
                let name = #[trigger] prepare_upstream_spec(hs)[i].0;
                &&& !is_hop_by_hop(name)
                &&& name != "content-length"@
                &&& name != "x-maul-session-id"@
            },
{
    broadcast use vstd::seq_lib::group_filter_ensures;

    reveal_strlit("accept-encoding");
    reveal_strlit("x-maul-session-id");
    reveal_strlit("content-length");
    reveal_strlit("connection");
    reveal_strlit("keep-alive");
    reveal_strlit("proxy-authenticate");
    reveal_strlit("proxy-authorization");
    reveal_strlit("te");
    reveal_strlit("trailers");
    reveal_strlit("transfer-encoding");
    reveal_strlit("upgrade");
    reveal_strlit("host");
    assert("accept-encoding"@.len() == 15);
    let f = hop_by_hop_filter_spec(hs);
    let pa = |e: HeaderV| e.0 != "content-length"@;
    let pb = |e: HeaderV| e.0 != "accept-encoding"@;
    let pc = |e: HeaderV| e.0 != "x-maul-session-id"@;
    let a = f.filter(pa);
    let b = a.filter(pb);
    let entry = ("accept-encoding"@, "identity"@.map_values(|c: char| c as u8));
    let c = b.push(entry);
    lemma_filter_no_hop(hs);
    assert forall|i: int| 0 <= i < c.len() implies {
        &&& !is_hop_by_hop(#[trigger] c[i].0)
        &&& c[i].0 != "content-length"@
    } by {
        if i < b.len() {
            lemma_filter_subset(a, pb, i);
            let j = choose|j: int| 0 <= j < a.len() && a[j] == b[i];
            lemma_filter_subset(f, pa, j);
            assert(pa(a[j]));
        }
    }
    assert(c[c.len() - 1] == entry);
    assert(pc(c[c.len() - 1]));
    assert(c.filter(pc).contains(c[c.len() - 1]));
    assert forall|i: int| 0 <= i < prepare_upstream_spec(hs).len() implies {
        let name = #[trigger] prepare_upstream_spec(hs)[i].0;
        &&& !is_hop_by_hop(name)
        &&& name != "content-length"@
        &&& name != "x-maul-session-id"@
    } by {
        let d = c.filter(pc);
        assert(d == prepare_upstream_spec(hs));
        lemma_filter_subset(c, pc, i);
        assert(pc(d[i]));
    }
}

} // verus!
