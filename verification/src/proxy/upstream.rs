//! Upstream URL construction.

use vstd::prelude::*;

use crate::text::str_chars;

verus! {

/// `s` without any trailing `/`.
pub open spec fn trim_trailing_slashes(s: Seq<char>) -> Seq<char>
    decreases s.len(),
{
    if s.len() > 0 && s.last() == '/' {
        trim_trailing_slashes(s.drop_last())
    } else {
        s
    }
}

/// Base URL without trailing slashes, then the path (`/` when empty).
pub open spec fn upstream_url_spec(base: Seq<char>, path_and_query: Seq<char>) -> Seq<char> {
    trim_trailing_slashes(base) + if path_and_query.len() == 0 {
        seq!['/']
    } else {
        path_and_query
    }
}

pub fn build_upstream_url(upstream_base_url: &str, path_and_query: &str) -> (r: String)
    ensures
        r@ == upstream_url_spec(upstream_base_url@, path_and_query@),
{
    let v = str_chars(upstream_base_url);
    let mut end = v.len();
    assert(upstream_base_url@.subrange(0, end as int) =~= upstream_base_url@);
    while end > 0 && v[end - 1] == '/'
        invariant
            v@ == upstream_base_url@,
            end <= v@.len(),
            trim_trailing_slashes(upstream_base_url@) == trim_trailing_slashes(
                upstream_base_url@.subrange(0, end as int),
            ),
        decreases end,
    {
        proof {
            assert(upstream_base_url@.subrange(0, end as int).drop_last() =~= upstream_base_url@.subrange(
                0,
                end as int - 1,
            ));
        }
        end = end - 1;
    }
    let base = upstream_base_url.substring_char(0, end);
    let mut out = base.to_owned();
    if path_and_query.is_empty() {
        out.push('/');
    } else {
        out.push_str(path_and_query);
    }
    proof {
        assert(out@ =~= upstream_url_spec(upstream_base_url@, path_and_query@));
    }
    out
}

} // verus!
