//! The billable request transform: ask for usage on streamed completions.

use vstd::prelude::*;

use crate::json::{
    entries_view, get_spec, key_index, lemma_get_set, lemma_key_index_range, lemma_object_view,
    put_entry, set_entry, set_spec, take_entry, Json, JsonV,
};
use crate::usage::RequestTransformError;

verus! {

/// The object `{"include_usage": true}` with `include_usage` set into `opts`.
pub open spec fn with_include_usage(opts: Seq<(Seq<char>, JsonV)>) -> JsonV {
    JsonV::Object(set_spec(opts, "include_usage"@, JsonV::Bool(true)))
}

/// Result of the streaming-usage transform: the new body and whether it changed.
pub open spec fn stream_usage_spec(v: JsonV) -> (JsonV, Result<bool, RequestTransformError>) {
    match v {
        JsonV::Object(es) => {
            let stream = match get_spec(v, "stream"@) {
                Some(JsonV::Bool(b)) => b,
                _ => false,
            };
            if !stream {
                (v, Ok(false))
            } else {
                match get_spec(v, "stream_options"@) {
                    None => (
                        JsonV::Object(
                            set_spec(es, "stream_options"@, with_include_usage(Seq::empty())),
                        ),
                        Ok(true),
                    ),
                    Some(JsonV::Object(opts)) => if get_spec(JsonV::Object(opts), "include_usage"@)
                        == Some(JsonV::Bool(true)) {
                        (v, Ok(false))
                    } else {
                        (JsonV::Object(set_spec(es, "stream_options"@, with_include_usage(opts))), Ok(true))
                    },
                    Some(_) => (v, Err(RequestTransformError::InvalidStreamOptions)),
                }
            }
        },
        _ => (v, Err(RequestTransformError::NotObject)),
    }
}

fn stream_flag(v: &Json) -> (r: bool)
    ensures
        r == match get_spec(v@, "stream"@) {
            Some(JsonV::Bool(b)) => b,
            _ => false,
        },
{
    match v.get("stream") {
        Some(s) => match s.as_bool() {
            Some(b) => b,
            None => false,
        },
        None => false,
    }
}

fn include_usage_is_true(opts: &Json) -> (r: bool)
    ensures
        r == (get_spec(opts@, "include_usage"@) == Some(JsonV::Bool(true))),
{
    match opts.get("include_usage") {
        Some(x) => match x.as_bool() {
            Some(b) => b,
            None => false,
        },
        None => false,
    }
}

/// Ask for usage on streamed completions: set `stream_options.include_usage`
/// to `true` when `stream` is `true`. Returns whether the body changed.
pub fn include_stream_usage(body: &mut Json) -> (r: Result<bool, RequestTransformError>)
    ensures
        (final(body)@, r) == stream_usage_spec(old(body)@),
{
    if !body.is_object() {
        return Err(RequestTransformError::NotObject);
    }
    if !stream_flag(body) {
        return Ok(false);
    }
    let mut v = Json::Null;
    std::mem::swap(&mut v, body);
    let mut entries = match v {
        Json::Object(entries) => entries,
        _ => {
            return Err(RequestTransformError::NotObject);
        },
    };
    proof {
        lemma_object_view(entries);
        lemma_key_index_range(entries_view(entries@), "stream_options"@);
    }
    let ghost es = entries_view(entries@);
    match take_entry(&mut entries, "stream_options") {
        None => {
            let mut opts: Vec<(String, Json)> = Vec::new();
            assert(entries_view(opts@) =~= Seq::empty());
            set_entry(&mut opts, "include_usage", Json::Bool(true));
            proof {
                lemma_object_view(opts);
            }
            set_entry(&mut entries, "stream_options", Json::Object(opts));
            proof {
                lemma_object_view(entries);
            }
            *body = Json::Object(entries);
            Ok(true)
        },
        Some((k, opts)) => {
            if !opts.is_object() {
                put_entry(&mut entries, k, opts);
                proof {
                    lemma_object_view(entries);
                    assert(entries_view(entries@) =~= es);
                }
                *body = Json::Object(entries);
                return Err(RequestTransformError::InvalidStreamOptions);
            }
            if include_usage_is_true(&opts) {
                put_entry(&mut entries, k, opts);
                proof {
                    lemma_object_view(entries);
                    assert(entries_view(entries@) =~= es);
                }
                *body = Json::Object(entries);
                return Ok(false);
            }
            let mut inner = match opts {
                Json::Object(inner) => inner,
                _ => {
                    return Err(RequestTransformError::NotObject);
                },
            };
            proof {
                lemma_object_view(inner);
            }
            set_entry(&mut inner, "include_usage", Json::Bool(true));
            proof {
                lemma_object_view(inner);
            }
            put_entry(&mut entries, k, Json::Object(inner));
            proof {
                lemma_object_view(entries);
                let opts_es = match es[k as int].1 {
                    JsonV::Object(o) => o,
                    _ => Seq::empty(),
                };
                assert(entries_view(entries@) =~= set_spec(
                    es,
                    "stream_options"@,
                    with_include_usage(opts_es),
                ));
            }
            *body = Json::Object(entries);
            Ok(true)
        },
    }
}

/// The streaming-usage transform is idempotent: applied to its own result it
/// changes nothing and reports no change (or the same error).
pub proof fn law_stream_usage_idempotent(v: JsonV)
    ensures
        ({
            let (v1, r1) = stream_usage_spec(v);
            let (v2, r2) = stream_usage_spec(v1);
            &&& v2 == v1
            &&& r1 is Ok ==> r2 == Ok::<bool, RequestTransformError>(false)
            &&& r1 is Err ==> r2 == r1
        }),
{
    reveal_strlit("stream");
    reveal_strlit("stream_options");
    reveal_strlit("include_usage");
    assert("stream"@ != "stream_options"@) by {
        assert("stream"@.len() != "stream_options"@.len());
    }
    match v {
        JsonV::Object(es) => {
            match get_spec(v, "stream_options"@) {
                None => {
                    lemma_get_set(Seq::empty(), "include_usage"@, JsonV::Bool(true), "include_usage"@);
                    lemma_get_set(es, "stream_options"@, with_include_usage(Seq::empty()), "stream"@);
                },
                Some(JsonV::Object(opts)) => {
                    lemma_get_set(opts, "include_usage"@, JsonV::Bool(true), "include_usage"@);
                    lemma_get_set(es, "stream_options"@, with_include_usage(opts), "stream"@);
                },
                Some(_) => {},
            }
        },
        _ => {},
    }
}

/// The streaming-usage transform leaves every field other than
/// `stream_options` as it was, and a streamed request that it accepts asks
/// for usage; other options are kept.
pub proof fn law_stream_usage_preserves_fields(v: JsonV, key: Seq<char>, opt: Seq<char>)
    requires
        key != "stream_options"@,
        opt != "include_usage"@,
    ensures
        ({
            let (v1, r) = stream_usage_spec(v);
            &&& get_spec(v1, key) == get_spec(v, key)
            &&& (r is Ok && get_spec(v, "stream"@) == Some(JsonV::Bool(true))) ==> {
                &&& get_spec(v1, "stream_options"@) matches Some(o) && get_spec(o, "include_usage"@)
                    == Some(JsonV::Bool(true))
                &&& get_spec(v, "stream_options"@) matches Some(o0) ==> get_spec(
                    get_spec(v1, "stream_options"@)->0,
                    opt,
                ) == get_spec(o0, opt)
            }
        }),
{
    match v {
        JsonV::Object(es) => {
            match get_spec(v, "stream_options"@) {
                None => {
                    lemma_get_set(Seq::empty(), "include_usage"@, JsonV::Bool(true), "include_usage"@);
                    lemma_get_set(es, "stream_options"@, with_include_usage(Seq::empty()), key);
                    lemma_get_set(es, "stream_options"@, with_include_usage(Seq::empty()), "stream_options"@);
                },
                Some(JsonV::Object(opts)) => {
                    lemma_get_set(opts, "include_usage"@, JsonV::Bool(true), "include_usage"@);
                    lemma_get_set(opts, "include_usage"@, JsonV::Bool(true), opt);
                    lemma_get_set(es, "stream_options"@, with_include_usage(opts), key);
                    lemma_get_set(es, "stream_options"@, with_include_usage(opts), "stream_options"@);
                },
                Some(_) => {},
            }
        },
        _ => {},
    }
}

} // verus!
