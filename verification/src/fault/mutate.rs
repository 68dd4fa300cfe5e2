//! Response-body mutators for the `malformed_tool_call_json` fault: the
//! `arguments` of a chat completion's tool calls are rewritten into text
//! that is not JSON, in plain JSON bodies and in SSE streams.

use vstd::prelude::*;

use vstd::utf8::*;

use crate::json::{
    array_view, entries_view, find_key, get_spec, key_index, lemma_array_view,
    lemma_get_set, lemma_key_index_range, lemma_object_view, put_entry, set_entry, set_spec, spec_json_bytes,
    spec_parse_json, spec_parse_json_str, take_entry, Json, JsonNumber, JsonNumberV, JsonV,
};
use crate::text::{
    append_bytes, data_payload, data_payload_spec, has_data_prefix, lines_spec, spec_utf8_lossy,
    split_lines, str_eq, strings_view, trim_start_spec, trim_start_str, utf8_lossy,
};

verus! {

/// The text written into `function.arguments`; it does not parse as JSON.
pub const MALFORMED_ARGUMENTS: &'static str = "{maul:not-json";

pub open spec fn malformed_arguments_v() -> JsonV {
    JsonV::Str(MALFORMED_ARGUMENTS@)
}

// ---------------------------------------------------------------------------
// Synthetic values
// ---------------------------------------------------------------------------

pub open spec fn synthetic_function_v() -> JsonV {
    JsonV::Object(
        seq![("name"@, JsonV::Str("maul_injected_tool"@)), ("arguments"@, malformed_arguments_v())],
    )
}

pub open spec fn synthetic_tool_call_v() -> JsonV {
    JsonV::Object(
        seq![
            ("id"@, JsonV::Str("call_maul_fault"@)),
            ("type"@, JsonV::Str("function"@)),
            ("function"@, synthetic_function_v()),
        ],
    )
}

pub open spec fn synthetic_message_v() -> JsonV {
    JsonV::Object(
        seq![
            ("role"@, JsonV::Str("assistant"@)),
            ("content"@, JsonV::Null),
            ("tool_calls"@, JsonV::Array(seq![synthetic_tool_call_v()])),
        ],
    )
}

pub open spec fn synthetic_choice_v() -> JsonV {
    JsonV::Object(
        seq![
            ("index"@, JsonV::Number(JsonNumberV::PosInt(0))),
            ("message"@, synthetic_message_v()),
            ("finish_reason"@, JsonV::Str("tool_calls"@)),
        ],
    )
}

/// The completion that replaces a body without a `choices` array.
pub open spec fn synthetic_completion_v() -> JsonV {
    JsonV::Object(
        seq![
            ("id"@, JsonV::Str("chatcmpl-maul-fault"@)),
            ("object"@, JsonV::Str("chat.completion"@)),
            ("choices"@, JsonV::Array(seq![synthetic_choice_v()])),
        ],
    )
}

fn entry(key: &str, val: Json) -> (r: (String, Json))
    ensures
        r.0@ == key@,
        r.1 == val,
{
    (key.to_owned(), val)
}

fn text(s: &str) -> (r: Json)
    ensures
        r@ == JsonV::Str(s@),
{
    Json::Str(s.to_owned())
}

fn object(entries: Vec<(String, Json)>) -> (r: Json)
    ensures
        r@ == JsonV::Object(entries_view(entries@)),
{
    proof {
        lemma_object_view(entries);
    }
    Json::Object(entries)
}

fn array(items: Vec<Json>) -> (r: Json)
    ensures
        r@ == JsonV::Array(array_view(items@)),
{
    proof {
        lemma_array_view(items);
    }
    Json::Array(items)
}

fn zero() -> (r: Json)
    ensures
        r@ == JsonV::Number(JsonNumberV::PosInt(0)),
{
    Json::Number(JsonNumber::PosInt(0))
}

fn synthetic_function() -> (r: Json)
    ensures
        r@ == synthetic_function_v(),
{
    let mut es: Vec<(String, Json)> = Vec::new();
    es.push(entry("name", text("maul_injected_tool")));
    es.push(entry("arguments", text(MALFORMED_ARGUMENTS)));
    assert(entries_view(es@) =~= seq![
        ("name"@, JsonV::Str("maul_injected_tool"@)),
        ("arguments"@, malformed_arguments_v()),
    ]);
    object(es)
}

fn synthetic_tool_call() -> (r: Json)
    ensures
        r@ == synthetic_tool_call_v(),
{
    let mut es: Vec<(String, Json)> = Vec::new();
    es.push(entry("id", text("call_maul_fault")));
    es.push(entry("type", text("function")));
    es.push(entry("function", synthetic_function()));
    assert(entries_view(es@) =~= seq![
        ("id"@, JsonV::Str("call_maul_fault"@)),
        ("type"@, JsonV::Str("function"@)),
        ("function"@, synthetic_function_v()),
    ]);
    object(es)
}

fn synthetic_tool_calls() -> (r: Json)
    ensures
        r@ == JsonV::Array(seq![synthetic_tool_call_v()]),
{
    let mut items: Vec<Json> = Vec::new();
    items.push(synthetic_tool_call());
    assert(array_view(items@) =~= seq![synthetic_tool_call_v()]);
    array(items)
}

fn synthetic_message() -> (r: Json)
    ensures
        r@ == synthetic_message_v(),
{
    let mut es: Vec<(String, Json)> = Vec::new();
    es.push(entry("role", text("assistant")));
    es.push(entry("content", Json::Null));
    es.push(entry("tool_calls", synthetic_tool_calls()));
    assert(entries_view(es@) =~= seq![
        ("role"@, JsonV::Str("assistant"@)),
        ("content"@, JsonV::Null),
        ("tool_calls"@, JsonV::Array(seq![synthetic_tool_call_v()])),
    ]);
    object(es)
}

fn synthetic_choice() -> (r: Json)
    ensures
        r@ == synthetic_choice_v(),
{
    let mut es: Vec<(String, Json)> = Vec::new();
    es.push(entry("index", zero()));
    es.push(entry("message", synthetic_message()));
    es.push(entry("finish_reason", text("tool_calls")));
    assert(entries_view(es@) =~= seq![
        ("index"@, JsonV::Number(JsonNumberV::PosInt(0))),
        ("message"@, synthetic_message_v()),
        ("finish_reason"@, JsonV::Str("tool_calls"@)),
    ]);
    object(es)
}

fn synthetic_completion() -> (r: Json)
    ensures
        r@ == synthetic_completion_v(),
{
    let mut choices: Vec<Json> = Vec::new();
    choices.push(synthetic_choice());
    assert(array_view(choices@) =~= seq![synthetic_choice_v()]);
    let mut es: Vec<(String, Json)> = Vec::new();
    es.push(entry("id", text("chatcmpl-maul-fault")));
    es.push(entry("object", text("chat.completion")));
    es.push(entry("choices", array(choices)));
    assert(entries_view(es@) =~= seq![
        ("id"@, JsonV::Str("chatcmpl-maul-fault"@)),
        ("object"@, JsonV::Str("chat.completion"@)),
        ("choices"@, JsonV::Array(seq![synthetic_choice_v()])),
    ]);
    object(es)
}

// ---------------------------------------------------------------------------
// Tool calls
// ---------------------------------------------------------------------------

/// One tool call with `function.arguments`, where present, made malformed;
/// and whether it was.
pub open spec fn corrupt_call_spec(call: JsonV) -> (JsonV, bool) {
    match call {
        JsonV::Object(es) => match get_spec(call, "function"@) {
            Some(JsonV::Object(fes)) => if key_index(fes, "arguments"@) >= 0 {
                (
                    JsonV::Object(
                        set_spec(
                            es,
                            "function"@,
                            JsonV::Object(set_spec(fes, "arguments"@, malformed_arguments_v())),
                        ),
                    ),
                    true,
                )
            } else {
                (call, false)
            },
            _ => (call, false),
        },
        _ => (call, false),
    }
}

/// A tool call that was corrupted keeps its other fields and carries the
/// malformed text as its `function.arguments`.
pub proof fn law_corrupted_call_arguments(call: JsonV, key: Seq<char>)
    requires
        key != "function"@,
    ensures
        corrupt_call_spec(call).1 ==> {
            let out = corrupt_call_spec(call).0;
            &&& get_spec(out, "function"@) matches Some(f) && get_spec(f, "arguments"@) == Some(
                malformed_arguments_v(),
            )
            &&& get_spec(out, key) == get_spec(call, key)
        },
{
    if corrupt_call_spec(call).1 {
        let es = call->Object_0;
        let fes = get_spec(call, "function"@)->0->Object_0;
        lemma_get_set(fes, "arguments"@, malformed_arguments_v(), "arguments"@);
        let nf = JsonV::Object(set_spec(fes, "arguments"@, malformed_arguments_v()));
        lemma_get_set(es, "function"@, nf, "function"@);
        lemma_get_set(es, "function"@, nf, key);
    }
}

/// Each tool call corrupted.
pub open spec fn corrupt_calls_spec(calls: Seq<JsonV>) -> Seq<JsonV> {
    Seq::new(calls.len(), |i: int| corrupt_call_spec(calls[i]).0)
}

/// Some tool call had arguments to corrupt.
pub open spec fn any_call_corrupted(calls: Seq<JsonV>) -> bool {
    exists|i: int| 0 <= i < calls.len() && (#[trigger] corrupt_call_spec(calls[i])).1
}

fn corrupt_call(call: Json) -> (r: (Json, bool))
    ensures
        (r.0@, r.1) == corrupt_call_spec(call@),
{
    match call {
        Json::Object(mut entries) => {
            proof {
                lemma_object_view(entries);
            }
            let ghost es = entries_view(entries@);
            proof {
                lemma_key_index_range(es, "function"@);
            }
            match take_entry(&mut entries, "function") {
                Some((k, f)) => {
                    match f {
                        Json::Object(mut fentries) => {
                            proof {
                                lemma_object_view(fentries);
                            }
                            match find_key(&fentries, "arguments") {
                                Some(_) => {
                                    set_entry(
                                        &mut fentries,
                                        "arguments",
                                        Json::Str(MALFORMED_ARGUMENTS.to_owned()),
                                    );
                                    let nf = object(fentries);
                                    let ghost nfv = nf@;
                                    put_entry(&mut entries, k, nf);
                                    assert(entries_view(entries@) =~= set_spec(es, "function"@, nfv));
                                    (object(entries), true)
                                },
                                None => {
                                    let nf = object(fentries);
                                    put_entry(&mut entries, k, nf);
                                    assert(entries_view(entries@) =~= es);
                                    (object(entries), false)
                                },
                            }
                        },
                        other => {
                            put_entry(&mut entries, k, other);
                            assert(entries_view(entries@) =~= es);
                            (object(entries), false)
                        },
                    }
                },
                None => (object(entries), false),
            }
        },
        other => (other, false),
    }
}

/// Each item passed through `f`, whose results `g` states; and whether `f`
/// reported a change for any item.
fn corrupt_each<F: Fn(Json) -> (Json, bool)>(
    items: Vec<Json>,
    f: F,
    Ghost(g): Ghost<spec_fn(JsonV) -> (JsonV, bool)>,
) -> (r: (Vec<Json>, bool))
    requires
        forall|x: Json| #[trigger] f.requires((x,)),
        forall|x: Json, y: (Json, bool)| #[trigger] f.ensures((x,), y) ==> (y.0@, y.1) == g(x@),
    ensures
        array_view(r.0@) == Seq::new(items@.len(), |i: int| g(array_view(items@)[i]).0),
        r.1 == exists|i: int| 0 <= i < items@.len() && #[trigger] g(array_view(items@)[i]).1,
{
    let ghost orig = array_view(items@);
    let ghost mapped = Seq::new(orig.len(), |i: int| g(orig[i]).0);
    let n = items.len();
    let mut rest = items;
    let mut out: Vec<Json> = Vec::new();
    let mut any = false;
    let mut i: usize = 0;
    while i < n
        invariant
            n == orig.len(),
            mapped == Seq::new(orig.len(), |i: int| g(orig[i]).0),
            forall|x: Json| #[trigger] f.requires((x,)),
            forall|x: Json, y: (Json, bool)| #[trigger] f.ensures((x,), y) ==> (y.0@, y.1) == g(x@),
            i <= n,
            rest@.len() == n - i,
            out@.len() == i,
            array_view(rest@) == orig.subrange(i as int, n as int),
            array_view(out@) == mapped.take(i as int),
            any == exists|j: int| 0 <= j < i && #[trigger] g(orig[j]).1,
        decreases n - i,
    {
        let ghost before = rest@;
        let ghost out_before = out@;
        let c = rest.remove(0);
        assert(c@ == orig[i as int]) by {
            assert(array_view(before)[0] == orig[i as int]);
        }
        assert(array_view(rest@) =~= orig.subrange(i as int + 1, n as int)) by {
            assert forall|j: int| 0 <= j < rest@.len() implies #[trigger] array_view(rest@)[j]
                == orig[i + 1 + j] by {
                assert(rest@[j] == before[j + 1]);
                assert(array_view(before)[j + 1] == orig[i + 1 + j]);
            }
        }
        let (c2, changed) = f(c);
        out.push(c2);
        assert(array_view(out@) =~= mapped.take(i as int + 1)) by {
            assert forall|j: int| 0 <= j < i implies #[trigger] array_view(out@)[j]
                == mapped[j] by {
                assert(out@[j] == out_before[j]);
                assert(array_view(out_before)[j] == mapped[j]);
            }
            assert(array_view(out@)[i as int] == c2@);
        }
        proof {
            if changed {
                assert(g(orig[i as int]).1);
            }
        }
        any = any || changed;
        i = i + 1;
    }
    assert(mapped.take(n as int) =~= mapped);
    (out, any)
}

/// What [`corrupt_each`] states with [`corrupt_call_spec`] as its `g`,
/// read as [`corrupt_calls_spec`] and [`any_call_corrupted`].
proof fn lemma_calls_result(g: spec_fn(JsonV) -> (JsonV, bool), cv: Seq<JsonV>, out: Seq<JsonV>, any: bool)
    requires
        forall|v: JsonV| #[trigger] g(v) == corrupt_call_spec(v),
        out == Seq::new(cv.len(), |i: int| g(cv[i]).0),
        any == exists|i: int| 0 <= i < cv.len() && #[trigger] g(cv[i]).1,
    ensures
        out == corrupt_calls_spec(cv),
        any == any_call_corrupted(cv),
{
    assert(out =~= corrupt_calls_spec(cv));
    if any {
        let j = choose|i: int| 0 <= i < cv.len() && #[trigger] g(cv[i]).1;
        assert(corrupt_call_spec(cv[j]).1);
    }
    if any_call_corrupted(cv) {
        let j = choose|i: int| 0 <= i < cv.len() && (#[trigger] corrupt_call_spec(cv[i])).1;
        assert(g(cv[j]).1);
    }
}

/// The tool calls of a message or a streamed delta corrupted, when it holds
/// a non-empty `tool_calls` array; and whether any call was.
pub open spec fn corrupt_message_calls_spec(m: JsonV) -> (JsonV, bool) {
    match m {
        JsonV::Object(es) => match get_spec(m, "tool_calls"@) {
            Some(JsonV::Array(calls)) => if calls.len() > 0 {
                (
                    JsonV::Object(
                        set_spec(es, "tool_calls"@, JsonV::Array(corrupt_calls_spec(calls))),
                    ),
                    any_call_corrupted(calls),
                )
            } else {
                (m, false)
            },
            _ => (m, false),
        },
        _ => (m, false),
    }
}

fn corrupt_message_calls(m: Json) -> (r: (Json, bool))
    ensures
        (r.0@, r.1) == corrupt_message_calls_spec(m@),
{
    match m {
        Json::Object(mut entries) => {
            proof {
                lemma_object_view(entries);
            }
            let ghost es = entries_view(entries@);
            proof {
                lemma_key_index_range(es, "tool_calls"@);
            }
            match take_entry(&mut entries, "tool_calls") {
                Some((k, v)) => {
                    match v {
                        Json::Array(calls) => {
                            proof {
                                lemma_array_view(calls);
                            }
                            if calls.len() > 0 {
                                let ghost cv = array_view(calls@);
                                let (nc, any) = corrupt_each(
                                    calls,
                                    corrupt_call,
                                    Ghost(|v: JsonV| corrupt_call_spec(v)),
                                );
                                proof {
                                    lemma_calls_result(
                                        |v: JsonV| corrupt_call_spec(v),
                                        cv,
                                        array_view(nc@),
                                        any,
                                    );
                                }
                                let a = array(nc);
                                let ghost av = a@;
                                put_entry(&mut entries, k, a);
                                assert(entries_view(entries@) =~= set_spec(es, "tool_calls"@, av));
                                (object(entries), any)
                            } else {
                                put_entry(&mut entries, k, array(calls));
                                assert(entries_view(entries@) =~= es);
                                (object(entries), false)
                            }
                        },
                        other => {
                            put_entry(&mut entries, k, other);
                            assert(entries_view(entries@) =~= es);
                            (object(entries), false)
                        },
                    }
                },
                None => (object(entries), false),
            }
        },
        other => (other, false),
    }
}

// ---------------------------------------------------------------------------
// Non-streaming chat.completion bodies
// ---------------------------------------------------------------------------

/// A `tool_calls` value that is a non-empty array.
pub open spec fn has_calls_spec(m: JsonV) -> bool {
    get_spec(m, "tool_calls"@) matches Some(JsonV::Array(calls)) && calls.len() > 0
}

/// A message given one synthetic malformed tool call and `null` content.
pub open spec fn inject_call_spec(mes: Seq<(Seq<char>, JsonV)>) -> JsonV {
    JsonV::Object(
        set_spec(
            set_spec(mes, "tool_calls"@, JsonV::Array(seq![synthetic_tool_call_v()])),
            "content"@,
            JsonV::Null,
        ),
    )
}

/// One choice of a completion after corruption, and whether it changed: its
/// tool calls corrupted where it has some, a malformed call injected into a
/// message without any, a synthetic message added where it has none.
pub open spec fn corrupt_choice_spec(choice: JsonV) -> (JsonV, bool) {
    match choice {
        JsonV::Object(es) => match get_spec(choice, "message"@) {
            None => (JsonV::Object(set_spec(es, "message"@, synthetic_message_v())), true),
            Some(msg) => match msg {
                JsonV::Object(mes) => if has_calls_spec(msg) {
                    (
                        JsonV::Object(set_spec(es, "message"@, corrupt_message_calls_spec(msg).0)),
                        corrupt_message_calls_spec(msg).1,
                    )
                } else {
                    (JsonV::Object(set_spec(es, "message"@, inject_call_spec(mes))), true)
                },
                _ => (choice, false),
            },
        },
        _ => (choice, false),
    }
}

pub open spec fn corrupt_choices_spec(chs: Seq<JsonV>) -> Seq<JsonV> {
    Seq::new(chs.len(), |i: int| corrupt_choice_spec(chs[i]).0)
}

pub open spec fn any_choice_corrupted(chs: Seq<JsonV>) -> bool {
    exists|i: int| 0 <= i < chs.len() && (#[trigger] corrupt_choice_spec(chs[i])).1
}

/// A chat completion with its tool calls corrupted, and whether anything
/// changed. A body without a `choices` array becomes the synthetic
/// completion; an empty `choices` array gets the synthetic choice.
pub open spec fn corrupt_completion_spec(v: JsonV) -> (JsonV, bool) {
    match v {
        JsonV::Object(es) => match get_spec(v, "choices"@) {
            Some(JsonV::Array(chs)) => if chs.len() == 0 {
                (
                    JsonV::Object(
                        set_spec(es, "choices"@, JsonV::Array(seq![synthetic_choice_v()])),
                    ),
                    true,
                )
            } else {
                (
                    JsonV::Object(set_spec(es, "choices"@, JsonV::Array(corrupt_choices_spec(chs)))),
                    any_choice_corrupted(chs),
                )
            },
            _ => (synthetic_completion_v(), true),
        },
        _ => (synthetic_completion_v(), true),
    }
}

fn has_calls(m: &Json) -> (r: bool)
    ensures
        r == has_calls_spec(m@),
{
    match m.get("tool_calls") {
        Some(x) => match x {
            Json::Array(calls) => {
                proof {
                    lemma_array_view(*calls);
                }
                calls.len() > 0
            },
            _ => false,
        },
        None => false,
    }
}

fn corrupt_choice(choice: Json) -> (r: (Json, bool))
    ensures
        (r.0@, r.1) == corrupt_choice_spec(choice@),
{
    match choice {
        Json::Object(mut entries) => {
            proof {
                lemma_object_view(entries);
            }
            let ghost es = entries_view(entries@);
            proof {
                lemma_key_index_range(es, "message"@);
            }
            match take_entry(&mut entries, "message") {
                None => {
                    set_entry(&mut entries, "message", synthetic_message());
                    (object(entries), true)
                },
                Some((k, msg)) => {
                    if has_calls(&msg) {
                        let (m2, any) = corrupt_message_calls(msg);
                        let ghost m2v = m2@;
                        put_entry(&mut entries, k, m2);
                        assert(entries_view(entries@) =~= set_spec(es, "message"@, m2v));
                        (object(entries), any)
                    } else {
                        match msg {
                            Json::Object(mut ments) => {
                                proof {
                                    lemma_object_view(ments);
                                }
                                set_entry(&mut ments, "tool_calls", synthetic_tool_calls());
                                set_entry(&mut ments, "content", Json::Null);
                                let m2 = object(ments);
                                let ghost m2v = m2@;
                                put_entry(&mut entries, k, m2);
                                assert(entries_view(entries@) =~= set_spec(es, "message"@, m2v));
                                (object(entries), true)
                            },
                            other => {
                                put_entry(&mut entries, k, other);
                                assert(entries_view(entries@) =~= es);
                                (object(entries), false)
                            },
                        }
                    }
                },
            }
        },
        other => (other, false),
    }
}

proof fn lemma_choices_result(g: spec_fn(JsonV) -> (JsonV, bool), cv: Seq<JsonV>, out: Seq<JsonV>, any: bool)
    requires
        forall|v: JsonV| #[trigger] g(v) == corrupt_choice_spec(v),
        out == Seq::new(cv.len(), |i: int| g(cv[i]).0),
        any == exists|i: int| 0 <= i < cv.len() && #[trigger] g(cv[i]).1,
    ensures
        out == corrupt_choices_spec(cv),
        any == any_choice_corrupted(cv),
{
    assert(out =~= corrupt_choices_spec(cv));
    if any {
        let j = choose|i: int| 0 <= i < cv.len() && #[trigger] g(cv[i]).1;
        assert(corrupt_choice_spec(cv[j]).1);
    }
    if any_choice_corrupted(cv) {
        let j = choose|i: int| 0 <= i < cv.len() && (#[trigger] corrupt_choice_spec(cv[i])).1;
        assert(g(cv[j]).1);
    }
}

/// Corrupt the tool calls of a parsed chat completion; the second result
/// says whether anything changed.
pub fn corrupt_completion(value: Json) -> (r: (Json, bool))
    ensures
        (r.0@, r.1) == corrupt_completion_spec(value@),
{
    match value {
        Json::Object(mut entries) => {
            proof {
                lemma_object_view(entries);
            }
            let ghost es = entries_view(entries@);
            proof {
                lemma_key_index_range(es, "choices"@);
            }
            match take_entry(&mut entries, "choices") {
                Some((k, v)) => match v {
                    Json::Array(chs) => {
                        proof {
                            lemma_array_view(chs);
                        }
                        if chs.len() == 0 {
                            let mut one: Vec<Json> = Vec::new();
                            one.push(synthetic_choice());
                            assert(array_view(one@) =~= seq![synthetic_choice_v()]);
                            let a = array(one);
                            let ghost av = a@;
                            put_entry(&mut entries, k, a);
                            assert(entries_view(entries@) =~= set_spec(es, "choices"@, av));
                            (object(entries), true)
                        } else {
                            let ghost cv = array_view(chs@);
                            let (nc, any) = corrupt_each(
                                chs,
                                corrupt_choice,
                                Ghost(|v: JsonV| corrupt_choice_spec(v)),
                            );
                            proof {
                                lemma_choices_result(
                                    |v: JsonV| corrupt_choice_spec(v),
                                    cv,
                                    array_view(nc@),
                                    any,
                                );
                            }
                            let a = array(nc);
                            let ghost av = a@;
                            put_entry(&mut entries, k, a);
                            assert(entries_view(entries@) =~= set_spec(es, "choices"@, av));
                            (object(entries), any)
                        }
                    },
                    _ => (synthetic_completion(), true),
                },
                None => (synthetic_completion(), true),
            }
        },
        _ => (synthetic_completion(), true),
    }
}

// ---------------------------------------------------------------------------
// SSE chat.completion.chunk bodies
// ---------------------------------------------------------------------------

/// The tool calls under `key` corrupted, where the object has that key.
pub open spec fn corrupt_field_calls_spec(es: Seq<(Seq<char>, JsonV)>, key: Seq<char>) -> (
    Seq<(Seq<char>, JsonV)>,
    bool,
) {
    match get_spec(JsonV::Object(es), key) {
        Some(x) => (set_spec(es, key, corrupt_message_calls_spec(x).0), corrupt_message_calls_spec(x).1),
        None => (es, false),
    }
}

/// A streamed choice with the tool calls of its `delta`, then of its
/// `message`, corrupted; and whether any was.
pub open spec fn corrupt_chunk_choice_spec(choice: JsonV) -> (JsonV, bool) {
    match choice {
        JsonV::Object(es) => {
            let d = corrupt_field_calls_spec(es, "delta"@);
            let m = corrupt_field_calls_spec(d.0, "message"@);
            (JsonV::Object(m.0), d.1 || m.1)
        },
        _ => (choice, false),
    }
}

pub open spec fn corrupt_chunk_choices_spec(chs: Seq<JsonV>) -> Seq<JsonV> {
    Seq::new(chs.len(), |i: int| corrupt_chunk_choice_spec(chs[i]).0)
}

pub open spec fn any_chunk_choice_corrupted(chs: Seq<JsonV>) -> bool {
    exists|i: int| 0 <= i < chs.len() && (#[trigger] corrupt_chunk_choice_spec(chs[i])).1
}

/// A `chat.completion.chunk` with the tool calls of its choices corrupted,
/// and whether any was; a chunk without a `choices` array is left alone.
pub open spec fn corrupt_sse_chunk_spec(v: JsonV) -> (JsonV, bool) {
    match v {
        JsonV::Object(es) => match get_spec(v, "choices"@) {
            Some(JsonV::Array(chs)) => (
                JsonV::Object(set_spec(es, "choices"@, JsonV::Array(corrupt_chunk_choices_spec(chs)))),
                any_chunk_choice_corrupted(chs),
            ),
            _ => (v, false),
        },
        _ => (v, false),
    }
}

fn corrupt_field_calls(entries: &mut Vec<(String, Json)>, key: &str) -> (r: bool)
    ensures
        (entries_view(final(entries)@), r) == corrupt_field_calls_spec(
            entries_view(old(entries)@),
            key@,
        ),
{
    let ghost es = entries_view(entries@);
    proof {
        lemma_key_index_range(es, key@);
    }
    match take_entry(entries, key) {
        Some((k, x)) => {
            let (x2, any) = corrupt_message_calls(x);
            let ghost x2v = x2@;
            put_entry(entries, k, x2);
            assert(entries_view(entries@) =~= set_spec(es, key@, x2v));
            any
        },
        None => false,
    }
}

fn corrupt_chunk_choice(choice: Json) -> (r: (Json, bool))
    ensures
        (r.0@, r.1) == corrupt_chunk_choice_spec(choice@),
{
    match choice {
        Json::Object(mut entries) => {
            proof {
                lemma_object_view(entries);
            }
            let a = corrupt_field_calls(&mut entries, "delta");
            let b = corrupt_field_calls(&mut entries, "message");
            (object(entries), a || b)
        },
        other => (other, false),
    }
}

proof fn lemma_chunk_choices_result(
    g: spec_fn(JsonV) -> (JsonV, bool),
    cv: Seq<JsonV>,
    out: Seq<JsonV>,
    any: bool,
)
    requires
        forall|v: JsonV| #[trigger] g(v) == corrupt_chunk_choice_spec(v),
        out == Seq::new(cv.len(), |i: int| g(cv[i]).0),
        any == exists|i: int| 0 <= i < cv.len() && #[trigger] g(cv[i]).1,
    ensures
        out == corrupt_chunk_choices_spec(cv),
        any == any_chunk_choice_corrupted(cv),
{
    assert(out =~= corrupt_chunk_choices_spec(cv));
    if any {
        let j = choose|i: int| 0 <= i < cv.len() && #[trigger] g(cv[i]).1;
        assert(corrupt_chunk_choice_spec(cv[j]).1);
    }
    if any_chunk_choice_corrupted(cv) {
        let j = choose|i: int| 0 <= i < cv.len() && (#[trigger] corrupt_chunk_choice_spec(cv[i])).1;
        assert(g(cv[j]).1);
    }
}

/// Corrupt the tool calls of one parsed stream chunk; the second result
/// says whether anything changed.
pub fn corrupt_sse_chunk(value: Json) -> (r: (Json, bool))
    ensures
        (r.0@, r.1) == corrupt_sse_chunk_spec(value@),
{
    match value {
        Json::Object(mut entries) => {
            proof {
                lemma_object_view(entries);
            }
            let ghost es = entries_view(entries@);
            proof {
                lemma_key_index_range(es, "choices"@);
            }
            match take_entry(&mut entries, "choices") {
                Some((k, v)) => match v {
                    Json::Array(chs) => {
                        proof {
                            lemma_array_view(chs);
                        }
                        let ghost cv = array_view(chs@);
                        let (nc, any) = corrupt_each(
                            chs,
                            corrupt_chunk_choice,
                            Ghost(|v: JsonV| corrupt_chunk_choice_spec(v)),
                        );
                        proof {
                            lemma_chunk_choices_result(
                                |v: JsonV| corrupt_chunk_choice_spec(v),
                                cv,
                                array_view(nc@),
                                any,
                            );
                        }
                        let a = array(nc);
                        let ghost av = a@;
                        put_entry(&mut entries, k, a);
                        assert(entries_view(entries@) =~= set_spec(es, "choices"@, av));
                        (object(entries), any)
                    },
                    other => {
                        put_entry(&mut entries, k, other);
                        assert(entries_view(entries@) =~= es);
                        (object(entries), false)
                    },
                },
                None => (object(entries), false),
            }
        },
        other => (other, false),
    }
}

/// One event of an SSE body.
pub enum SseEvent {
    /// `data: [DONE]`.
    Done,
    /// A `data:` payload that parsed as JSON.
    Json(Json),
    /// A `data:` payload that did not.
    Raw(String),
    /// A non-blank line without a `data:` field, kept as it was.
    Other(String),
}

pub enum SseEventV {
    Done,
    Json(JsonV),
    Raw(Seq<char>),
    Other(Seq<char>),
}

impl View for SseEvent {
    type V = SseEventV;

    open spec fn view(&self) -> SseEventV {
        match self {
            SseEvent::Done => SseEventV::Done,
            SseEvent::Json(v) => SseEventV::Json(v@),
            SseEvent::Raw(p) => SseEventV::Raw(p@),
            SseEvent::Other(l) => SseEventV::Other(l@),
        }
    }
}

pub open spec fn events_view(v: Seq<SseEvent>) -> Seq<SseEventV> {
    Seq::new(v.len(), |i: int| v[i]@)
}

/// The event one line holds: a `data:` payload that is `[DONE]`, JSON or
/// neither, another non-blank line as it is; blank lines and empty
/// payloads hold none.
pub open spec fn line_event_spec(line: Seq<char>) -> Option<SseEventV> {
    match data_payload_spec(line) {
        None => if trim_start_spec(line).len() > 0 {
            Some(SseEventV::Other(line))
        } else {
            None
        },
        Some(p) => if p.len() == 0 {
            None
        } else if p == "[DONE]"@ {
            Some(SseEventV::Done)
        } else {
            match spec_parse_json_str(p) {
                Some(v) => Some(SseEventV::Json(v@)),
                None => Some(SseEventV::Raw(p)),
            }
        },
    }
}

/// The events of a sequence of lines, in order.
pub open spec fn events_spec(lines: Seq<Seq<char>>) -> Seq<SseEventV>
    decreases lines.len(),
{
    if lines.len() == 0 {
        Seq::empty()
    } else {
        let prev = events_spec(lines.drop_last());
        match line_event_spec(lines.last()) {
            Some(e) => prev.push(e),
            None => prev,
        }
    }
}

/// A JSON event with its chunk corrupted; other events as they are.
pub open spec fn corrupt_event_spec(e: SseEventV) -> (SseEventV, bool) {
    match e {
        SseEventV::Json(v) => (SseEventV::Json(corrupt_sse_chunk_spec(v).0), corrupt_sse_chunk_spec(v).1),
        _ => (e, false),
    }
}

pub open spec fn corrupted_events(evs: Seq<SseEventV>) -> Seq<SseEventV> {
    Seq::new(evs.len(), |i: int| corrupt_event_spec(evs[i]).0)
}

pub open spec fn any_event_corrupted(evs: Seq<SseEventV>) -> bool {
    exists|i: int| 0 <= i < evs.len() && (#[trigger] corrupt_event_spec(evs[i])).1
}

pub open spec fn has_done(evs: Seq<SseEventV>) -> bool {
    exists|i: int| 0 <= i < evs.len() && (#[trigger] evs[i]) is Done
}

/// The events, ending in `[DONE]` unless one is already there.
pub open spec fn ensure_done_spec(evs: Seq<SseEventV>) -> Seq<SseEventV> {
    if has_done(evs) {
        evs
    } else {
        evs.push(SseEventV::Done)
    }
}

/// The bytes one event renders to.
pub open spec fn event_bytes(e: SseEventV) -> Seq<u8> {
    match e {
        SseEventV::Done => encode_utf8("data: [DONE]\n\n"@),
        SseEventV::Json(v) => encode_utf8("data: "@) + spec_json_bytes(v) + encode_utf8("\n\n"@),
        SseEventV::Raw(p) => encode_utf8("data: "@) + encode_utf8(p) + encode_utf8("\n\n"@),
        SseEventV::Other(l) => encode_utf8(l) + encode_utf8("\n"@),
    }
}

/// The bytes a sequence of events renders to.
pub open spec fn render_spec(evs: Seq<SseEventV>) -> Seq<u8>
    decreases evs.len(),
{
    if evs.len() == 0 {
        Seq::empty()
    } else {
        render_spec(evs.drop_last()) + event_bytes(evs.last())
    }
}

proof fn lemma_push_event(evs: Seq<SseEventV>, e: SseEventV)
    ensures
        corrupted_events(evs.push(e)) == corrupted_events(evs).push(corrupt_event_spec(e).0),
        any_event_corrupted(evs.push(e)) == (any_event_corrupted(evs) || corrupt_event_spec(e).1),
        has_done(corrupted_events(evs.push(e))) == (has_done(corrupted_events(evs))
            || corrupt_event_spec(e).0 is Done),
{
    let n = evs.push(e);
    assert(corrupted_events(n) =~= corrupted_events(evs).push(corrupt_event_spec(e).0)) by {
        assert forall|i: int| 0 <= i < evs.len() implies #[trigger] n[i] == evs[i] by {}
    }
    if any_event_corrupted(evs) {
        let j = choose|i: int| 0 <= i < evs.len() && (#[trigger] corrupt_event_spec(evs[i])).1;
        assert(n[j] == evs[j]);
        assert(corrupt_event_spec(n[j]).1);
    }
    if corrupt_event_spec(e).1 {
        assert(n[evs.len() as int] == e);
        assert(corrupt_event_spec(n[evs.len() as int]).1);
    }
    if any_event_corrupted(n) {
        let j = choose|i: int| 0 <= i < n.len() && (#[trigger] corrupt_event_spec(n[i])).1;
        if j < evs.len() {
            assert(n[j] == evs[j]);
            assert(corrupt_event_spec(evs[j]).1);
        }
    }
    let c = corrupted_events(evs);
    let cn = corrupted_events(n);
    assert(cn == c.push(corrupt_event_spec(e).0));
    if has_done(c) {
        let j = choose|i: int| 0 <= i < c.len() && (#[trigger] c[i]) is Done;
        assert(cn[j] == c[j]);
    }
    if corrupt_event_spec(e).0 is Done {
        assert(cn[c.len() as int] is Done);
    }
    if has_done(cn) {
        let j = choose|i: int| 0 <= i < cn.len() && (#[trigger] cn[i]) is Done;
        if j < c.len() {
            assert(cn[j] == c[j]);
        }
    }
}

fn line_event(line: &str) -> (r: Option<SseEvent>)
    ensures
        match r {
            Some(e) => line_event_spec(line@) == Some(e@),
            None => line_event_spec(line@) is None,
        },
{
    match data_payload(line) {
        None => {
            if trim_start_str(line).is_empty() {
                None
            } else {
                Some(SseEvent::Other(line.to_owned()))
            }
        },
        Some(p) => {
            if p.is_empty() {
                None
            } else if str_eq(p, "[DONE]") {
                Some(SseEvent::Done)
            } else {
                match Json::parse_str(p) {
                    Some(v) => Some(SseEvent::Json(v)),
                    None => Some(SseEvent::Raw(p.to_owned())),
                }
            }
        },
    }
}

fn corrupt_event(e: SseEvent) -> (r: (SseEvent, bool))
    ensures
        (r.0@, r.1) == corrupt_event_spec(e@),
{
    match e {
        SseEvent::Json(v) => {
            let (v2, changed) = corrupt_sse_chunk(v);
            (SseEvent::Json(v2), changed)
        },
        other => (other, false),
    }
}

fn push_event_bytes(out: &mut Vec<u8>, e: &SseEvent)
    ensures
        final(out)@ == old(out)@ + event_bytes(e@),
{
    match e {
        SseEvent::Done => {
            append_bytes(out, "data: [DONE]\n\n".as_bytes());
        },
        SseEvent::Json(v) => {
            append_bytes(out, "data: ".as_bytes());
            let b = v.to_bytes();
            append_bytes(out, b.as_slice());
            append_bytes(out, "\n\n".as_bytes());
        },
        SseEvent::Raw(p) => {
            append_bytes(out, "data: ".as_bytes());
            append_bytes(out, p.as_str().as_bytes());
            append_bytes(out, "\n\n".as_bytes());
        },
        SseEvent::Other(l) => {
            append_bytes(out, l.as_str().as_bytes());
            append_bytes(out, "\n".as_bytes());
        },
    }
    proof {
        assert(final(out)@ =~= old(out)@ + event_bytes(e@));
    }
}

/// The bytes of `events`, each rendered in turn.
pub fn render_sse_events(events: &Vec<SseEvent>) -> (r: Vec<u8>)
    ensures
        r@ == render_spec(events_view(events@)),
{
    let ghost evs = events_view(events@);
    let mut out: Vec<u8> = Vec::new();
    let mut i: usize = 0;
    assert(evs.take(0) =~= Seq::<SseEventV>::empty());
    while i < events.len()
        invariant
            evs == events_view(events@),
            i <= events@.len(),
            out@ == render_spec(evs.take(i as int)),
        decreases events@.len() - i,
    {
        push_event_bytes(&mut out, &events[i]);
        assert(evs.take(i as int + 1).drop_last() =~= evs.take(i as int));
        i = i + 1;
    }
    assert(evs.take(events@.len() as int) =~= evs);
    out
}

pub open spec fn synthetic_chunk_call_v() -> JsonV {
    JsonV::Object(
        seq![
            ("index"@, JsonV::Number(JsonNumberV::PosInt(0))),
            ("id"@, JsonV::Str("call_maul_fault"@)),
            ("type"@, JsonV::Str("function"@)),
            ("function"@, synthetic_function_v()),
        ],
    )
}

pub open spec fn synthetic_delta_v() -> JsonV {
    JsonV::Object(
        seq![
            ("role"@, JsonV::Str("assistant"@)),
            ("content"@, JsonV::Null),
            ("tool_calls"@, JsonV::Array(seq![synthetic_chunk_call_v()])),
        ],
    )
}

pub open spec fn synthetic_chunk_choice_v() -> JsonV {
    JsonV::Object(
        seq![
            ("index"@, JsonV::Number(JsonNumberV::PosInt(0))),
            ("delta"@, synthetic_delta_v()),
            ("finish_reason"@, JsonV::Str("tool_calls"@)),
        ],
    )
}

/// The stream chunk of the synthetic SSE body.
pub open spec fn synthetic_chunk_v() -> JsonV {
    JsonV::Object(
        seq![
            ("id"@, JsonV::Str("chatcmpl-maul-fault"@)),
            ("object"@, JsonV::Str("chat.completion.chunk"@)),
            ("choices"@, JsonV::Array(seq![synthetic_chunk_choice_v()])),
        ],
    )
}

/// The events of the SSE body sent when a stream had no tool call to
/// corrupt: one chunk with a malformed tool call, then `[DONE]`.
pub open spec fn synthetic_sse_events() -> Seq<SseEventV> {
    seq![SseEventV::Json(synthetic_chunk_v()), SseEventV::Done]
}

pub open spec fn synthetic_sse_spec() -> Seq<u8> {
    render_spec(synthetic_sse_events())
}

fn synthetic_chunk() -> (r: Json)
    ensures
        r@ == synthetic_chunk_v(),
{
    let mut call: Vec<(String, Json)> = Vec::new();
    call.push(entry("index", zero()));
    call.push(entry("id", text("call_maul_fault")));
    call.push(entry("type", text("function")));
    call.push(entry("function", synthetic_function()));
    assert(entries_view(call@) =~= seq![
        ("index"@, JsonV::Number(JsonNumberV::PosInt(0))),
        ("id"@, JsonV::Str("call_maul_fault"@)),
        ("type"@, JsonV::Str("function"@)),
        ("function"@, synthetic_function_v()),
    ]);
    let mut calls: Vec<Json> = Vec::new();
    calls.push(object(call));
    assert(array_view(calls@) =~= seq![synthetic_chunk_call_v()]);
    let mut delta: Vec<(String, Json)> = Vec::new();
    delta.push(entry("role", text("assistant")));
    delta.push(entry("content", Json::Null));
    delta.push(entry("tool_calls", array(calls)));
    assert(entries_view(delta@) =~= seq![
        ("role"@, JsonV::Str("assistant"@)),
        ("content"@, JsonV::Null),
        ("tool_calls"@, JsonV::Array(seq![synthetic_chunk_call_v()])),
    ]);
    let mut choice: Vec<(String, Json)> = Vec::new();
    choice.push(entry("index", zero()));
    choice.push(entry("delta", object(delta)));
    choice.push(entry("finish_reason", text("tool_calls")));
    assert(entries_view(choice@) =~= seq![
        ("index"@, JsonV::Number(JsonNumberV::PosInt(0))),
        ("delta"@, synthetic_delta_v()),
        ("finish_reason"@, JsonV::Str("tool_calls"@)),
    ]);
    let mut choices: Vec<Json> = Vec::new();
    choices.push(object(choice));
    assert(array_view(choices@) =~= seq![synthetic_chunk_choice_v()]);
    let mut chunk: Vec<(String, Json)> = Vec::new();
    chunk.push(entry("id", text("chatcmpl-maul-fault")));
    chunk.push(entry("object", text("chat.completion.chunk")));
    chunk.push(entry("choices", array(choices)));
    assert(entries_view(chunk@) =~= seq![
        ("id"@, JsonV::Str("chatcmpl-maul-fault"@)),
        ("object"@, JsonV::Str("chat.completion.chunk"@)),
        ("choices"@, JsonV::Array(seq![synthetic_chunk_choice_v()])),
    ]);
    object(chunk)
}

fn synthetic_sse() -> (r: Vec<u8>)
    ensures
        r@ == synthetic_sse_spec(),
{
    let mut events: Vec<SseEvent> = Vec::new();
    events.push(SseEvent::Json(synthetic_chunk()));
    events.push(SseEvent::Done);
    assert(events_view(events@) =~= synthetic_sse_events());
    render_sse_events(&events)
}

/// An SSE body after corruption: its events with their chunks corrupted and
/// `[DONE]` ensured, rendered again; the synthetic stream where no chunk
/// held a tool call to corrupt.
pub open spec fn malform_events_spec(evs: Seq<SseEventV>) -> Seq<u8> {
    if any_event_corrupted(evs) {
        render_spec(ensure_done_spec(corrupted_events(evs)))
    } else {
        synthetic_sse_spec()
    }
}

/// Some line, after leading whitespace, starts with `data:`.
pub open spec fn has_data_line(lines: Seq<Seq<char>>) -> bool {
    exists|i: int| 0 <= i < lines.len() && has_data_prefix(trim_start_spec(#[trigger] lines[i]))
}

/// What [`malform_tool_call_json`] returns for `body`: a JSON body with its
/// tool calls corrupted (the synthetic completion where nothing in it could
/// be); an SSE body corrupted event by event; `None` for a body that is
/// neither.
pub open spec fn malform_spec(body: Seq<u8>) -> Option<Seq<u8>> {
    match spec_parse_json(body) {
        Some(v) => if corrupt_completion_spec(v@).1 {
            Some(spec_json_bytes(corrupt_completion_spec(v@).0))
        } else {
            Some(spec_json_bytes(synthetic_completion_v()))
        },
        None => {
            let lines = lines_spec(spec_utf8_lossy(body));
            if has_data_line(lines) {
                Some(malform_events_spec(events_spec(lines)))
            } else {
                None
            }
        },
    }
}

fn has_data_line_exec(lines: &Vec<String>) -> (r: bool)
    ensures
        r == has_data_line(strings_view(lines@)),
{
    let ghost ls = strings_view(lines@);
    let mut i: usize = 0;
    while i < lines.len()
        invariant
            ls == strings_view(lines@),
            i <= lines@.len(),
            forall|j: int| 0 <= j < i ==> !has_data_prefix(trim_start_spec(#[trigger] ls[j])),
        decreases lines@.len() - i,
    {
        if data_payload(lines[i].as_str()).is_some() {
            assert(has_data_prefix(trim_start_spec(ls[i as int])));
            return true;
        }
        i = i + 1;
    }
    false
}

fn malform_sse_lines(lines: &Vec<String>) -> (r: Vec<u8>)
    ensures
        r@ == malform_events_spec(events_spec(strings_view(lines@))),
{
    let ghost ls = strings_view(lines@);
    let mut events: Vec<SseEvent> = Vec::new();
    let mut mutated = false;
    let mut seen_done = false;
    let mut i: usize = 0;
    assert(ls.take(0) =~= Seq::<Seq<char>>::empty());
    assert(corrupted_events(Seq::<SseEventV>::empty()) =~= Seq::<SseEventV>::empty());
    while i < lines.len()
        invariant
            ls == strings_view(lines@),
            i <= lines@.len(),
            events_view(events@) == corrupted_events(events_spec(ls.take(i as int))),
            mutated == any_event_corrupted(events_spec(ls.take(i as int))),
            seen_done == has_done(corrupted_events(events_spec(ls.take(i as int)))),
        decreases lines@.len() - i,
    {
        let ghost prev = events_spec(ls.take(i as int));
        assert(ls.take(i as int + 1).drop_last() =~= ls.take(i as int));
        assert(ls.take(i as int + 1).last() == lines@[i as int]@);
        match line_event(lines[i].as_str()) {
            Some(e) => {
                proof {
                    lemma_push_event(prev, e@);
                }
                let ghost before = events@;
                let (e2, changed) = corrupt_event(e);
                let is_done = match e2 {
                    SseEvent::Done => true,
                    _ => false,
                };
                events.push(e2);
                assert(events_view(events@) =~= events_view(before).push(e2@));
                mutated = mutated || changed;
                seen_done = seen_done || is_done;
            },
            None => {},
        }
        i = i + 1;
    }
    assert(ls.take(lines@.len() as int) =~= ls);
    if mutated {
        if !seen_done {
            let ghost before = events@;
            events.push(SseEvent::Done);
            assert(events_view(events@) =~= events_view(before).push(SseEventV::Done));
        }
        render_sse_events(&events)
    } else {
        synthetic_sse()
    }
}

// ---------------------------------------------------------------------------
// What every corrupted SSE body carries
// ---------------------------------------------------------------------------

/// A tool call whose `function.arguments` is the malformed text.
pub open spec fn call_is_malformed(t: JsonV) -> bool {
    get_spec(t, "function"@) matches Some(f) && get_spec(f, "arguments"@) == Some(malformed_arguments_v())
}

/// A message or delta whose `tool_calls` hold a malformed call.
pub open spec fn holds_malformed_call(m: JsonV) -> bool {
    match get_spec(m, "tool_calls"@) {
        Some(JsonV::Array(cs)) => exists|k: int| 0 <= k < cs.len() && call_is_malformed(#[trigger] cs[k]),
        _ => false,
    }
}

/// A streamed choice whose delta or message holds a malformed call.
pub open spec fn choice_is_malformed(c: JsonV) -> bool {
    ||| get_spec(c, "delta"@) matches Some(d) && holds_malformed_call(d)
    ||| get_spec(c, "message"@) matches Some(m) && holds_malformed_call(m)
}

/// A chunk with a choice that holds a malformed call.
pub open spec fn chunk_is_malformed(v: JsonV) -> bool {
    match get_spec(v, "choices"@) {
        Some(JsonV::Array(chs)) => exists|i: int| 0 <= i < chs.len() && choice_is_malformed(#[trigger] chs[i]),
        _ => false,
    }
}

/// The events an SSE body becomes: its corrupted events with `[DONE]`
/// ensured, or the synthetic stream.
pub open spec fn sse_outcome_events(evs: Seq<SseEventV>) -> Seq<SseEventV> {
    if any_event_corrupted(evs) {
        ensure_done_spec(corrupted_events(evs))
    } else {
        synthetic_sse_events()
    }
}

proof fn lemma_corrupted_message_malformed(x: JsonV)
    requires
        corrupt_message_calls_spec(x).1,
    ensures
        holds_malformed_call(corrupt_message_calls_spec(x).0),
{
    let es = x->Object_0;
    let calls = get_spec(x, "tool_calls"@)->0->Array_0;
    let k = choose|k: int| 0 <= k < calls.len() && (#[trigger] corrupt_call_spec(calls[k])).1;
    reveal_strlit("id");
    reveal_strlit("function");
    assert("id"@.len() == 2 && "function"@.len() == 8);
    law_corrupted_call_arguments(calls[k], "id"@);
    lemma_get_set(es, "tool_calls"@, JsonV::Array(corrupt_calls_spec(calls)), "tool_calls"@);
    let out = corrupt_calls_spec(calls);
    let r = corrupt_message_calls_spec(x).0;
    assert(r == JsonV::Object(set_spec(es, "tool_calls"@, JsonV::Array(out))));
    assert(get_spec(r, "tool_calls"@) == Some(JsonV::Array(out)));
    assert(out[k] == corrupt_call_spec(calls[k]).0);
    assert(call_is_malformed(out[k]));
    assert(0 <= k < out.len());
    assert(exists|j: int| 0 <= j < out.len() && call_is_malformed(#[trigger] out[j]));
    assert(get_spec(r, "tool_calls"@) matches Some(JsonV::Array(cs)) && cs == out);
    assert(holds_malformed_call(r)) by {
        assert(get_spec(r, "tool_calls"@) is Some);
    }
}

proof fn lemma_corrupted_choice_malformed(c: JsonV)
    requires
        corrupt_chunk_choice_spec(c).1,
    ensures
        choice_is_malformed(corrupt_chunk_choice_spec(c).0),
{
    reveal_strlit("delta");
    reveal_strlit("message");
    assert("delta"@.len() == 5 && "message"@.len() == 7);
    let es = c->Object_0;
    let d = corrupt_field_calls_spec(es, "delta"@);
    let m = corrupt_field_calls_spec(d.0, "message"@);
    if m.1 {
        let x = get_spec(JsonV::Object(d.0), "message"@)->0;
        lemma_corrupted_message_malformed(x);
        lemma_get_set(d.0, "message"@, corrupt_message_calls_spec(x).0, "message"@);
    } else {
        let x = get_spec(JsonV::Object(es), "delta"@)->0;
        lemma_corrupted_message_malformed(x);
        lemma_get_set(es, "delta"@, corrupt_message_calls_spec(x).0, "delta"@);
        match get_spec(JsonV::Object(d.0), "message"@) {
            Some(y) => {
                lemma_get_set(d.0, "message"@, corrupt_message_calls_spec(y).0, "delta"@);
            },
            None => {},
        }
    }
}

proof fn lemma_corrupted_chunk_malformed(v: JsonV)
    requires
        corrupt_sse_chunk_spec(v).1,
    ensures
        chunk_is_malformed(corrupt_sse_chunk_spec(v).0),
{
    let es = v->Object_0;
    let chs = get_spec(v, "choices"@)->0->Array_0;
    let i = choose|i: int| 0 <= i < chs.len() && (#[trigger] corrupt_chunk_choice_spec(chs[i])).1;
    lemma_corrupted_choice_malformed(chs[i]);
    lemma_get_set(es, "choices"@, JsonV::Array(corrupt_chunk_choices_spec(chs)), "choices"@);
    let out = corrupt_chunk_choices_spec(chs);
    let r = corrupt_sse_chunk_spec(v).0;
    assert(choice_is_malformed(out[i]));
    assert(exists|j: int| 0 <= j < out.len() && choice_is_malformed(#[trigger] out[j]));
    assert(get_spec(r, "choices"@) matches Some(JsonV::Array(cs)) && cs == out);
}

proof fn lemma_synthetic_chunk_malformed()
    ensures
        chunk_is_malformed(synthetic_chunk_v()),
{
    reveal_strlit("id");
    reveal_strlit("object");
    reveal_strlit("choices");
    reveal_strlit("index");
    reveal_strlit("delta");
    reveal_strlit("finish_reason");
    reveal_strlit("role");
    reveal_strlit("content");
    reveal_strlit("tool_calls");
    reveal_strlit("type");
    reveal_strlit("function");
    reveal_strlit("name");
    reveal_strlit("arguments");
    assert("id"@.len() == 2 && "object"@.len() == 6 && "choices"@.len() == 7 && "index"@.len() == 5 && "delta"@.len() == 5 && "finish_reason"@.len() == 13 && "role"@.len() == 4 && "content"@.len() == 7 && "tool_calls"@.len() == 10 && "type"@.len() == 4 && "function"@.len() == 8 && "name"@.len() == 4 && "arguments"@.len() == 9);
    assert("index"@ != "delta"@) by {
        assert("index"@[0] != "delta"@[0]);
    }
    reveal_with_fuel(key_index, 5);
    let f = synthetic_function_v();
    assert(get_spec(f, "arguments"@) == Some(malformed_arguments_v()));
    let t = synthetic_chunk_call_v();
    assert(get_spec(t, "function"@) == Some(f));
    assert(call_is_malformed(t));
    let d = synthetic_delta_v();
    assert(get_spec(d, "tool_calls"@) == Some(JsonV::Array(seq![t])));
    assert(call_is_malformed(seq![t][0]));
    assert(exists|j: int| 0 <= j < seq![t].len() && call_is_malformed(#[trigger] seq![t][j]));
    assert(get_spec(d, "tool_calls"@) matches Some(JsonV::Array(cs)) && cs == seq![t]);
    assert(holds_malformed_call(d));
    let c = synthetic_chunk_choice_v();
    assert(get_spec(c, "delta"@) == Some(d));
    assert(choice_is_malformed(c));
    let v = synthetic_chunk_v();
    assert(get_spec(v, "choices"@) == Some(JsonV::Array(seq![c])));
    assert(choice_is_malformed(seq![c][0]));
    assert(exists|j: int| 0 <= j < seq![c].len() && choice_is_malformed(#[trigger] seq![c][j]));
    assert(get_spec(v, "choices"@) matches Some(JsonV::Array(cs)) && cs == seq![c]);
}

/// Every SSE body the mutator answers with ends its events with a `[DONE]`
/// event and carries a chunk with a malformed tool call, whether its own
/// chunks were corrupted or the synthetic stream replaced it.
pub proof fn law_sse_outcome_done_and_malformed(evs: Seq<SseEventV>)
    ensures
        malform_events_spec(evs) == render_spec(sse_outcome_events(evs)),
        has_done(sse_outcome_events(evs)),
        exists|i: int|
            0 <= i < sse_outcome_events(evs).len() && (#[trigger] sse_outcome_events(evs)[i] matches SseEventV::Json(v)
                && chunk_is_malformed(v)),
{
    let out = sse_outcome_events(evs);
    if any_event_corrupted(evs) {
        let c = corrupted_events(evs);
        let i = choose|i: int| 0 <= i < evs.len() && (#[trigger] corrupt_event_spec(evs[i])).1;
        let v = evs[i]->Json_0;
        lemma_corrupted_chunk_malformed(v);
        assert(c[i] == SseEventV::Json(corrupt_sse_chunk_spec(v).0));
        if has_done(c) {
            assert(out[i] == c[i]);
        } else {
            assert(out[i] == c[i]);
            assert(out[c.len() as int] is Done);
        }
    } else {
        lemma_synthetic_chunk_malformed();
        assert(out[1] is Done);
        assert(out[0] == SseEventV::Json(synthetic_chunk_v()));
    }
}

/// An SSE body the mutator answers (it is not JSON and has a `data:` line)
/// becomes the rendering of events that hold a `[DONE]` event and a chunk
/// with a malformed tool call.
pub proof fn law_sse_body_done_and_malformed(body: Seq<u8>)
    requires
        spec_parse_json(body) is None,
        has_data_line(lines_spec(spec_utf8_lossy(body))),
    ensures
        ({
            let evs = sse_outcome_events(events_spec(lines_spec(spec_utf8_lossy(body))));
            &&& malform_spec(body) == Some(render_spec(evs))
            &&& has_done(evs)
            &&& exists|i: int| 0 <= i < evs.len() && (#[trigger] evs[i] matches SseEventV::Json(v) && chunk_is_malformed(v))
            &&& contains_bytes(render_spec(evs), encode_utf8("data: [DONE]\n\n"@))
        }),
{
    let evs = sse_outcome_events(events_spec(lines_spec(spec_utf8_lossy(body))));
    law_sse_outcome_done_and_malformed(events_spec(lines_spec(spec_utf8_lossy(body))));
    let i = choose|i: int| 0 <= i < evs.len() && (#[trigger] evs[i]) is Done;
    lemma_render_contains_event(evs, i);
}

/// `needle` occurs in `hay` as a contiguous run of bytes.
pub open spec fn contains_bytes(hay: Seq<u8>, needle: Seq<u8>) -> bool {
    exists|p: int| 0 <= p && p + needle.len() <= hay.len() && #[trigger] hay.subrange(p, p + needle.len()) == needle
}

proof fn lemma_render_append(x: Seq<SseEventV>, y: Seq<SseEventV>)
    ensures
        render_spec(x + y) == render_spec(x) + render_spec(y),
    decreases y.len(),
{
    if y.len() == 0 {
        assert(x + y =~= x);
        assert(render_spec(x) + render_spec(y) =~= render_spec(x));
    } else {
        lemma_render_append(x, y.drop_last());
        assert((x + y).drop_last() =~= x + y.drop_last());
        assert((x + y).last() == y.last());
        assert(render_spec(x) + (render_spec(y.drop_last()) + event_bytes(y.last())) =~= (render_spec(x)
            + render_spec(y.drop_last())) + event_bytes(y.last()));
    }
}

/// The rendering of events holds the bytes of each of its events.
proof fn lemma_render_contains_event(evs: Seq<SseEventV>, i: int)
    requires
        0 <= i < evs.len(),
    ensures
        contains_bytes(render_spec(evs), event_bytes(evs[i])),
{
    let pre = evs.take(i);
    let post = evs.skip(i + 1);
    assert(evs =~= pre.push(evs[i]) + post);
    lemma_render_append(pre.push(evs[i]), post);
    assert(render_spec(pre.push(evs[i])) == render_spec(pre) + event_bytes(evs[i])) by {
        assert(pre.push(evs[i]).drop_last() =~= pre);
    }
    let hay = render_spec(evs);
    let e = event_bytes(evs[i]);
    let p = render_spec(pre).len() as int;
    assert(hay =~= render_spec(pre) + e + render_spec(post));
    assert(hay.subrange(p, p + e.len()) =~= e);
}

// ---------------------------------------------------------------------------
// A well-formed completion: only the arguments change
// ---------------------------------------------------------------------------

/// Two objects that agree on every key but `key`.
pub open spec fn same_except(a: JsonV, b: JsonV, key: Seq<char>) -> bool {
    &&& a is Object
    &&& b is Object
    &&& forall|k: Seq<char>| k != key ==> #[trigger] get_spec(b, k) == get_spec(a, k)
}

/// A tool call object whose `function` object has an `arguments` key.
pub open spec fn call_has_arguments(t: JsonV) -> bool {
    &&& t is Object
    &&& match get_spec(t, "function"@) {
        Some(JsonV::Object(fes)) => key_index(fes, "arguments"@) >= 0,
        _ => false,
    }
}

/// A message object with a non-empty `tool_calls` array of such calls.
pub open spec fn message_has_arguments(m: JsonV) -> bool {
    &&& m is Object
    &&& match get_spec(m, "tool_calls"@) {
        Some(JsonV::Array(cs)) => cs.len() > 0 && forall|k: int| 0 <= k < cs.len() ==> call_has_arguments(#[trigger] cs[k]),
        _ => false,
    }
}

/// A choice object whose `message` is such a message.
pub open spec fn choice_has_arguments(c: JsonV) -> bool {
    &&& c is Object
    &&& match get_spec(c, "message"@) {
        Some(m) => message_has_arguments(m),
        None => false,
    }
}

/// A completion object whose non-empty `choices` are all such choices.
pub open spec fn completion_has_arguments(v: JsonV) -> bool {
    &&& v is Object
    &&& match get_spec(v, "choices"@) {
        Some(JsonV::Array(chs)) => chs.len() > 0 && forall|i: int| 0 <= i < chs.len() ==> choice_has_arguments(#[trigger] chs[i]),
        _ => false,
    }
}

/// `t2` is `t` with only `function.arguments` set to the malformed text.
pub open spec fn call_args_replaced(t: JsonV, t2: JsonV) -> bool {
    &&& same_except(t, t2, "function"@)
    &&& match (get_spec(t, "function"@), get_spec(t2, "function"@)) {
        (Some(f), Some(f2)) => same_except(f, f2, "arguments"@) && get_spec(f2, "arguments"@) == Some(malformed_arguments_v()),
        _ => false,
    }
}

pub open spec fn message_args_replaced(m: JsonV, m2: JsonV) -> bool {
    &&& same_except(m, m2, "tool_calls"@)
    &&& match (get_spec(m, "tool_calls"@), get_spec(m2, "tool_calls"@)) {
        (Some(JsonV::Array(cs)), Some(JsonV::Array(cs2))) => cs2.len() == cs.len() && forall|k: int|
            0 <= k < cs.len() ==> call_args_replaced(#[trigger] cs[k], cs2[k]),
        _ => false,
    }
}

pub open spec fn choice_args_replaced(c: JsonV, c2: JsonV) -> bool {
    &&& same_except(c, c2, "message"@)
    &&& match (get_spec(c, "message"@), get_spec(c2, "message"@)) {
        (Some(m), Some(m2)) => message_args_replaced(m, m2),
        _ => false,
    }
}

pub open spec fn completion_args_replaced(v: JsonV, v2: JsonV) -> bool {
    &&& same_except(v, v2, "choices"@)
    &&& match (get_spec(v, "choices"@), get_spec(v2, "choices"@)) {
        (Some(JsonV::Array(chs)), Some(JsonV::Array(chs2))) => chs2.len() == chs.len() && forall|i: int|
            0 <= i < chs.len() ==> choice_args_replaced(#[trigger] chs[i], chs2[i]),
        _ => false,
    }
}

proof fn lemma_set_same_except(es: Seq<(Seq<char>, JsonV)>, key: Seq<char>, val: JsonV)
    ensures
        same_except(JsonV::Object(es), JsonV::Object(set_spec(es, key, val)), key),
        get_spec(JsonV::Object(set_spec(es, key, val)), key) == Some(val),
{
    lemma_get_set(es, key, val, key);
    assert forall|k: Seq<char>| k != key implies #[trigger] get_spec(JsonV::Object(set_spec(es, key, val)), k)
        == get_spec(JsonV::Object(es), k) by {
        lemma_get_set(es, key, val, k);
    }
}

proof fn lemma_call_args_replaced(t: JsonV)
    requires
        call_has_arguments(t),
    ensures
        corrupt_call_spec(t).1,
        call_args_replaced(t, corrupt_call_spec(t).0),
{
    let es = t->Object_0;
    let fes = get_spec(t, "function"@)->0->Object_0;
    let nf = JsonV::Object(set_spec(fes, "arguments"@, malformed_arguments_v()));
    lemma_set_same_except(fes, "arguments"@, malformed_arguments_v());
    lemma_set_same_except(es, "function"@, nf);
}

proof fn lemma_message_args_replaced(m: JsonV)
    requires
        message_has_arguments(m),
    ensures
        corrupt_message_calls_spec(m).1,
        message_args_replaced(m, corrupt_message_calls_spec(m).0),
{
    let es = m->Object_0;
    let cs = get_spec(m, "tool_calls"@)->0->Array_0;
    let cs2 = corrupt_calls_spec(cs);
    assert forall|k: int| 0 <= k < cs.len() implies call_args_replaced(#[trigger] cs[k], cs2[k]) by {
        lemma_call_args_replaced(cs[k]);
    }
    lemma_call_args_replaced(cs[0]);
    assert(any_call_corrupted(cs));
    lemma_set_same_except(es, "tool_calls"@, JsonV::Array(cs2));
}

proof fn lemma_choice_args_replaced(c: JsonV)
    requires
        choice_has_arguments(c),
    ensures
        corrupt_choice_spec(c).1,
        choice_args_replaced(c, corrupt_choice_spec(c).0),
{
    let es = c->Object_0;
    let m = get_spec(c, "message"@)->0;
    lemma_message_args_replaced(m);
    assert(has_calls_spec(m));
    lemma_set_same_except(es, "message"@, corrupt_message_calls_spec(m).0);
}

/// In a completion whose every choice has a message with tool calls whose
/// functions have `arguments`, the mutator changes exactly those arguments
/// into the malformed text and nothing else.
pub proof fn law_only_arguments_change(v: JsonV)
    requires
        completion_has_arguments(v),
    ensures
        corrupt_completion_spec(v).1,
        completion_args_replaced(v, corrupt_completion_spec(v).0),
{
    let es = v->Object_0;
    let chs = get_spec(v, "choices"@)->0->Array_0;
    let chs2 = corrupt_choices_spec(chs);
    assert forall|i: int| 0 <= i < chs.len() implies choice_args_replaced(#[trigger] chs[i], chs2[i]) by {
        lemma_choice_args_replaced(chs[i]);
    }
    lemma_choice_args_replaced(chs[0]);
    assert(any_choice_corrupted(chs));
    lemma_set_same_except(es, "choices"@, JsonV::Array(chs2));
}

/// A JSON body holding such a completion is answered with the serialized
/// completion in which only the tool-call arguments changed.
pub proof fn law_json_body_only_arguments_change(body: Seq<u8>)
    requires
        spec_parse_json(body) matches Some(p) && completion_has_arguments(p@),
    ensures
        ({
            let v = spec_parse_json(body)->0@;
            let w = corrupt_completion_spec(v).0;
            &&& malform_spec(body) == Some(spec_json_bytes(w))
            &&& completion_args_replaced(v, w)
        }),
{
    law_only_arguments_change(spec_parse_json(body)->0@);
}

/// Corrupt the tool-call arguments of an OpenAI-compatible chat response
/// into invalid JSON: a `chat.completion` JSON body, or an SSE stream of
/// `chat.completion.chunk` events. JSON in which nothing could be corrupted
/// is answered with the synthetic completion. `None` only when the body is
/// neither JSON nor SSE.
pub fn malform_tool_call_json(body: &[u8]) -> (r: Option<Vec<u8>>)
    ensures
        match r {
            Some(b) => malform_spec(body@) == Some(b@),
            None => malform_spec(body@) is None,
        },
        r is None <==> (spec_parse_json(body@) is None && !has_data_line(
            lines_spec(spec_utf8_lossy(body@)),
        )),
{
    match Json::parse(body) {
        Some(value) => {
            let (v2, changed) = corrupt_completion(value);
            if changed {
                Some(v2.to_bytes())
            } else {
                Some(synthetic_completion().to_bytes())
            }
        },
        None => {
            let text = utf8_lossy(body);
            let lines = split_lines(text.as_str());
            if has_data_line_exec(&lines) {
                Some(malform_sse_lines(&lines))
            } else {
                None
            }
        },
    }
}

} // verus!
