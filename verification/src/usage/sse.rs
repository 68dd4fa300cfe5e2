//! Incremental, bounded usage extraction from `text/event-stream` bodies,
//! and the decisions of the stream tap that meters a streamed response.

use vstd::prelude::*;
use vstd::utf8::*;

use crate::budget::{cost_spec, law_cost_rounds_up, BudgetTracker, MicroUsd, Price};
use crate::json::{get_spec, spec_parse_json_str, Json, JsonV};
use crate::openai::TokenUsage;
use crate::text::{copy_range, append_bytes, data_payload, data_payload_spec, str_eq, utf8_str};
use crate::usage::json::usage_object_with;
use crate::usage::{
    token_usage_spec, usage_fields_from_json, usage_fields_spec, UsageOutcome,
    UsageUnavailableReason,
};

verus! {

/// Longest line the parser buffers before declaring the stream malformed.
pub const DEFAULT_MAX_EVENT_BYTES: usize = 64 * 1024;

/// Parser state: the unfinished line, the last usage seen, and whether the
/// stream was found malformed.
pub struct SseParserState {
    pub buffer: Seq<u8>,
    pub usage: Option<TokenUsage>,
    pub malformed: bool,
}

/// Effect of one complete line on the usage seen so far: the new usage,
/// and whether the line makes the stream malformed.
pub open spec fn line_step(usage: Option<TokenUsage>, line: Seq<u8>) -> (Option<TokenUsage>, bool) {
    let l = if line.len() > 0 && line.last() == 13u8 {
        line.drop_last()
    } else {
        line
    };
    if !valid_utf8(l) {
        (usage, true)
    } else {
        match data_payload_spec(decode_utf8(l)) {
            None => (usage, false),
            Some(p) => if p.len() == 0 || p == "[DONE]"@ {
                (usage, false)
            } else {
                match spec_parse_json_str(p) {
                    None => (usage, true),
                    Some(v) => match get_spec(v@, "usage"@) {
                        None => (usage, false),
                        Some(JsonV::Null) => (usage, false),
                        Some(u) => match usage_fields_spec(u) {
                            None => (usage, true),
                            Some(f) => match token_usage_spec(f) {
                                Some(t) => (Some(t), false),
                                None => (None, true),
                            },
                        },
                    },
                }
            },
        }
    }
}

/// Index of the first line feed, or -1.
pub open spec fn first_newline(b: Seq<u8>) -> int
    decreases b.len(),
{
    if b.len() == 0 {
        -1
    } else if first_newline(b.drop_last()) >= 0 {
        first_newline(b.drop_last())
    } else if b.last() == 10u8 {
        b.len() - 1
    } else {
        -1
    }
}

pub proof fn lemma_first_newline(b: Seq<u8>)
    ensures
        -1 <= first_newline(b) < b.len(),
        first_newline(b) >= 0 ==> b[first_newline(b)] == 10u8,
        forall|i: int| 0 <= i < b.len() && (first_newline(b) == -1 || i < first_newline(b)) ==> b[i] != 10u8,
    decreases b.len(),
{
    if b.len() > 0 {
        let d = b.drop_last();
        lemma_first_newline(d);
        assert forall|i: int| 0 <= i < b.len() - 1 implies #[trigger] d[i] == b[i] by {}
        let k = first_newline(b);
        assert forall|i: int| 0 <= i < b.len() && (k == -1 || i < k) implies b[i] != 10u8 by {
            if i < d.len() {
                assert(d[i] == b[i]);
            }
        }
    }
}

proof fn lemma_first_newline_is(b: Seq<u8>, k: int)
    requires
        0 <= k < b.len(),
        b[k] == 10u8,
        forall|i: int| 0 <= i < k ==> b[i] != 10u8,
    ensures
        first_newline(b) == k,
{
    lemma_first_newline(b);
}

/// Consume every complete line of `buf`, stopping at the first malformed one.
pub open spec fn drain_spec(buf: Seq<u8>, usage: Option<TokenUsage>) -> SseParserState
    decreases buf.len(),
{
    let p = first_newline(buf);
    if p < 0 {
        SseParserState { buffer: buf, usage, malformed: false }
    } else {
        proof {
            lemma_first_newline(buf);
        }
        let (u, m) = line_step(usage, buf.subrange(0, p));
        let rest = buf.subrange(p + 1, buf.len() as int);
        if m {
            SseParserState { buffer: rest, usage: u, malformed: true }
        } else {
            drain_spec(rest, u)
        }
    }
}

/// State after pushing `chunk`.
pub open spec fn push_spec(st: SseParserState, chunk: Seq<u8>, max: nat) -> SseParserState {
    if st.malformed {
        st
    } else {
        let buf = st.buffer + chunk;
        if buf.len() > max && !buf.contains(10u8) {
            SseParserState { buffer: buf, usage: st.usage, malformed: true }
        } else {
            drain_spec(buf, st.usage)
        }
    }
}

/// Outcome and state after the stream ends.
pub open spec fn finish_spec(st: SseParserState, max: nat) -> (UsageOutcome, SseParserState) {
    if st.malformed || st.buffer.len() > max {
        (UsageOutcome::Unavailable(UsageUnavailableReason::MalformedSse), st)
    } else {
        let (u, m) = if st.buffer.len() > 0 {
            line_step(st.usage, st.buffer)
        } else {
            (st.usage, false)
        };
        let st2 = SseParserState { buffer: st.buffer, usage: u, malformed: m };
        if m {
            (UsageOutcome::Unavailable(UsageUnavailableReason::MalformedSse), st2)
        } else {
            (
                match u {
                    Some(t) => UsageOutcome::Metered(t),
                    None => UsageOutcome::Unavailable(UsageUnavailableReason::MissingUsage),
                },
                st2,
            )
        }
    }
}

/// Usage effect of one complete line.
pub fn parse_usage_line(usage: Option<TokenUsage>, line: &[u8]) -> (r: (Option<TokenUsage>, bool))
    ensures
        r == line_step(usage, line@),
{
    let n = line.len();
    let l = if n > 0 && line[n - 1] == 13u8 {
        copy_range(line, 0, n - 1)
    } else {
        copy_range(line, 0, n)
    };
    assert(line@.subrange(0, n as int) =~= line@);
    assert(n > 0 ==> line@.subrange(0, n - 1) =~= line@.drop_last());
    let text = match utf8_str(l.as_slice()) {
        Some(t) => t,
        None => return (usage, true),
    };
    let payload = match data_payload(text) {
        Some(p) => p,
        None => return (usage, false),
    };
    if payload.is_empty() || str_eq(payload, "[DONE]") {
        return (usage, false);
    }
    let value = match Json::parse_str(payload) {
        Some(v) => v,
        None => return (usage, true),
    };
    let u = match value.get("usage") {
        Some(u) => u,
        None => return (usage, false),
    };
    if u.is_null() {
        return (usage, false);
    }
    let fields = match usage_fields_from_json(u) {
        Some(f) => f,
        None => return (usage, true),
    };
    match fields.to_token_usage() {
        Ok(t) => (Some(t), false),
        Err(_) => (None, true),
    }
}

fn find_newline(buf: &Vec<u8>, from: usize) -> (r: Option<usize>)
    requires
        from <= buf@.len(),
    ensures
        match r {
            Some(p) => from <= p < buf@.len() && p - from == first_newline(
                buf@.subrange(from as int, buf@.len() as int),
            ),
            None => first_newline(buf@.subrange(from as int, buf@.len() as int)) == -1,
        },
{
    let ghost s = buf@.subrange(from as int, buf@.len() as int);
    let mut i = from;
    while i < buf.len()
        invariant
            from <= i <= buf@.len(),
            s == buf@.subrange(from as int, buf@.len() as int),
            forall|k: int| from <= k < i ==> buf@[k] != 10u8,
        decreases buf@.len() - i,
    {
        if buf[i] == 10u8 {
            proof {
                assert forall|k: int| 0 <= k < i - from implies s[k] != 10u8 by {
                    assert(s[k] == buf@[k + from]);
                }
                lemma_first_newline_is(s, i - from);
            }
            return Some(i);
        }
        i = i + 1;
    }
    proof {
        lemma_first_newline(s);
        if first_newline(s) >= 0 {
            assert(s[first_newline(s)] == buf@[first_newline(s) + from]);
        }
    }
    None
}

fn contains_newline(buf: &Vec<u8>) -> (r: bool)
    ensures
        r == buf@.contains(10u8),
{
    let mut i: usize = 0;
    while i < buf.len()
        invariant
            i <= buf@.len(),
            forall|k: int| 0 <= k < i ==> buf@[k] != 10u8,
        decreases buf@.len() - i,
    {
        if buf[i] == 10u8 {
            assert(buf@[i as int] == 10u8);
            return true;
        }
        i = i + 1;
    }
    false
}

/// Incremental usage parser for one event stream.
pub struct SseUsageParser {
    buffer: Vec<u8>,
    max_event_bytes: usize,
    usage: Option<TokenUsage>,
    malformed: bool,
}

impl SseUsageParser {
    pub closed spec fn state(&self) -> SseParserState {
        SseParserState { buffer: self.buffer@, usage: self.usage, malformed: self.malformed }
    }

    pub closed spec fn max_event_bytes_spec(&self) -> nat {
        self.max_event_bytes as nat
    }

    pub fn new(max_event_bytes: usize) -> (p: SseUsageParser)
        ensures
            p.state() == (SseParserState { buffer: Seq::empty(), usage: None, malformed: false }),
            p.max_event_bytes_spec() == max_event_bytes,
    {
        SseUsageParser { buffer: Vec::new(), max_event_bytes, usage: None, malformed: false }
    }

    /// Feed the next chunk of the stream; chunk boundaries may fall anywhere.
    pub fn push(&mut self, chunk: &[u8])
        ensures
            final(self).state() == push_spec(old(self).state(), chunk@, old(self).max_event_bytes_spec()),
            final(self).max_event_bytes_spec() == old(self).max_event_bytes_spec(),
    {
        if self.malformed {
            return;
        }
        append_bytes(&mut self.buffer, chunk);
        if self.buffer.len() > self.max_event_bytes && !contains_newline(&self.buffer) {
            self.malformed = true;
            return;
        }
        let ghost buf = self.buffer@;
        let ghost u0 = self.usage;
        let ghost max0 = self.max_event_bytes;
        let n = self.buffer.len();
        let mut start: usize = 0;
        assert(buf.subrange(0, n as int) =~= buf);
        loop
            invariant_except_break
                max0 == self.max_event_bytes,
                n == self.buffer@.len(),
                buf == self.buffer@,
                start <= n,
                !self.malformed,
                drain_spec(buf, u0) == drain_spec(buf.subrange(start as int, n as int), self.usage),
            ensures
                max0 == self.max_event_bytes,
                n == self.buffer@.len(),
                buf == self.buffer@,
                start <= n,
                drain_spec(buf, u0) == (SseParserState {
                    buffer: buf.subrange(start as int, n as int),
                    usage: self.usage,
                    malformed: self.malformed,
                }),
            decreases n - start,
        {
            match find_newline(&self.buffer, start) {
                None => {
                    break;
                },
                Some(pos) => {
                    let line = copy_range(&self.buffer, start, pos);
                    let ghost rest = buf.subrange(start as int, n as int);
                    proof {
                        assert(rest.subrange(0, pos - start) =~= buf.subrange(start as int, pos as int));
                        assert(rest.subrange(pos - start + 1, rest.len() as int) =~= buf.subrange(
                            pos as int + 1,
                            n as int,
                        ));
                    }
                    let (u, m) = parse_usage_line(self.usage, line.as_slice());
                    self.usage = u;
                    start = pos + 1;
                    if m {
                        self.malformed = true;
                        break;
                    }
                },
            }
        }
        self.buffer = copy_range(&self.buffer, start, n);
    }

    /// Outcome once the stream has ended: the last usage seen, or why none.
    pub fn finish(&mut self) -> (r: UsageOutcome)
        ensures
            (r, final(self).state()) == finish_spec(old(self).state(), old(self).max_event_bytes_spec()),
            final(self).max_event_bytes_spec() == old(self).max_event_bytes_spec(),
    {
        if self.malformed || self.buffer.len() > self.max_event_bytes {
            return UsageOutcome::Unavailable(UsageUnavailableReason::MalformedSse);
        }
        if self.buffer.len() > 0 {
            let (u, m) = parse_usage_line(self.usage, self.buffer.as_slice());
            self.usage = u;
            self.malformed = m;
        }
        if self.malformed {
            return UsageOutcome::Unavailable(UsageUnavailableReason::MalformedSse);
        }
        match self.usage {
            Some(t) => UsageOutcome::Metered(t),
            None => UsageOutcome::Unavailable(UsageUnavailableReason::MissingUsage),
        }
    }
}

impl Default for SseUsageParser {
    fn default() -> (p: SseUsageParser)
        ensures
            p.state() == (SseParserState { buffer: Seq::empty(), usage: None, malformed: false }),
            p.max_event_bytes_spec() == DEFAULT_MAX_EVENT_BYTES,
    {
        SseUsageParser::new(DEFAULT_MAX_EVENT_BYTES)
    }
}

/// No run of bytes without a line feed in `d` is longer than `max`.
pub open spec fn lines_within(d: Seq<u8>, max: nat) -> bool {
    forall|i: int, j: int|
        0 <= i <= j <= d.len() && !(#[trigger] d.subrange(i, j)).contains(10u8) ==> j - i <= max
}

/// Draining `x + y` first drains the lines of `x`, then goes on from what
/// is left of `x` followed by `y`.
proof fn lemma_drain_append(x: Seq<u8>, y: Seq<u8>, u: Option<TokenUsage>)
    ensures
        exists|k: int| 0 <= k <= x.len() && drain_spec(x, u).buffer == x.subrange(k, x.len() as int),
        !drain_spec(x, u).malformed ==> drain_spec(x + y, u) == drain_spec(
            drain_spec(x, u).buffer + y,
            drain_spec(x, u).usage,
        ),
        drain_spec(x, u).malformed ==> drain_spec(x + y, u) == (SseParserState {
            buffer: drain_spec(x, u).buffer + y,
            usage: drain_spec(x, u).usage,
            malformed: true,
        }),
    decreases x.len(),
{
    lemma_first_newline(x);
    let p = first_newline(x);
    let xy = x + y;
    if p < 0 {
        assert(x.subrange(0, x.len() as int) =~= x);
    } else {
        assert forall|i: int| 0 <= i < p implies xy[i] != 10u8 by {
            assert(xy[i] == x[i]);
        }
        lemma_first_newline_is(xy, p);
        assert(xy.subrange(0, p) =~= x.subrange(0, p));
        let rest = x.subrange(p + 1, x.len() as int);
        assert(xy.subrange(p + 1, xy.len() as int) =~= rest + y);
        let (u2, m) = line_step(u, x.subrange(0, p));
        if m {
            assert(rest =~= x.subrange(p + 1, x.len() as int));
        } else {
            lemma_drain_append(rest, y, u2);
            let k = choose|k: int|
                0 <= k <= rest.len() && drain_spec(rest, u2).buffer == rest.subrange(
                    k,
                    rest.len() as int,
                );
            assert(rest.subrange(k, rest.len() as int) =~= x.subrange(p + 1 + k, x.len() as int));
        }
    }
}

/// Feeding a stream in two chunks or in one gives the same outcome, as long
/// as no line is longer than the parser's limit: chunk boundaries may fall
/// anywhere.
pub proof fn law_chunk_boundaries(st: SseParserState, a: Seq<u8>, b: Seq<u8>, max: nat)
    requires
        lines_within(st.buffer + a + b, max),
    ensures
        finish_spec(push_spec(push_spec(st, a, max), b, max), max).0 == finish_spec(
            push_spec(st, a + b, max),
            max,
        ).0,
{
    if !st.malformed {
        let d = st.buffer + a + b;
        let x = st.buffer + a;
        assert(st.buffer + (a + b) =~= d);
        assert(d.subrange(0, x.len() as int) =~= x);
        assert(d.subrange(0, d.len() as int) =~= d);
        lemma_drain_append(x, b, st.usage);
        let s1 = drain_spec(x, st.usage);
        let k = choose|k: int| 0 <= k <= x.len() && s1.buffer == x.subrange(k, x.len() as int);
        assert(d.subrange(k, d.len() as int) =~= s1.buffer + b);
    }
}

/// The concatenation of a stream's chunks.
pub open spec fn concat_chunks(cs: Seq<Seq<u8>>) -> Seq<u8>
    decreases cs.len(),
{
    if cs.len() == 0 {
        Seq::empty()
    } else {
        cs[0] + concat_chunks(cs.drop_first())
    }
}

/// State after pushing each chunk in turn.
pub open spec fn push_all_spec(st: SseParserState, cs: Seq<Seq<u8>>, max: nat) -> SseParserState
    decreases cs.len(),
{
    if cs.len() == 0 {
        st
    } else {
        push_all_spec(push_spec(st, cs[0], max), cs.drop_first(), max)
    }
}

proof fn lemma_lines_within_suffix(d: Seq<u8>, k: int, max: nat)
    requires
        lines_within(d, max),
        0 <= k <= d.len(),
    ensures
        lines_within(d.subrange(k, d.len() as int), max),
{
    let s = d.subrange(k, d.len() as int);
    assert forall|i: int, j: int|
        0 <= i <= j <= s.len() && !(#[trigger] s.subrange(i, j)).contains(10u8) implies j - i <= max by {
        assert(s.subrange(i, j) =~= d.subrange(k + i, k + j));
    }
}

/// After a push, the buffer is what is left of the old buffer and the
/// chunk: a suffix of the two.
proof fn lemma_push_buffer_suffix(st: SseParserState, c: Seq<u8>, max: nat)
    requires
        !st.malformed,
    ensures
        exists|k: int|
            0 <= k <= (st.buffer + c).len() && push_spec(st, c, max).buffer == (st.buffer + c).subrange(
                k,
                (st.buffer + c).len() as int,
            ),
{
    let buf = st.buffer + c;
    if buf.len() > max && !buf.contains(10u8) {
        assert(buf.subrange(0, buf.len() as int) =~= buf);
    } else {
        lemma_drain_append(buf, Seq::empty(), st.usage);
    }
}

/// Feeding a stream in any number of chunks (at least one) or in one gives
/// the same outcome, as long as no line is longer than the parser's limit.
pub proof fn law_chunk_boundaries_many(st: SseParserState, cs: Seq<Seq<u8>>, max: nat)
    requires
        cs.len() >= 1,
        lines_within(st.buffer + concat_chunks(cs), max),
    ensures
        finish_spec(push_all_spec(st, cs, max), max).0 == finish_spec(
            push_spec(st, concat_chunks(cs), max),
            max,
        ).0,
    decreases cs.len(),
{
    let c0 = cs[0];
    let rest = cs.drop_first();
    if cs.len() == 1 {
        assert(concat_chunks(rest) =~= Seq::<u8>::empty());
        assert(concat_chunks(cs) =~= c0);
        assert(push_all_spec(push_spec(st, c0, max), rest, max) == push_spec(st, c0, max));
    } else if st.malformed {
        lemma_push_all_malformed(st, cs, max);
    } else {
        let st1 = push_spec(st, c0, max);
        let tail = concat_chunks(rest);
        let x = st.buffer + c0;
        let d = x + tail;
        assert(st.buffer + concat_chunks(cs) =~= d);
        lemma_push_buffer_suffix(st, c0, max);
        let k = choose|k: int| 0 <= k <= x.len() && st1.buffer == x.subrange(k, x.len() as int);
        lemma_lines_within_suffix(d, k, max);
        assert(d.subrange(k, d.len() as int) =~= st1.buffer + tail);
        if st1.malformed {
            lemma_push_all_malformed(st1, rest, max);
        } else {
            law_chunk_boundaries_many(st1, rest, max);
        }
        assert(st.buffer + c0 + tail =~= d);
        law_chunk_boundaries(st, c0, tail, max);
        assert(c0 + tail == concat_chunks(cs));
    }
}

proof fn lemma_push_all_malformed(st: SseParserState, cs: Seq<Seq<u8>>, max: nat)
    requires
        st.malformed,
    ensures
        push_all_spec(st, cs, max) == st,
    decreases cs.len(),
{
    if cs.len() > 0 {
        lemma_push_all_malformed(st, cs.drop_first(), max);
    }
}

/// A line that carries a present, non-null `usage` member in a JSON
/// `data:` payload.
pub open spec fn line_has_usage(line: Seq<u8>) -> bool {
    let l = if line.len() > 0 && line.last() == 13u8 {
        line.drop_last()
    } else {
        line
    };
    &&& valid_utf8(l)
    &&& data_payload_spec(decode_utf8(l)) matches Some(p)
    &&& p.len() > 0
    &&& p != "[DONE]"@
    &&& spec_parse_json_str(p) matches Some(v)
    &&& get_spec(v@, "usage"@) matches Some(u)
    &&& u != JsonV::Null
}

/// The lines of a stream: split at each line feed, the last (possibly
/// empty) piece included.
pub open spec fn stream_lines(d: Seq<u8>) -> Seq<Seq<u8>>
    decreases d.len(),
{
    let p = first_newline(d);
    if p < 0 {
        seq![d]
    } else {
        proof {
            lemma_first_newline(d);
        }
        seq![d.subrange(0, p)] + stream_lines(d.subrange(p + 1, d.len() as int))
    }
}

proof fn lemma_drain_no_usage(buf: Seq<u8>)
    requires
        forall|i: int| 0 <= i < stream_lines(buf).len() ==> !line_has_usage(#[trigger] stream_lines(buf)[i]),
    ensures
        drain_spec(buf, None).usage is None,
        !drain_spec(buf, None).malformed ==> stream_lines(drain_spec(buf, None).buffer) == seq![drain_spec(buf, None).buffer],
        !drain_spec(buf, None).malformed ==> !line_has_usage(drain_spec(buf, None).buffer),
    decreases buf.len(),
{
    lemma_first_newline(buf);
    let p = first_newline(buf);
    if p < 0 {
        assert(stream_lines(buf)[0] == buf);
    } else {
        let line = buf.subrange(0, p);
        let rest = buf.subrange(p + 1, buf.len() as int);
        assert(stream_lines(buf)[0] == line);
        assert(!line_has_usage(line));
        assert forall|i: int| 0 <= i < stream_lines(rest).len() implies !line_has_usage(#[trigger] stream_lines(rest)[i]) by {
            assert(stream_lines(buf)[i + 1] == stream_lines(rest)[i]);
        }
        let (u, m) = line_step(None, line);
        assert(u is None);
        if !m {
            lemma_drain_no_usage(rest);
        }
    }
}

/// A stream none of whose lines carries a usage member is never metered:
/// unknown usage is never reported, not even as zero tokens.
pub proof fn law_no_usage_never_metered(d: Seq<u8>, max: nat)
    requires
        forall|i: int| 0 <= i < stream_lines(d).len() ==> !line_has_usage(#[trigger] stream_lines(d)[i]),
    ensures
        !(finish_spec(
            push_spec(SseParserState { buffer: Seq::empty(), usage: None, malformed: false }, d, max),
            max,
        ).0 is Metered),
{
    let st = SseParserState { buffer: Seq::<u8>::empty(), usage: None, malformed: false };
    assert(st.buffer + d =~= d);
    let buf = st.buffer + d;
    if !(buf.len() > max && !buf.contains(10u8)) {
        lemma_drain_no_usage(d);
    }
}

/// No line of the stream carries a usage member.
pub open spec fn no_usage_lines(d: Seq<u8>) -> bool {
    forall|i: int| 0 <= i < stream_lines(d).len() ==> !line_has_usage(#[trigger] stream_lines(d)[i])
}

/// Draining `x` ahead of the rest `y` of a usage-free stream keeps the
/// usage unknown and leaves a line-free remainder that, followed by `y`,
/// is still usage-free.
proof fn lemma_drain_prefix_no_usage(x: Seq<u8>, y: Seq<u8>)
    requires
        no_usage_lines(x + y),
    ensures
        drain_spec(x, None).usage is None,
        !drain_spec(x, None).malformed ==> first_newline(drain_spec(x, None).buffer) < 0,
        !drain_spec(x, None).malformed ==> no_usage_lines(drain_spec(x, None).buffer + y),
    decreases x.len(),
{
    lemma_first_newline(x);
    let p = first_newline(x);
    let xy = x + y;
    if p >= 0 {
        assert forall|i: int| 0 <= i < p implies xy[i] != 10u8 by {
            assert(xy[i] == x[i]);
        }
        lemma_first_newline_is(xy, p);
        let line = x.subrange(0, p);
        let rest = x.subrange(p + 1, x.len() as int);
        assert(xy.subrange(0, p) =~= line);
        assert(xy.subrange(p + 1, xy.len() as int) =~= rest + y);
        assert(stream_lines(xy)[0] == line);
        assert(!line_has_usage(line));
        assert forall|i: int| 0 <= i < stream_lines(rest + y).len() implies !line_has_usage(
            #[trigger] stream_lines(rest + y)[i],
        ) by {
            assert(stream_lines(xy)[i + 1] == stream_lines(rest + y)[i]);
        }
        let (u, m) = line_step(None, line);
        assert(u is None);
        if !m {
            lemma_drain_prefix_no_usage(rest, y);
        }
    }
}

proof fn lemma_push_all_no_usage(st: SseParserState, cs: Seq<Seq<u8>>, max: nat)
    requires
        !st.malformed ==> st.usage is None && first_newline(st.buffer) < 0 && no_usage_lines(
            st.buffer + concat_chunks(cs),
        ),
    ensures
        ({
            let fin = push_all_spec(st, cs, max);
            !fin.malformed ==> fin.usage is None && first_newline(fin.buffer) < 0 && no_usage_lines(fin.buffer)
        }),
    decreases cs.len(),
{
    if cs.len() == 0 {
        assert(st.buffer + concat_chunks(cs) =~= st.buffer);
    } else if st.malformed {
        lemma_push_all_malformed(st, cs, max);
    } else {
        let c0 = cs[0];
        let rest = cs.drop_first();
        let buf = st.buffer + c0;
        assert(st.buffer + concat_chunks(cs) =~= buf + concat_chunks(rest));
        let st1 = push_spec(st, c0, max);
        if !(buf.len() > max && !buf.contains(10u8)) {
            lemma_drain_prefix_no_usage(buf, concat_chunks(rest));
        }
        lemma_push_all_no_usage(st1, rest, max);
    }
}

/// A stream none of whose lines carries a usage member is never metered,
/// however it is cut into chunks and however long its lines are: the
/// outcome is missing or malformed usage, never a count.
pub proof fn law_no_usage_never_metered_chunked(cs: Seq<Seq<u8>>, max: nat)
    requires
        no_usage_lines(concat_chunks(cs)),
    ensures
        !(finish_spec(
            push_all_spec(SseParserState { buffer: Seq::empty(), usage: None, malformed: false }, cs, max),
            max,
        ).0 is Metered),
{
    let st = SseParserState { buffer: Seq::<u8>::empty(), usage: None, malformed: false };
    assert(st.buffer + concat_chunks(cs) =~= concat_chunks(cs));
    lemma_first_newline(st.buffer);
    lemma_push_all_no_usage(st, cs, max);
    let fin = push_all_spec(st, cs, max);
    if !fin.malformed {
        assert(stream_lines(fin.buffer) == seq![fin.buffer]);
        assert(stream_lines(fin.buffer)[0] == fin.buffer);
    }
}

/// A line without its trailing carriage return, if it has one.
pub open spec fn without_cr(line: Seq<u8>) -> Seq<u8> {
    if line.len() > 0 && line.last() == 13u8 {
        line.drop_last()
    } else {
        line
    }
}

/// `line` is a `data:` line whose JSON payload has a `usage` object with
/// the counters `p`, `c`, `t` (and possibly other members).
pub open spec fn usage_data_line(line: Seq<u8>, p: u64, c: u64, t: u64) -> bool {
    &&& valid_utf8(without_cr(line))
    &&& data_payload_spec(decode_utf8(without_cr(line))) matches Some(payload)
    &&& payload.len() > 0
    &&& payload != "[DONE]"@
    &&& spec_parse_json_str(payload) matches Some(x)
    &&& get_spec(x@, "usage"@) matches Some(u)
    &&& usage_object_with(u, p, c, t)
}

/// A usage line whose counters add up sets the usage to exactly those
/// counters, whatever other members the usage object has, and whatever
/// usage was seen before; counters that do not add up make the stream
/// malformed.
pub proof fn law_usage_line_counters(before: Option<TokenUsage>, line: Seq<u8>, p: u64, c: u64, t: u64)
    requires
        usage_data_line(line, p, c, t),
    ensures
        p + c == t ==> line_step(before, line) == (
            Some(TokenUsage { prompt_tokens: p, completion_tokens: c, total_tokens: t }),
            false,
        ),
        p + c != t ==> line_step(before, line).1,
{
}

/// A stream made of one such line and its line feed is metered with
/// exactly the line's counters.
pub proof fn law_usage_line_stream_metered(line: Seq<u8>, p: u64, c: u64, t: u64, max: nat)
    requires
        usage_data_line(line, p, c, t),
        p + c == t,
        !line.contains(10u8),
    ensures
        finish_spec(
            push_spec(SseParserState { buffer: Seq::empty(), usage: None, malformed: false }, line.push(10u8), max),
            max,
        ).0 == UsageOutcome::Metered(TokenUsage { prompt_tokens: p, completion_tokens: c, total_tokens: t }),
{
    let st = SseParserState { buffer: Seq::<u8>::empty(), usage: None, malformed: false };
    let d = line.push(10u8);
    assert(st.buffer + d =~= d);
    assert(d.contains(10u8)) by {
        assert(d[line.len() as int] == 10u8);
    }
    assert forall|i: int| 0 <= i < line.len() implies d[i] != 10u8 by {
        assert(d[i] == line[i]);
        if d[i] == 10u8 {
            assert(line.contains(10u8));
        }
    }
    lemma_first_newline_is(d, line.len() as int);
    assert(d.subrange(0, line.len() as int) =~= line);
    assert(d.subrange(line.len() as int + 1, d.len() as int) =~= Seq::<u8>::empty());
    law_usage_line_counters(None, line, p, c, t);
    lemma_first_newline(Seq::<u8>::empty());
    let tu = TokenUsage { prompt_tokens: p, completion_tokens: c, total_tokens: t };
    assert(first_newline(Seq::<u8>::empty()) == -1);
    assert(drain_spec(Seq::<u8>::empty(), Some(tu)) == (SseParserState {
        buffer: Seq::<u8>::empty(),
        usage: Some(tu),
        malformed: false,
    }));
    assert(drain_spec(d, None) == drain_spec(Seq::<u8>::empty(), Some(tu)));
    assert(push_spec(st, d, max) == drain_spec(d, None));
}

/// The cost a stream's outcome is charged at: its metered usage at the
/// price, where there is a price and the cost fits.
pub open spec fn charge_spec(outcome: UsageOutcome, price: Option<Price>) -> Option<MicroUsd> {
    match outcome {
        UsageOutcome::Metered(t) => match price {
            Some(p) => if cost_spec(p, t.prompt_tokens as nat, t.completion_tokens as nat)
                <= u64::MAX {
                Some(MicroUsd(cost_spec(p, t.prompt_tokens as nat, t.completion_tokens as nat) as u64))
            } else {
                None
            },
            None => None,
        },
        _ => None,
    }
}

/// Metered usage with a price is charged the price of its tokens rounded up
/// to a whole micro-USD, whenever that fits a `u64`; without a price it is
/// not charged.
pub proof fn law_metered_usage_charged(t: TokenUsage, price: Option<Price>)
    ensures
        price is None ==> charge_spec(UsageOutcome::Metered(t), price) is None,
        price matches Some(p) ==> ({
            let exact = t.prompt_tokens * (p.input_per_million.0 as nat) + t.completion_tokens * (
            p.output_per_million.0 as nat);
            match charge_spec(UsageOutcome::Metered(t), price) {
                Some(c) => c.0 * 1_000_000 >= exact && (c.0 == 0 || (c.0 - 1) * 1_000_000 < exact),
                None => exact > u64::MAX * 1_000_000,
            }
        }),
{
    if let Some(p) = price {
        law_cost_rounds_up(p, t.prompt_tokens as nat, t.completion_tokens as nat);
    }
}

/// Usage that is unknown, malformed or interrupted is never charged, not
/// even as zero.
pub proof fn law_unavailable_usage_costs_nothing(reason: UsageUnavailableReason, price: Option<Price>)
    ensures
        charge_spec(UsageOutcome::Unavailable(reason), price) is None,
{
}

/// Observed cost after charging `cost`, saturating.
pub open spec fn after_charge(observed: u64, cost: Option<MicroUsd>) -> int {
    match cost {
        Some(c) => if observed + c.0 > u64::MAX {
            u64::MAX as int
        } else {
            observed + c.0
        },
        None => observed as int,
    }
}

/// The decisions of the tap that meters a streamed response: every chunk
/// feeds the usage parser, and the first of end, error or drop settles the
/// stream once — charging the budget at its end.
pub struct SseUsageTap {
    parser: SseUsageParser,
    price: Option<Price>,
    finished: bool,
}

impl SseUsageTap {
    pub closed spec fn parser_state(&self) -> SseParserState {
        self.parser.state()
    }

    pub closed spec fn max_event_bytes(&self) -> nat {
        self.parser.max_event_bytes_spec()
    }

    pub closed spec fn price_spec(&self) -> Option<Price> {
        self.price
    }

    pub closed spec fn is_finished(&self) -> bool {
        self.finished
    }

    /// A tap charging at `price`.
    pub fn new(price: Price) -> (t: SseUsageTap)
        ensures
            t.parser_state() == (SseParserState { buffer: Seq::empty(), usage: None, malformed: false }),
            t.max_event_bytes() == DEFAULT_MAX_EVENT_BYTES,
            t.price_spec() == Some(price),
            !t.is_finished(),
    {
        SseUsageTap::with_price(Some(price))
    }

    /// A tap charging at `price` where there is one.
    pub fn with_price(price: Option<Price>) -> (t: SseUsageTap)
        ensures
            t.parser_state() == (SseParserState { buffer: Seq::empty(), usage: None, malformed: false }),
            t.max_event_bytes() == DEFAULT_MAX_EVENT_BYTES,
            t.price_spec() == price,
            !t.is_finished(),
    {
        SseUsageTap { parser: SseUsageParser::default(), price, finished: false }
    }

    /// A chunk of the stream passed through.
    pub fn on_chunk(&mut self, chunk: &[u8])
        ensures
            final(self).parser_state() == push_spec(
                old(self).parser_state(),
                chunk@,
                old(self).max_event_bytes(),
            ),
            final(self).max_event_bytes() == old(self).max_event_bytes(),
            final(self).price_spec() == old(self).price_spec(),
            final(self).is_finished() == old(self).is_finished(),
    {
        self.parser.push(chunk);
    }

    /// The stream failed or was dropped before its end: unless already
    /// settled, it settles as interrupted, charging nothing.
    pub fn on_interrupted(&mut self) -> (r: Option<(UsageOutcome, Option<MicroUsd>)>)
        ensures
            final(self).is_finished(),
            final(self).parser_state() == old(self).parser_state(),
            final(self).max_event_bytes() == old(self).max_event_bytes(),
            final(self).price_spec() == old(self).price_spec(),
            r == if old(self).is_finished() {
                None
            } else {
                Some(
                    (
                        UsageOutcome::Unavailable(UsageUnavailableReason::StreamInterrupted),
                        None::<MicroUsd>,
                    ),
                )
            },
    {
        if self.finished {
            return None;
        }
        self.finished = true;
        Some((UsageOutcome::Unavailable(UsageUnavailableReason::StreamInterrupted), None))
    }

    /// The stream ended: unless already settled, its outcome is the
    /// parser's, and its cost is committed to `budget`.
    pub fn on_end(&mut self, budget: &mut BudgetTracker) -> (r: Option<(UsageOutcome, Option<MicroUsd>)>)
        requires
            old(budget).wf(),
        ensures
            final(budget).wf(),
            final(budget).limits_spec() == old(budget).limits_spec(),
            final(budget).calls_reserved_spec() == old(budget).calls_reserved_spec(),
            final(self).is_finished(),
            final(self).max_event_bytes() == old(self).max_event_bytes(),
            final(self).price_spec() == old(self).price_spec(),
            old(self).is_finished() ==> {
                &&& r is None
                &&& final(budget).observed_cost_spec() == old(budget).observed_cost_spec()
                &&& final(self).parser_state() == old(self).parser_state()
            },
            !old(self).is_finished() ==> {
                let (outcome, st) = finish_spec(old(self).parser_state(), old(self).max_event_bytes());
                let cost = charge_spec(outcome, old(self).price_spec());
                &&& r == Some((outcome, cost))
                &&& final(self).parser_state() == st
                &&& final(budget).observed_cost_spec() == after_charge(
                    old(budget).observed_cost_spec(),
                    cost,
                )
            },
    {
        if self.finished {
            return None;
        }
        self.finished = true;
        let outcome = self.parser.finish();
        let cost = match outcome {
            UsageOutcome::Metered(t) => match self.price {
                Some(p) => match p.calculate(&t) {
                    Ok(c) => {
                        budget.commit_cost(c);
                        Some(c)
                    },
                    Err(_) => None,
                },
                None => None,
            },
            _ => None,
        };
        Some((outcome, cost))
    }
}

} // verus!
