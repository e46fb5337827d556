use vstd::prelude::*;
use vstd::string::*;

use crate::json::{as_text, at_key, element, field_of, find_field, member, parse_json, parsed_json, take_field, Json};
use crate::metrics::RawRequestResult;
use crate::text::{
    chars_of, first_in, is_digit, parse_unsigned, parse_unsigned_in, first_index, lemma_first_index, string_of, sub_vec, trim, trim_bounds,
};

verus! {

/// One server-sent event of a streaming chat completion.
#[derive(Debug)]
pub struct SseChunk {
    pub content: Option<String>,
    pub usage: Option<Usage>,
    pub done: bool,
}

/// The token usage that the server reports.
#[derive(Debug, Clone, Copy)]
pub struct Usage {
    pub prompt_tokens: u32,
    pub completion_tokens: u32,
    pub completion_tokens_details: Option<CompletionTokensDetails>,
}

#[derive(Debug, Clone, Copy)]
pub struct CompletionTokensDetails {
    pub reasoning_tokens: Option<u32>,
}

/// What one line of an SSE stream holds, before its JSON is read.
#[derive(Debug)]
pub enum SseLine {
    /// A blank line, a comment, or a line that is not a `data:` field.
    Skip,
    /// `data: [DONE]`, the end of the stream.
    Done,
    /// The JSON text of a `data:` field.
    Data(String),
}

/// Spec form of `SseLine`.
pub enum SseLineSpec {
    Skip,
    Done,
    Data(Seq<char>),
}

pub open spec fn sse_line_view(l: SseLine) -> SseLineSpec {
    match l {
        SseLine::Skip => SseLineSpec::Skip,
        SseLine::Done => SseLineSpec::Done,
        SseLine::Data(d) => SseLineSpec::Data(d@),
    }
}

/// How a line of the stream is framed: trimmed; blank lines and `:` comments are skipped;
/// the rest must start with `data: `; `[DONE]` ends the stream.
pub open spec fn sse_line_of(line: Seq<char>) -> SseLineSpec {
    let t = trim(line);
    let prefix = "data: "@;
    if t.len() == 0 || t[0] == ':' {
        SseLineSpec::Skip
    } else if !(t.len() >= prefix.len() && t.subrange(0, prefix.len() as int) == prefix) {
        SseLineSpec::Skip
    } else if t.subrange(prefix.len() as int, t.len() as int) == "[DONE]"@ {
        SseLineSpec::Done
    } else {
        SseLineSpec::Data(t.subrange(prefix.len() as int, t.len() as int))
    }
}

/// Whether `cs[lo..]` starts with `p`.
fn starts_with_at(cs: &Vec<char>, lo: usize, hi: usize, p: &Vec<char>) -> (b: bool)
    requires
        lo <= hi <= cs.len(),
    ensures
        b == (hi - lo >= p.len() && cs@.subrange(lo as int, lo + p.len()) == p@),
{
    if hi - lo < p.len() {
        return false;
    }
    let mut i: usize = 0;
    while i < p.len()
        invariant
            lo <= hi <= cs.len(),
            hi - lo >= p.len(),
            i <= p.len(),
            forall|j: int| 0 <= j < i ==> cs@[lo + j] == p@[j],
        decreases p.len() - i,
    {
        if cs[lo + i] != p[i] {
            assert(cs@.subrange(lo as int, lo + p.len())[i as int] != p@[i as int]);
            return false;
        }
        i = i + 1;
    }
    assert(cs@.subrange(lo as int, lo + p.len()) == p@);
    true
}

/// Whether `cs[lo..hi]` is `p`.
fn equals_at(cs: &Vec<char>, lo: usize, hi: usize, p: &Vec<char>) -> (b: bool)
    requires
        lo <= hi <= cs.len(),
    ensures
        b == (cs@.subrange(lo as int, hi as int) == p@),
{
    if hi - lo != p.len() {
        return false;
    }
    let r = starts_with_at(cs, lo, hi, p);
    r
}

/// Frames one line of an SSE stream.
pub fn frame_sse_line(line: &str) -> (res: SseLine)
    ensures
        sse_line_view(res) == sse_line_of(line@),
{
    let cs = chars_of(line);
    let (a, b) = trim_bounds(&cs, 0, cs.len());
    assert(cs@.subrange(0, cs@.len() as int) == cs@);
    let ghost t = cs@.subrange(a as int, b as int);
    if a == b || cs[a] == ':' {
        return SseLine::Skip;
    }
    let prefix = chars_of("data: ");
    if !starts_with_at(&cs, a, b, &prefix) {
        proof {
            if t.len() >= prefix@.len() {
                assert(t.subrange(0, prefix@.len() as int) == cs@.subrange(
                    a as int,
                    a + prefix@.len(),
                ));
            }
        }
        return SseLine::Skip;
    }
    assert(t.subrange(0, prefix@.len() as int) == cs@.subrange(a as int, a + prefix@.len()));
    let start = a + prefix.len();
    assert(t.subrange(prefix@.len() as int, t.len() as int) == cs@.subrange(start as int, b as int));
    let done = chars_of("[DONE]");
    if equals_at(&cs, start, b, &done) {
        SseLine::Done
    } else {
        SseLine::Data(string_of(&cs, start, b))
    }
}

/// The text of a chunk: the delta's `content` where it is a string, else its
/// `reasoning_content`; an empty text counts as none.
pub open spec fn chunk_content(content: Option<Seq<char>>, reasoning: Option<Seq<char>>) -> Option<
    Seq<char>,
> {
    let picked = if content is Some {
        content
    } else {
        reasoning
    };
    match picked {
        Some(t) => if t.len() > 0 {
            Some(t)
        } else {
            None
        },
        None => None,
    }
}

pub open spec fn opt_view(o: Option<String>) -> Option<Seq<char>> {
    match o {
        Some(s) => Some(s@),
        None => None,
    }
}

/// Picks the text of a chunk from the delta's `content` and `reasoning_content` strings.
pub fn select_content(content: Option<String>, reasoning: Option<String>) -> (res: Option<String>)
    ensures
        opt_view(res) == chunk_content(opt_view(content), opt_view(reasoning)),
{
    let picked = match content {
        Some(c) => Some(c),
        None => reasoning,
    };
    match picked {
        Some(t) => {
            if t.as_str().is_empty() {
                None
            } else {
                Some(t)
            }
        },
        None => None,
    }
}

/// Builds the chunk for a `data:` line from what its JSON held.
pub fn make_chunk(content: Option<String>, reasoning: Option<String>, usage: Option<Usage>) -> (res:
    SseChunk)
    ensures
        opt_view(res.content) == chunk_content(opt_view(content), opt_view(reasoning)),
        res.usage == usage,
        !res.done,
{
    SseChunk { content: select_content(content, reasoning), usage, done: false }
}

/// The `delta` of the first choice of a chunk, `null` where the choice has none; nothing
/// where there is no first choice.
pub open spec fn chunk_delta(v: Json) -> Option<Json> {
    match element(at_key(v, "choices"@), 0) {
        Some(c) => Some(at_key(c, "delta"@)),
        None => None,
    }
}

/// The string member `key` of the delta of a chunk.
pub open spec fn delta_text(v: Json, key: Seq<char>) -> Option<Seq<char>> {
    match chunk_delta(v) {
        Some(d) => as_text(at_key(d, key)),
        None => None,
    }
}

/// The `usage` member of a chunk, unless it is absent or `null`.
pub open spec fn usage_member(v: Json) -> Option<Json> {
    match member(v, "usage"@) {
        Some(u) => if u is Null {
            None
        } else {
            Some(u)
        },
        None => None,
    }
}

/// The text of a chunk whose first choice has the delta object `ds`: its `content` where
/// that is a non-empty string; where `content` is absent or not a string (`null` included),
/// the `reasoning_content` where that is a non-empty string; and none where neither is.
pub proof fn lemma_chunk_text(
    top: Vec<(String, Json)>,
    items: Vec<Json>,
    choice: Vec<(String, Json)>,
    ds: Vec<(String, Json)>,
)
    requires
        field_of(top@, "choices"@) == Some(Json::Array(items)),
        items@.len() > 0,
        items@[0] == Json::Object(choice),
        field_of(choice@, "delta"@) == Some(Json::Object(ds)),
    ensures
        ({
            let text = chunk_content(
                delta_text(Json::Object(top), "content"@),
                delta_text(Json::Object(top), "reasoning_content"@),
            );
            match field_of(ds@, "content"@) {
                Some(Json::Str(c)) => text == if c@.len() > 0 {
                    Some(c@)
                } else {
                    None::<Seq<char>>
                },
                _ => match field_of(ds@, "reasoning_content"@) {
                    Some(Json::Str(r)) => text == if r@.len() > 0 {
                        Some(r@)
                    } else {
                        None::<Seq<char>>
                    },
                    _ => text is None,
                },
            }
        }),
{
}

/// What the JSON of a chunk holds: the delta's `content` and `reasoning_content` strings,
/// and the usage report, still as JSON.
#[derive(Debug)]
pub struct ChunkFields {
    pub content: Option<String>,
    pub reasoning: Option<String>,
    pub usage: Option<Json>,
}

/// The member `key` of an object.
fn member_ref<'a>(v: &'a Json, key: &str) -> (res: Option<&'a Json>)
    ensures
        match res {
            Some(x) => member(*v, key@) == Some(*x),
            None => member(*v, key@) is None,
        },
{
    match v {
        Json::Object(entries) => match find_field(entries, key) {
            Some(i) => Some(&entries[i].1),
            None => None,
        },
        _ => None,
    }
}

/// The string member `key` of the delta of the chunk `v`.
fn delta_string(v: &Json, key: &str) -> (res: Option<String>)
    ensures
        opt_view(res) == delta_text(*v, key@),
{
    let choices = match member_ref(v, "choices") {
        Some(c) => c,
        None => return None,
    };
    let first = match choices {
        Json::Array(items) => {
            if items.len() == 0 {
                return None;
            }
            &items[0]
        },
        _ => return None,
    };
    let delta = match member_ref(first, "delta") {
        Some(d) => d,
        None => return None,
    };
    match member_ref(delta, key) {
        Some(Json::Str(s)) => Some(s.clone()),
        _ => None,
    }
}

/// Reads the JSON of a `data:` line: the first choice's delta `content` and
/// `reasoning_content` where they are strings, and the `usage` member unless it is absent
/// or `null`.
pub fn chunk_fields(v: Json) -> (res: ChunkFields)
    ensures
        opt_view(res.content) == delta_text(v, "content"@),
        opt_view(res.reasoning) == delta_text(v, "reasoning_content"@),
        res.usage == usage_member(v),
{
    let content = delta_string(&v, "content");
    let reasoning = delta_string(&v, "reasoning_content");
    let usage = match v {
        Json::Object(entries) => match take_field(entries, "usage") {
            Some(u) => match u {
                Json::Null => None,
                other => Some(other),
            },
            None => None,
        },
        _ => None,
    };
    ChunkFields { content, reasoning, usage }
}

// ---------------------------------------------------------------------------
// The usage report, as serde's derived `Deserialize` reads it from a JSON value: an object
// (members in any order, unknown ones ignored) or an array of the fields in order; a
// `u32` from a non-negative integer that fits; an `Option` from `null` or the value;
// `completion_tokens_details` and `reasoning_tokens` default to none.
// ---------------------------------------------------------------------------

/// A `u32` read from a JSON number.
pub open spec fn json_u32(v: Json) -> Option<u32> {
    match v {
        Json::Number(t) => if t@.len() > 0 && is_digit(t@[0]) {
            match parse_unsigned(t@, u32::MAX as nat) {
                Some(n) => Some(n as u32),
                None => None,
            }
        } else {
            None
        },
        _ => None,
    }
}

/// An optional `u32`: `null` is none; `None` where the value cannot be read.
pub open spec fn json_opt_u32(v: Json) -> Option<Option<u32>> {
    if v is Null {
        Some(None)
    } else {
        match json_u32(v) {
            Some(n) => Some(Some(n)),
            None => None,
        }
    }
}

/// The details of a usage report read from JSON.
pub open spec fn decode_details(v: Json) -> Option<CompletionTokensDetails> {
    match v {
        Json::Object(entries) => match field_of(entries@, "reasoning_tokens"@) {
            None => Some(CompletionTokensDetails { reasoning_tokens: None }),
            Some(x) => match json_opt_u32(x) {
                Some(r) => Some(CompletionTokensDetails { reasoning_tokens: r }),
                None => None,
            },
        },
        Json::Array(items) => if items@.len() == 0 {
            Some(CompletionTokensDetails { reasoning_tokens: None })
        } else if items@.len() == 1 {
            match json_opt_u32(items@[0]) {
                Some(r) => Some(CompletionTokensDetails { reasoning_tokens: r }),
                None => None,
            }
        } else {
            None
        },
        _ => None,
    }
}

/// Optional details: `null` is none; `None` where the value cannot be read.
pub open spec fn decode_opt_details(v: Json) -> Option<Option<CompletionTokensDetails>> {
    if v is Null {
        Some(None)
    } else {
        match decode_details(v) {
            Some(d) => Some(Some(d)),
            None => None,
        }
    }
}

/// A usage report from its counts and its details, where all three could be read.
pub open spec fn usage_from(
    p: Option<u32>,
    c: Option<u32>,
    d: Option<Option<CompletionTokensDetails>>,
) -> Option<Usage> {
    match (p, c, d) {
        (Some(p), Some(c), Some(d)) => Some(
            Usage { prompt_tokens: p, completion_tokens: c, completion_tokens_details: d },
        ),
        _ => None,
    }
}

/// The usage report read from JSON; `None` where it cannot be read.
pub open spec fn decode_usage(v: Json) -> Option<Usage> {
    match v {
        Json::Object(entries) => {
            let p = field_of(entries@, "prompt_tokens"@);
            let c = field_of(entries@, "completion_tokens"@);
            let d = field_of(entries@, "completion_tokens_details"@);
            if p is Some && c is Some {
                usage_from(
                    json_u32(p->Some_0),
                    json_u32(c->Some_0),
                    match d {
                        Some(x) => decode_opt_details(x),
                        None => Some(None),
                    },
                )
            } else {
                None
            }
        },
        Json::Array(items) => if 2 <= items@.len() <= 3 {
            usage_from(
                json_u32(items@[0]),
                json_u32(items@[1]),
                if items@.len() == 3 {
                    decode_opt_details(items@[2])
                } else {
                    Some(None)
                },
            )
        } else {
            None
        },
        _ => None,
    }
}

fn read_u32(v: &Json) -> (res: Option<u32>)
    ensures
        res == json_u32(*v),
{
    match v {
        Json::Number(t) => {
            let cs = chars_of(t.as_str());
            if cs.len() > 0 && '0' <= cs[0] && cs[0] <= '9' {
                assert(cs@.subrange(0, cs@.len() as int) == cs@);
                match parse_unsigned_in(&cs, 0, cs.len(), 4294967295u64) {
                    Some(n) => Some(n as u32),
                    None => None,
                }
            } else {
                None
            }
        },
        _ => None,
    }
}

fn read_opt_u32(v: &Json) -> (res: Option<Option<u32>>)
    ensures
        res == json_opt_u32(*v),
{
    match v {
        Json::Null => Some(None),
        _ => match read_u32(v) {
            Some(n) => Some(Some(n)),
            None => None,
        },
    }
}

fn read_details(v: &Json) -> (res: Option<CompletionTokensDetails>)
    ensures
        res == decode_details(*v),
{
    match v {
        Json::Object(entries) => match find_field(entries, "reasoning_tokens") {
            None => Some(CompletionTokensDetails { reasoning_tokens: None }),
            Some(i) => match read_opt_u32(&entries[i].1) {
                Some(r) => Some(CompletionTokensDetails { reasoning_tokens: r }),
                None => None,
            },
        },
        Json::Array(items) => {
            if items.len() == 0 {
                Some(CompletionTokensDetails { reasoning_tokens: None })
            } else if items.len() == 1 {
                match read_opt_u32(&items[0]) {
                    Some(r) => Some(CompletionTokensDetails { reasoning_tokens: r }),
                    None => None,
                }
            } else {
                None
            }
        },
        _ => None,
    }
}

fn read_opt_details(v: &Json) -> (res: Option<Option<CompletionTokensDetails>>)
    ensures
        res == decode_opt_details(*v),
{
    match v {
        Json::Null => Some(None),
        _ => match read_details(v) {
            Some(d) => Some(Some(d)),
            None => None,
        },
    }
}

fn build_usage(
    p: Option<u32>,
    c: Option<u32>,
    d: Option<Option<CompletionTokensDetails>>,
) -> (res: Option<Usage>)
    ensures
        res == usage_from(p, c, d),
{
    match (p, c, d) {
        (Some(p), Some(c), Some(d)) => Some(
            Usage { prompt_tokens: p, completion_tokens: c, completion_tokens_details: d },
        ),
        _ => None,
    }
}

/// Reads a usage report from JSON.
pub fn read_usage(v: &Json) -> (res: Option<Usage>)
    ensures
        res == decode_usage(*v),
{
    match v {
        Json::Object(entries) => {
            let p = find_field(entries, "prompt_tokens");
            let c = find_field(entries, "completion_tokens");
            match (p, c) {
                (Some(i), Some(j)) => {
                    let d = match find_field(entries, "completion_tokens_details") {
                        Some(k) => read_opt_details(&entries[k].1),
                        None => Some(None),
                    };
                    build_usage(read_u32(&entries[i].1), read_u32(&entries[j].1), d)
                },
                _ => None,
            }
        },
        Json::Array(items) => {
            if 2 <= items.len() && items.len() <= 3 {
                let d = if items.len() == 3 {
                    read_opt_details(&items[2])
                } else {
                    Some(None)
                };
                build_usage(read_u32(&items[0]), read_u32(&items[1]), d)
            } else {
                None
            }
        },
        _ => None,
    }
}

/// The usage report of a chunk: its `usage` member unless absent or `null`, where it can
/// be read.
pub open spec fn chunk_usage(v: Json) -> Option<Usage> {
    match usage_member(v) {
        Some(u) => decode_usage(u),
        None => None,
    }
}

/// The chunk that the JSON `v` of a `data:` line stands for.
pub fn chunk_from_json(v: Json) -> (res: SseChunk)
    ensures
        opt_view(res.content) == chunk_content(
            delta_text(v, "content"@),
            delta_text(v, "reasoning_content"@),
        ),
        res.usage == chunk_usage(v),
        !res.done,
{
    let fields = chunk_fields(v);
    let usage = match &fields.usage {
        Some(u) => read_usage(u),
        None => None,
    };
    make_chunk(fields.content, fields.reasoning, usage)
}

/// Parses one line of an SSE stream: blank lines, comments and other fields give nothing,
/// `data: [DONE]` the end of the stream, and any other `data:` line the chunk its JSON
/// stands for, or nothing where it is not JSON.
pub fn parse_sse_chunk(line: &str) -> (res: Option<SseChunk>)
    ensures
        match sse_line_of(line@) {
            SseLineSpec::Skip => res is None,
            SseLineSpec::Done => res matches Some(c) && c.done && c.content is None
                && c.usage is None,
            SseLineSpec::Data(d) => match parsed_json(d) {
                None => res is None,
                Some(v) => res matches Some(c) && !c.done && opt_view(c.content)
                    == chunk_content(delta_text(v, "content"@), delta_text(v, "reasoning_content"@))
                    && c.usage == chunk_usage(v),
            },
        },
{
    match frame_sse_line(line) {
        SseLine::Skip => None,
        SseLine::Done => Some(done_chunk()),
        SseLine::Data(data) => match parse_json(data.as_str()) {
            None => None,
            Some(v) => Some(chunk_from_json(v)),
        },
    }
}

/// The chunk that `data: [DONE]` stands for.
pub fn done_chunk() -> (res: SseChunk)
    ensures
        res.content is None,
        res.usage is None,
        res.done,
{
    SseChunk { content: None, usage: None, done: true }
}

/// `api_base` followed by `/chat/completions`.
pub fn completions_url(api_base: &str) -> (res: String)
    ensures
        res@ == api_base@ + "/chat/completions"@,
{
    let mut s = String::from_str(api_base);
    s.append("/chat/completions");
    s
}

// ---------------------------------------------------------------------------
// The response stream
// ---------------------------------------------------------------------------

/// The state of one streamed response: text received but not yet split into lines, when
/// the first token came, and the last usage report.
pub struct SseStream {
    buffer: Vec<char>,
    first_token_ns: Option<u64>,
    usage: Option<Usage>,
}

/// Spec form of an `SseStream`.
pub struct SseStreamView {
    pub buffer: Seq<char>,
    pub first_token_ns: Option<u64>,
    pub usage: Option<Usage>,
}

impl View for SseStream {
    type V = SseStreamView;

    closed spec fn view(&self) -> SseStreamView {
        SseStreamView {
            buffer: self.buffer@,
            first_token_ns: self.first_token_ns,
            usage: self.usage,
        }
    }
}

/// The reasoning tokens of a usage report, 0 where it gives none.
pub open spec fn reasoning_of(u: Usage) -> u32 {
    match u.completion_tokens_details {
        Some(d) => match d.reasoning_tokens {
            Some(r) => r,
            None => 0,
        },
        None => 0,
    }
}

/// The record of a request whose stream ended at `end_ns`: the first token time defaults
/// to the start, and token counts default to 0 where no usage was reported.
pub open spec fn stream_result(
    s: SseStreamView,
    request_id: u64,
    start_ns: u64,
    end_ns: u64,
) -> RawRequestResult {
    RawRequestResult {
        request_id,
        start_time_ns: start_ns,
        first_token_time_ns: match s.first_token_ns {
            Some(t) => t,
            None => start_ns,
        },
        end_time_ns: end_ns,
        num_input_tokens: match s.usage {
            Some(u) => u.prompt_tokens,
            None => 0,
        },
        num_output_tokens: match s.usage {
            Some(u) => u.completion_tokens,
            None => 0,
        },
        reasoning_tokens: match s.usage {
            Some(u) => reasoning_of(u),
            None => 0,
        },
        error: None,
    }
}

/// The state after an event that is not `[DONE]`, observed at `now_ns`: the first event
/// with content sets the first-token time, and a usage report replaces the one before.
pub open spec fn observe(s: SseStreamView, has_content: bool, usage: Option<Usage>, now_ns: u64) -> SseStreamView {
    SseStreamView {
        buffer: s.buffer,
        first_token_ns: if has_content && s.first_token_ns is None {
            Some(now_ns)
        } else {
            s.first_token_ns
        },
        usage: if usage is Some {
            usage
        } else {
            s.usage
        },
    }
}

/// The state after a series of events (has content, usage report, time), in order.
pub open spec fn observe_all(s: SseStreamView, events: Seq<(bool, Option<Usage>, u64)>) -> SseStreamView
    decreases events.len(),
{
    if events.len() == 0 {
        s
    } else {
        let e = events.last();
        observe(observe_all(s, events.drop_last()), e.0, e.1, e.2)
    }
}

/// The time of the first event with content.
pub open spec fn first_content_time(events: Seq<(bool, Option<Usage>, u64)>) -> Option<u64>
    decreases events.len(),
{
    if events.len() == 0 {
        None
    } else {
        match first_content_time(events.drop_last()) {
            Some(t) => Some(t),
            None => if events.last().0 {
                Some(events.last().2)
            } else {
                None
            },
        }
    }
}

/// The last usage report among the events.
pub open spec fn last_usage(events: Seq<(bool, Option<Usage>, u64)>) -> Option<Usage>
    decreases events.len(),
{
    if events.len() == 0 {
        None
    } else if events.last().1 is Some {
        events.last().1
    } else {
        last_usage(events.drop_last())
    }
}

/// Over a whole response, the first-token time is the time of the first event that carried
/// content, and the usage is the last usage report; neither depends on anything else.
pub proof fn lemma_stream_observations(s: SseStreamView, events: Seq<(bool, Option<Usage>, u64)>)
    requires
        s.first_token_ns is None,
        s.usage is None,
    ensures
        observe_all(s, events).first_token_ns == first_content_time(events),
        observe_all(s, events).usage == last_usage(events),
        observe_all(s, events).buffer == s.buffer,
    decreases events.len(),
{
    if events.len() > 0 {
        lemma_stream_observations(s, events.drop_last());
    }
}

impl SseStream {
    pub fn new() -> (res: Self)
        ensures
            res@.buffer == Seq::<char>::empty(),
            res@.first_token_ns is None,
            res@.usage is None,
    {
        SseStream { buffer: Vec::new(), first_token_ns: None, usage: None }
    }

    /// Appends received text to the buffer.
    pub fn push_text(&mut self, text: &str)
        ensures
            final(self)@.buffer == old(self)@.buffer + text@,
            final(self)@.first_token_ns == old(self)@.first_token_ns,
            final(self)@.usage == old(self)@.usage,
    {
        let cs = chars_of(text);
        let mut i: usize = 0;
        let ghost b0 = self.buffer@;
        while i < cs.len()
            invariant
                i <= cs.len(),
                cs@ == text@,
                self.buffer@ == b0 + cs@.subrange(0, i as int),
                self.first_token_ns == old(self).first_token_ns,
                self.usage == old(self).usage,
            decreases cs.len() - i,
        {
            self.buffer.push(cs[i]);
            assert(cs@.subrange(0, i + 1) == cs@.subrange(0, i as int).push(cs@[i as int]));
            i = i + 1;
        }
        assert(cs@.subrange(0, cs@.len() as int) == cs@);
    }

    /// Takes the next complete line (without its `\n`) out of the buffer.
    pub fn next_line(&mut self) -> (res: Option<String>)
        ensures
            ({
                let b = old(self)@.buffer;
                let k = first_index(b, '\n');
                if k < b.len() {
                    &&& res is Some
                    &&& res->Some_0@ == b.subrange(0, k)
                    &&& final(self)@.buffer == b.subrange(k + 1, b.len() as int)
                } else {
                    &&& res is None
                    &&& final(self)@.buffer == b
                }
            }),
            res is Some ==> {
                &&& old(self)@.buffer == res->Some_0@ + seq!['\n'] + final(self)@.buffer
                &&& !res->Some_0@.contains('\n')
            },
            res is None ==> !old(self)@.buffer.contains('\n'),
            final(self)@.first_token_ns == old(self)@.first_token_ns,
            final(self)@.usage == old(self)@.usage,
    {
        proof {
            lemma_first_index(self.buffer@, '\n');
        }
        assert(self.buffer@.subrange(0, self.buffer@.len() as int) == self.buffer@);
        let n = self.buffer.len();
        let k = first_in(&self.buffer, 0, n, '\n');
        if k == n {
            assert forall|j: int| 0 <= j < self.buffer@.len() implies self.buffer@[j] != '\n' by {}
            return None;
        }
        let line = string_of(&self.buffer, 0, k);
        let rest = sub_vec(&self.buffer, k + 1, n);
        let ghost b = self.buffer@;
        assert(b == b.subrange(0, k as int) + seq!['\n'] + b.subrange(k + 1, n as int));
        assert forall|j: int| 0 <= j < k implies b.subrange(0, k as int)[j] != '\n' by {
            assert(b.subrange(0, k as int)[j] == b[j]);
        }
        self.buffer = rest;
        Some(line)
    }

    /// Takes in one event observed at `now_ns`. At `[DONE]` the request is over and its
    /// record comes back; otherwise the first content sets the first-token time and a
    /// usage report replaces the previous one.
    pub fn step(&mut self, chunk: SseChunk, now_ns: u64, request_id: u64, start_ns: u64) -> (res:
        Option<RawRequestResult>)
        ensures
            chunk.done ==> res == Some(stream_result(old(self)@, request_id, start_ns, now_ns))
                && final(self)@ == old(self)@,
            !chunk.done ==> res is None && final(self)@ == observe(
                old(self)@,
                chunk.content is Some,
                chunk.usage,
                now_ns,
            ),
    {
        if chunk.done {
            return Some(self.finish(request_id, start_ns, now_ns));
        }
        if chunk.content.is_some() && self.first_token_ns.is_none() {
            self.first_token_ns = Some(now_ns);
        }
        if let Some(u) = chunk.usage {
            self.usage = Some(u);
        }
        None
    }

    /// The record of the request, for a stream that ended at `end_ns`.
    pub fn finish(&self, request_id: u64, start_ns: u64, end_ns: u64) -> (res: RawRequestResult)
        ensures
            res == stream_result(self@, request_id, start_ns, end_ns),
    {
        let first = match self.first_token_ns {
            Some(t) => t,
            None => start_ns,
        };
        let (input, output, reasoning) = match &self.usage {
            Some(u) => {
                let r = match &u.completion_tokens_details {
                    Some(d) => match d.reasoning_tokens {
                        Some(r) => r,
                        None => 0,
                    },
                    None => 0,
                };
                (u.prompt_tokens, u.completion_tokens, r)
            },
            None => (0, 0, 0),
        };
        RawRequestResult {
            request_id,
            start_time_ns: start_ns,
            first_token_time_ns: first,
            end_time_ns: end_ns,
            num_input_tokens: input,
            num_output_tokens: output,
            reasoning_tokens: reasoning,
            error: None,
        }
    }
}

} // verus!
