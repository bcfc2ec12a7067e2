//! Framing of server-sent events in streamed chat answers.
//!
//! Text arrives in pieces that may cut lines anywhere. Complete lines are
//! trimmed; blank lines and lines without the `data: ` prefix are skipped;
//! the rest of a `data: ` line is a payload. In the OpenAI format the payload
//! `[DONE]` stops the framing of the text received so far.
use vstd::prelude::*;
use crate::text::{chars_of, string_of_range, trim, trim_bounds};
use crate::json::{as_array, as_string, json_array, json_member, json_parse, json_string, member, parse_json};
use crate::llm::LlmStreamChunk;

verus! {

/// The prefix of a payload line.
pub open spec fn data_prefix() -> Seq<char> {
    seq!['d', 'a', 't', 'a', ':', ' ']
}

/// The payload that ends an OpenAI stream.
pub open spec fn done_marker() -> Seq<char> {
    seq!['[', 'D', 'O', 'N', 'E', ']']
}

/// The first line break at or after `i`.
pub open spec fn find_newline(b: Seq<char>, i: int) -> Option<int>
    decreases b.len() - i,
{
    if !(0 <= i < b.len()) {
        None
    } else if b[i] == '\n' {
        Some(i)
    } else {
        find_newline(b, i + 1)
    }
}

pub proof fn lemma_find_newline(b: Seq<char>, i: int)
    ensures
        find_newline(b, i) matches Some(k) ==> i <= k < b.len() && b[k] == '\n',
        find_newline(b, i) is None && 0 <= i ==> forall|k: int| i <= k < b.len() ==> b[k] != '\n',
    decreases b.len() - i,
{
    if 0 <= i < b.len() && b[i] != '\n' {
        lemma_find_newline(b, i + 1);
    }
}

/// Frames the complete lines of `b`: the payloads found and the text that is
/// left for later (an incomplete last line, or whatever follows `[DONE]`
/// when `stop_at_done` holds).
pub open spec fn frame(b: Seq<char>, stop_at_done: bool) -> (Seq<Seq<char>>, Seq<char>)
    decreases b.len(),
{
    match find_newline(b, 0) {
        None => (seq![], b),
        Some(i) => {
            proof {
                lemma_find_newline(b, 0);
            }
            let line = trim(b.take(i));
            let rest = b.skip(i + 1);
            if line.len() > 0 && data_prefix().is_prefix_of(line) {
                let data = line.skip(6);
                if stop_at_done && data == done_marker() {
                    (seq![], rest)
                } else {
                    let r = frame(rest, stop_at_done);
                    (seq![data] + r.0, r.1)
                }
            } else {
                frame(rest, stop_at_done)
            }
        },
    }
}

/// Text received but not yet framed, and whether `[DONE]` stops framing.
pub struct SseBuffer {
    buffer: Vec<char>,
    stop_at_done: bool,
}

fn is_data_line(v: &Vec<char>, a: usize, b: usize) -> (r: bool)
    requires
        a <= b <= v@.len(),
    ensures
        r == (b - a > 0 && data_prefix().is_prefix_of(v@.subrange(a as int, b as int))),
{
    if b - a < 6 {
        return false;
    }
    let r = v[a] == 'd' && v[a + 1] == 'a' && v[a + 2] == 't' && v[a + 3] == 'a' && v[a + 4]
        == ':' && v[a + 5] == ' ';
    assert(r == (data_prefix() =~= v@.subrange(a as int, b as int).take(6)));
    r
}

fn is_done(v: &Vec<char>, a: usize, b: usize) -> (r: bool)
    requires
        a <= b <= v@.len(),
    ensures
        r == (v@.subrange(a as int, b as int) == done_marker()),
{
    if b - a != 6 {
        assert(v@.subrange(a as int, b as int).len() != done_marker().len());
        return false;
    }
    let r = v[a] == '[' && v[a + 1] == 'D' && v[a + 2] == 'O' && v[a + 3] == 'N' && v[a + 4]
        == 'E' && v[a + 5] == ']';
    assert(r == (v@.subrange(a as int, b as int) =~= done_marker()));
    r
}

/// The data strings of `v`.
pub open spec fn string_views(v: Seq<String>) -> Seq<Seq<char>> {
    v.map_values(|s: String| s@)
}

impl SseBuffer {
    /// The text received but not yet framed.
    pub closed spec fn pending(&self) -> Seq<char> {
        self.buffer@
    }

    /// Whether `[DONE]` stops framing.
    pub closed spec fn stops_at_done(&self) -> bool {
        self.stop_at_done
    }

    /// An empty buffer.
    pub fn new(stop_at_done: bool) -> (r: SseBuffer)
        ensures
            r.pending() == Seq::<char>::empty(),
            r.stops_at_done() == stop_at_done,
    {
        SseBuffer { buffer: Vec::new(), stop_at_done }
    }

    /// Takes in a piece of text and gives back the payloads of the lines it
    /// completes.
    pub fn feed(&mut self, text: &str) -> (data: Vec<String>)
        ensures
            final(self).stops_at_done() == old(self).stops_at_done(),
            string_views(data@) == frame(old(self).pending() + text@, old(self).stops_at_done()).0,
            final(self).pending() == frame(old(self).pending() + text@, old(self).stops_at_done()).1,
    {
        let incoming = chars_of(text);
        let mut all = Vec::new();
        all.append(&mut self.buffer);
        let mut extra = incoming;
        all.append(&mut extra);
        let ghost b = all@;
        let stop = self.stop_at_done;
        assert(b == old(self).pending() + text@);
        let n = all.len();
        let mut start: usize = 0;
        let mut out: Vec<String> = Vec::new();
        let ghost mut found: Seq<Seq<char>> = seq![];
        assert(b.skip(0) == b);
        assert(found + frame(b, stop).0 == frame(b, stop).0);
        assert(string_views(out@) =~= found);
        loop
            invariant_except_break
                frame(b, stop).0 == found + frame(b.skip(start as int), stop).0,
                frame(b, stop).1 == frame(b.skip(start as int), stop).1,
            invariant
                b == all@,
                n == b.len(),
                start <= n,
                stop == self.stop_at_done,
                stop == old(self).stop_at_done,
                string_views(out@) == found,
            ensures
                start <= n,
                string_views(out@) == frame(b, stop).0,
                frame(b, stop).1 == b.skip(start as int),
            decreases n - start,
        {
            let ghost cur = b.skip(start as int);
            let mut i = start;
            while i < n && all[i] != '\n'
                invariant
                    start <= i <= n,
                    n == all@.len(),
                    b == all@,
                    cur == b.skip(start as int),
                    find_newline(cur, 0) == find_newline(cur, i - start),
                decreases n - i,
            {
                i += 1;
            }
            if i == n {
                proof {
                    lemma_find_newline(cur, 0);
                }
                assert(frame(cur, stop) == (Seq::<Seq<char>>::empty(), cur));
                assert(found + Seq::<Seq<char>>::empty() == found);
                break ;
            }
            proof {
                lemma_find_newline(cur, 0);
                assert(cur.take(i - start) == b.subrange(start as int, i as int));
                assert(cur.skip(i - start + 1) == b.skip(i + 1));
            }
            let (a, z) = trim_bounds(&all, start, i);
            if is_data_line(&all, a, z) {
                if stop && is_done(&all, a + 6, z) {
                    assert(b.subrange(a + 6, z as int) == b.subrange(a as int, z as int).skip(6));
                    start = i + 1;
                    assert(frame(b, stop).1 == b.skip(start as int));
                    assert(frame(b, stop).0 == found + Seq::<Seq<char>>::empty());
                    break ;
                }
                let d = string_of_range(&all, a + 6, z);
                assert(d@ == b.subrange(a as int, z as int).skip(6));
                let ghost before = string_views(out@);
                out.push(d);
                proof {
                    assert(string_views(out@) == before.push(d@));
                    assert(found.push(d@) + frame(b.skip(i + 1), stop).0 =~= found + (seq![d@]
                        + frame(b.skip(i + 1), stop).0));
                    found = found.push(d@);
                }
            }
            start = i + 1;
        }
        let mut rest: Vec<char> = Vec::new();
        let mut k = start;
        while k < n
            invariant
                start <= k <= n,
                n == all@.len(),
                b == all@,
                rest@ == b.subrange(start as int, k as int),
            decreases n - k,
        {
            rest.push(all[k]);
            assert(b.subrange(start as int, k + 1) == b.subrange(start as int, k as int).push(
                b[k as int],
            ));
            k += 1;
        }
        assert(rest@ == b.skip(start as int));
        self.buffer = rest;
        out
    }
}

proof fn lemma_find_newline_prefix(a: Seq<char>, b: Seq<char>, j: int)
    requires
        0 <= j,
        find_newline(a, j) is Some,
    ensures
        find_newline(a + b, j) == find_newline(a, j),
    decreases a.len() - j,
{
    lemma_find_newline(a, j);
    if a[j] != '\n' {
        lemma_find_newline_prefix(a, b, j + 1);
    }
    assert((a + b)[j] == a[j]);
}

/// Framing does not depend on where the text was cut: framing `a` and then
/// what was left of it followed by `b` gives the payloads and the leftover of
/// framing `a + b` at once (for framing that does not stop at `[DONE]`).
pub proof fn law_framing_ignores_cuts(a: Seq<char>, b: Seq<char>)
    ensures
        frame(a + b, false).0 == frame(a, false).0 + frame(frame(a, false).1 + b, false).0,
        frame(a + b, false).1 == frame(frame(a, false).1 + b, false).1,
    decreases a.len(),
{
    match find_newline(a, 0) {
        None => {
            assert(frame(a, false) == (Seq::<Seq<char>>::empty(), a));
            assert(Seq::<Seq<char>>::empty() + frame(a + b, false).0 == frame(a + b, false).0);
        },
        Some(i) => {
            lemma_find_newline(a, 0);
            lemma_find_newline_prefix(a, b, 0);
            assert((a + b).take(i) == a.take(i));
            assert((a + b).skip(i + 1) == a.skip(i + 1) + b);
            law_framing_ignores_cuts(a.skip(i + 1), b);
            let r = frame(a.skip(i + 1), false);
            let line = trim(a.take(i));
            if line.len() > 0 && data_prefix().is_prefix_of(line) {
                assert(seq![line.skip(6)] + (r.0 + frame(r.1 + b, false).0) =~= (seq![line.skip(6)]
                    + r.0) + frame(r.1 + b, false).0);
            }
        },
    }
}

/// `b` holds the text `[DONE]` somewhere.
pub open spec fn mentions_done(b: Seq<char>) -> bool {
    exists|k: int| 0 <= k && k + 6 <= b.len() && #[trigger] b.subrange(k, k + 6) == done_marker()
}

/// Trimming keeps a contiguous piece of the text.
proof fn lemma_trim_is_piece(s: Seq<char>) -> (bounds: (int, int))
    ensures
        0 <= bounds.0 <= bounds.1 <= s.len(),
        trim(s) == s.subrange(bounds.0, bounds.1),
{
    let a = lemma_trim_start_suffix(s);
    let t = s.skip(a);
    let e = lemma_trim_end_prefix(t);
    assert(t.take(e) == s.subrange(a, a + e));
    (a, a + e)
}

proof fn lemma_trim_start_suffix(s: Seq<char>) -> (k: int)
    ensures
        0 <= k <= s.len(),
        crate::text::trim_start(s) == s.skip(k),
    decreases s.len(),
{
    if s.len() > 0 && crate::text::is_ws(s[0]) {
        let k = lemma_trim_start_suffix(s.drop_first());
        assert(s.drop_first().skip(k) == s.skip(k + 1));
        k + 1
    } else {
        assert(s.skip(0) == s);
        0
    }
}

proof fn lemma_trim_end_prefix(s: Seq<char>) -> (k: int)
    ensures
        0 <= k <= s.len(),
        crate::text::trim_end(s) == s.take(k),
    decreases s.len(),
{
    if s.len() > 0 && crate::text::is_ws(s.last()) {
        let k = lemma_trim_end_prefix(s.drop_last());
        assert(s.drop_last().take(k) == s.take(k));
        k
    } else {
        assert(s.take(s.len() as int) == s);
        s.len() as int
    }
}

/// Without `[DONE]` in the text, the framing that stops at `[DONE]` frames
/// exactly like the one that does not: blank lines, lines that are not
/// payloads and payloads alike are handled the same, and nothing stops early.
pub proof fn law_done_is_the_only_stop(b: Seq<char>)
    requires
        !mentions_done(b),
    ensures
        frame(b, true) == frame(b, false),
    decreases b.len(),
{
    match find_newline(b, 0) {
        None => {},
        Some(i) => {
            lemma_find_newline(b, 0);
            let rest = b.skip(i + 1);
            assert(!mentions_done(rest)) by {
                assert forall|k: int| 0 <= k && k + 6 <= rest.len() implies #[trigger] rest.subrange(k, k + 6) != done_marker() by {
                    let j = k + i + 1;
                    assert(rest.subrange(k, k + 6) == b.subrange(j, j + 6));
                }
            }
            law_done_is_the_only_stop(rest);
            let line = trim(b.take(i));
            if line.len() > 0 && data_prefix().is_prefix_of(line) {
                let data = line.skip(6);
                if data == done_marker() {
                    let (lo, hi) = lemma_trim_is_piece(b.take(i));
                    assert(data.len() == 6);
                    assert(hi == lo + 12);
                    let j = lo + 6;
                    assert(b.subrange(j, j + 6) =~= data);
                }
            }
        },
    }
}

/// Without `[DONE]` in the text, the framing that stops at `[DONE]` does not
/// depend on where the text was cut either.
pub proof fn law_framing_ignores_cuts_without_done(a: Seq<char>, b: Seq<char>)
    requires
        !mentions_done(a + b),
    ensures
        frame(a + b, true).0 == frame(a, true).0 + frame(frame(a, true).1 + b, true).0,
        frame(a + b, true).1 == frame(frame(a, true).1 + b, true).1,
{
    assert(!mentions_done(a)) by {
        assert forall|k: int| 0 <= k && k + 6 <= a.len() implies #[trigger] a.subrange(k, k + 6) != done_marker() by {
            assert(a.subrange(k, k + 6) == (a + b).subrange(k, k + 6));
        }
    }
    law_done_is_the_only_stop(a + b);
    law_done_is_the_only_stop(a);
    law_framing_ignores_cuts(a, b);
    let r = frame(a, false).1;
    // the leftover of framing is a suffix of the text, so it holds no `[DONE]` either
    let k = lemma_frame_rest_is_suffix(a);
    assert(r + b == (a + b).skip(k));
    assert(!mentions_done(r + b)) by {
        assert forall|j: int| 0 <= j && j + 6 <= (r + b).len() implies #[trigger] (r + b).subrange(j, j + 6) != done_marker() by {
            let m = j + k;
            assert((r + b).subrange(j, j + 6) == (a + b).subrange(m, m + 6));
        }
    }
    law_done_is_the_only_stop(r + b);
}

proof fn lemma_frame_rest_is_suffix(a: Seq<char>) -> (k: int)
    ensures
        0 <= k <= a.len(),
        frame(a, false).1 == a.skip(k),
    decreases a.len(),
{
    match find_newline(a, 0) {
        None => {
            assert(a.skip(0) == a);
            0
        },
        Some(i) => {
            lemma_find_newline(a, 0);
            let rest = a.skip(i + 1);
            let k = lemma_frame_rest_is_suffix(rest);
            assert(rest.skip(k) == a.skip(i + 1 + k));
            i + 1 + k
        },
    }
}

/// The text of the answer piece in an OpenAI-style payload:
/// `choices[0].delta.content` when it is a string.
pub open spec fn openai_delta(data: Seq<char>) -> Option<Seq<char>> {
    match json_parse(data) {
        Some(v) => match json_member(v, "choices"@) {
            Some(c) => match json_array(c) {
                Some(a) => if a.len() > 0 {
                    match json_member(a[0], "delta"@) {
                        Some(d) => match json_member(d, "content"@) {
                            Some(x) => json_string(x),
                            None => None,
                        },
                        None => None,
                    }
                } else {
                    None
                },
                None => None,
            },
            None => None,
        },
        None => None,
    }
}

/// The text of the answer piece in an Anthropic payload: `delta.text` of a
/// `content_block_delta` event when it is a string.
pub open spec fn anthropic_delta(data: Seq<char>) -> Option<Seq<char>> {
    match json_parse(data) {
        Some(v) => match json_member(v, "type"@) {
            Some(t) => match json_string(t) {
                Some(kind) => if kind == "content_block_delta"@ {
                    match json_member(v, "delta"@) {
                        Some(d) => match json_member(d, "text"@) {
                            Some(x) => json_string(x),
                            None => None,
                        },
                        None => None,
                    }
                } else {
                    None
                },
                None => None,
            },
            None => None,
        },
        None => None,
    }
}

/// Reads the answer piece of an OpenAI-style payload.
pub fn openai_delta_content(data: &str) -> (r: Option<String>)
    ensures
        match r {
            Some(s) => openai_delta(data@) == Some(s@),
            None => openai_delta(data@) is None,
        },
{
    let v = match parse_json(data) {
        Some(v) => v,
        None => return None,
    };
    let choices = match member(&v, "choices") {
        Some(c) => c,
        None => return None,
    };
    let arr = match as_array(choices) {
        Some(a) => a,
        None => return None,
    };
    if arr.len() == 0 {
        return None;
    }
    let delta = match member(&arr[0], "delta") {
        Some(d) => d,
        None => return None,
    };
    let content = match member(delta, "content") {
        Some(c) => c,
        None => return None,
    };
    as_string(content)
}

fn equals_str(a: &String, b: &str) -> (r: bool)
    ensures
        r == (a@ == b@),
{
    let owned = b.to_owned();
    *a == owned
}

/// Reads the answer piece of an Anthropic payload.
pub fn anthropic_delta_text(data: &str) -> (r: Option<String>)
    ensures
        match r {
            Some(s) => anthropic_delta(data@) == Some(s@),
            None => anthropic_delta(data@) is None,
        },
{
    let v = match parse_json(data) {
        Some(v) => v,
        None => return None,
    };
    let t = match member(&v, "type") {
        Some(t) => t,
        None => return None,
    };
    let kind = match as_string(t) {
        Some(k) => k,
        None => return None,
    };
    if !equals_str(&kind, "content_block_delta") {
        return None;
    }
    let delta = match member(&v, "delta") {
        Some(d) => d,
        None => return None,
    };
    let text = match member(delta, "text") {
        Some(x) => x,
        None => return None,
    };
    as_string(text)
}

/// The wire format of a streamed answer.
#[derive(Debug, Clone, Copy, PartialEq, Eq, Structural)]
pub enum StreamFormat {
    /// OpenAI-compatible chat completions; `[DONE]` ends the stream.
    OpenAi,
    /// Anthropic messages.
    Anthropic,
}

/// The answer piece that `format` reads from a payload.
pub open spec fn delta_of(format: StreamFormat, data: Seq<char>) -> Option<Seq<char>> {
    match format {
        StreamFormat::OpenAi => openai_delta(data),
        StreamFormat::Anthropic => anthropic_delta(data),
    }
}

/// The answer pieces read from `payloads`, in order; payloads without one
/// are skipped.
pub open spec fn deltas(format: StreamFormat, payloads: Seq<Seq<char>>) -> Seq<Seq<char>>
    decreases payloads.len(),
{
    if payloads.len() == 0 {
        seq![]
    } else {
        let prev = deltas(format, payloads.drop_last());
        match delta_of(format, payloads.last()) {
            Some(d) => prev.push(d),
            None => prev,
        }
    }
}

/// The texts of `chunks`.
pub open spec fn chunk_texts(chunks: Seq<LlmStreamChunk>) -> Seq<Seq<char>> {
    chunks.map_values(|c: LlmStreamChunk| c.content@)
}

/// The characters that `String::from_utf8_lossy` decodes from `bytes`.
pub uninterp spec fn utf8_lossy(bytes: Seq<u8>) -> Seq<char>;

/// `String::from_utf8_lossy`: decodes `bytes`, with U+FFFD for every
/// invalid sequence; valid UTF-8 decodes exactly.
#[verifier::external_body]
fn decode_lossy(bytes: &[u8]) -> (r: String)
    ensures
        r@ == utf8_lossy(bytes@),
        vstd::utf8::valid_utf8(bytes@) ==> r@ == vstd::utf8::decode_utf8(bytes@),
{
    String::from_utf8_lossy(bytes).into_owned()
}

/// Turns the pieces of a streamed answer into answer chunks.
pub struct StreamDecoder {
    lines: SseBuffer,
}

impl StreamDecoder {
    /// The text received but not yet framed.
    pub closed spec fn pending(&self) -> Seq<char> {
        self.lines.pending()
    }

    /// The wire format read.
    pub closed spec fn format(&self) -> StreamFormat {
        if self.lines.stop_at_done {
            StreamFormat::OpenAi
        } else {
            StreamFormat::Anthropic
        }
    }

    /// A decoder for `format` that has received nothing.
    pub fn new(format: StreamFormat) -> (r: StreamDecoder)
        ensures
            r.pending() == Seq::<char>::empty(),
            r.format() == format,
    {
        StreamDecoder { lines: SseBuffer::new(format == StreamFormat::OpenAi) }
    }

    /// Takes in a piece of text and gives back the answer chunks of the
    /// lines it completes.
    pub fn feed(&mut self, text: &str) -> (chunks: Vec<LlmStreamChunk>)
        ensures
            final(self).format() == old(self).format(),
            chunk_texts(chunks@) == deltas(
                old(self).format(),
                frame(old(self).pending() + text@, old(self).format() == StreamFormat::OpenAi).0,
            ),
            forall|i: int| 0 <= i < chunks@.len() ==> (#[trigger] chunks@[i]).usage is None,
            final(self).pending() == frame(
                old(self).pending() + text@,
                old(self).format() == StreamFormat::OpenAi,
            ).1,
    {
        let format = if self.lines.stop_at_done {
            StreamFormat::OpenAi
        } else {
            StreamFormat::Anthropic
        };
        let payloads = self.lines.feed(text);
        let ghost pv = string_views(payloads@);
        let mut chunks: Vec<LlmStreamChunk> = Vec::new();
        let mut i: usize = 0;
        while i < payloads.len()
            invariant
                i <= payloads@.len(),
                pv == string_views(payloads@),
                chunk_texts(chunks@) == deltas(format, pv.take(i as int)),
                forall|j: int| 0 <= j < chunks@.len() ==> (#[trigger] chunks@[j]).usage is None,
            decreases payloads@.len() - i,
        {
            assert(pv.take(i + 1).drop_last() == pv.take(i as int));
            assert(pv.take(i + 1).last() == payloads@[i as int]@);
            let piece = match format {
                StreamFormat::OpenAi => openai_delta_content(payloads[i].as_str()),
                StreamFormat::Anthropic => anthropic_delta_text(payloads[i].as_str()),
            };
            match piece {
                Some(content) => {
                    let ghost before = chunk_texts(chunks@);
                    chunks.push(LlmStreamChunk { content, usage: None });
                    assert(chunk_texts(chunks@) == before.push(chunks@.last().content@));
                },
                None => {},
            }
            i += 1;
        }
        assert(pv.take(payloads@.len() as int) == pv);
        chunks
    }

    /// Takes in a piece of the byte stream, decoded as `String::from_utf8_lossy`
    /// decodes it, and gives back the answer chunks of the lines it completes.
    pub fn feed_bytes(&mut self, bytes: &[u8]) -> (chunks: Vec<LlmStreamChunk>)
        ensures
            final(self).format() == old(self).format(),
            chunk_texts(chunks@) == deltas(
                old(self).format(),
                frame(
                    old(self).pending() + utf8_lossy(bytes@),
                    old(self).format() == StreamFormat::OpenAi,
                ).0,
            ),
            final(self).pending() == frame(
                old(self).pending() + utf8_lossy(bytes@),
                old(self).format() == StreamFormat::OpenAi,
            ).1,
            forall|i: int| 0 <= i < chunks@.len() ==> (#[trigger] chunks@[i]).usage is None,
            vstd::utf8::valid_utf8(bytes@) ==> chunk_texts(chunks@) == deltas(
                old(self).format(),
                frame(
                    old(self).pending() + vstd::utf8::decode_utf8(bytes@),
                    old(self).format() == StreamFormat::OpenAi,
                ).0,
            ),
            vstd::utf8::valid_utf8(bytes@) ==> final(self).pending() == frame(
                old(self).pending() + vstd::utf8::decode_utf8(bytes@),
                old(self).format() == StreamFormat::OpenAi,
            ).1,
    {
        let text = decode_lossy(bytes);
        self.feed(text.as_str())
    }
}

} // verus!
