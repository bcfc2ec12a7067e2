//! Sentence splitting and semantic chunk grouping.
//!
//! A sentence ends at `.`, `!` or `?` that is followed by whitespace or by the
//! end of the text. Sentences never span a line break: a candidate sentence
//! starts after the last `'\n'` before its terminator. Text that is left after
//! the last sentence becomes a sentence of its own.
use vstd::prelude::*;
use crate::text::{append_string, push_char, chars_of, is_whitespace, is_ws, string_of_range, trim, trim_bounds};

verus! {

/// A sentence terminator.
pub open spec fn is_term(c: char) -> bool {
    c == '.' || c == '!' || c == '?'
}

/// Position `q` of `t` holds a terminator that is followed by whitespace or
/// by the end of the text.
pub open spec fn ends_sentence(t: Seq<char>, q: int) -> bool {
    &&& 0 <= q < t.len()
    &&& is_term(t[q])
    &&& (q + 1 == t.len() || is_ws(t[q + 1]))
}

/// The first position at or after `s` that ends a sentence.
pub open spec fn next_end(t: Seq<char>, s: int) -> Option<int>
    decreases t.len() - s,
{
    if !(0 <= s < t.len()) {
        None
    } else if ends_sentence(t, s) {
        Some(s)
    } else {
        next_end(t, s + 1)
    }
}

/// Where a sentence that ends at `q` starts when the search began at `s`:
/// just after the last line break in `t[s..q]`, or `s` if there is none.
pub open spec fn seg_start(t: Seq<char>, s: int, q: int) -> int
    decreases q - s,
{
    if q <= s {
        s
    } else if t[q - 1] == '\n' {
        q
    } else {
        seg_start(t, s, q - 1)
    }
}

/// The end of the run of whitespace that starts at `i`.
pub open spec fn ws_end(t: Seq<char>, i: int) -> int
    decreases t.len() - i,
{
    if 0 <= i < t.len() && is_ws(t[i]) {
        ws_end(t, i + 1)
    } else {
        i
    }
}

pub proof fn lemma_next_end(t: Seq<char>, s: int)
    ensures
        next_end(t, s) matches Some(q) ==> s <= q < t.len() && ends_sentence(t, q),
    decreases t.len() - s,
{
    if 0 <= s < t.len() && !ends_sentence(t, s) {
        lemma_next_end(t, s + 1);
    }
}

pub proof fn lemma_ws_end(t: Seq<char>, i: int)
    ensures
        ws_end(t, i) >= i,
        0 <= i <= t.len() ==> ws_end(t, i) <= t.len(),
    decreases t.len() - i,
{
    if 0 <= i < t.len() && is_ws(t[i]) {
        lemma_ws_end(t, i + 1);
    }
}

/// The spans `[start, end)` of the sentences that a search from `s` finds;
/// each ends just after its terminator, and the next search starts after the
/// whitespace that follows it.
pub open spec fn sentence_spans(t: Seq<char>, s: int) -> Seq<(int, int)>
    decreases t.len() - s,
{
    if 0 <= s < t.len() {
        match next_end(t, s) {
            Some(q) => {
                proof {
                    lemma_next_end(t, s);
                    lemma_ws_end(t, q + 1);
                }
                seq![(seg_start(t, s, q), q + 1)] + sentence_spans(t, ws_end(t, q + 1))
            },
            None => seq![],
        }
    } else {
        seq![]
    }
}

/// The sentences of `t`: each found span trimmed, then the trimmed rest of the
/// text after the last span when it is not blank; a text in which nothing was
/// found but that is not blank is one sentence.
pub open spec fn split_spec(t: Seq<char>) -> Seq<Seq<char>> {
    let spans = sentence_spans(t, 0);
    let found = Seq::new(spans.len(), |i: int| trim(t.subrange(spans[i].0, spans[i].1)));
    let last_end = if spans.len() == 0 {
        0
    } else {
        spans.last().1
    };
    let rest = trim(t.subrange(last_end, t.len() as int));
    let all = if last_end < t.len() && rest.len() > 0 {
        found.push(rest)
    } else {
        found
    };
    if all.len() == 0 && trim(t).len() > 0 {
        seq![trim(t)]
    } else {
        all
    }
}

proof fn lemma_next_end_at_most(t: Seq<char>, s: int, q: int)
    requires
        0 <= s <= q,
        ends_sentence(t, q),
    ensures
        next_end(t, s) matches Some(p) && s <= p <= q,
    decreases q - s,
{
    if !ends_sentence(t, s) {
        lemma_next_end_at_most(t, s + 1, q);
    }
}

proof fn lemma_ws_end_at_most(t: Seq<char>, i: int, q: int)
    requires
        i <= q < t.len(),
        !is_ws(t[q]),
    ensures
        ws_end(t, i) <= q,
    decreases q - i,
{
    if 0 <= i < t.len() && is_ws(t[i]) {
        lemma_ws_end_at_most(t, i + 1, q);
    }
}

proof fn lemma_seg_start_bounds(t: Seq<char>, s: int, q: int)
    requires
        s <= q,
    ensures
        s <= seg_start(t, s, q) <= q,
    decreases q - s,
{
    if q > s && t[q - 1] != '\n' {
        lemma_seg_start_bounds(t, s, q - 1);
    }
}

proof fn lemma_seg_start_no_break(t: Seq<char>, s: int, q: int)
    requires
        0 <= s <= q <= t.len(),
        forall|k: int| s <= k < q ==> t[k] != '\n',
    ensures
        seg_start(t, s, q) == s,
    decreases q - s,
{
    if q > s {
        lemma_seg_start_no_break(t, s, q - 1);
    }
}

/// The search from `s` finds a sentence that ends at every terminator `q`
/// after `s` that is followed by whitespace or by the end of the text.
proof fn lemma_spans_cover(t: Seq<char>, s: int, q: int) -> (i: int)
    requires
        0 <= s <= q,
        ends_sentence(t, q),
    ensures
        0 <= i < sentence_spans(t, s).len(),
        sentence_spans(t, s)[i].1 == q + 1,
        s <= sentence_spans(t, s)[i].0 <= q,
    decreases t.len() - s,
{
    lemma_next_end_at_most(t, s, q);
    lemma_next_end(t, s);
    let p = next_end(t, s)->0;
    lemma_ws_end(t, p + 1);
    let spans = sentence_spans(t, s);
    let rest = sentence_spans(t, ws_end(t, p + 1));
    assert(spans == seq![(seg_start(t, s, p), p + 1)] + rest);
    if p == q {
        lemma_seg_start_bounds(t, s, p);
        0
    } else {
        lemma_ws_end_at_most(t, p + 1, q);
        let j = lemma_spans_cover(t, ws_end(t, p + 1), q);
        assert(spans[j + 1] == rest[j]);
        j + 1
    }
}

proof fn lemma_trim_start_keeps_last(x: Seq<char>)
    requires
        x.len() > 0,
        !is_ws(x.last()),
    ensures
        crate::text::trim_start(x).len() > 0,
        crate::text::trim_start(x).last() == x.last(),
    decreases x.len(),
{
    if is_ws(x[0]) {
        assert(x.drop_first().last() == x.last());
        lemma_trim_start_keeps_last(x.drop_first());
    }
}

proof fn lemma_trim_keeps_last(x: Seq<char>)
    requires
        x.len() > 0,
        !is_ws(x.last()),
    ensures
        trim(x).len() > 0,
        trim(x).last() == x.last(),
{
    lemma_trim_start_keeps_last(x);
}

/// Every `.`, `!` or `?` that is followed by whitespace or by the end of the
/// text ends a sentence: one of the sentences found is the trimmed text from
/// its start up to and including that terminator, and it ends with it.
pub proof fn law_terminator_ends_sentence(t: Seq<char>, q: int) -> (i: int)
    requires
        0 <= q < t.len(),
        t[q] == '.' || t[q] == '!' || t[q] == '?',
        q + 1 == t.len() || is_ws(t[q + 1]),
    ensures
        0 <= i < split_spec(t).len(),
        i < sentence_spans(t, 0).len(),
        sentence_spans(t, 0)[i].1 == q + 1,
        0 <= sentence_spans(t, 0)[i].0 <= q,
        split_spec(t)[i] == trim(t.subrange(sentence_spans(t, 0)[i].0, q + 1)),
        split_spec(t)[i].len() > 0,
        split_spec(t)[i].last() == t[q],
{
    let i = lemma_spans_cover(t, 0, q);
    let spans = sentence_spans(t, 0);
    let found = Seq::new(spans.len(), |k: int| trim(t.subrange(spans[k].0, spans[k].1)));
    assert(split_spec(t)[i] == found[i]);
    let piece = t.subrange(spans[i].0, q + 1);
    assert(piece.last() == t[q]);
    lemma_trim_keeps_last(piece);
    i
}

/// A sentence ended by `.`, `!` or `?` and followed by a space is the first
/// sentence of the text, whatever follows it; it must not hold another
/// terminator or a line break.
pub proof fn law_first_sentence(s1: Seq<char>, s2: Seq<char>)
    requires
        s1.len() > 0,
        !is_ws(s1[0]),
        s1.last() == '.' || s1.last() == '!' || s1.last() == '?',
        forall|k: int|
            0 <= k < s1.len() - 1 ==> s1[k] != '.' && s1[k] != '!' && s1[k] != '?' && s1[k] != '\n',
    ensures
        split_spec(s1 + seq![' '] + s2).len() > 0,
        split_spec(s1 + seq![' '] + s2)[0] == s1,
{
    let t = s1 + seq![' '] + s2;
    let m = s1.len() - 1;
    assert(t[m] == s1.last());
    assert(t[m + 1] == ' ');
    assert(is_ws(' '));
    assert forall|k: int| 0 <= k < m implies !ends_sentence(t, k) by {
        assert(t[k] == s1[k]);
    }
    assert(ends_sentence(t, m));
    lemma_next_end_at_most(t, 0, m);
    lemma_next_end(t, 0);
    assert(next_end(t, 0) == Some(m)) by {
        let p = next_end(t, 0)->0;
        if p < m {
            assert(!ends_sentence(t, p));
        }
    }
    assert forall|k: int| 0 <= k < m implies t[k] != '\n' by {
        assert(t[k] == s1[k]);
    }
    lemma_seg_start_no_break(t, 0, m);
    let i = law_terminator_ends_sentence(t, m);
    let spans = sentence_spans(t, 0);
    lemma_ws_end(t, m + 1);
    assert(spans[0] == (0int, m + 1));
    assert(i == 0) by {
        if i != 0 {
            // spans after the first start after it
            let rest = sentence_spans(t, ws_end(t, m + 1));
            assert(spans == seq![(0int, m + 1)] + rest);
            let j = i - 1;
            assert(spans[i] == rest[j]);
            lemma_rest_spans_start_after(t, ws_end(t, m + 1), j);
        }
    }
    assert(t.subrange(0, m + 1) == s1);
    assert(crate::text::trim_start(s1) == s1);
    assert(!is_ws(s1.last()));
    assert(crate::text::trim_end(s1) == s1);
}

proof fn lemma_rest_spans_start_after(t: Seq<char>, s: int, j: int)
    requires
        0 <= s,
        0 <= j < sentence_spans(t, s).len(),
    ensures
        s <= sentence_spans(t, s)[j].0,
        sentence_spans(t, s)[j].0 < sentence_spans(t, s)[j].1,
    decreases t.len() - s,
{
    lemma_next_end(t, s);
    let p = next_end(t, s)->0;
    lemma_ws_end(t, p + 1);
    let rest = sentence_spans(t, ws_end(t, p + 1));
    assert(sentence_spans(t, s) == seq![(seg_start(t, s, p), p + 1)] + rest);
    lemma_seg_start_bounds(t, s, p);
    if j > 0 {
        assert(sentence_spans(t, s)[j] == rest[j - 1]);
        lemma_rest_spans_start_after(t, ws_end(t, p + 1), j - 1);
    }
}

/// The views of a sequence of strings.
pub open spec fn views(v: Seq<String>) -> Seq<Seq<char>> {
    v.map_values(|s: String| s@)
}

fn ends_sentence_at(t: &Vec<char>, q: usize) -> (r: bool)
    requires
        q < t@.len(),
    ensures
        r == ends_sentence(t@, q as int),
{
    let n = t.len();
    let c = t[q];
    (c == '.' || c == '!' || c == '?') && (q + 1 == n || is_whitespace(t[q + 1]))
}

/// Splits `text` into sentences.
pub fn split_sentences(text: &str) -> (r: Vec<String>)
    ensures
        views(r@) == split_spec(text@),
{
    let t = chars_of(text);
    let n = t.len();
    let ghost tv = t@;
    let mut out: Vec<String> = Vec::new();
    let ghost mut spans: Seq<(int, int)> = seq![];
    let mut s: usize = 0;
    let mut last_end: usize = 0;
    loop
        invariant
            tv == t@,
            tv == text@,
            n == tv.len(),
            last_end <= s <= n,
            sentence_spans(tv, 0) == spans + sentence_spans(tv, s as int),
            forall|k: int|
                0 <= k < spans.len() ==> 0 <= #[trigger] spans[k].0 <= spans[k].1 <= n,
            views(out@) == Seq::new(
                spans.len(),
                |k: int| trim(tv.subrange(spans[k].0, spans[k].1)),
            ),
            last_end == (if spans.len() == 0 {
                0
            } else {
                spans.last().1
            }),
        ensures
            last_end <= n,
            spans == sentence_spans(tv, 0),
            views(out@) == Seq::new(
                spans.len(),
                |k: int| trim(tv.subrange(spans[k].0, spans[k].1)),
            ),
            last_end == (if spans.len() == 0 {
                0
            } else {
                spans.last().1
            }),
        decreases n - s,
    {
        let mut i = s;
        let mut seg = s;
        while i < n && !ends_sentence_at(&t, i)
            invariant
                tv == t@,
                n == tv.len(),
                s <= seg <= i <= n,
                next_end(tv, s as int) == next_end(tv, i as int),
                seg == seg_start(tv, s as int, i as int),
            decreases n - i,
        {
            if t[i] == '\n' {
                seg = i + 1;
            }
            i += 1;
        }
        if i == n {
            assert(sentence_spans(tv, s as int) == Seq::<(int, int)>::empty());
            break ;
        }
        let q = i;
        let (a, b) = trim_bounds(&t, seg, q + 1);
        let sentence = string_of_range(&t, a, b);
        let ghost old_views = views(out@);
        out.push(sentence);
        let mut j = q + 1;
        while j < n && is_whitespace(t[j])
            invariant
                tv == t@,
                n == tv.len(),
                q + 1 <= j <= n,
                ws_end(tv, (q + 1) as int) == ws_end(tv, j as int),
            decreases n - j,
        {
            j += 1;
        }
        proof {
            assert(sentence_spans(tv, s as int) == seq![(seg as int, q + 1)] + sentence_spans(
                tv,
                j as int,
            ));
            spans = spans.push((seg as int, q + 1));
            assert(views(out@) == old_views.push(trim(tv.subrange(seg as int, q + 1))));
            assert(views(out@) =~= Seq::new(
                spans.len(),
                |k: int| trim(tv.subrange(spans[k].0, spans[k].1)),
            ));
        }
        last_end = q + 1;
        s = j;
    }
    assert(spans == sentence_spans(tv, 0));
    if last_end < n {
        let (a, b) = trim_bounds(&t, last_end, n);
        if a < b {
            let rest = string_of_range(&t, a, b);
            let ghost before = views(out@);
            out.push(rest);
            assert(views(out@) == before.push(tv.subrange(a as int, b as int)));
        }
    }
    if out.len() == 0 {
        let (a, b) = trim_bounds(&t, 0, n);
        assert(tv.subrange(0, n as int) == tv);
        if a < b {
            let all = string_of_range(&t, a, b);
            out.push(all);
            assert(views(out@) =~= seq![trim(tv)]);
        }
    }
    out
}

/// `parts` joined with `sep` between neighbours.
pub open spec fn join(parts: Seq<Seq<char>>, sep: Seq<char>) -> Seq<char>
    decreases parts.len(),
{
    if parts.len() == 0 {
        seq![]
    } else if parts.len() == 1 {
        parts[0]
    } else {
        join(parts.drop_last(), sep) + sep + parts.last()
    }
}

/// How many entries of `k` are `false`.
pub open spec fn count_false(k: Seq<bool>) -> nat
    decreases k.len(),
{
    if k.len() == 0 {
        0
    } else {
        count_false(k.drop_last()) + if k.last() {
            0nat
        } else {
            1nat
        }
    }
}

/// Chunks of `sents`: `keep[i]` says that sentence `i + 1` stays in the chunk
/// of sentence `i` (joined by one space); otherwise it opens a new chunk.
pub open spec fn group_spec(sents: Seq<Seq<char>>, keep: Seq<bool>) -> Seq<Seq<char>>
    decreases sents.len(),
{
    if sents.len() == 0 {
        seq![]
    } else if sents.len() == 1 {
        seq![sents[0]]
    } else {
        let prev = group_spec(sents.drop_last(), keep.take(sents.len() - 2));
        if keep[sents.len() - 2] {
            prev.drop_last().push(prev.last() + seq![' '] + sents.last())
        } else {
            prev.push(sents.last())
        }
    }
}

proof fn lemma_group_len(sents: Seq<Seq<char>>, keep: Seq<bool>)
    requires
        sents.len() >= 1,
        keep.len() + 1 == sents.len(),
    ensures
        group_spec(sents, keep).len() == 1 + count_false(keep),
    decreases sents.len(),
{
    if sents.len() > 1 {
        let n = sents.len();
        assert(keep.take(n - 2) == keep.drop_last());
        lemma_group_len(sents.drop_last(), keep.take(n - 2));
    } else {
        assert(keep.len() == 0);
    }
}

proof fn lemma_join_push(parts: Seq<Seq<char>>, sep: Seq<char>, x: Seq<char>)
    requires
        parts.len() >= 1,
    ensures
        join(parts.push(x), sep) == join(parts, sep) + sep + x,
{
    assert(parts.push(x).drop_last() == parts);
}

proof fn lemma_join_extend_last(parts: Seq<Seq<char>>, sep: Seq<char>, x: Seq<char>)
    requires
        parts.len() >= 1,
    ensures
        join(parts.drop_last().push(parts.last() + sep + x), sep) == join(parts, sep) + sep + x,
{
    let z = parts.last() + sep + x;
    if parts.len() == 1 {
        assert(parts.drop_last().push(z) == seq![z]);
        assert(join(parts, sep) == parts[0]);
    } else {
        let init = parts.drop_last();
        lemma_join_push(init, sep, z);
        assert(join(parts, sep) == join(init, sep) + sep + parts.last());
        assert(join(init, sep) + sep + z =~= join(init, sep) + sep + parts.last() + sep + x);
    }
}

/// Grouping keeps the text: the chunks joined by single spaces are the
/// sentences joined by single spaces, and there is one chunk more than there
/// are breaks between neighbouring sentences.
pub proof fn law_grouping_keeps_text(sents: Seq<Seq<char>>, keep: Seq<bool>)
    requires
        sents.len() >= 1,
        keep.len() + 1 == sents.len(),
    ensures
        join(group_spec(sents, keep), seq![' ']) == join(sents, seq![' ']),
        group_spec(sents, keep).len() == 1 + count_false(keep),
    decreases sents.len(),
{
    lemma_group_len(sents, keep);
    if sents.len() > 1 {
        let n = sents.len();
        let prev = group_spec(sents.drop_last(), keep.take(n - 2));
        law_grouping_keeps_text(sents.drop_last(), keep.take(n - 2));
        lemma_group_len(sents.drop_last(), keep.take(n - 2));
        if keep[n - 2] {
            lemma_join_extend_last(prev, seq![' '], sents.last());
        } else {
            lemma_join_push(prev, seq![' '], sents.last());
        }
    }
}

/// Groups neighbouring sentences into chunks; `keep[i]` tells whether
/// sentence `i + 1` belongs to the chunk of sentence `i`.
pub fn group_sentences(sentences: &Vec<String>, keep: &Vec<bool>) -> (r: Vec<String>)
    requires
        sentences@.len() == 0 || keep@.len() + 1 == sentences@.len(),
    ensures
        views(r@) == group_spec(views(sentences@), keep@),
{
    let n = sentences.len();
    if n == 0 {
        let r: Vec<String> = Vec::new();
        assert(views(r@) =~= seq![]);
        return r;
    }
    let ghost sv = views(sentences@);
    let mut done: Vec<String> = Vec::new();
    let mut current = sentences[0].clone();
    let mut i: usize = 1;
    assert(sv.take(1).drop_last() == sv.take(0));
    assert(group_spec(sv.take(1), keep@.take(0)) == seq![sv[0]]);
    while i < n
        invariant
            1 <= i <= n,
            n == sentences@.len(),
            keep@.len() + 1 == n,
            sv == views(sentences@),
            group_spec(sv.take(i as int), keep@.take(i - 1)) == views(done@).push(current@),
        decreases n - i,
    {
        let ghost prev = views(done@).push(current@);
        let ghost si = sv.take(i + 1);
        assert(si.drop_last() == sv.take(i as int));
        assert(keep@.take(i as int).take(i - 1) == keep@.take(i - 1));
        assert(si.last() == sentences@[i as int]@);
        if keep[i - 1] {
            let ghost old_cur = current@;
            let mut grown = current;
            push_char(&mut grown, ' ');
            append_string(&mut grown, &sentences[i]);
            current = grown;
            assert(current@ =~= old_cur + seq![' '] + si.last());
            assert(prev.drop_last() == views(done@));
            assert(views(done@).push(current@) == prev.drop_last().push(prev.last() + seq![' '] + si.last()));
        } else {
            let ghost d = views(done@);
            done.push(current);
            current = sentences[i].clone();
            assert(views(done@) == d.push(prev.last()));
        }
        i += 1;
    }
    assert(sv.take(n as int) == sv);
    assert(keep@.take(n - 1) == keep@);
    let ghost d = views(done@);
    done.push(current);
    assert(views(done@) == d.push(current@));
    done
}


/// The sentences of `text` whose embeddings semantic chunking asks for;
/// `None` when there are none, and then the text gives no chunk and no
/// embedding is requested.
pub fn sentences_to_embed(text: &str) -> (r: Option<Vec<String>>)
    ensures
        match r {
            Some(v) => views(v@) == split_spec(text@) && v@.len() > 0,
            None => split_spec(text@).len() == 0,
        },
{
    let sentences = split_sentences(text);
    if sentences.len() == 0 {
        None
    } else {
        Some(sentences)
    }
}

/// The error when an embedding service gives back another number of
/// embeddings than it was given sentences.
pub open spec fn mismatch_message() -> Seq<char> {
    "Mismatch between sentences count and embeddings count"@
}

/// Accepts the embeddings of the sentences only when there is one for each.
pub fn check_embedding_count(sentence_count: usize, embedding_count: usize) -> (r: Result<(), String>)
    ensures
        r is Ok <==> sentence_count == embedding_count,
        r matches Err(e) ==> e@ == mismatch_message(),
{
    if sentence_count == embedding_count {
        Ok(())
    } else {
        Err("Mismatch between sentences count and embeddings count".to_owned())
    }
}

} // verus!
