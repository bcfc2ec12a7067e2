//! Character-level helpers shared by the parsers of this crate.
//!
//! Strings are modelled by their `Seq<char>` view. Whitespace is the Unicode
//! `White_Space` property, which is what `char::is_whitespace`, `str::trim`
//! and the `\s` class of regular expressions use.
use vstd::prelude::*;

verus! {

/// The Unicode `White_Space` property.
pub open spec fn is_ws(c: char) -> bool {
    let u = c as u32;
    ||| (9 <= u && u <= 13)
    ||| u == 0x20
    ||| u == 0x85
    ||| u == 0xa0
    ||| u == 0x1680
    ||| (0x2000 <= u && u <= 0x200a)
    ||| u == 0x2028
    ||| u == 0x2029
    ||| u == 0x202f
    ||| u == 0x205f
    ||| u == 0x3000
}

/// Executable form of [`is_ws`].
pub fn is_whitespace(c: char) -> (r: bool)
    ensures
        r == is_ws(c),
{
    let u = c as u32;
    (9 <= u && u <= 13) || u == 0x20 || u == 0x85 || u == 0xa0 || u == 0x1680 || (0x2000 <= u
        && u <= 0x200a) || u == 0x2028 || u == 0x2029 || u == 0x202f || u == 0x205f || u == 0x3000
}

/// `s` without its leading whitespace.
pub open spec fn trim_start(s: Seq<char>) -> Seq<char>
    decreases s.len(),
{
    if s.len() > 0 && is_ws(s[0]) {
        trim_start(s.drop_first())
    } else {
        s
    }
}

/// `s` without its trailing whitespace.
pub open spec fn trim_end(s: Seq<char>) -> Seq<char>
    decreases s.len(),
{
    if s.len() > 0 && is_ws(s.last()) {
        trim_end(s.drop_last())
    } else {
        s
    }
}

/// `s` without leading and trailing whitespace, as `str::trim` gives it.
pub open spec fn trim(s: Seq<char>) -> Seq<char> {
    trim_end(trim_start(s))
}

/// The characters of `s`, in order.
pub fn chars_of(s: &str) -> (v: Vec<char>)
    ensures
        v@ == s@,
{
    let mut v: Vec<char> = Vec::new();
    for c in it: s.chars()
        invariant
            it.seq() == s@,
            v@ == it.seq().take(it.index() as int),
    {
        v.push(c);
    }
    v
}

/// Appends one character (`String::push`).
#[verifier::external_body]
pub(crate) fn push_char(s: &mut String, c: char)
    ensures
        final(s)@ == old(s)@.push(c),
{
    s.push(c);
}

/// Appends a string (`String::push_str`).
#[verifier::external_body]
pub(crate) fn append_string(s: &mut String, t: &String)
    ensures
        final(s)@ == old(s)@ + t@,
{
    s.push_str(t);
}

/// The string made of `v[lo..hi]`.
pub fn string_of_range(v: &Vec<char>, lo: usize, hi: usize) -> (s: String)
    requires
        lo <= hi <= v@.len(),
    ensures
        s@ == v@.subrange(lo as int, hi as int),
{
    let mut s = String::new();
    let mut i = lo;
    while i < hi
        invariant
            lo <= i <= hi <= v@.len(),
            s@ == v@.subrange(lo as int, i as int),
        decreases hi - i,
    {
        push_char(&mut s, v[i]);
        assert(v@.subrange(lo as int, i + 1) == v@.subrange(lo as int, i as int).push(v@[i as int]));
        i += 1;
    }
    s
}

/// Bounds of the trimmed part of `v[lo..hi]`.
pub fn trim_bounds(v: &Vec<char>, lo: usize, hi: usize) -> (r: (usize, usize))
    requires
        lo <= hi <= v@.len(),
    ensures
        lo <= r.0 <= r.1 <= hi,
        v@.subrange(r.0 as int, r.1 as int) == trim(v@.subrange(lo as int, hi as int)),
{
    let mut a = lo;
    while a < hi && is_whitespace(v[a])
        invariant
            lo <= a <= hi <= v@.len(),
            trim_start(v@.subrange(lo as int, hi as int)) == trim_start(
                v@.subrange(a as int, hi as int),
            ),
        decreases hi - a,
    {
        assert(v@.subrange(a as int, hi as int).drop_first() == v@.subrange(a + 1, hi as int));
        a += 1;
    }
    let mut b = hi;
    while b > a && is_whitespace(v[b - 1])
        invariant
            lo <= a <= b <= hi <= v@.len(),
            trim_end(trim_start(v@.subrange(lo as int, hi as int))) == trim_end(
                v@.subrange(a as int, b as int),
            ),
        decreases b - a,
    {
        assert(v@.subrange(a as int, b as int).drop_last() == v@.subrange(a as int, b - 1));
        b -= 1;
    }
    (a, b)
}

/// `str::trim`, as an owned string.
pub fn trimmed(s: &str) -> (r: String)
    ensures
        r@ == trim(s@),
{
    let v = chars_of(s);
    let (a, b) = trim_bounds(&v, 0, v.len());
    assert(v@.subrange(0, v@.len() as int) == v@);
    string_of_range(&v, a, b)
}

/// The first position at or after `i` where `pat` occurs in `s`.
pub open spec fn find_sub(s: Seq<char>, pat: Seq<char>, i: int) -> Option<int>
    decreases s.len() + 1 - i,
{
    if !(0 <= i && i + pat.len() <= s.len()) {
        None
    } else if s.subrange(i, i + pat.len()) == pat {
        Some(i)
    } else {
        find_sub(s, pat, i + 1)
    }
}

pub proof fn lemma_find_sub(s: Seq<char>, pat: Seq<char>, i: int)
    ensures
        find_sub(s, pat, i) matches Some(k) ==> i <= k && k + pat.len() <= s.len()
            && s.subrange(k, k + pat.len()) == pat,
    decreases s.len() + 1 - i,
{
    if 0 <= i && i + pat.len() <= s.len() && s.subrange(i, i + pat.len()) != pat {
        lemma_find_sub(s, pat, i + 1);
    }
}

/// `pat` occurs in `v` at position `at`.
pub fn occurs_at(v: &Vec<char>, at: usize, pat: &Vec<char>) -> (r: bool)
    ensures
        r == (at + pat@.len() <= v@.len() && v@.subrange(at as int, at + pat@.len()) == pat@),
{
    if pat.len() > v.len() || at > v.len() - pat.len() {
        return false;
    }
    let n = v.len();
    let mut j: usize = 0;
    while j < pat.len()
        invariant
            n == v@.len(),
            j <= pat@.len(),
            at + pat@.len() <= v@.len(),
            forall|k: int| 0 <= k < j ==> v@[at + k] == pat@[k],
        decreases pat@.len() - j,
    {
        if v[at + j] != pat[j] {
            assert(v@.subrange(at as int, at + pat@.len())[j as int] != pat@[j as int]);
            return false;
        }
        j += 1;
    }
    assert(v@.subrange(at as int, at + pat@.len()) =~= pat@);
    true
}

/// The first position at or after `from` where `pat` occurs in `v`.
pub fn find_from(v: &Vec<char>, pat: &Vec<char>, from: usize) -> (r: Option<usize>)
    ensures
        match r {
            Some(k) => find_sub(v@, pat@, from as int) == Some(k as int),
            None => find_sub(v@, pat@, from as int) is None,
        },
{
    let n = v.len();
    let plen = pat.len();
    if plen > n || from > n - plen {
        return None;
    }
    let limit = n - plen;
    let mut i = from;
    loop
        invariant
            from <= i <= limit,
            limit + plen == n,
            n == v@.len(),
            plen == pat@.len(),
            find_sub(v@, pat@, from as int) == find_sub(v@, pat@, i as int),
        decreases limit - i,
    {
        if occurs_at(v, i, pat) {
            return Some(i);
        }
        if i == limit {
            assert(find_sub(v@, pat@, i + 1) is None);
            return None;
        }
        i += 1;
    }
}

/// `s` followed by `t`.
pub fn concat(s: &str, t: &str) -> (r: String)
    ensures
        r@ == s@ + t@,
{
    let mut r = s.to_owned();
    let tv = chars_of(t);
    let mut i: usize = 0;
    while i < tv.len()
        invariant
            i <= tv@.len(),
            tv@ == t@,
            r@ == s@ + tv@.take(i as int),
        decreases tv@.len() - i,
    {
        push_char(&mut r, tv[i]);
        assert(s@ + tv@.take(i + 1) =~= (s@ + tv@.take(i as int)).push(tv@[i as int]));
        i += 1;
    }
    assert(tv@.take(tv@.len() as int) == tv@);
    r
}

/// `s` cut at the first `c`: the text before it and the text after it.
pub open spec fn split_once_spec(s: Seq<char>, c: char) -> Option<(Seq<char>, Seq<char>)> {
    match find_sub(s, seq![c], 0) {
        Some(k) => Some((s.take(k), s.skip(k + 1))),
        None => None,
    }
}

/// `str::split_once` with a character.
pub fn split_once(s: &str, c: char) -> (r: Option<(String, String)>)
    ensures
        match r {
            Some((a, b)) => split_once_spec(s@, c) == Some((a@, b@)),
            None => split_once_spec(s@, c) is None,
        },
{
    let v = chars_of(s);
    let n = v.len();
    let mut pat: Vec<char> = Vec::new();
    pat.push(c);
    assert(pat@ == seq![c]);
    match find_from(&v, &pat, 0) {
        Some(k) => {
            proof {
                lemma_find_sub(v@, pat@, 0);
            }
            let a = string_of_range(&v, 0, k);
            let b = string_of_range(&v, k + 1, n);
            Some((a, b))
        },
        None => None,
    }
}

/// `s` with every trailing copy of `pat` removed (`str::trim_end_matches`).
pub open spec fn strip_suffixes(s: Seq<char>, pat: Seq<char>) -> Seq<char>
    decreases s.len(),
{
    if pat.len() > 0 && pat.is_suffix_of(s) {
        strip_suffixes(s.take(s.len() - pat.len()), pat)
    } else {
        s
    }
}

/// `str::trim_end_matches` with a string pattern.
pub fn trim_end_matches(s: &str, pat: &str) -> (r: String)
    ensures
        r@ == strip_suffixes(s@, pat@),
{
    let v = chars_of(s);
    let p = chars_of(pat);
    let plen = p.len();
    let mut end = v.len();
    if plen == 0 {
        assert(v@.subrange(0, end as int) == v@);
        return string_of_range(&v, 0, end);
    }
    assert(v@.take(end as int) == v@);
    while end >= plen && occurs_at(&v, end - plen, &p)
        invariant
            end <= v@.len(),
            plen == p@.len(),
            plen > 0,
            strip_suffixes(s@, pat@) == strip_suffixes(v@.take(end as int), p@),
            v@ == s@,
            p@ == pat@,
        decreases end,
    {
        assert(p@.is_suffix_of(v@.take(end as int)));
        assert(v@.take(end as int).take(end - plen) == v@.take(end - plen));
        end = end - plen;
    }
    assert(!p@.is_suffix_of(v@.take(end as int))) by {
        if p@.is_suffix_of(v@.take(end as int)) {
            assert(v@.subrange(end - plen, end as int) == v@.take(end as int).subrange(
                end - plen,
                end as int,
            ));
        }
    }
    assert(v@.subrange(0, end as int) == v@.take(end as int));
    string_of_range(&v, 0, end)
}

/// Whether `pat` ends `s` (`str::ends_with`).
pub fn ends_with(s: &str, pat: &str) -> (r: bool)
    ensures
        r == pat@.is_suffix_of(s@),
{
    let v = chars_of(s);
    let p = chars_of(pat);
    if p.len() > v.len() {
        return false;
    }
    let r = occurs_at(&v, v.len() - p.len(), &p);
    assert(r == (v@.subrange(v@.len() - p@.len(), v@.len() as int) == p@));
    r
}

/// Cutting at the first `c` loses nothing: the two pieces around `c` give
/// back the text, and the first piece holds no `c`.
pub proof fn law_split_once_round_trip(s: Seq<char>, c: char)
    ensures
        split_once_spec(s, c) matches Some((a, b)) ==> a + seq![c] + b == s && !a.contains(c),
        split_once_spec(s, c) is None ==> !s.contains(c),
{
    lemma_find_sub(s, seq![c], 0);
    lemma_find_sub_first(s, seq![c], 0);
    match find_sub(s, seq![c], 0) {
        Some(k) => {
            assert(s.subrange(k, k + 1) == seq![c]);
            assert(s.take(k) + seq![c] + s.skip(k + 1) =~= s);
            if s.take(k).contains(c) {
                let j = choose|j: int| 0 <= j < k && s.take(k)[j] == c;
                assert(s.subrange(j, j + 1) =~= seq![c]);
            }
        },
        None => {
            if s.contains(c) {
                let j = choose|j: int| 0 <= j < s.len() && s[j] == c;
                assert(s.subrange(j, j + 1) =~= seq![c]);
            }
        },
    }
}

/// No occurrence of `pat` starts between `i` and the position found.
pub proof fn lemma_find_sub_first(s: Seq<char>, pat: Seq<char>, i: int)
    requires
        0 <= i,
    ensures
        forall|j: int|
            i <= j && j + pat.len() <= s.len() && #[trigger] s.subrange(j, j + pat.len()) == pat ==> (
            find_sub(s, pat, i) matches Some(k) && k <= j),
    decreases s.len() + 1 - i,
{
    if i + pat.len() <= s.len() && s.subrange(i, i + pat.len()) != pat {
        lemma_find_sub_first(s, pat, i + 1);
    }
}

} // verus!
