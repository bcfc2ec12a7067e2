//! Conversion of chat messages into the request shapes of the providers.
//!
//! Images travel as data URIs `data:<mime>;base64,<data>` where a provider
//! takes inline data; any other image becomes the text `[Image: <url>]`.
use vstd::prelude::*;
use crate::llm::ContentPart;
use crate::text::{chars_of, concat, find_sub, occurs_at};

pub mod anthropic;
pub mod apple;
pub mod google;
pub mod openai;

verus! {
/// The text that stands for an image a provider cannot take inline.
pub open spec fn image_placeholder(url: Seq<char>) -> Seq<char> {
    "[Image: "@ + url + "]"@
}

pub(crate) fn placeholder(url: &String) -> (r: String)
    ensures
        r@ == image_placeholder(url@),
{
    let a = concat("[Image: ", url.as_str());
    concat(a.as_str(), "]")
}

pub(crate) fn prefix_at_start(v: &Vec<char>, pat: &str) -> (r: bool)
    ensures
        r == pat@.is_prefix_of(v@),
{
    let p = chars_of(pat);
    let r = occurs_at(v, 0, &p);
    assert(r == (p@.len() <= v@.len() && v@.subrange(0, p@.len() as int) == p@));
    r
}

/// Searching a suffix is searching the whole from where the suffix starts.
pub proof fn lemma_find_sub_shift(s: Seq<char>, pat: Seq<char>, off: int, i: int)
    requires
        0 <= off <= s.len(),
        0 <= i,
    ensures
        find_sub(s.skip(off), pat, i) == match find_sub(s, pat, off + i) {
            Some(k) => Some(k - off),
            None => None::<int>,
        },
    decreases s.len() + 1 - off - i,
{
    let t = s.skip(off);
    if i + pat.len() <= t.len() {
        assert(t.subrange(i, i + pat.len()) == s.subrange(off + i, off + i + pat.len()));
        if t.subrange(i, i + pat.len()) != pat {
            lemma_find_sub_shift(s, pat, off, i + 1);
        }
    }
}

/// The views of `parts`.
pub open spec fn part_views(parts: Seq<ContentPart>) -> Seq<(bool, Seq<char>)> {
    parts.map_values(|p: ContentPart| crate::llm::part_view(p))
}

/// A copy of `parts`.
pub fn copy_parts(parts: &Vec<ContentPart>) -> (r: Vec<ContentPart>)
    ensures
        part_views(r@) == part_views(parts@),
{
    let mut r: Vec<ContentPart> = Vec::new();
    let mut i: usize = 0;
    while i < parts.len()
        invariant
            i <= parts@.len(),
            part_views(r@) == part_views(parts@).take(i as int),
        decreases parts@.len() - i,
    {
        let p = match &parts[i] {
            ContentPart::Text(t) => ContentPart::Text(t.clone()),
            ContentPart::ImageUrl(u) => ContentPart::ImageUrl(u.clone()),
        };
        let ghost before = part_views(r@);
        r.push(p);
        assert(part_views(r@) == before.push(crate::llm::part_view(parts@[i as int])));
        assert(part_views(parts@).take(i + 1) == part_views(parts@).take(i as int).push(
            crate::llm::part_view(parts@[i as int]),
        ));
        i += 1;
    }
    assert(part_views(parts@).take(parts@.len() as int) == part_views(parts@));
    r
}

} // verus!
