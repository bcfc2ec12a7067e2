//! What the chat services give back: outputs built from provider responses,
//! and the merged list of the models that the services offer.
use vstd::prelude::*;
use serde_json::Value;
use crate::llm::{ContentPart, LlmOutput, TokenUsage, part_view};
use crate::chunking::views;
use crate::text::concat;
use crate::providers::part_views;

verus! {

/// Text parts made of `texts`.
pub open spec fn text_parts(texts: Seq<Seq<char>>) -> Seq<(bool, Seq<char>)> {
    texts.map_values(|t: Seq<char>| (false, t))
}

fn texts_to_parts(texts: Vec<String>) -> (r: Vec<ContentPart>)
    ensures
        part_views(r@) == text_parts(views(texts@)),
{
    let ghost tv = views(texts@);
    let mut r: Vec<ContentPart> = Vec::new();
    let mut rest = texts;
    let mut taken: usize = 0;
    let ghost all = rest@;
    let total = rest.len();
    while rest.len() > 0
        invariant
            total == all.len(),
            tv == views(all),
            taken + rest@.len() == all.len(),
            rest@ == all.skip(taken as int),
            part_views(r@) == text_parts(tv.take(taken as int)),
        decreases rest@.len(),
    {
        let t = rest.remove(0);
        let ghost before = part_views(r@);
        r.push(ContentPart::Text(t));
        assert(part_views(r@) == before.push((false, t@)));
        assert(tv.take(taken + 1) == tv.take(taken as int).push(t@));
        assert(rest@ =~= all.skip(taken + 1));
        taken += 1;
    }
    assert(tv.take(taken as int) == tv);
    r
}

/// The output of an Anthropic response: its text blocks, and the usage with
/// the total of input and output tokens.
pub fn anthropic_output(texts: Vec<String>, input_tokens: u32, output_tokens: u32) -> (r: LlmOutput)
    requires
        input_tokens + output_tokens <= u32::MAX,
    ensures
        part_views(r.content@) == text_parts(views(texts@)),
        r.usage matches Some(u) && u.prompt_tokens == input_tokens && u.completion_tokens
            == output_tokens && u.total_tokens == input_tokens + output_tokens,
        r.raw is None,
{
    LlmOutput {
        content: texts_to_parts(texts),
        usage: Some(
            TokenUsage {
                prompt_tokens: input_tokens,
                completion_tokens: output_tokens,
                total_tokens: input_tokens + output_tokens,
            },
        ),
        raw: None,
    }
}

/// The texts that are present in `parts`, in order.
pub open spec fn present_texts(parts: Seq<Option<String>>) -> Seq<Seq<char>>
    decreases parts.len(),
{
    if parts.len() == 0 {
        seq![]
    } else {
        let prev = present_texts(parts.drop_last());
        match parts.last() {
            Some(t) => prev.push(t@),
            None => prev,
        }
    }
}

/// The output of a Gemini response, given the parts of its first candidate:
/// one text part for each part that has text.
pub fn google_output(first_candidate_parts: Option<Vec<Option<String>>>, usage: Option<TokenUsage>) -> (r: LlmOutput)
    ensures
        part_views(r.content@) == match first_candidate_parts {
            Some(ps) => text_parts(present_texts(ps@)),
            None => Seq::<(bool, Seq<char>)>::empty(),
        },
        r.usage == usage,
        r.raw is None,
{
    let mut content: Vec<ContentPart> = Vec::new();
    match first_candidate_parts {
        Some(ps) => {
            let mut i: usize = 0;
            while i < ps.len()
                invariant
                    i <= ps@.len(),
                    part_views(content@) == text_parts(present_texts(ps@.take(i as int))),
                decreases ps@.len() - i,
            {
                assert(ps@.take(i + 1).drop_last() == ps@.take(i as int));
                assert(ps@.take(i + 1).last() == ps@[i as int]);
                match &ps[i] {
                    Some(t) => {
                        let ghost before = part_views(content@);
                        content.push(ContentPart::Text(t.clone()));
                        assert(part_views(content@) == before.push((false, t@)));
                        assert(text_parts(present_texts(ps@.take(i + 1))) == text_parts(
                            present_texts(ps@.take(i as int)),
                        ).push((false, t@)));
                    },
                    None => {},
                }
                i += 1;
            }
            assert(ps@.take(ps@.len() as int) == ps@);
        },
        None => {
            assert(part_views(content@) =~= Seq::<(bool, Seq<char>)>::empty());
        },
    }
    LlmOutput { content, usage, raw: None }
}

/// The output of an OpenAI-compatible response, given the content of its
/// first choice (the outer `None` when there is no choice): one text part
/// when that content is present; the rest of the response is kept raw.
pub fn openai_output(first_choice_content: Option<Option<String>>, usage: Option<TokenUsage>, raw: Value) -> (r: LlmOutput)
    ensures
        part_views(r.content@) == match first_choice_content {
            Some(Some(t)) => seq![(false, t@)],
            _ => Seq::<(bool, Seq<char>)>::empty(),
        },
        r.usage == usage,
        r.raw == Some(raw),
{
    let mut content: Vec<ContentPart> = Vec::new();
    match first_choice_content {
        Some(Some(t)) => {
            content.push(ContentPart::Text(t));
            assert(part_views(content@) =~= seq![part_view(content@[0])]);
        },
        _ => {
            assert(part_views(content@) =~= Seq::<(bool, Seq<char>)>::empty());
        },
    }
    LlmOutput { content, usage, raw: Some(raw) }
}

/// The models of the on-device Apple service: its one model when the
/// system reports it available (code 1), else none.
pub fn apple_available_models(availability: i32) -> (r: Vec<String>)
    ensures
        availability == 1 ==> views(r@) == seq!["Apple Foundation Model"@],
        availability != 1 ==> r@.len() == 0,
{
    let mut r: Vec<String> = Vec::new();
    if availability == 1 {
        r.push("Apple Foundation Model".to_owned());
        assert(views(r@) =~= seq!["Apple Foundation Model"@]);
    }
    r
}

/// `a` comes before or equals `b` in the order of `String`: byte-wise
/// lexicographic order of the UTF-8 encoding, which is lexicographic order
/// of the code points.
pub open spec fn lex_le(a: Seq<char>, b: Seq<char>) -> bool
    decreases a.len(),
{
    if a.len() == 0 {
        true
    } else if b.len() == 0 {
        false
    } else if a[0] != b[0] {
        (a[0] as u32) < (b[0] as u32)
    } else {
        lex_le(a.drop_first(), b.drop_first())
    }
}

/// `s` is in ascending order.
pub open spec fn is_sorted(s: Seq<Seq<char>>) -> bool {
    forall|i: int, j: int| 0 <= i < j < s.len() ==> lex_le(#[trigger] s[i], #[trigger] s[j])
}

/// `<[String]>::sort`: the same strings in ascending order.
#[verifier::external_body]
fn sort_strings(v: &mut Vec<String>)
    ensures
        views(final(v)@).to_multiset() == views(old(v)@).to_multiset(),
        is_sorted(views(final(v)@)),
{
    v.sort();
}

/// The models of each service, named `service/model`, in service order.
pub open spec fn qualified_models(lists: Seq<(Seq<char>, Seq<Seq<char>>)>) -> Seq<Seq<char>>
    decreases lists.len(),
{
    if lists.len() == 0 {
        seq![]
    } else {
        let prev = qualified_models(lists.drop_last());
        let (service, models) = lists.last();
        prev + models.map_values(|m: Seq<char>| service + "/"@ + m)
    }
}

/// The views of per-service model lists.
pub open spec fn list_views(lists: Seq<(String, Vec<String>)>) -> Seq<(Seq<char>, Seq<Seq<char>>)> {
    lists.map_values(|l: (String, Vec<String>)| (l.0@, views(l.1@)))
}

/// All models of all services, named `service/model`, in ascending order.
pub fn merge_model_lists(lists: &Vec<(String, Vec<String>)>) -> (r: Vec<String>)
    ensures
        views(r@).to_multiset() == qualified_models(list_views(lists@)).to_multiset(),
        is_sorted(views(r@)),
{
    let ghost lv = list_views(lists@);
    let mut all: Vec<String> = Vec::new();
    let mut i: usize = 0;
    while i < lists.len()
        invariant
            i <= lists@.len(),
            lv == list_views(lists@),
            views(all@) == qualified_models(lv.take(i as int)),
        decreases lists@.len() - i,
    {
        let service = &lists[i].0;
        let models = &lists[i].1;
        assert(lv.take(i + 1).drop_last() == lv.take(i as int));
        assert(lv.take(i + 1).last() == (service@, views(models@)));
        let ghost base = views(all@);
        let prefix = concat(service.as_str(), "/");
        let mut j: usize = 0;
        while j < models.len()
            invariant
                j <= models@.len(),
                prefix@ == service@ + "/"@,
                views(all@) == base + views(models@).take(j as int).map_values(
                    |m: Seq<char>| service@ + "/"@ + m,
                ),
            decreases models@.len() - j,
        {
            let name = concat(prefix.as_str(), models[j].as_str());
            let ghost before = views(all@);
            all.push(name);
            assert(views(all@) == before.push(name@));
            assert(views(models@).take(j + 1) == views(models@).take(j as int).push(
                models@[j as int]@,
            ));
            assert(views(models@).take(j + 1).map_values(|m: Seq<char>| service@ + "/"@ + m)
                =~= views(models@).take(j as int).map_values(|m: Seq<char>| service@ + "/"@ + m).push(
                service@ + "/"@ + models@[j as int]@,
            ));
            assert(base + views(models@).take(j + 1).map_values(|m: Seq<char>| service@ + "/"@ + m)
                =~= (base + views(models@).take(j as int).map_values(|m: Seq<char>| service@ + "/"@ + m)).push(
                name@,
            ));
            j += 1;
        }
        assert(views(models@).take(models@.len() as int) == views(models@));
        i += 1;
    }
    assert(lv.take(lists@.len() as int) == lv);
    sort_strings(&mut all);
    all
}

} // verus!
