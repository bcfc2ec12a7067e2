//! Database-side decisions: configuration, the statement that stores a node,
//! what of a chat node is embedded, and batching of embedding requests.
use vstd::prelude::*;
use std::path::PathBuf;
use crate::llm::{ContentPart, LlmInput, LlmOutput};
use crate::text::{chars_of, concat, push_char, trim, trim_bounds, append_string};
use crate::chunking::views;

verus! {

/// A file system path (`std::path::PathBuf`).
#[verifier::external_type_specification]
#[verifier::external_body]
pub struct ExPathBuf(std::path::PathBuf);

/// Where the database keeps its data.
pub enum DatabaseConnectionConfig {
    InMemory,
    Persistent(PathBuf),
}

/// How the database is opened, and the title of the canvas created when a
/// load finds an empty database.
pub struct DatabaseConfig {
    pub connection: DatabaseConnectionConfig,
    pub default_first_canvas_title: String,
}

/// Which side of a chat a stored chunk comes from.
#[derive(Debug, Clone, Copy, PartialEq, Eq, Structural)]
pub enum ChunkSource {
    Question,
    Answer,
}

/// The chat kept in a chat node.
#[derive(Debug, Clone)]
pub struct ChatNodeData {
    pub model_id: Option<String>,
    pub input: LlmInput,
    pub output: Option<LlmOutput>,
}

/// An edge from an existing node to a new one.
#[derive(Debug, Clone, Copy, PartialEq, Eq, Structural)]
pub enum NodeRelation {
    Derives,
    Sequences,
}

/// The table name of a relation.
pub open spec fn relation_table(r: NodeRelation) -> Seq<char> {
    match r {
        NodeRelation::Derives => "derives"@,
        NodeRelation::Sequences => "sequences"@,
    }
}

/// The statements before the optional relation statement.
pub open spec fn store_node_head() -> Seq<char> {
    "\n        let $node = (CREATE node CONTENT $node_data);\n        let $node_id = $node[0].id;\n        RELATE $canvas_id -> holds -> $node_id;\n        "@
}

/// The statements after the optional relation statement.
pub open spec fn store_node_tail() -> Seq<char> {
    "\n        RETURN $node[0];\n    "@
}

/// The statement that relates the parent `$from` to the new node.
pub open spec fn relate_statement(r: NodeRelation) -> Seq<char> {
    "RELATE $from -> "@ + relation_table(r) + " -> $node_id SET canvas = $canvas_id;"@
}

/// The query that creates a node, puts it on its canvas and, when asked,
/// relates the parent to it; and the index of the statement whose result is
/// the created node.
pub fn store_node_query(relation: Option<NodeRelation>) -> (r: (String, usize))
    ensures
        r.0@ == store_node_head() + match relation {
            Some(rel) => relate_statement(rel),
            None => Seq::<char>::empty(),
        } + store_node_tail(),
        r.1 == if relation is Some {
            4usize
        } else {
            3usize
        },
{
    let head = "\n        let $node = (CREATE node CONTENT $node_data);\n        let $node_id = $node[0].id;\n        RELATE $canvas_id -> holds -> $node_id;\n        ";
    let tail = "\n        RETURN $node[0];\n    ";
    match relation {
        Some(rel) => {
            let table = match rel {
                NodeRelation::Derives => "derives",
                NodeRelation::Sequences => "sequences",
            };
            let a = concat("RELATE $from -> ", table);
            let stmt = concat(a.as_str(), " -> $node_id SET canvas = $canvas_id;");
            let b = concat(head, stmt.as_str());
            let q = concat(b.as_str(), tail);
            assert(q@ == store_node_head() + relate_statement(rel) + store_node_tail());
            (q, 4)
        },
        None => {
            let q = concat(head, tail);
            assert(store_node_head() + Seq::<char>::empty() =~= store_node_head());
            (q, 3)
        },
    }
}

/// The text parts of `parts`, each followed by a line break.
pub open spec fn text_lines(parts: Seq<ContentPart>) -> Seq<char>
    decreases parts.len(),
{
    if parts.len() == 0 {
        seq![]
    } else {
        let prev = text_lines(parts.drop_last());
        match parts.last() {
            ContentPart::Text(t) => prev + t@ + seq!['\n'],
            ContentPart::ImageUrl(_) => prev,
        }
    }
}

/// Collects the text parts of `parts`, each followed by a line break.
pub fn collect_text(parts: &Vec<ContentPart>) -> (r: String)
    ensures
        r@ == text_lines(parts@),
{
    let mut r = String::new();
    let mut i: usize = 0;
    while i < parts.len()
        invariant
            i <= parts@.len(),
            r@ == text_lines(parts@.take(i as int)),
        decreases parts@.len() - i,
    {
        assert(parts@.take(i + 1).drop_last() == parts@.take(i as int));
        assert(parts@.take(i + 1).last() == parts@[i as int]);
        match &parts[i] {
            ContentPart::Text(t) => {
                append_string(&mut r, t);
                push_char(&mut r, '\n');
            },
            ContentPart::ImageUrl(_) => {},
        }
        i += 1;
    }
    assert(parts@.take(parts@.len() as int) == parts@);
    r
}

/// Whether `s` is empty or only whitespace.
pub fn is_blank(s: &str) -> (r: bool)
    ensures
        r == (trim(s@).len() == 0),
{
    let v = chars_of(s);
    let (a, b) = trim_bounds(&v, 0, v.len());
    assert(v@.subrange(0, v@.len() as int) == v@);
    a == b
}

/// What of a chat is embedded: the question when its text is not blank,
/// then the answer, if there is one, when its text is not blank.
pub open spec fn embedding_plan_spec(data: ChatNodeData) -> Seq<(ChunkSource, Seq<char>)> {
    let q = text_lines(data.input.user_input.content@);
    let qs = if trim(q).len() > 0 {
        seq![(ChunkSource::Question, q)]
    } else {
        seq![]
    };
    match data.output {
        Some(o) => {
            let a = text_lines(o.content@);
            if trim(a).len() > 0 {
                qs.push((ChunkSource::Answer, a))
            } else {
                qs
            }
        },
        None => qs,
    }
}

/// Each side of a chat is embedded on its own merits: the question comes
/// first exactly when its text is not blank, and the answer comes last
/// exactly when there is an answer whose text is not blank, whether or not
/// the question is blank; nothing else is embedded.
pub proof fn law_embedding_plan_sides(data: ChatNodeData)
    ensures
        ({
            let p = embedding_plan_spec(data);
            let q = text_lines(data.input.user_input.content@);
            &&& p.len() <= 2
            &&& (p.len() > 0 && p[0].0 == ChunkSource::Question) <==> trim(q).len() > 0
            &&& trim(q).len() > 0 ==> p[0] == (ChunkSource::Question, q)
            &&& (p.len() > 0 && p.last().0 == ChunkSource::Answer) <==> (data.output matches Some(o)
                && trim(text_lines(o.content@)).len() > 0)
            &&& (data.output matches Some(o) && trim(text_lines(o.content@)).len() > 0) ==> p.last()
                == (ChunkSource::Answer, text_lines(data.output->0.content@))
        }),
{
}

/// The views of a plan.
pub open spec fn plan_views(p: Seq<(ChunkSource, String)>) -> Seq<(ChunkSource, Seq<char>)> {
    p.map_values(|e: (ChunkSource, String)| (e.0, e.1@))
}

/// The texts of a chat node to chunk and embed, with their sources.
pub fn embedding_plan(data: &ChatNodeData) -> (r: Vec<(ChunkSource, String)>)
    ensures
        plan_views(r@) == embedding_plan_spec(*data),
{
    let mut r: Vec<(ChunkSource, String)> = Vec::new();
    let q = collect_text(&data.input.user_input.content);
    if !is_blank(q.as_str()) {
        r.push((ChunkSource::Question, q));
    }
    let ghost after_q = plan_views(r@);
    assert(after_q =~= if trim(text_lines(data.input.user_input.content@)).len() > 0 {
        seq![(ChunkSource::Question, text_lines(data.input.user_input.content@))]
    } else {
        seq![]
    });
    match &data.output {
        Some(o) => {
            let a = collect_text(&o.content);
            if !is_blank(a.as_str()) {
                r.push((ChunkSource::Answer, a));
                assert(plan_views(r@) =~= after_q.push((ChunkSource::Answer, a@)));
            }
        },
        None => {},
    }
    r
}

/// What of a chat node is chunked and embedded when its canvas has the
/// embedding id `embedding_id` and an embedding service is present or not:
/// nothing unless both are there, else the plan of `embedding_plan`.
pub fn embedding_plan_for(data: &ChatNodeData, embedding_id: Option<&str>, has_service: bool) -> (r: Vec<(ChunkSource, String)>)
    ensures
        (embedding_id is None || !has_service) ==> r@.len() == 0,
        (embedding_id is Some && has_service) ==> plan_views(r@) == embedding_plan_spec(*data),
{
    if embedding_id.is_some() && has_service {
        embedding_plan(data)
    } else {
        Vec::new()
    }
}

/// Whether a load that found no canvas creates the first one: only when the
/// database holds no canvas at all.
pub fn needs_default_canvas(found: bool, database_empty: bool) -> (r: bool)
    ensures
        r == (!found && database_empty),
{
    !found && database_empty
}

/// The title and the embedding service of the canvas created on a first
/// load: the configured title and the local embedding service.
pub fn default_canvas_fields(config: &DatabaseConfig) -> (r: (String, Option<String>))
    ensures
        r.0@ == config.default_first_canvas_title@,
        r.1 matches Some(e) && e@ == "local"@,
{
    (config.default_first_canvas_title.clone(), Some("local".to_owned()))
}

/// `docs` cut into consecutive batches of `size`; the last may be shorter.
pub open spec fn batches_spec(docs: Seq<Seq<char>>, size: nat) -> Seq<Seq<Seq<char>>>
    decreases docs.len(),
{
    if docs.len() == 0 || size == 0 {
        seq![]
    } else if docs.len() <= size {
        seq![docs]
    } else {
        seq![docs.take(size as int)] + batches_spec(docs.skip(size as int), size)
    }
}

/// The batches concatenated.
pub open spec fn flatten(b: Seq<Seq<Seq<char>>>) -> Seq<Seq<char>>
    decreases b.len(),
{
    if b.len() == 0 {
        seq![]
    } else {
        b[0] + flatten(b.drop_first())
    }
}

/// Cutting into batches keeps every document, in order.
pub proof fn law_batches_keep_documents(docs: Seq<Seq<char>>, size: nat)
    requires
        size > 0,
    ensures
        flatten(batches_spec(docs, size)) == docs,
        forall|i: int|
            0 <= i < batches_spec(docs, size).len() ==> 0 < (#[trigger] batches_spec(
                docs,
                size,
            )[i]).len() <= size,
    decreases docs.len(),
{
    if docs.len() == 0 {
    } else if docs.len() <= size {
        let b = batches_spec(docs, size);
        assert(b.drop_first() == Seq::<Seq<Seq<char>>>::empty());
        assert(flatten(b.drop_first()) == Seq::<Seq<char>>::empty());
        assert(flatten(b) == docs + Seq::<Seq<char>>::empty());
        assert(docs + Seq::<Seq<char>>::empty() == docs);
    } else {
        let rest = docs.skip(size as int);
        law_batches_keep_documents(rest, size);
        let b = batches_spec(docs, size);
        assert(b.drop_first() == batches_spec(rest, size));
        assert(docs.take(size as int) + rest == docs);
        assert forall|i: int| 0 <= i < b.len() implies 0 < (#[trigger] b[i]).len() <= size by {
            if i > 0 {
                assert(b[i] == batches_spec(rest, size)[i - 1]);
            }
        }
    }
}

/// Cuts `docs` into consecutive batches of `size` (`slice::chunks`).
pub fn batches(docs: &Vec<String>, size: usize) -> (r: Vec<Vec<String>>)
    requires
        size > 0,
    ensures
        r@.map_values(|b: Vec<String>| views(b@)) == batches_spec(views(docs@), size as nat),
{
    let n = docs.len();
    let ghost all = views(docs@);
    let mut r: Vec<Vec<String>> = Vec::new();
    let mut start: usize = 0;
    assert(all.skip(0) == all);
    assert(r@.map_values(|b: Vec<String>| views(b@)) + batches_spec(all, size as nat) =~= batches_spec(all, size as nat));
    while start < n
        invariant
            size > 0,
            start <= n,
            n == docs@.len(),
            all == views(docs@),
            batches_spec(all, size as nat) == r@.map_values(|b: Vec<String>| views(b@))
                + batches_spec(all.skip(start as int), size as nat),
        decreases n - start,
    {
        let end = if n - start <= size {
            n
        } else {
            start + size
        };
        let mut batch: Vec<String> = Vec::new();
        let mut k = start;
        while k < end
            invariant
                start <= k <= end <= n,
                n == docs@.len(),
                all == views(docs@),
                views(batch@) == all.subrange(start as int, k as int),
            decreases end - k,
        {
            let ghost before = views(batch@);
            batch.push(docs[k].clone());
            assert(views(batch@) == before.push(all[k as int]));
            assert(all.subrange(start as int, k + 1) == all.subrange(start as int, k as int).push(
                all[k as int],
            ));
            k += 1;
        }
        let ghost rest = all.skip(start as int);
        let ghost before = r@.map_values(|b: Vec<String>| views(b@));
        r.push(batch);
        proof {
            assert(r@.map_values(|b: Vec<String>| views(b@)) == before.push(views(batch@)));
            if n - start <= size {
                assert(views(batch@) == rest);
                assert(all.skip(end as int).len() == 0);
                assert(batches_spec(all.skip(end as int), size as nat) == Seq::<Seq<Seq<char>>>::empty());
                assert(before.push(views(batch@)) + Seq::<Seq<Seq<char>>>::empty() =~= before + seq![rest]);
            } else {
                assert(views(batch@) == rest.take(size as int));
                assert(rest.skip(size as int) == all.skip(end as int));
                assert(before.push(views(batch@)) + batches_spec(all.skip(end as int), size as nat)
                    =~= before + (seq![rest.take(size as int)] + batches_spec(
                    rest.skip(size as int),
                    size as nat,
                )));
            }
        }
        start = end;
    }
    assert(all.skip(n as int).len() == 0);
    assert(r@.map_values(|b: Vec<String>| views(b@)) + Seq::<Seq<Seq<char>>>::empty() == r@.map_values(|b: Vec<String>| views(b@)));
    r
}

} // verus!
