//! Decisions of the application commands: record ids, model ids, how a new
//! chat node is attached, and which chat service a configuration registers.
use vstd::prelude::*;
use crate::llm::{ContentPart, LlmInput, LlmOutput, Message, Role, part_view};
use crate::text::{append_string, concat, split_once, split_once_spec};

verus! {

/// A database record id `table:id`.
#[derive(Debug, Clone)]
pub struct RecordId {
    pub table: String,
    pub id: String,
}

/// The error for a record id without `:`.
pub open spec fn bad_id_message() -> Seq<char> {
    "Invalid ID format. Expected 'table:id'"@
}

/// The error for a parent record id without `:`.
pub open spec fn bad_parent_id_message() -> Seq<char> {
    "Invalid Parent ID format. Expected 'table:id'"@
}

/// Splits `table:id` at its first `:`.
pub fn parse_record_id(s: &str) -> (r: Result<RecordId, String>)
    ensures
        match r {
            Ok(rid) => split_once_spec(s@, ':') == Some((rid.table@, rid.id@)),
            Err(e) => split_once_spec(s@, ':') is None && e@ == bad_id_message(),
        },
{
    match split_once(s, ':') {
        Some((table, id)) => Ok(RecordId { table, id }),
        None => Err("Invalid ID format. Expected 'table:id'".to_owned()),
    }
}

/// Splits the id of a parent node `table:id` at its first `:`.
pub fn parse_parent_id(s: &str) -> (r: Result<RecordId, String>)
    ensures
        match r {
            Ok(rid) => split_once_spec(s@, ':') == Some((rid.table@, rid.id@)),
            Err(e) => split_once_spec(s@, ':') is None && e@ == bad_parent_id_message(),
        },
{
    match split_once(s, ':') {
        Some((table, id)) => Ok(RecordId { table, id }),
        None => Err("Invalid Parent ID format. Expected 'table:id'".to_owned()),
    }
}

/// The service and the model named by `service/model`; without `/` the whole
/// id names the service and the model is empty.
pub open spec fn model_id_spec(m: Seq<char>) -> (Seq<char>, Seq<char>) {
    match split_once_spec(m, '/') {
        Some(p) => p,
        None => (m, seq![]),
    }
}

/// Splits a model id `service/model`.
pub fn split_model_id(model_id: &str) -> (r: (String, String))
    ensures
        (r.0@, r.1@) == model_id_spec(model_id@),
{
    match split_once(model_id, '/') {
        Some(p) => p,
        None => (model_id.to_owned(), String::new()),
    }
}

/// How a new chat node hangs from its parent.
#[derive(Debug, Clone, Copy, PartialEq, Eq, Structural)]
pub enum ChatRelation {
    Sequence,
    Derive,
}

/// `"sequence"` makes a sequence; anything else, or nothing, derives.
pub fn relation_for(relation_type: Option<&str>) -> (r: ChatRelation)
    ensures
        r == (if relation_type matches Some(t) && t@ == "sequence"@ {
            ChatRelation::Sequence
        } else {
            ChatRelation::Derive
        }),
{
    match relation_type {
        Some(t) => {
            let owned = t.to_owned();
            let seq_name = "sequence".to_owned();
            if owned == seq_name {
                ChatRelation::Sequence
            } else {
                ChatRelation::Derive
            }
        },
        None => ChatRelation::Derive,
    }
}

/// Where a new chat node is stored: on its canvas alone, or after a parent
/// as a sequence or a derivation.
#[derive(Debug, Clone)]
pub enum ChatPlacement {
    Root,
    Sequenced(RecordId),
    Derived(RecordId),
}

/// The placement of a chat: without a parent on the canvas alone; with a
/// parent `table:id` a sequence when the relation is `"sequence"` and a
/// derivation otherwise; a parent id without `:` is refused.
pub fn chat_placement(parent_id: Option<&str>, relation_type: Option<&str>) -> (r: Result<ChatPlacement, String>)
    ensures
        match parent_id {
            None => r matches Ok(ChatPlacement::Root),
            Some(p) => match split_once_spec(p@, ':') {
                None => r matches Err(e) && e@ == bad_parent_id_message(),
                Some((table, id)) => if relation_type matches Some(t) && t@ == "sequence"@ {
                    r matches Ok(ChatPlacement::Sequenced(rid)) && rid.table@ == table && rid.id@ == id
                } else {
                    r matches Ok(ChatPlacement::Derived(rid)) && rid.table@ == table && rid.id@ == id
                },
            },
        },
{
    match parent_id {
        None => Ok(ChatPlacement::Root),
        Some(p) => {
            let parent = parse_parent_id(p)?;
            match relation_for(relation_type) {
                ChatRelation::Sequence => Ok(ChatPlacement::Sequenced(parent)),
                ChatRelation::Derive => Ok(ChatPlacement::Derived(parent)),
            }
        },
    }
}

/// The text of the pieces received, in order; failed pieces give nothing.
pub open spec fn received_text(pieces: Seq<Result<String, String>>) -> Seq<char>
    decreases pieces.len(),
{
    if pieces.len() == 0 {
        seq![]
    } else {
        received_text(pieces.drop_last()) + match pieces.last() {
            Ok(t) => t@,
            Err(_) => Seq::<char>::empty(),
        }
    }
}

/// The answer stored for a streamed chat: the output of `chat_output` for
/// the received pieces joined in order, failed pieces skipped.
pub fn answer_of(pieces: &Vec<Result<String, String>>) -> (r: LlmOutput)
    ensures
        r.content@.len() == 1,
        part_view(r.content@[0]) == (false, received_text(pieces@)),
        r.usage is None,
        r.raw is None,
{
    let mut text = String::new();
    let mut i: usize = 0;
    while i < pieces.len()
        invariant
            i <= pieces@.len(),
            text@ == received_text(pieces@.take(i as int)),
        decreases pieces@.len() - i,
    {
        assert(pieces@.take(i + 1).drop_last() == pieces@.take(i as int));
        assert(pieces@.take(i + 1).last() == pieces@[i as int]);
        match &pieces[i] {
            Ok(t) => append_string(&mut text, t),
            Err(_) => {
                assert(text@ + Seq::<char>::empty() == text@);
            },
        }
        i += 1;
    }
    assert(pieces@.take(pieces@.len() as int) == pieces@);
    chat_output(text)
}

/// The system prompt of a chat started from the canvas.
pub open spec fn assistant_prompt() -> Seq<char> {
    "You are a helpful assistant."@
}

/// The request of a chat started from the canvas: the fixed system prompt,
/// no history, and `prompt` as the user's text.
pub fn chat_input(prompt: &str) -> (r: LlmInput)
    ensures
        r.system_prompt matches Some(p) && p@ == assistant_prompt(),
        r.history@.len() == 0,
        r.user_input.role == Role::User,
        r.user_input.content@.len() == 1,
        part_view(r.user_input.content@[0]) == (false, prompt@),
{
    LlmInput {
        system_prompt: Some("You are a helpful assistant.".to_owned()),
        history: Vec::new(),
        user_input: Message::new_text(Role::User, prompt),
    }
}

/// The output stored for a streamed answer: its full text as one part.
pub fn chat_output(full_text: String) -> (r: LlmOutput)
    ensures
        r.content@.len() == 1,
        part_view(r.content@[0]) == (false, full_text@),
        r.usage is None,
        r.raw is None,
{
    let mut content: Vec<ContentPart> = Vec::new();
    content.push(ContentPart::Text(full_text));
    LlmOutput { content, usage: None, raw: None }
}

/// The chat providers that can be configured.
#[derive(Debug, Clone, Copy, PartialEq, Eq, Structural)]
pub enum LlmProvider {
    Apple,
    Anthropic,
    Google,
    LMStudio,
    OpenAI,
    Custom,
}

/// The provider named `name`.
pub open spec fn provider_spec(name: Seq<char>) -> Option<LlmProvider> {
    if name == "apple"@ {
        Some(LlmProvider::Apple)
    } else if name == "anthropic"@ {
        Some(LlmProvider::Anthropic)
    } else if name == "google"@ {
        Some(LlmProvider::Google)
    } else if name == "lmstudio"@ {
        Some(LlmProvider::LMStudio)
    } else if name == "openai"@ {
        Some(LlmProvider::OpenAI)
    } else if name == "custom"@ {
        Some(LlmProvider::Custom)
    } else {
        None
    }
}

/// The configuration name of each provider.
pub open spec fn provider_name(p: LlmProvider) -> Seq<char> {
    match p {
        LlmProvider::Apple => "apple"@,
        LlmProvider::Anthropic => "anthropic"@,
        LlmProvider::Google => "google"@,
        LlmProvider::LMStudio => "lmstudio"@,
        LlmProvider::OpenAI => "openai"@,
        LlmProvider::Custom => "custom"@,
    }
}

/// Every provider is configured by its own name and by no other: a name is
/// accepted as provider `p` exactly when it is the name of `p`, so distinct
/// names never give the same provider.
pub proof fn law_provider_names(name: Seq<char>, p: LlmProvider)
    ensures
        provider_spec(provider_name(p)) == Some(p),
        provider_spec(name) == Some(p) <==> name == provider_name(p),
{
    reveal_strlit("apple");
    reveal_strlit("anthropic");
    reveal_strlit("google");
    reveal_strlit("lmstudio");
    reveal_strlit("openai");
    reveal_strlit("custom");
    assert("apple"@.len() == 5 && "apple"@[0] == 'a');
    assert("anthropic"@.len() == 9 && "anthropic"@[0] == 'a');
    assert("google"@.len() == 6 && "google"@[0] == 'g');
    assert("lmstudio"@.len() == 8 && "lmstudio"@[0] == 'l');
    assert("openai"@.len() == 6 && "openai"@[0] == 'o');
    assert("custom"@.len() == 6 && "custom"@[0] == 'c');
}

fn same(a: &String, b: &str) -> (r: bool)
    ensures
        r == (a@ == b@),
{
    let o = b.to_owned();
    *a == o
}

/// The provider named `name`; the error `Unknown provider: <name>` for any
/// other name.
pub fn parse_provider(name: &str) -> (r: Result<LlmProvider, String>)
    ensures
        match r {
            Ok(p) => provider_spec(name@) == Some(p),
            Err(e) => provider_spec(name@) is None && e@ == "Unknown provider: "@ + name@,
        },
{
    let n = name.to_owned();
    if same(&n, "apple") {
        Ok(LlmProvider::Apple)
    } else if same(&n, "anthropic") {
        Ok(LlmProvider::Anthropic)
    } else if same(&n, "google") {
        Ok(LlmProvider::Google)
    } else if same(&n, "lmstudio") {
        Ok(LlmProvider::LMStudio)
    } else if same(&n, "openai") {
        Ok(LlmProvider::OpenAI)
    } else if same(&n, "custom") {
        Ok(LlmProvider::Custom)
    } else {
        Err(concat("Unknown provider: ", name))
    }
}

/// The model name of the on-device Apple model.
pub open spec fn apple_model_name() -> Seq<char> {
    "Apple Foundation Model"@
}

/// The model a configuration of `provider` serves: the Apple model, or the
/// configured `model`, which every other provider requires.
pub fn required_model(provider: LlmProvider, model: Option<String>) -> (r: Result<String, String>)
    ensures
        provider == LlmProvider::Apple ==> (r matches Ok(m) && m@ == apple_model_name()),
        provider != LlmProvider::Apple ==> match model {
            Some(m) => r matches Ok(x) && x@ == m@,
            None => r matches Err(e) && e@ == "Missing model in config"@,
        },
{
    match provider {
        LlmProvider::Apple => Ok("Apple Foundation Model".to_owned()),
        _ => match model {
            Some(m) => Ok(m),
            None => Err("Missing model in config".to_owned()),
        },
    }
}

/// The name a configured service is registered under: `apple` for the Apple
/// model, the configured name for a custom service, the model otherwise.
pub fn registration_key(provider: LlmProvider, model: &str, custom_name: &str) -> (r: String)
    ensures
        r@ == match provider {
            LlmProvider::Apple => "apple"@,
            LlmProvider::Custom => custom_name@,
            _ => model@,
        },
{
    match provider {
        LlmProvider::Apple => "apple".to_owned(),
        LlmProvider::Custom => custom_name.to_owned(),
        _ => model.to_owned(),
    }
}

} // verus!
