//! The parts of a normalized request that routing reads.
use vstd::prelude::*;
use crate::json::{find_member, get_member, members_view, Json, JsonView};

verus! {

/// A model or target identifier.
pub type ModelId = String;

/// One block of message content.
#[derive(Clone, Debug, PartialEq, Eq)]
pub enum ContentBlock {
    /// Plain text.
    Text { text: String },
    /// An image, whatever its source.
    Image,
    /// Any other content (tool calls, tool results, reasoning).
    Other,
}

/// One message, or one block of instructions.
#[derive(Clone, Debug, PartialEq, Eq)]
pub struct Message {
    pub content: Vec<ContentBlock>,
}

/// Normalized reasoning controls.
#[derive(Clone, Debug, PartialEq, Eq)]
pub struct ReasoningParams {
    pub effort: Option<String>,
}

/// A normalized request.
#[derive(Clone, Debug, PartialEq, Eq)]
pub struct Request {
    /// The model that the caller named.
    pub model: Option<String>,
    pub messages: Vec<Message>,
    pub instructions: Vec<Message>,
    /// The names of the tools that the caller offers.
    pub tools: Vec<String>,
    pub reasoning: ReasoningParams,
    /// Structured metadata beside the conversation.
    pub extensions: Vec<(String, Json)>,
    pub max_output_tokens: Option<u64>,
    /// Exact input-token counts, per candidate.
    pub candidate_input_tokens: Vec<(ModelId, u64)>,
}

/// The extension field `key` of a request.
pub open spec fn extension(request: Request, key: Seq<char>) -> Option<JsonView> {
    find_member(members_view(request.extensions@), key)
}

/// Whether some block is an image.
pub open spec fn has_image(content: Seq<ContentBlock>) -> bool {
    exists|i: int| 0 <= i < content.len() && #[trigger] content[i] is Image
}

/// Whether some message holds an image.
pub open spec fn any_image(messages: Seq<Message>) -> bool {
    exists|i: int| 0 <= i < messages.len() && has_image((#[trigger] messages[i]).content@)
}

fn blocks_hold_image(content: &Vec<ContentBlock>) -> (r: bool)
    ensures
        r == has_image(content@),
{
    let mut i: usize = 0;
    while i < content.len()
        invariant
            i <= content.len(),
            forall|j: int| 0 <= j < i ==> !(#[trigger] content@[j] is Image),
        decreases content.len() - i,
    {
        if matches!(content[i], ContentBlock::Image) {
            assert(content@[i as int] is Image);
            return true;
        }
        i = i + 1;
    }
    false
}

/// Whether some message holds an image.
pub fn messages_hold_image(messages: &Vec<Message>) -> (r: bool)
    ensures
        r == any_image(messages@),
{
    let mut i: usize = 0;
    while i < messages.len()
        invariant
            i <= messages.len(),
            forall|j: int| 0 <= j < i ==> !has_image((#[trigger] messages@[j]).content@),
        decreases messages.len() - i,
    {
        if blocks_hold_image(&messages[i].content) {
            assert(has_image(messages@[i as int].content@));
            return true;
        }
        i = i + 1;
    }
    false
}

impl Request {
    /// The extension field `key`.
    pub fn extension_field(&self, key: &str) -> (r: Option<&Json>)
        ensures
            match r {
                Some(value) => extension(*self, key@) == Some(value@),
                None => extension(*self, key@) is None,
            },
    {
        get_member(&self.extensions, key)
    }

    /// The text of the extension field `key`, where it is a string.
    pub fn extension_text(&self, key: &str) -> (r: Option<&str>)
        ensures
            match r {
                Some(t) => crate::json::text_of(extension(*self, key@)) == Some(t@),
                None => crate::json::text_of(extension(*self, key@)) is None,
            },
    {
        match self.extension_field(key) {
            Some(value) => value.as_str(),
            None => None,
        }
    }
}

/// An extension field is the first of its name, and its text is read where it is one.
pub proof fn extensions_are_looked_up_by_name(
    request: Request,
    key: &str,
    r: Option<&str>,
    i: int,
)
    requires
        call_ensures(Request::extension_text, (&request, key), r),
    ensures
        0 <= i < request.extensions@.len() && request.extensions@[i].0@ == key@ && (forall|j: int|
            0 <= j < i ==> (#[trigger] request.extensions@[j]).0@ != key@) ==> (r is Some
            <==> request.extensions@[i].1@ is Text) && (r is Some ==> r->0@
            == request.extensions@[i].1@->Text_0),
        (forall|j: int|
            0 <= j < request.extensions@.len() ==> (#[trigger] request.extensions@[j]).0@ != key@)
            ==> r is None,
{
    let members = members_view(request.extensions@);
    if 0 <= i < request.extensions@.len() && request.extensions@[i].0@ == key@ && (forall|j: int|
        0 <= j < i ==> (#[trigger] request.extensions@[j]).0@ != key@) {
        assert forall|j: int| 0 <= j < i implies (#[trigger] members[j]).0 != key@ by {
            assert(request.extensions@[j].0@ != key@);
        }
        crate::json::lookup_takes_the_first_member(members, key@, i);
    }
    if forall|j: int|
        0 <= j < request.extensions@.len() ==> (#[trigger] request.extensions@[j]).0@ != key@ {
        assert forall|j: int| 0 <= j < members.len() implies (#[trigger] members[j]).0 != key@ by {
            assert(request.extensions@[j].0@ != key@);
        }
        crate::json::absent_member_is_not_found(members, key@);
    }
}

} // verus!
