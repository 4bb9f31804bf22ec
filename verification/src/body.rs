//! The body of an upstream request: what is set, stripped, merged and forced
//! before it is sent.
use vstd::prelude::*;
use crate::backend::{codex, extra_members, Backend};
use crate::json::{
    array_view, bool_of, default_member, drop_member, drop_member_is_gone, drop_member_keeps_others,
    field, find_member, get_member,
    get_member_mut, insert_default, insert_member, items_view, members_view, object_view,
    remove_member, set_member, set_member_is_found, set_member_keeps_others, set_member_to_itself,
    set_member_twice, text_of, Json, JsonView, Members,
};
use crate::text;

verus! {

/// A body with its `model` set.
pub open spec fn with_model(body: JsonView, model: Seq<char>) -> JsonView {
    match body {
        JsonView::Object(m) => JsonView::Object(set_member(m, "model"@, JsonView::Text(model))),
        _ => body,
    }
}

/// Overwrites the outbound body's `model` field with the resolved model id.
pub fn set_json_model(body: &mut Json, model: &str)
    ensures
        final(body)@ == with_model(old(body)@, model@),
{
    broadcast use object_view;

    match body {
        Json::Object(members) => insert_member(members, "model", Json::Text(text::copy_str(model))),
        _ => {},
    }
}

/// A body without the fields that Anthropic Messages rejects.
pub open spec fn without_openai_fields(body: JsonView) -> JsonView {
    match body {
        JsonView::Object(m) => JsonView::Object(
            drop_member(drop_member(m, "reasoning_effort"@), "context_management"@),
        ),
        _ => body,
    }
}

/// Drops fields accepted by OpenAI-like APIs but rejected by Anthropic Messages.
pub fn strip_anthropic_incompatible_fields(body: &mut Json)
    ensures
        final(body)@ == without_openai_fields(old(body)@),
{
    broadcast use object_view;

    match body {
        Json::Object(members) => {
            remove_member(members, "reasoning_effort");
            remove_member(members, "context_management");
        },
        _ => {},
    }
}

/// A thinking block whose signature is absent or empty.
pub open spec fn unsigned_thinking(block: JsonView) -> bool {
    let signature = text_of(field(block, "signature"@));
    text_of(field(block, "type"@)) == Some("thinking"@) && !(signature is Some
        && signature->0.len() > 0)
}

/// Whether a thinking block is unsigned.
pub fn is_unsigned_thinking_block(block: &Json) -> (r: bool)
    ensures
        r == unsigned_thinking(block@),
{
    let thinking = match block.get("type") {
        Some(kind) => match kind.as_str() {
            Some(kind) => text::str_eq(kind, "thinking"),
            None => false,
        },
        None => false,
    };
    if !thinking {
        return false;
    }
    match block.get("signature") {
        Some(signature) => match signature.as_str() {
            Some(signature) => signature.is_empty(),
            None => true,
        },
        None => true,
    }
}

/// The blocks that are not unsigned thinking.
pub open spec fn signed_blocks(blocks: Seq<JsonView>) -> Seq<JsonView> {
    blocks.filter(|b: JsonView| !unsigned_thinking(b))
}

/// A message without unsigned thinking; content that ends up empty becomes an
/// empty string.
pub open spec fn signed_message(message: JsonView) -> JsonView {
    match message {
        JsonView::Object(m) => match find_member(m, "content"@) {
            Some(JsonView::Array(blocks)) => {
                let kept = signed_blocks(blocks);
                if kept.len() == blocks.len() {
                    message
                } else if kept.len() == 0 {
                    JsonView::Object(set_member(m, "content"@, JsonView::Text(Seq::empty())))
                } else {
                    JsonView::Object(set_member(m, "content"@, JsonView::Array(kept)))
                }
            },
            _ => message,
        },
        _ => message,
    }
}

/// A body whose messages hold no unsigned thinking.
pub open spec fn signed_body(body: JsonView) -> JsonView {
    match body {
        JsonView::Object(m) => match find_member(m, "messages"@) {
            Some(JsonView::Array(messages)) => JsonView::Object(
                set_member(
                    m,
                    "messages"@,
                    JsonView::Array(
                        Seq::new(messages.len(), |i: int| signed_message(messages[i])),
                    ),
                ),
            ),
            _ => body,
        },
        _ => body,
    }
}

proof fn signed_step(blocks: Seq<JsonView>, i: int)
    requires
        0 <= i < blocks.len(),
    ensures
        signed_blocks(blocks.take(i + 1)) == (if unsigned_thinking(blocks[i]) {
            signed_blocks(blocks.take(i))
        } else {
            signed_blocks(blocks.take(i)).push(blocks[i])
        }),
{
    reveal(Seq::filter);
    assert(blocks.take(i + 1).drop_last() =~= blocks.take(i));
    assert(blocks.take(i + 1).last() == blocks[i]);
}

fn retain_signed(blocks: &mut Vec<Json>)
    ensures
        items_view(final(blocks)@) == signed_blocks(items_view(old(blocks)@)),
{
    let ghost b = items_view(blocks@);
    let ghost mut done: int = 0;
    let mut i: usize = 0;
    proof {
        assert(signed_blocks(b.take(0)) =~= Seq::empty()) by {
            reveal(Seq::filter);
        }
        assert(b.skip(0) =~= b);
        assert(items_view(blocks@) =~= signed_blocks(b.take(0)) + b.skip(0));
    }
    while i < blocks.len()
        invariant
            0 <= done <= b.len(),
            items_view(blocks@) == signed_blocks(b.take(done)) + b.skip(done),
            i == signed_blocks(b.take(done)).len(),
            blocks.len() == i + b.len() - done,
        decreases b.len() - done,
    {
        let ghost kept = signed_blocks(b.take(done));
        let ghost was = blocks@;
        proof {
            assert(items_view(blocks@)[i as int] == b[done]);
            signed_step(b, done);
        }
        if is_unsigned_thinking_block(&blocks[i]) {
            let _ = blocks.remove(i);
            proof {
                assert(items_view(blocks@) =~= items_view(was).remove(i as int));
                assert((kept + b.skip(done)).remove(i as int) =~= kept + b.skip(done + 1));
            }
        } else {
            i = i + 1;
            proof {
                assert(kept + b.skip(done) =~= kept.push(b[done]) + b.skip(done + 1));
            }
        }
        proof {
            done = done + 1;
        }
    }
    proof {
        assert(b.take(b.len() as int) =~= b);
        assert(signed_blocks(b) + b.skip(b.len() as int) =~= signed_blocks(b));
    }
}

proof fn all_signed_keeps(blocks: Seq<JsonView>)
    requires
        signed_blocks(blocks).len() == blocks.len(),
    ensures
        signed_blocks(blocks) == blocks,
    decreases blocks.len(),
{
    reveal(Seq::filter);
    if blocks.len() > 0 {
        let n = blocks.len() as int;
        signed_step(blocks, n - 1);
        assert(blocks.take(n) =~= blocks);
        let rest = blocks.take(n - 1);
        blocks_only_shrink(rest);
        all_signed_keeps(rest);
        assert(rest.push(blocks[n - 1]) =~= blocks);
    }
}

proof fn blocks_only_shrink(blocks: Seq<JsonView>)
    ensures
        signed_blocks(blocks).len() <= blocks.len(),
    decreases blocks.len(),
{
    reveal(Seq::filter);
    if blocks.len() > 0 {
        blocks_only_shrink(blocks.drop_last());
    }
}

/// Drops unsigned thinking blocks from one message, collapsing content that ends
/// up empty to an empty string so the message stays valid.
pub fn strip_unsigned_thinking_from_message(message: &mut Json)
    ensures
        final(message)@ == signed_message(old(message)@),
{
    broadcast use {object_view, array_view};

    match message {
        Json::Object(members) => {
            let ghost m = members_view(members@);
            let ghost mut kept = JsonView::Null;
            let mut emptied = false;
            match get_member_mut(members, "content") {
                Some(Json::Array(blocks)) => {
                    let ghost b = items_view(blocks@);
                    let before: usize = blocks.len();
                    retain_signed(blocks);
                    emptied = blocks.len() == 0 && before > 0;
                    proof {
                        kept = JsonView::Array(signed_blocks(b));
                        blocks_only_shrink(b);
                        if signed_blocks(b).len() == b.len() {
                            all_signed_keeps(b);
                            set_member_to_itself(m, "content"@, JsonView::Array(b));
                        }
                    }
                },
                Some(other) => {
                    proof {
                        set_member_to_itself(m, "content"@, (*other)@);
                    }
                },
                None => {},
            }
            if emptied {
                proof {
                    assert(members_view(members@) == set_member(m, "content"@, kept));
                    set_member_twice(m, "content"@, kept, JsonView::Text(Seq::empty()));
                }
                insert_member(members, "content", Json::Text(String::new()));
            }
        },
        _ => {},
    }
}

/// Removes replayed thinking blocks that carry no signature.
pub fn strip_unsigned_thinking_blocks(body: &mut Json)
    ensures
        final(body)@ == signed_body(old(body)@),
{
    broadcast use {object_view, array_view};

    match body {
        Json::Object(members) => {
            let ghost m = members_view(members@);
            match get_member_mut(members, "messages") {
                Some(Json::Array(messages)) => {
                    let ghost was = items_view(messages@);
                    let mut i: usize = 0;
                    while i < messages.len()
                        invariant
                            i <= messages.len(),
                            messages.len() == was.len(),
                            forall|k: int|
                                0 <= k < i ==> (#[trigger] messages@[k])@ == signed_message(was[k]),
                            forall|k: int|
                                i <= k < was.len() ==> (#[trigger] messages@[k])@ == was[k],
                        decreases messages.len() - i,
                    {
                        strip_unsigned_thinking_from_message(&mut messages[i]);
                        i = i + 1;
                    }
                    proof {
                        assert(items_view(messages@) =~= Seq::new(
                            was.len(),
                            |i: int| signed_message(was[i]),
                        ));
                    }
                },
                Some(other) => {
                    proof {
                        set_member_to_itself(m, "messages"@, (*other)@);
                    }
                },
                None => {},
            }
        },
        _ => {},
    }
}

/// A body without `max_output_tokens`.
pub open spec fn without_output_limit(body: JsonView) -> JsonView {
    match body {
        JsonView::Object(m) => JsonView::Object(drop_member(m, "max_output_tokens"@)),
        _ => body,
    }
}

/// Removes fields that the Codex Responses backend rejects outright.
pub fn strip_codex_incompatible_fields(body: &mut Json)
    ensures
        final(body)@ == without_output_limit(old(body)@),
{
    broadcast use object_view;

    match body {
        Json::Object(members) => remove_member(members, "max_output_tokens"),
        _ => {},
    }
}

/// The members with every one of `extra` added whose name is not taken.
pub open spec fn merged_members(members: Members, extra: Members) -> Members
    decreases extra.len(),
{
    if extra.len() == 0 {
        members
    } else {
        let rest = merged_members(members, extra.drop_last());
        default_member(rest, extra.last().0, extra.last().1)
    }
}

/// A body with a target's defaults.
pub open spec fn merged(body: JsonView, extra: Members) -> JsonView {
    match body {
        JsonView::Object(m) => JsonView::Object(merged_members(m, extra)),
        _ => body,
    }
}

/// Applies target defaults without overriding fields supplied by the caller.
pub fn merge_extra_body(body: &mut Json, extra_body: &Vec<(String, Json)>)
    ensures
        final(body)@ == merged(old(body)@, members_view(extra_body@)),
{
    broadcast use object_view;

    match body {
        Json::Object(members) => {
            let ghost m = members_view(members@);
            let ghost extra = members_view(extra_body@);
            let mut i: usize = 0;
            proof {
                assert(extra.take(0).len() == 0);
            }
            while i < extra_body.len()
                invariant
                    i <= extra_body.len(),
                    extra == members_view(extra_body@),
                    members_view(members@) == merged_members(m, extra.take(i as int)),
                decreases extra_body.len() - i,
            {
                proof {
                    assert(extra.take(i + 1).drop_last() =~= extra.take(i as int));
                    assert(extra.take(i + 1).last() == extra[i as int]);
                }
                let value = extra_body[i].1.copy();
                insert_default(members, extra_body[i].0.as_str(), value);
                i = i + 1;
            }
            proof {
                assert(extra.take(extra.len() as int) =~= extra);
            }
        },
        _ => {},
    }
}

/// A body with exactly one representation of reasoning: the target's pin where
/// there is one; else an object-valued `reasoning` drops the flat field.
pub open spec fn canonical_reasoning(body: JsonView, pin: Option<JsonView>) -> JsonView {
    match body {
        JsonView::Object(m) => match pin {
            Some(pin) => JsonView::Object(
                drop_member(set_member(m, "reasoning"@, pin), "reasoning_effort"@),
            ),
            None => match find_member(m, "reasoning"@) {
                Some(JsonView::Object(_)) => JsonView::Object(drop_member(m, "reasoning_effort"@)),
                _ => body,
            },
        },
        _ => body,
    }
}

/// Enforces one canonical reasoning representation, and makes the target's
/// reasoning pin authoritative over what the caller supplied.
pub fn canonicalize_reasoning_effort(body: &mut Json, reasoning_pin: Option<&Json>)
    ensures
        final(body)@ == canonical_reasoning(
            old(body)@,
            match reasoning_pin {
                Some(pin) => Some(pin@),
                None => None,
            },
        ),
{
    broadcast use object_view;

    match body {
        Json::Object(members) => {
            if let Some(pin) = reasoning_pin {
                insert_member(members, "reasoning", pin.copy());
                remove_member(members, "reasoning_effort");
                return ;
            }
            let nested = match get_member(members, "reasoning") {
                Some(Json::Object(_)) => true,
                _ => false,
            };
            if nested {
                remove_member(members, "reasoning_effort");
            }
        },
        _ => {},
    }
}

/// A body with `stream_options.include_usage` requested, where it streams and
/// the caller made no choice of its own.
pub open spec fn with_stream_usage(body: JsonView) -> JsonView {
    match body {
        JsonView::Object(m) => if bool_of(find_member(m, "stream"@)) == Some(true) {
            let options = match find_member(m, "stream_options"@) {
                Some(JsonView::Object(o)) => default_member(
                    o,
                    "include_usage"@,
                    JsonView::Bool(true),
                ),
                _ => seq![("include_usage"@, JsonView::Bool(true))],
            };
            JsonView::Object(set_member(m, "stream_options"@, JsonView::Object(options)))
        } else {
            body
        },
        _ => body,
    }
}

/// Requests streamed Chat usage by default while preserving an explicit caller choice.
pub fn ensure_openai_stream_usage(body: &mut Json)
    ensures
        final(body)@ == with_stream_usage(old(body)@),
{
    broadcast use object_view;

    match body {
        Json::Object(members) => {
            let streams = match get_member(members, "stream") {
                Some(value) => value.as_bool(),
                None => None,
            };
            if !matches!(streams, Some(true)) {
                return ;
            }
            let ghost m = members_view(members@);
            let mut done = false;
            match get_member_mut(members, "stream_options") {
                Some(Json::Object(options)) => {
                    insert_default(options, "include_usage", Json::Bool(true));
                    done = true;
                },
                Some(other) => {
                    proof {
                        set_member_to_itself(m, "stream_options"@, (*other)@);
                    }
                },
                None => {},
            }
            if !done {
                let mut options: Vec<(String, Json)> = Vec::new();
                options.push((text::copy_str("include_usage"), Json::Bool(true)));
                proof {
                    assert(members_view(options@) =~= seq![
                        ("include_usage"@, JsonView::Bool(true)),
                    ]);
                }
                insert_member(members, "stream_options", Json::Object(options));
            }
        },
        _ => {},
    }
}

/// A body with `stream` true.
pub open spec fn streaming_body(body: JsonView) -> JsonView {
    match body {
        JsonView::Object(m) => if bool_of(find_member(m, "stream"@)) == Some(true) {
            body
        } else {
            JsonView::Object(set_member(m, "stream"@, JsonView::Bool(true)))
        },
        _ => body,
    }
}

/// Forces `stream` true, whatever the caller asked for.
pub fn force_stream(body: &mut Json)
    ensures
        final(body)@ == streaming_body(old(body)@),
{
    broadcast use object_view;

    match body {
        Json::Object(members) => {
            let streams = match get_member(members, "stream") {
                Some(value) => value.as_bool(),
                None => None,
            };
            if !matches!(streams, Some(true)) {
                insert_member(members, "stream", Json::Bool(true));
            }
        },
        _ => {},
    }
}

/// Anthropic and Bedrock both cap a request at four blocks carrying
/// `cache_control`.
pub const MAX_CACHE_CONTROL_BLOCKS: usize = 4;

/// How many objects in a value carry a `cache_control` member.
pub open spec fn cache_marks(value: JsonView) -> nat
    decreases value, 0nat,
{
    match value {
        JsonView::Object(m) => own_mark(m) + member_marks(m, m.len()),
        JsonView::Array(items) => item_marks(items, items.len()),
        _ => 0,
    }
}

/// One for an object that carries a `cache_control` member.
pub open spec fn own_mark(members: Members) -> nat {
    if find_member(members, "cache_control"@) is Some {
        1
    } else {
        0
    }
}

/// The marks in the first `n` items.
pub open spec fn item_marks(items: Seq<JsonView>, n: nat) -> nat
    decreases items, n,
{
    if n == 0 || n > items.len() {
        0
    } else {
        item_marks(items, (n - 1) as nat) + cache_marks(items[n - 1])
    }
}

/// The marks in the values of the first `n` members.
pub open spec fn member_marks(members: Members, n: nat) -> nat
    decreases members, n,
{
    if n == 0 || n > members.len() {
        0
    } else {
        member_marks(members, (n - 1) as nat) + cache_marks(members[n - 1].1)
    }
}

/// `n`, held at the largest machine number.
pub open spec fn held(n: nat) -> usize {
    if n <= usize::MAX {
        n as usize
    } else {
        usize::MAX
    }
}

fn add_held(a: usize, b: usize) -> (r: usize)
    ensures
        r == held(a as nat + b as nat),
{
    if a > usize::MAX - b {
        usize::MAX
    } else {
        a + b
    }
}

/// Counts the objects that carry a `cache_control` marker.
pub fn count_cache_control_blocks(value: &Json) -> (r: usize)
    ensures
        r == held(cache_marks(value@)),
    decreases value,
{
    broadcast use {object_view, array_view};

    match value {
        Json::Object(members) => {
            let mut count: usize = match get_member(members, "cache_control") {
                Some(_) => 1,
                None => 0,
            };
            let ghost m = members_view(members@);
            let mut i: usize = 0;
            while i < members.len()
                invariant
                    i <= members.len(),
                    m == members_view(members@),
                    *value == Json::Object(*members),
                    count == held(own_mark(m) + member_marks(m, i as nat)),
                decreases members.len() - i,
            {
                assert(decreases_to!(*members => members@[i as int]));
                assert(decreases_to!(*value => value->Object_0));
                let inner: usize = count_cache_control_blocks(&members[i].1);
                count = add_held(count, inner);
                i = i + 1;
            }
            count
        },
        Json::Array(items) => {
            let mut count: usize = 0;
            let ghost v = items_view(items@);
            let mut i: usize = 0;
            while i < items.len()
                invariant
                    i <= items.len(),
                    v == items_view(items@),
                    *value == Json::Array(*items),
                    count == held(item_marks(v, i as nat)),
                decreases items.len() - i,
            {
                assert(decreases_to!(*items => items@[i as int]));
                assert(decreases_to!(*value => value->Array_0));
                let inner: usize = count_cache_control_blocks(&items[i]);
                count = add_held(count, inner);
                i = i + 1;
            }
            count
        },
        _ => 0,
    }
}

/// The marker of a cache breakpoint.
pub open spec fn ephemeral() -> JsonView {
    JsonView::Object(seq![("type"@, JsonView::Text("ephemeral"@))])
}

/// Content with a cache breakpoint at its end.
pub open spec fn marked_content(content: JsonView) -> JsonView {
    match content {
        JsonView::Text(text) => JsonView::Array(
            seq![
                JsonView::Object(
                    seq![
                        ("type"@, JsonView::Text("text"@)),
                        ("text"@, JsonView::Text(text)),
                        ("cache_control"@, ephemeral()),
                    ],
                ),
            ],
        ),
        JsonView::Array(blocks) => if blocks.len() > 0 && blocks.last() is Object {
            JsonView::Array(
                blocks.update(
                    blocks.len() - 1,
                    JsonView::Object(
                        default_member(
                            blocks.last()->Object_0,
                            "cache_control"@,
                            ephemeral(),
                        ),
                    ),
                ),
            )
        } else {
            content
        },
        _ => content,
    }
}

/// A message whose content ends in a cache breakpoint.
pub open spec fn marked_message(message: JsonView) -> JsonView {
    match message {
        JsonView::Object(m) => match find_member(m, "content"@) {
            Some(content) => JsonView::Object(set_member(m, "content"@, marked_content(content))),
            None => message,
        },
        _ => message,
    }
}

/// A body whose last message is marked, unless it already carries as many
/// markers as a request may.
pub open spec fn cached_body(body: JsonView) -> JsonView {
    if cache_marks(body) >= MAX_CACHE_CONTROL_BLOCKS {
        body
    } else {
        match body {
            JsonView::Object(m) => match find_member(m, "messages"@) {
                Some(JsonView::Array(messages)) => if messages.len() > 0 {
                    JsonView::Object(
                        set_member(
                            m,
                            "messages"@,
                            JsonView::Array(
                                messages.update(
                                    messages.len() - 1,
                                    marked_message(messages.last()),
                                ),
                            ),
                        ),
                    )
                } else {
                    body
                },
                _ => body,
            },
            _ => body,
        }
    }
}

fn marker() -> (r: Json)
    ensures
        r@ == ephemeral(),
{
    broadcast use object_view;

    let mut members: Vec<(String, Json)> = Vec::new();
    members.push((text::copy_str("type"), Json::Text(text::copy_str("ephemeral"))));
    proof {
        assert(members_view(members@) =~= seq![("type"@, JsonView::Text("ephemeral"@))]);
    }
    Json::Object(members)
}

fn mark_content(content: &mut Json)
    ensures
        final(content)@ == marked_content(old(content)@),
{
    broadcast use {object_view, array_view};

    match content {
        Json::Text(text) => {
            let mut block: Vec<(String, Json)> = Vec::new();
            let own = text::copy_str(text.as_str());
            block.push((text::copy_str("type"), Json::Text(text::copy_str("text"))));
            block.push((text::copy_str("text"), Json::Text(own)));
            block.push((text::copy_str("cache_control"), marker()));
            proof {
                assert(members_view(block@) =~= seq![
                    ("type"@, JsonView::Text("text"@)),
                    ("text"@, JsonView::Text(text@)),
                    ("cache_control"@, ephemeral()),
                ]);
            }
            let mut blocks: Vec<Json> = Vec::new();
            blocks.push(Json::Object(block));
            proof {
                assert(items_view(blocks@) =~= seq![JsonView::Object(members_view(block@))]);
            }
            *content = Json::Array(blocks);
        },
        Json::Array(blocks) => {
            let ghost was = items_view(blocks@);
            if blocks.len() > 0 {
                let last: usize = blocks.len() - 1;
                proof {
                    assert(was.last() == blocks@[last as int]@);
                }
                match &mut blocks[last] {
                    Json::Object(block) => {
                        insert_default(block, "cache_control", marker());
                    },
                    _ => {},
                }
                proof {
                    assert(items_view(blocks@) =~= marked_content(
                        JsonView::Array(was),
                    )->Array_0);
                }
            }
        },
        _ => {},
    }
}

fn mark_message(message: &mut Json)
    ensures
        final(message)@ == marked_message(old(message)@),
{
    broadcast use object_view;

    match message {
        Json::Object(members) => match get_member_mut(members, "content") {
            Some(content) => mark_content(content),
            None => {},
        },
        _ => {},
    }
}

/// Marks the final message's content as the prompt-cache breakpoint, unless the
/// caller has spent the budget of markers itself.
pub fn enable_anthropic_prompt_caching(body: &mut Json)
    ensures
        final(body)@ == cached_body(old(body)@),
{
    broadcast use {object_view, array_view};

    if count_cache_control_blocks(body) >= MAX_CACHE_CONTROL_BLOCKS {
        return ;
    }
    match body {
        Json::Object(members) => {
            let ghost m = members_view(members@);
            match get_member_mut(members, "messages") {
                Some(Json::Array(messages)) => {
                    let ghost was = items_view(messages@);
                    if messages.len() > 0 {
                        let last: usize = messages.len() - 1;
                        proof {
                            assert(was.last() == messages@[last as int]@);
                        }
                        mark_message(&mut messages[last]);
                        proof {
                            assert(items_view(messages@) =~= was.update(
                                was.len() - 1,
                                marked_message(was.last()),
                            ));
                        }
                    } else {
                        proof {
                            set_member_to_itself(m, "messages"@, JsonView::Array(was));
                        }
                    }
                },
                Some(other) => {
                    proof {
                        set_member_to_itself(m, "messages"@, (*other)@);
                    }
                },
                None => {},
            }
        },
        _ => {},
    }
}

/// A body stripped for its backend's format.
pub open spec fn stripped(body: JsonView, backend: Backend) -> JsonView {
    if backend is Anthropic {
        signed_body(without_openai_fields(body))
    } else {
        body
    }
}

/// A body with what a Codex backend rejects taken out.
pub open spec fn codex_stripped(body: JsonView, backend: Backend) -> JsonView {
    if codex(backend) {
        without_output_limit(body)
    } else {
        body
    }
}

/// The last step, which depends on the backend's format.
pub open spec fn finished(body: JsonView, backend: Backend) -> JsonView {
    let pin = find_member(extra_members(backend), "reasoning"@);
    match backend {
        Backend::Anthropic(_) => cached_body(body),
        Backend::OpenAiChat(_) => with_stream_usage(canonical_reasoning(body, pin)),
        Backend::OpenAiResponses(_) => if codex(backend) {
            streaming_body(canonical_reasoning(body, pin))
        } else {
            canonical_reasoning(body, pin)
        },
    }
}

/// The body that is sent to a backend for a model.
pub open spec fn prepared(body: JsonView, backend: Backend, model: Seq<char>) -> JsonView {
    finished(
        codex_stripped(
            merged(stripped(with_model(body, model), backend), extra_members(backend)),
            backend,
        ),
        backend,
    )
}

/// Prepares an encoded body for a backend: the resolved model is stamped, fields
/// that the backend rejects are stripped, the target's defaults are merged, and
/// the target's policies on caching, reasoning and streaming are applied.
pub fn prepare_body(body: &mut Json, backend: &Backend, model: &str)
    ensures
        final(body)@ == prepared(old(body)@, *backend, model@),
{
    set_json_model(body, model);
    // Stripped before the merge, so that a target can reinstate a field on purpose.
    if matches!(backend, Backend::Anthropic(_)) {
        strip_anthropic_incompatible_fields(body);
        strip_unsigned_thinking_blocks(body);
    }
    merge_extra_body(body, &backend.config().extra_body);
    let strict = backend.is_codex();
    // Stripped after the merge, so that no target can reinstate it.
    if strict {
        strip_codex_incompatible_fields(body);
    }
    match backend {
        Backend::Anthropic(_) => enable_anthropic_prompt_caching(body),
        Backend::OpenAiChat(_) => {
            canonicalize_reasoning_effort(
                body,
                get_member(&backend.config().extra_body, "reasoning"),
            );
            ensure_openai_stream_usage(body);
        },
        Backend::OpenAiResponses(_) => {
            canonicalize_reasoning_effort(
                body,
                get_member(&backend.config().extra_body, "reasoning"),
            );
            if strict {
                force_stream(body);
            }
        },
    }
}

/// A merge never overrides a member of the caller's, and otherwise gives the
/// target's default.
pub proof fn merge_keeps_the_callers_members(members: Members, extra: Members, key: Seq<char>)
    ensures
        find_member(merged_members(members, extra), key) == (if find_member(members, key) is Some {
            find_member(members, key)
        } else {
            find_member(extra, key)
        }),
    decreases extra.len(),
{
    if extra.len() > 0 {
        let rest = merged_members(members, extra.drop_last());
        let (name, value) = extra.last();
        merge_keeps_the_callers_members(members, extra.drop_last(), key);
        find_in_push(extra.drop_last(), extra.last(), key);
        assert(extra.drop_last().push(extra.last()) =~= extra);
        if find_member(rest, name) is None {
            if name == key {
                set_member_is_found(rest, name, value);
            } else {
                set_member_keeps_others(rest, name, value, key);
            }
        }
    }
}

proof fn find_in_push(members: Members, last: (Seq<char>, JsonView), key: Seq<char>)
    ensures
        find_member(members.push(last), key) == (if find_member(members, key) is Some {
            find_member(members, key)
        } else if last.0 == key {
            Some(last.1)
        } else {
            None
        }),
    decreases members.len(),
{
    let whole = members.push(last);
    if members.len() == 0 {
        assert(whole.drop_first() =~= Seq::empty());
        assert(find_member(whole.drop_first(), key) is None);
    } else {
        find_in_push(members.drop_first(), last, key);
        assert(whole.drop_first() =~= members.drop_first().push(last));
        assert(whole[0] == members[0]);
    }
}

proof fn distinct_body_keys()
    ensures
        "model"@ != "reasoning_effort"@,
        "model"@ != "context_management"@,
        "model"@ != "messages"@,
        "model"@ != "max_output_tokens"@,
        "model"@ != "reasoning"@,
        "model"@ != "stream_options"@,
        "model"@ != "stream"@,
        "reasoning"@ != "reasoning_effort"@,
        "reasoning"@ != "stream_options"@,
        "reasoning"@ != "stream"@,
        "reasoning_effort"@ != "stream_options"@,
        "reasoning_effort"@ != "stream"@,
        "max_output_tokens"@ != "messages"@,
        "max_output_tokens"@ != "reasoning"@,
        "max_output_tokens"@ != "reasoning_effort"@,
        "max_output_tokens"@ != "stream_options"@,
        "max_output_tokens"@ != "stream"@,
        "stream"@ != "reasoning_effort"@,
{
    reveal_strlit("model");
    reveal_strlit("reasoning_effort");
    reveal_strlit("context_management");
    reveal_strlit("messages");
    reveal_strlit("max_output_tokens");
    reveal_strlit("reasoning");
    reveal_strlit("stream_options");
    reveal_strlit("stream");
    assert("model"@.len() == 5);
    assert("reasoning_effort"@.len() == 16);
    assert("context_management"@.len() == 18);
    assert("messages"@.len() == 8);
    assert("max_output_tokens"@.len() == 17);
    assert("reasoning"@.len() == 9);
    assert("stream_options"@.len() == 14);
    assert("stream"@.len() == 6);
}

/// Whatever the caller and the target say, a prepared body names the resolved model.
pub proof fn prepared_body_names_the_model(body: JsonView, backend: Backend, model: Seq<char>)
    requires
        body is Object,
    ensures
        field(prepared(body, backend, model), "model"@) == Some(JsonView::Text(model)),
{
    distinct_body_keys();
    let b0 = with_model(body, model)->Object_0;
    set_member_is_found(body->Object_0, "model"@, JsonView::Text(model));
    let s1 = stripped(JsonView::Object(b0), backend);
    if backend is Anthropic {
        let d = drop_member(b0, "reasoning_effort"@);
        drop_member_keeps_others(b0, "reasoning_effort"@, "model"@);
        drop_member_keeps_others(d, "context_management"@, "model"@);
        let e = drop_member(d, "context_management"@);
        if s1 != JsonView::Object(e) {
            messages_edit_keeps(e, s1->Object_0, "model"@);
        }
    }
    let b1 = s1->Object_0;
    merge_keeps_the_callers_members(b1, extra_members(backend), "model"@);
    let b2 = merged_members(b1, extra_members(backend));
    drop_member_keeps_others(b2, "max_output_tokens"@, "model"@);
    let b3 = codex_stripped(JsonView::Object(b2), backend);
    finish_keeps(b3->Object_0, backend, "model"@);
}

/// An edit that only sets `messages` keeps every other member.
proof fn messages_edit_keeps(before: Members, after: Members, key: Seq<char>)
    requires
        exists|v: JsonView| after == #[trigger] set_member(before, "messages"@, v),
        key != "messages"@,
    ensures
        find_member(after, key) == find_member(before, key),
{
    let v = choose|v: JsonView| after == #[trigger] set_member(before, "messages"@, v);
    set_member_keeps_others(before, "messages"@, v, key);
}

/// The last step keeps every member but those that it is about.
proof fn finish_keeps(members: Members, backend: Backend, key: Seq<char>)
    requires
        key != "messages"@,
        key != "reasoning"@,
        key != "reasoning_effort"@,
        key != "stream"@,
        key != "stream_options"@,
    ensures
        finished(JsonView::Object(members), backend) is Object,
        find_member(finished(JsonView::Object(members), backend)->Object_0, key) == find_member(
            members,
            key,
        ),
{
    let body = JsonView::Object(members);
    let pin = find_member(extra_members(backend), "reasoning"@);
    if backend is Anthropic {
        let after = cached_body(body);
        if after != body {
            messages_edit_keeps(members, after->Object_0, key);
        }
    } else {
        let c = canonical_reasoning(body, pin)->Object_0;
        if pin is Some {
            let set = set_member(members, "reasoning"@, pin->0);
            set_member_keeps_others(members, "reasoning"@, pin->0, key);
            drop_member_keeps_others(set, "reasoning_effort"@, key);
        } else {
            drop_member_keeps_others(members, "reasoning_effort"@, key);
        }
        assert(find_member(c, key) == find_member(members, key));
        let usage = with_stream_usage(JsonView::Object(c))->Object_0;
        if usage != c {
            let v = choose|v: JsonView| usage == #[trigger] set_member(c, "stream_options"@, v);
            set_member_keeps_others(c, "stream_options"@, v, key);
        }
        set_member_keeps_others(c, "stream"@, JsonView::Bool(true), key);
    }
}

/// A target's reasoning pin wins on both OpenAI formats: it replaces what the
/// caller says of reasoning, and the flat field is gone.
pub proof fn reasoning_pin_wins(body: JsonView, backend: Backend, model: Seq<char>)
    requires
        body is Object,
        !(backend is Anthropic),
        find_member(extra_members(backend), "reasoning"@) is Some,
    ensures
        field(prepared(body, backend, model), "reasoning"@) == find_member(
            extra_members(backend),
            "reasoning"@,
        ),
        field(prepared(body, backend, model), "reasoning_effort"@) is None,
{
    distinct_body_keys();
    let pin = find_member(extra_members(backend), "reasoning"@)->0;
    let b = codex_stripped(
        merged(stripped(with_model(body, model), backend), extra_members(backend)),
        backend,
    )->Object_0;
    let set = set_member(b, "reasoning"@, pin);
    let c = drop_member(set, "reasoning_effort"@);
    set_member_is_found(b, "reasoning"@, pin);
    drop_member_keeps_others(set, "reasoning_effort"@, "reasoning"@);
    drop_member_is_gone(set, "reasoning_effort"@);
    reasoning_settled(c, backend);
}

/// With neither pin nor caller in conflict: an object-valued `reasoning` and the
/// flat `reasoning_effort` never go out together on an OpenAI format.
pub proof fn reasoning_is_never_sent_twice(body: JsonView, backend: Backend, model: Seq<char>)
    requires
        body is Object,
        !(backend is Anthropic),
        field(prepared(body, backend, model), "reasoning"@) is Some,
        field(prepared(body, backend, model), "reasoning"@)->0 is Object,
    ensures
        field(prepared(body, backend, model), "reasoning_effort"@) is None,
{
    distinct_body_keys();
    let pin = find_member(extra_members(backend), "reasoning"@);
    if pin is Some {
        reasoning_pin_wins(body, backend, model);
    } else {
        let b = codex_stripped(
            merged(stripped(with_model(body, model), backend), extra_members(backend)),
            backend,
        );
        let c = canonical_reasoning(b, pin)->Object_0;
        reasoning_settled(c, backend);
        drop_member_keeps_others(b->Object_0, "reasoning_effort"@, "reasoning"@);
        drop_member_is_gone(b->Object_0, "reasoning_effort"@);
    }
}

/// What follows the reasoning step leaves both reasoning members as they are.
proof fn reasoning_settled(c: Members, backend: Backend)
    requires
        !(backend is Anthropic),
    ensures
        ({
            let usage = with_stream_usage(JsonView::Object(c));
            let forced = streaming_body(JsonView::Object(c));
            &&& usage is Object && forced is Object
            &&& field(usage, "reasoning"@) == find_member(c, "reasoning"@)
            &&& field(forced, "reasoning"@) == find_member(c, "reasoning"@)
            &&& field(usage, "reasoning_effort"@) == find_member(c, "reasoning_effort"@)
            &&& field(forced, "reasoning_effort"@) == find_member(c, "reasoning_effort"@)
        }),
{
    distinct_body_keys();
    let usage = with_stream_usage(JsonView::Object(c))->Object_0;
    if usage != c {
        let v = choose|v: JsonView| usage == #[trigger] set_member(c, "stream_options"@, v);
        set_member_keeps_others(c, "stream_options"@, v, "reasoning"@);
        set_member_keeps_others(c, "stream_options"@, v, "reasoning_effort"@);
    }
    set_member_keeps_others(c, "stream"@, JsonView::Bool(true), "reasoning"@);
    set_member_keeps_others(c, "stream"@, JsonView::Bool(true), "reasoning_effort"@);
}

/// A Codex backend never sees `max_output_tokens`, whoever asked for it, and its
/// Responses endpoint is always asked to stream.
pub proof fn codex_body_is_accepted(body: JsonView, backend: Backend, model: Seq<char>)
    requires
        body is Object,
        codex(backend),
    ensures
        field(prepared(body, backend, model), "max_output_tokens"@) is None,
        backend is OpenAiResponses ==> bool_of(field(prepared(body, backend, model), "stream"@))
            == Some(true),
{
    distinct_body_keys();
    let b2 = merged(stripped(with_model(body, model), backend), extra_members(backend));
    drop_member_is_gone(b2->Object_0, "max_output_tokens"@);
    let b3 = codex_stripped(b2, backend)->Object_0;
    finish_keeps(b3, backend, "max_output_tokens"@);
    if backend is OpenAiResponses {
        let pin = find_member(extra_members(backend), "reasoning"@);
        let c = canonical_reasoning(JsonView::Object(b3), pin)->Object_0;
        set_member_is_found(c, "stream"@, JsonView::Bool(true));
    }
}

/// Marking a body for prompt caching never takes it past the number of markers
/// that a request may carry: where it did not exceed that number before, it does
/// not after.
pub proof fn caching_stays_within_the_limit(body: JsonView)
    ensures
        cache_marks(cached_body(body)) <= MAX_CACHE_CONTROL_BLOCKS || cached_body(body) == body,
{
    if cached_body(body) != body {
        let m = body->Object_0;
        let messages = find_member(m, "messages"@)->0->Array_0;
        let n = messages.len() - 1;
        let after = JsonView::Array(messages.update(n, marked_message(messages[n])));
        message_marks(messages[n]);
        update_item_marks(messages, n, marked_message(messages[n]), messages.len());
        set_member_marks(m, "messages"@, after);
        reveal_strlit("messages");
        reveal_strlit("cache_control");
        assert("messages"@.len() != "cache_control"@.len());
        set_member_keeps_others(m, "messages"@, after, "cache_control"@);
    }
}

/// Marking a message adds at most one marker.
proof fn message_marks(message: JsonView)
    ensures
        cache_marks(marked_message(message)) <= cache_marks(message) + 1,
{
    if message is Object && find_member(message->Object_0, "content"@) is Some {
        let m = message->Object_0;
        let content = find_member(m, "content"@)->0;
        content_marks(content);
        set_member_marks(m, "content"@, marked_content(content));
        reveal_strlit("content");
        reveal_strlit("cache_control");
        assert("content"@.len() != "cache_control"@.len());
        set_member_keeps_others(m, "content"@, marked_content(content), "cache_control"@);
    }
}

/// Marking content adds at most one marker.
proof fn content_marks(content: JsonView)
    ensures
        cache_marks(marked_content(content)) <= cache_marks(content) + 1,
{
    reveal_with_fuel(cache_marks, 5);
    reveal_with_fuel(member_marks, 5);
    reveal_with_fuel(item_marks, 3);
    match content {
        JsonView::Text(text) => {
            let block = marked_content(content)->Array_0[0]->Object_0;
            assert(block[0].1 == JsonView::Text("text"@));
            assert(block[1].1 == JsonView::Text(text));
            assert(block[2].1 == ephemeral());
            let inner = ephemeral()->Object_0;
            reveal_strlit("type");
            reveal_strlit("cache_control");
            assert("type"@.len() != "cache_control"@.len());
            assert(inner.drop_first() =~= Seq::empty());
            assert(find_member(inner.drop_first(), "cache_control"@) is None);
            assert(own_mark(inner) == 0);
            assert(cache_marks(ephemeral()) == 0);
            assert(member_marks(block, 3) == 0);
        },
        JsonView::Array(blocks) => {
            if blocks.len() > 0 && blocks.last() is Object {
                let n = blocks.len() - 1;
                let b = blocks[n]->Object_0;
                if find_member(b, "cache_control"@) is None {
                    let after = set_member(b, "cache_control"@, ephemeral());
                    let inner = ephemeral()->Object_0;
                    reveal_strlit("type");
                    reveal_strlit("cache_control");
                    assert("type"@.len() != "cache_control"@.len());
                    assert(inner.drop_first() =~= Seq::empty());
                    assert(find_member(inner.drop_first(), "cache_control"@) is None);
                    assert(own_mark(inner) == 0);
                    assert(cache_marks(ephemeral()) == 0);
                    add_member_marks(b, "cache_control"@, ephemeral());
                    set_member_is_found(b, "cache_control"@, ephemeral());
                    assert(cache_marks(JsonView::Object(after)) == cache_marks(blocks[n]) + 1);
                    update_item_marks(blocks, n, JsonView::Object(after), blocks.len());
                } else {
                    assert(blocks.update(n, JsonView::Object(b)) =~= blocks);
                }
            }
        },
        _ => {},
    }
}

/// The marks of a list in which one item was replaced.
proof fn update_item_marks(items: Seq<JsonView>, at: int, value: JsonView, n: nat)
    requires
        0 <= at < items.len(),
        n <= items.len(),
    ensures
        item_marks(items.update(at, value), n) + (if at < n {
            cache_marks(items[at])
        } else {
            0
        }) == item_marks(items, n) + (if at < n {
            cache_marks(value)
        } else {
            0
        }),
    decreases n,
{
    if n > 0 {
        update_item_marks(items, at, value, (n - 1) as nat);
    }
}

/// The marks in the values of members of which the first stands before a list.
proof fn cons_member_marks(head: (Seq<char>, JsonView), tail: Members, n: nat)
    requires
        n <= tail.len(),
    ensures
        member_marks(seq![head] + tail, n + 1) == cache_marks(head.1) + member_marks(tail, n),
    decreases n,
{
    let whole = seq![head] + tail;
    if n > 0 {
        cons_member_marks(head, tail, (n - 1) as nat);
        assert(whole[n as int] == tail[n - 1]);
    } else {
        assert(whole[0] == head);
        assert(member_marks(whole, 0) == 0);
    }
}

proof fn split_member_marks(members: Members)
    requires
        members.len() > 0,
    ensures
        member_marks(members, members.len()) == cache_marks(members[0].1) + member_marks(
            members.drop_first(),
            (members.len() - 1) as nat,
        ),
{
    cons_member_marks(members[0], members.drop_first(), (members.len() - 1) as nat);
    assert(seq![members[0]] + members.drop_first() =~= members);
}

/// Setting a member that exists replaces its marks in the sum.
proof fn set_member_marks(members: Members, key: Seq<char>, value: JsonView)
    requires
        find_member(members, key) is Some,
    ensures
        set_member(members, key, value).len() == members.len(),
        member_marks(set_member(members, key, value), members.len()) + cache_marks(
            find_member(members, key)->0,
        ) == member_marks(members, members.len()) + cache_marks(value),
    decreases members.len(),
{
    let rest = members.drop_first();
    split_member_marks(members);
    if members[0].0 == key {
        cons_member_marks((key, value), rest, rest.len());
    } else {
        set_member_marks(rest, key, value);
        cons_member_marks(members[0], set_member(rest, key, value), rest.len());
    }
}

/// Setting a new member adds its marks to the sum.
proof fn add_member_marks(members: Members, key: Seq<char>, value: JsonView)
    requires
        find_member(members, key) is None,
    ensures
        set_member(members, key, value).len() == members.len() + 1,
        member_marks(set_member(members, key, value), members.len() + 1) == member_marks(
            members,
            members.len(),
        ) + cache_marks(value),
    decreases members.len(),
{
    if members.len() == 0 {
        cons_member_marks((key, value), Seq::empty(), 0);
        assert(seq![(key, value)] + Seq::<(Seq<char>, JsonView)>::empty() =~= seq![(key, value)]);
        assert(member_marks(members, 0) == 0);
        assert(member_marks(Seq::<(Seq<char>, JsonView)>::empty(), 0) == 0);
    } else {
        let rest = members.drop_first();
        split_member_marks(members);
        add_member_marks(rest, key, value);
        cons_member_marks(members[0], set_member(rest, key, value), rest.len() + 1);
    }
}

/// The members that preparing a body is about.
pub open spec fn prepared_key(key: Seq<char>) -> bool {
    ||| key == "model"@
    ||| key == "messages"@
    ||| key == "reasoning"@
    ||| key == "reasoning_effort"@
    ||| key == "context_management"@
    ||| key == "max_output_tokens"@
    ||| key == "stream"@
    ||| key == "stream_options"@
}

/// Every other member of the caller's goes upstream as it came, and where the
/// caller gives none the target's default does.
pub proof fn callers_members_survive(
    body: JsonView,
    backend: Backend,
    model: Seq<char>,
    key: Seq<char>,
)
    requires
        body is Object,
        !prepared_key(key),
    ensures
        field(prepared(body, backend, model), key) == (if field(body, key) is Some {
            field(body, key)
        } else {
            find_member(extra_members(backend), key)
        }),
{
    let m = body->Object_0;
    let b0 = set_member(m, "model"@, JsonView::Text(model));
    set_member_keeps_others(m, "model"@, JsonView::Text(model), key);
    let s1 = stripped(JsonView::Object(b0), backend);
    if backend is Anthropic {
        let d = drop_member(b0, "reasoning_effort"@);
        drop_member_keeps_others(b0, "reasoning_effort"@, key);
        drop_member_keeps_others(d, "context_management"@, key);
        let e = drop_member(d, "context_management"@);
        if s1 != JsonView::Object(e) {
            messages_edit_keeps(e, s1->Object_0, key);
        }
    }
    let b1 = s1->Object_0;
    merge_keeps_the_callers_members(b1, extra_members(backend), key);
    let b2 = merged_members(b1, extra_members(backend));
    drop_member_keeps_others(b2, "max_output_tokens"@, key);
    let b3 = codex_stripped(JsonView::Object(b2), backend);
    finish_keeps(b3->Object_0, backend, key);
}

/// Stripping leaves no unsigned thinking in the content of a message.
pub proof fn no_unsigned_thinking_is_left(message: JsonView, i: int)
    requires
        field(signed_message(message), "content"@) is Some,
        field(signed_message(message), "content"@)->0 is Array,
        0 <= i < field(signed_message(message), "content"@)->0->Array_0.len(),
    ensures
        !unsigned_thinking(field(signed_message(message), "content"@)->0->Array_0[i]),
{
    let m = message->Object_0;
    let keep = |b: JsonView| !unsigned_thinking(b);
    match find_member(m, "content"@) {
        Some(JsonView::Array(blocks)) => {
            let kept = signed_blocks(blocks);
            if kept.len() == blocks.len() {
                all_signed_keeps(blocks);
            } else if kept.len() == 0 {
                set_member_is_found(m, "content"@, JsonView::Text(Seq::empty()));
            } else {
                set_member_is_found(m, "content"@, JsonView::Array(kept));
            }
            blocks.lemma_filter_pred(keep, i);
        },
        _ => {},
    }
}

/// Every block of a message's content that is not unsigned thinking is still in the
/// content after stripping: the content is then an array that holds it.
pub proof fn stripping_keeps_every_other_block(message: JsonView, blocks: Seq<JsonView>, i: int)
    requires
        field(message, "content"@) == Some(JsonView::Array(blocks)),
        0 <= i < blocks.len(),
        field(blocks[i], "type"@) != Some(JsonView::Text("thinking"@)) || (field(
            blocks[i],
            "signature"@,
        ) matches Some(JsonView::Text(signature)) && signature.len() > 0),
    ensures
        ({
            let content = field(signed_message(message), "content"@);
            &&& content is Some
            &&& content->0 is Array
            &&& content->0->Array_0.contains(blocks[i])
        }),
{
    let m = message->Object_0;
    let keep = |b: JsonView| !unsigned_thinking(b);
    let kept = signed_blocks(blocks);
    blocks.lemma_filter_contains(keep, i);
    let k = choose|k: int| 0 <= k < kept.len() && kept[k] == blocks[i];
    if kept.len() == blocks.len() {
        all_signed_keeps(blocks);
    } else {
        set_member_is_found(m, "content"@, JsonView::Array(kept));
    }
}

/// Stripping keeps the other blocks in their order and drops every thinking block
/// whose signature is absent, empty or no text. Only where nothing is left of
/// content that held blocks does it become the empty string. The other members of
/// the message stay.
pub proof fn stripping_drops_unsigned_thinking_alone(message: JsonView, blocks: Seq<JsonView>)
    requires
        field(message, "content"@) == Some(JsonView::Array(blocks)),
    ensures
        ({
            let kept = blocks.filter(
                |b: JsonView|
                    field(b, "type"@) != Some(JsonView::Text("thinking"@)) || (field(
                        b,
                        "signature"@,
                    ) matches Some(JsonView::Text(signature)) && signature.len() > 0),
            );
            field(signed_message(message), "content"@) == Some(
                if kept.len() == 0 && blocks.len() > 0 {
                    JsonView::Text(Seq::empty())
                } else {
                    JsonView::Array(kept)
                },
            )
        }),
        forall|key: Seq<char>|
            key != "content"@ ==> #[trigger] field(signed_message(message), key) == field(
                message,
                key,
            ),
{
    let m = message->Object_0;
    let keep = |b: JsonView| !unsigned_thinking(b);
    let plain = |b: JsonView|
        field(b, "type"@) != Some(JsonView::Text("thinking"@)) || (field(b, "signature"@) matches Some(
            JsonView::Text(signature),
        ) && signature.len() > 0);
    assert forall|b: JsonView| #[trigger] keep(b) == plain(b) by {
        if text_of(field(b, "type"@)) == Some("thinking"@) {
            assert(field(b, "type"@) == Some(JsonView::Text("thinking"@)));
        }
    }
    assert(keep =~= plain);
    let kept = signed_blocks(blocks);
    if kept.len() == blocks.len() {
        all_signed_keeps(blocks);
    } else if kept.len() == 0 {
        set_member_is_found(m, "content"@, JsonView::Text(Seq::empty()));
    } else {
        set_member_is_found(m, "content"@, JsonView::Array(kept));
    }
    assert forall|key: Seq<char>| key != "content"@ implies #[trigger] field(
        signed_message(message),
        key,
    ) == field(message, key) by {
        set_member_keeps_others(m, "content"@, JsonView::Text(Seq::empty()), key);
        set_member_keeps_others(m, "content"@, JsonView::Array(kept), key);
    }
}

/// Content that is no array holds no blocks, and the message stays as it is.
pub proof fn stripping_leaves_other_content(message: JsonView)
    requires
        !(field(message, "content"@) is Some && field(message, "content"@)->0 is Array),
    ensures
        signed_message(message) == message,
{
}

/// What a body says of a member before the last step: what the caller says, but
/// for what the backend's format rejects, and else the target's default.
proof fn before_the_last_step(body: JsonView, backend: Backend, model: Seq<char>, key: Seq<char>)
    requires
        body is Object,
        key != "model"@,
        backend is Anthropic ==> key != "messages"@,
    ensures
        ({
            let b = codex_stripped(
                merged(stripped(with_model(body, model), backend), extra_members(backend)),
                backend,
            );
            let kept = if backend is Anthropic && (key == "reasoning_effort"@ || key
                == "context_management"@) {
                None
            } else {
                field(body, key)
            };
            &&& b is Object
            &&& find_member(b->Object_0, key) == if codex(backend) && key == "max_output_tokens"@ {
                None
            } else if kept is Some {
                kept
            } else {
                find_member(extra_members(backend), key)
            }
        }),
{
    let m = body->Object_0;
    let b0 = set_member(m, "model"@, JsonView::Text(model));
    set_member_keeps_others(m, "model"@, JsonView::Text(model), key);
    let s1 = stripped(JsonView::Object(b0), backend);
    if backend is Anthropic {
        let d = drop_member(b0, "reasoning_effort"@);
        let e = drop_member(d, "context_management"@);
        if key == "reasoning_effort"@ {
            drop_member_is_gone(b0, key);
        } else {
            drop_member_keeps_others(b0, "reasoning_effort"@, key);
        }
        if key == "context_management"@ {
            drop_member_is_gone(d, key);
        } else {
            drop_member_keeps_others(d, "context_management"@, key);
        }
        if s1 != JsonView::Object(e) {
            messages_edit_keeps(e, s1->Object_0, key);
        }
    }
    let b1 = s1->Object_0;
    merge_keeps_the_callers_members(b1, extra_members(backend), key);
    let b2 = merged_members(b1, extra_members(backend));
    if key == "max_output_tokens"@ {
        drop_member_is_gone(b2, key);
    } else {
        drop_member_keeps_others(b2, "max_output_tokens"@, key);
    }
}

/// An output limit goes upstream as the caller or else the target gives it, unless
/// the backend is a Codex one.
pub proof fn output_limit_survives_outside_codex(body: JsonView, backend: Backend, model: Seq<char>)
    requires
        body is Object,
        !codex(backend),
    ensures
        field(prepared(body, backend, model), "max_output_tokens"@) == (if field(
            body,
            "max_output_tokens"@,
        ) is Some {
            field(body, "max_output_tokens"@)
        } else {
            find_member(extra_members(backend), "max_output_tokens"@)
        }),
{
    distinct_body_keys();
    more_distinct_keys();
    before_the_last_step(body, backend, model, "max_output_tokens"@);
    let b = codex_stripped(
        merged(stripped(with_model(body, model), backend), extra_members(backend)),
        backend,
    );
    finish_keeps(b->Object_0, backend, "max_output_tokens"@);
}

/// The OpenAI formats see the caller's messages and context management as they
/// came, and the target's where the caller gives none.
pub proof fn openai_messages_go_through(body: JsonView, backend: Backend, model: Seq<char>)
    requires
        body is Object,
        !(backend is Anthropic),
    ensures
        field(prepared(body, backend, model), "messages"@) == (if field(body, "messages"@) is Some {
            field(body, "messages"@)
        } else {
            find_member(extra_members(backend), "messages"@)
        }),
        field(prepared(body, backend, model), "context_management"@) == (if field(
            body,
            "context_management"@,
        ) is Some {
            field(body, "context_management"@)
        } else {
            find_member(extra_members(backend), "context_management"@)
        }),
{
    more_distinct_keys();
    before_the_last_step(body, backend, model, "messages"@);
    before_the_last_step(body, backend, model, "context_management"@);
    let b = codex_stripped(
        merged(stripped(with_model(body, model), backend), extra_members(backend)),
        backend,
    );
    finish_keeps(b->Object_0, backend, "context_management"@);
    openai_finish_keeps_messages(b->Object_0, backend);
}

proof fn more_distinct_keys()
    ensures
        "messages"@ != "model"@,
        "messages"@ != "max_output_tokens"@,
        "messages"@ != "reasoning"@,
        "messages"@ != "reasoning_effort"@,
        "messages"@ != "context_management"@,
        "messages"@ != "stream"@,
        "messages"@ != "stream_options"@,
        "context_management"@ != "model"@,
        "context_management"@ != "max_output_tokens"@,
        "context_management"@ != "reasoning"@,
        "context_management"@ != "reasoning_effort"@,
        "context_management"@ != "stream"@,
        "context_management"@ != "stream_options"@,
        "stream"@ != "stream_options"@,
        "stream"@ != "reasoning"@,
        "stream"@ != "max_output_tokens"@,
        "stream"@ != "model"@,
        "stream_options"@ != "model"@,
        "stream_options"@ != "reasoning"@,
        "stream_options"@ != "reasoning_effort"@,
        "stream_options"@ != "max_output_tokens"@,
{
    reveal_strlit("model");
    reveal_strlit("reasoning_effort");
    reveal_strlit("context_management");
    reveal_strlit("messages");
    reveal_strlit("max_output_tokens");
    reveal_strlit("reasoning");
    reveal_strlit("stream_options");
    reveal_strlit("stream");
    assert("model"@.len() == 5);
    assert("reasoning_effort"@.len() == 16);
    assert("context_management"@.len() == 18);
    assert("messages"@.len() == 8);
    assert("max_output_tokens"@.len() == 17);
    assert("reasoning"@.len() == 9);
    assert("stream_options"@.len() == 14);
    assert("stream"@.len() == 6);
}

/// On the OpenAI formats the reasoning step and what follows leave a member alone
/// that they are not about.
proof fn reasoning_step_keeps(members: Members, pin: Option<JsonView>, key: Seq<char>)
    requires
        key != "reasoning"@,
        key != "reasoning_effort"@,
    ensures
        canonical_reasoning(JsonView::Object(members), pin) is Object,
        field(canonical_reasoning(JsonView::Object(members), pin), key) == find_member(members, key),
{
    if pin is Some {
        let set = set_member(members, "reasoning"@, pin->0);
        set_member_keeps_others(members, "reasoning"@, pin->0, key);
        drop_member_keeps_others(set, "reasoning_effort"@, key);
    } else {
        drop_member_keeps_others(members, "reasoning_effort"@, key);
    }
}

/// Asking for usage changes no member but `stream_options`.
proof fn usage_step_keeps(members: Members, key: Seq<char>)
    requires
        key != "stream_options"@,
    ensures
        with_stream_usage(JsonView::Object(members)) is Object,
        field(with_stream_usage(JsonView::Object(members)), key) == find_member(members, key),
{
    let usage = with_stream_usage(JsonView::Object(members))->Object_0;
    if usage != members {
        let v = choose|v: JsonView| usage == #[trigger] set_member(members, "stream_options"@, v);
        set_member_keeps_others(members, "stream_options"@, v, key);
    }
}

proof fn openai_finish_keeps_messages(members: Members, backend: Backend)
    requires
        !(backend is Anthropic),
    ensures
        finished(JsonView::Object(members), backend) is Object,
        field(finished(JsonView::Object(members), backend), "messages"@) == find_member(
            members,
            "messages"@,
        ),
{
    more_distinct_keys();
    let pin = find_member(extra_members(backend), "reasoning"@);
    reasoning_step_keeps(members, pin, "messages"@);
    let c = canonical_reasoning(JsonView::Object(members), pin)->Object_0;
    usage_step_keeps(c, "messages"@);
    set_member_keeps_others(c, "stream"@, JsonView::Bool(true), "messages"@);
}

/// Anthropic never sees the caller's flat effort or context management: both are
/// the target's own, if there are any. What the caller says of `reasoning` and of
/// streaming goes through.
pub proof fn anthropic_fields_are_the_targets(
    body: JsonView,
    backend: Backend,
    model: Seq<char>,
    key: Seq<char>,
)
    requires
        body is Object,
        backend is Anthropic,
    ensures
        field(prepared(body, backend, model), "reasoning_effort"@) == find_member(
            extra_members(backend),
            "reasoning_effort"@,
        ),
        field(prepared(body, backend, model), "context_management"@) == find_member(
            extra_members(backend),
            "context_management"@,
        ),
        key == "reasoning"@ || key == "stream"@ || key == "stream_options"@ ==> field(
            prepared(body, backend, model),
            key,
        ) == (if field(body, key) is Some {
            field(body, key)
        } else {
            find_member(extra_members(backend), key)
        }),
{
    distinct_body_keys();
    more_distinct_keys();
    let b = codex_stripped(
        merged(stripped(with_model(body, model), backend), extra_members(backend)),
        backend,
    );
    before_the_last_step(body, backend, model, "reasoning_effort"@);
    before_the_last_step(body, backend, model, "context_management"@);
    anthropic_finish_keeps(b->Object_0, backend, "reasoning_effort"@);
    anthropic_finish_keeps(b->Object_0, backend, "context_management"@);
    if key == "reasoning"@ || key == "stream"@ || key == "stream_options"@ {
        before_the_last_step(body, backend, model, key);
        anthropic_finish_keeps(b->Object_0, backend, key);
    }
}

/// Prompt caching changes no member but `messages`.
proof fn anthropic_finish_keeps(members: Members, backend: Backend, key: Seq<char>)
    requires
        backend is Anthropic,
        key != "messages"@,
    ensures
        finished(JsonView::Object(members), backend) is Object,
        field(finished(JsonView::Object(members), backend), key) == find_member(members, key),
{
    let after = cached_body(JsonView::Object(members));
    if after != JsonView::Object(members) {
        messages_edit_keeps(members, after->Object_0, key);
    }
}

/// Without a pin of the target's, an OpenAI format sees the caller's `reasoning` as
/// it came, and the caller's flat effort, or else the target's, unless `reasoning`
/// is an object, which says the same already.
pub proof fn unpinned_reasoning_is_the_callers(body: JsonView, backend: Backend, model: Seq<char>)
    requires
        body is Object,
        !(backend is Anthropic),
        find_member(extra_members(backend), "reasoning"@) is None,
    ensures
        field(prepared(body, backend, model), "reasoning"@) == field(body, "reasoning"@),
        field(prepared(body, backend, model), "reasoning_effort"@) == (if field(body, "reasoning"@)
            is Some && field(body, "reasoning"@)->0 is Object {
            None
        } else if field(body, "reasoning_effort"@) is Some {
            field(body, "reasoning_effort"@)
        } else {
            find_member(extra_members(backend), "reasoning_effort"@)
        }),
{
    distinct_body_keys();
    let b = codex_stripped(
        merged(stripped(with_model(body, model), backend), extra_members(backend)),
        backend,
    );
    before_the_last_step(body, backend, model, "reasoning"@);
    before_the_last_step(body, backend, model, "reasoning_effort"@);
    let c = canonical_reasoning(b, None)->Object_0;
    drop_member_keeps_others(b->Object_0, "reasoning_effort"@, "reasoning"@);
    drop_member_is_gone(b->Object_0, "reasoning_effort"@);
    reasoning_settled(c, backend);
}

/// Whether a reply streams is the caller's or else the target's choice, except on a
/// Codex Responses endpoint.
pub proof fn streaming_is_the_callers_choice(body: JsonView, backend: Backend, model: Seq<char>)
    requires
        body is Object,
        !(backend is OpenAiResponses && codex(backend)),
    ensures
        field(prepared(body, backend, model), "stream"@) == (if field(body, "stream"@) is Some {
            field(body, "stream"@)
        } else {
            find_member(extra_members(backend), "stream"@)
        }),
{
    more_distinct_keys();
    distinct_body_keys();
    let b = codex_stripped(
        merged(stripped(with_model(body, model), backend), extra_members(backend)),
        backend,
    );
    before_the_last_step(body, backend, model, "stream"@);
    if backend is Anthropic {
        anthropic_finish_keeps(b->Object_0, backend, "stream"@);
    } else {
        let pin = find_member(extra_members(backend), "reasoning"@);
        reasoning_step_keeps(b->Object_0, pin, "stream"@);
        usage_step_keeps(canonical_reasoning(b, pin)->Object_0, "stream"@);
    }
}

/// A streamed Chat call asks for usage: the caller's own choice of `include_usage`
/// stands, without one it is true, and the other stream options stay. Where the
/// call does not stream, and on the other formats, the options go through as they
/// are.
pub proof fn streamed_chat_asks_for_usage(
    body: JsonView,
    backend: Backend,
    model: Seq<char>,
    key: Seq<char>,
)
    requires
        body is Object,
    ensures
        ({
            let out = prepared(body, backend, model);
            let options = if field(body, "stream_options"@) is Some {
                field(body, "stream_options"@)
            } else {
                find_member(extra_members(backend), "stream_options"@)
            };
            let asked = if options is Some {
                field(options->0, "include_usage"@)
            } else {
                None
            };
            if backend is OpenAiChat && field(out, "stream"@) == Some(JsonView::Bool(true)) {
                &&& field(out, "stream_options"@) is Some
                &&& field(field(out, "stream_options"@)->0, "include_usage"@) == (if asked is Some {
                    asked
                } else {
                    Some(JsonView::Bool(true))
                })
                &&& key != "include_usage"@ ==> field(field(out, "stream_options"@)->0, key) == (
                if options is Some {
                    field(options->0, key)
                } else {
                    None
                })
            } else {
                field(out, "stream_options"@) == options
            }
        }),
{
    more_distinct_keys();
    distinct_body_keys();
    let b = codex_stripped(
        merged(stripped(with_model(body, model), backend), extra_members(backend)),
        backend,
    );
    before_the_last_step(body, backend, model, "stream_options"@);
    if backend is Anthropic {
        anthropic_finish_keeps(b->Object_0, backend, "stream_options"@);
    } else {
        let pin = find_member(extra_members(backend), "reasoning"@);
        let c = canonical_reasoning(b, pin)->Object_0;
        reasoning_step_keeps(b->Object_0, pin, "stream_options"@);
        set_member_keeps_others(c, "stream"@, JsonView::Bool(true), "stream_options"@);
        if backend is OpenAiChat {
            usage_step_keeps(c, "stream"@);
            let found = find_member(c, "stream_options"@);
            let fresh = seq![("include_usage"@, JsonView::Bool(true))];
            let set = match found {
                Some(JsonView::Object(o)) => default_member(
                    o,
                    "include_usage"@,
                    JsonView::Bool(true),
                ),
                _ => fresh,
            };
            set_member_is_found(c, "stream_options"@, JsonView::Object(set));
            assert(fresh.drop_first() =~= Seq::empty());
            assert(find_member(fresh.drop_first(), key) is None);
            if found is Some && found->0 is Object {
                let o = found->0->Object_0;
                set_member_is_found(o, "include_usage"@, JsonView::Bool(true));
                if key != "include_usage"@ {
                    set_member_keeps_others(o, "include_usage"@, JsonView::Bool(true), key);
                }
            }
        }
    }
}

/// Marks add up: those of an array are its items', those of an object its members',
/// with one more for a member called `cache_control`; nothing else carries any.
pub proof fn marks_add_up(
    items: Seq<JsonView>,
    item: JsonView,
    members: Members,
    key: Seq<char>,
    value: JsonView,
)
    requires
        forall|i: int| 0 <= i < members.len() ==> (#[trigger] members[i]).0 != key,
    ensures
        cache_marks(JsonView::Array(Seq::empty())) == 0,
        cache_marks(JsonView::Object(Seq::empty())) == 0,
        cache_marks(JsonView::Array(items.push(item))) == cache_marks(JsonView::Array(items))
            + cache_marks(item),
        cache_marks(JsonView::Object(members.push((key, value)))) == cache_marks(
            JsonView::Object(members),
        ) + cache_marks(value) + (if key == "cache_control"@ {
            1int
        } else {
            0int
        }),
        !(value is Array) && !(value is Object) ==> cache_marks(value) == 0,
{
    let more = items.push(item);
    item_marks_agree(items, more, items.len());
    assert(more[items.len() as int] == item);
    let wider = members.push((key, value));
    member_marks_agree(members, wider, members.len());
    assert(wider[members.len() as int] == (key, value));
    find_in_push(members, (key, value), "cache_control"@);
    if key == "cache_control"@ {
        crate::json::absent_member_is_not_found(members, key);
    }
}

proof fn item_marks_agree(a: Seq<JsonView>, b: Seq<JsonView>, n: nat)
    requires
        n <= a.len(),
        n <= b.len(),
        forall|i: int| 0 <= i < n ==> a[i] == b[i],
    ensures
        item_marks(a, n) == item_marks(b, n),
    decreases n,
{
    if n > 0 {
        item_marks_agree(a, b, (n - 1) as nat);
    }
}

proof fn member_marks_agree(a: Members, b: Members, n: nat)
    requires
        n <= a.len(),
        n <= b.len(),
        forall|i: int| 0 <= i < n ==> a[i] == b[i],
    ensures
        member_marks(a, n) == member_marks(b, n),
    decreases n,
{
    if n > 0 {
        member_marks_agree(a, b, (n - 1) as nat);
    }
}

/// With four marks or more the budget is spent, and a body is not marked again.
pub proof fn spent_budget_adds_no_mark(body: JsonView)
    requires
        cache_marks(body) >= 4,
    ensures
        cached_body(body) == body,
{
}

/// Within the budget of four marks the end of the last message becomes the cache
/// breakpoint: a text becomes one text block that carries the marker, and of an
/// array the last block gets it unless it carries one already. The other blocks
/// and messages, and every other member, stay as they are.
pub proof fn breakpoint_ends_the_last_message(
    body: JsonView,
    messages: Seq<JsonView>,
    key: Seq<char>,
)
    requires
        field(body, "messages"@) == Some(JsonView::Array(messages)),
        messages.len() > 0,
        cache_marks(body) < 4,
    ensures
        ({
            let out = field(cached_body(body), "messages"@);
            let after = out->0->Array_0;
            let content = field(messages.last(), "content"@);
            let marked = field(after.last(), "content"@);
            let marker = JsonView::Object(seq![("type"@, JsonView::Text("ephemeral"@))]);
            &&& out is Some
            &&& out->0 is Array
            &&& after.len() == messages.len()
            &&& after.drop_last() == messages.drop_last()
            &&& key != "messages"@ ==> field(cached_body(body), key) == field(body, key)
            &&& key != "content"@ ==> field(after.last(), key) == field(messages.last(), key)
            &&& match content {
                Some(JsonView::Text(text)) => marked == Some(
                    JsonView::Array(
                        seq![
                            JsonView::Object(
                                seq![
                                    ("type"@, JsonView::Text("text"@)),
                                    ("text"@, JsonView::Text(text)),
                                    ("cache_control"@, marker),
                                ],
                            ),
                        ],
                    ),
                ),
                Some(JsonView::Array(blocks)) => if blocks.len() > 0 && blocks.last() is Object {
                    &&& marked is Some
                    &&& marked->0 is Array
                    &&& marked->0->Array_0.len() == blocks.len()
                    &&& marked->0->Array_0.drop_last() == blocks.drop_last()
                    &&& field(marked->0->Array_0.last(), "cache_control"@) == (if field(
                        blocks.last(),
                        "cache_control"@,
                    ) is Some {
                        field(blocks.last(), "cache_control"@)
                    } else {
                        Some(marker)
                    })
                    &&& key != "cache_control"@ ==> field(marked->0->Array_0.last(), key) == field(
                        blocks.last(),
                        key,
                    )
                } else {
                    marked == content
                },
                _ => marked == content,
            }
        }),
{
    let m = body->Object_0;
    let last = messages.last();
    let after = messages.update(messages.len() - 1, marked_message(last));
    set_member_is_found(m, "messages"@, JsonView::Array(after));
    if key != "messages"@ {
        set_member_keeps_others(m, "messages"@, JsonView::Array(after), key);
    }
    assert(after.drop_last() =~= messages.drop_last());
    assert(after.last() == marked_message(last));
    if field(last, "content"@) is Some {
        let content = field(last, "content"@)->0;
        let marked = marked_content(content);
        set_member_is_found(last->Object_0, "content"@, marked);
        if key != "content"@ {
            set_member_keeps_others(last->Object_0, "content"@, marked, key);
        }
        match content {
            JsonView::Array(blocks) => {
                if blocks.len() > 0 && blocks.last() is Object {
                    let block = blocks.last()->Object_0;
                    set_member_is_found(block, "cache_control"@, ephemeral());
                    if key != "cache_control"@ {
                        set_member_keeps_others(block, "cache_control"@, ephemeral(), key);
                    }
                    assert(marked->Array_0.drop_last() =~= blocks.drop_last());
                }
            },
            _ => {},
        }
    }
}

/// An Anthropic call ends in a cache breakpoint: where the last message is a text,
/// it goes out as one text block that carries the marker, unless the body carries
/// the full budget of four marks without it.
pub proof fn anthropic_calls_end_in_a_breakpoint(
    body: JsonView,
    backend: Backend,
    model: Seq<char>,
    messages: Seq<JsonView>,
    text: Seq<char>,
)
    requires
        backend is Anthropic,
        field(body, "messages"@) == Some(JsonView::Array(messages)),
        messages.len() > 0,
        field(messages.last(), "content"@) == Some(JsonView::Text(text)),
    ensures
        ({
            let out = field(prepared(body, backend, model), "messages"@);
            let after = out->0->Array_0;
            &&& out is Some
            &&& out->0 is Array
            &&& after.len() == messages.len()
            &&& cache_marks(prepared(body, backend, model)) >= 4 || field(
                after.last(),
                "content"@,
            ) == Some(
                JsonView::Array(
                    seq![
                        JsonView::Object(
                            seq![
                                ("type"@, JsonView::Text("text"@)),
                                ("text"@, JsonView::Text(text)),
                                (
                                    "cache_control"@,
                                    JsonView::Object(seq![("type"@, JsonView::Text("ephemeral"@))]),
                                ),
                            ],
                        ),
                    ],
                ),
            )
        }),
{
    let signed = Seq::new(messages.len(), |i: int| signed_message(messages[i]));
    let b = stripped_before_caching(body, backend, model, messages);
    assert(signed.last() == messages.last());
    if cache_marks(b) < 4 {
        breakpoint_ends_the_last_message(b, signed, "content"@);
    }
}

/// An Anthropic body before caching: its messages are stripped, each in its place.
proof fn stripped_before_caching(
    body: JsonView,
    backend: Backend,
    model: Seq<char>,
    messages: Seq<JsonView>,
) -> (b: JsonView)
    requires
        backend is Anthropic,
        field(body, "messages"@) == Some(JsonView::Array(messages)),
    ensures
        prepared(body, backend, model) == cached_body(b),
        field(b, "messages"@) == Some(
            JsonView::Array(Seq::new(messages.len(), |i: int| signed_message(messages[i]))),
        ),
{
    distinct_body_keys();
    more_distinct_keys();
    let m = body->Object_0;
    let b0 = set_member(m, "model"@, JsonView::Text(model));
    set_member_keeps_others(m, "model"@, JsonView::Text(model), "messages"@);
    let d = drop_member(b0, "reasoning_effort"@);
    let e = drop_member(d, "context_management"@);
    drop_member_keeps_others(b0, "reasoning_effort"@, "messages"@);
    drop_member_keeps_others(d, "context_management"@, "messages"@);
    let signed = Seq::new(messages.len(), |i: int| signed_message(messages[i]));
    set_member_is_found(e, "messages"@, JsonView::Array(signed));
    let b1 = set_member(e, "messages"@, JsonView::Array(signed));
    assert(signed_body(JsonView::Object(e)) == JsonView::Object(b1));
    merge_keeps_the_callers_members(b1, extra_members(backend), "messages"@);
    let b2 = merged_members(b1, extra_members(backend));
    drop_member_keeps_others(b2, "max_output_tokens"@, "messages"@);
    codex_stripped(JsonView::Object(b2), backend)
}

/// The messages of an Anthropic call go out in their order, each stripped of
/// unsigned thinking and otherwise as it came; of the last one's content nothing
/// but the cache marker at its end changes.
pub proof fn anthropic_messages_keep_their_content(
    body: JsonView,
    backend: Backend,
    model: Seq<char>,
    messages: Seq<JsonView>,
    key: Seq<char>,
)
    requires
        backend is Anthropic,
        field(body, "messages"@) == Some(JsonView::Array(messages)),
        messages.len() > 0,
    ensures
        ({
            let out = field(prepared(body, backend, model), "messages"@);
            let after = out->0->Array_0;
            let content = field(signed_message(messages.last()), "content"@);
            let sent = field(after.last(), "content"@);
            &&& out is Some
            &&& out->0 is Array
            &&& after.len() == messages.len()
            &&& forall|i: int|
                0 <= i < messages.len() - 1 ==> #[trigger] after[i] == signed_message(messages[i])
            &&& key != "content"@ ==> field(after.last(), key) == field(
                signed_message(messages.last()),
                key,
            )
            &&& match content {
                Some(JsonView::Array(blocks)) => if blocks.len() > 0 && blocks.last() is Object {
                    &&& sent is Some
                    &&& sent->0 is Array
                    &&& sent->0->Array_0.len() == blocks.len()
                    &&& sent->0->Array_0.drop_last() == blocks.drop_last()
                    &&& key != "cache_control"@ ==> field(sent->0->Array_0.last(), key) == field(
                        blocks.last(),
                        key,
                    )
                } else {
                    sent == content
                },
                Some(JsonView::Text(_)) => true,
                _ => sent == content,
            }
        }),
{
    let signed = Seq::new(messages.len(), |i: int| signed_message(messages[i]));
    let b = stripped_before_caching(body, backend, model, messages);
    assert(signed.last() == signed_message(messages.last()));
    if cache_marks(b) < 4 {
        breakpoint_ends_the_last_message(b, signed, key);
        let after = field(cached_body(b), "messages"@)->0->Array_0;
        assert forall|i: int| 0 <= i < messages.len() - 1 implies #[trigger] after[i]
            == signed_message(messages[i]) by {
            assert(after.drop_last()[i] == signed.drop_last()[i]);
        }
    }
}

/// A body that is no object goes out as it is.
pub proof fn other_bodies_go_through(body: JsonView, backend: Backend, model: Seq<char>)
    requires
        !(body is Object),
    ensures
        prepared(body, backend, model) == body,
{
}

/// Stripping a message in place keeps every block of its content that is not unsigned
/// thinking, and drops the rest; only where nothing is left of content that held
/// blocks does it become the empty string.
pub proof fn stripped_message_holds_the_other_blocks(
    message: &mut Json,
    blocks: Seq<JsonView>,
    i: int,
)
    requires
        call_ensures(strip_unsigned_thinking_from_message, (message,), ()),
        field(old(message)@, "content"@) == Some(JsonView::Array(blocks)),
        0 <= i < blocks.len(),
    ensures
        ({
            let content = field(final(message)@, "content"@);
            let kept = blocks.filter(
                |b: JsonView|
                    field(b, "type"@) != Some(JsonView::Text("thinking"@)) || (field(
                        b,
                        "signature"@,
                    ) matches Some(JsonView::Text(signature)) && signature.len() > 0),
            );
            let keeps = field(blocks[i], "type"@) != Some(JsonView::Text("thinking"@)) || (field(
                blocks[i],
                "signature"@,
            ) matches Some(JsonView::Text(signature)) && signature.len() > 0);
            &&& keeps ==> content is Some && content->0 is Array && content->0->Array_0.contains(
                blocks[i],
            )
            &&& content == Some(
                if kept.len() == 0 {
                    JsonView::Text(Seq::empty())
                } else {
                    JsonView::Array(kept)
                },
            )
        }),
{
    stripping_drops_unsigned_thinking_alone(old(message)@, blocks);
    if field(blocks[i], "type"@) != Some(JsonView::Text("thinking"@)) || (field(
        blocks[i],
        "signature"@,
    ) matches Some(JsonView::Text(signature)) && signature.len() > 0) {
        stripping_keeps_every_other_block(old(message)@, blocks, i);
    }
}

/// Stripping a body works on each message in its place, and on nothing else.
pub proof fn stripped_body_changes_its_messages_alone(
    body: &mut Json,
    messages: Seq<JsonView>,
    i: int,
    key: Seq<char>,
)
    requires
        call_ensures(strip_unsigned_thinking_blocks, (body,), ()),
        field(old(body)@, "messages"@) == Some(JsonView::Array(messages)),
    ensures
        ({
            let after = field(final(body)@, "messages"@);
            &&& after is Some && after->0 is Array
            &&& after->0->Array_0.len() == messages.len()
            &&& 0 <= i < messages.len() ==> after->0->Array_0[i] == signed_message(messages[i])
            &&& key != "messages"@ ==> field(final(body)@, key) == field(old(body)@, key)
        }),
{
    let m = old(body)@->Object_0;
    let signed = JsonView::Array(Seq::new(messages.len(), |i: int| signed_message(messages[i])));
    set_member_is_found(m, "messages"@, signed);
    if key != "messages"@ {
        set_member_keeps_others(m, "messages"@, signed, key);
    }
}

/// What the single steps leave behind: the model is the resolved one; Anthropic's
/// rejected fields and Codex's output limit are gone; a forced stream is on; and every
/// other member is as it was.
pub proof fn single_steps_touch_their_own_fields(
    modelled: &mut Json,
    stripped: &mut Json,
    limited: &mut Json,
    streamed: &mut Json,
    model: &str,
    key: Seq<char>,
)
    requires
        call_ensures(set_json_model, (modelled, model), ()),
        call_ensures(strip_anthropic_incompatible_fields, (stripped,), ()),
        call_ensures(strip_codex_incompatible_fields, (limited,), ()),
        call_ensures(force_stream, (streamed,), ()),
        old(modelled)@ is Object,
        old(stripped)@ is Object,
        old(limited)@ is Object,
        old(streamed)@ is Object,
    ensures
        field(final(modelled)@, key) == (if key == "model"@ {
            Some(JsonView::Text(model@))
        } else {
            field(old(modelled)@, key)
        }),
        field(final(stripped)@, key) == (if key == "reasoning_effort"@ || key
            == "context_management"@ {
            None
        } else {
            field(old(stripped)@, key)
        }),
        field(final(limited)@, key) == (if key == "max_output_tokens"@ {
            None
        } else {
            field(old(limited)@, key)
        }),
        field(final(streamed)@, key) == (if key == "stream"@ {
            Some(JsonView::Bool(true))
        } else {
            field(old(streamed)@, key)
        }),
{
    let a = old(modelled)@->Object_0;
    let b = old(stripped)@->Object_0;
    let c = old(limited)@->Object_0;
    let d = old(streamed)@->Object_0;
    set_member_is_found(a, "model"@, JsonView::Text(model@));
    if key != "model"@ {
        set_member_keeps_others(a, "model"@, JsonView::Text(model@), key);
    }
    let e = drop_member(b, "reasoning_effort"@);
    drop_member_is_gone(b, "reasoning_effort"@);
    drop_member_is_gone(e, "context_management"@);
    if key != "reasoning_effort"@ {
        drop_member_keeps_others(b, "reasoning_effort"@, key);
    }
    if key != "context_management"@ {
        drop_member_keeps_others(e, "context_management"@, key);
    }
    drop_member_is_gone(c, "max_output_tokens"@);
    if key != "max_output_tokens"@ {
        drop_member_keeps_others(c, "max_output_tokens"@, key);
    }
    set_member_is_found(d, "stream"@, JsonView::Bool(true));
    if key != "stream"@ {
        set_member_keeps_others(d, "stream"@, JsonView::Bool(true), key);
    }
}

/// Merging a target's defaults gives each member the caller's value, and the target's
/// where the caller has none.
pub proof fn defaults_fill_in_for_the_caller(
    body: &mut Json,
    extra: Vec<(String, Json)>,
    key: Seq<char>,
)
    requires
        call_ensures(merge_extra_body, (body, &extra), ()),
        old(body)@ is Object,
    ensures
        field(final(body)@, key) == (if field(old(body)@, key) is Some {
            field(old(body)@, key)
        } else {
            find_member(members_view(extra@), key)
        }),
{
    merge_keeps_the_callers_members(old(body)@->Object_0, members_view(extra@), key);
}

/// The number of marks in a body is counted whole, held at the largest machine number.
pub proof fn marks_are_counted(value: Json, r: usize)
    requires
        call_ensures(count_cache_control_blocks, (&value,), r),
    ensures
        cache_marks(value@) <= usize::MAX ==> r == cache_marks(value@),
        cache_marks(value@) > usize::MAX ==> r == usize::MAX,
{
}

} // verus!
