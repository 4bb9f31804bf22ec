//! Route-authoritative reasoning policy: an abstract route-level intent, and
//! how each upstream dialect writes it on the wire.
//!
//! A route states what execution mode it forces on every candidate that it can
//! reach; each target's backend puts that intent into the control that its
//! endpoint understands. Routes never carry provider syntax.
use vstd::prelude::*;
use crate::json::{field, find_member, object_view, Json, JsonView};
use crate::text;

verus! {

/// Reasoning execution mode a route forces onto every reachable target.
///
/// Declared per route as `reasoning_policy = "none" | "low" | "medium" |
/// "high" | "max"`.
#[derive(Clone, Copy, Debug, PartialEq, Eq, Structural)]
pub enum ReasoningPolicy {
    /// Forbid reasoning (`none`): no reasoning may be produced or billed.
    Off,
    /// Permit reasoning with a bounded effort budget.
    Low,
    /// Permit reasoning with a bounded effort budget.
    Medium,
    /// Permit reasoning with a bounded effort budget.
    High,
    /// Permit reasoning at the provider's maximum effort.
    Max,
}

/// The canonical name of a policy.
pub open spec fn policy_name(policy: ReasoningPolicy) -> Seq<char> {
    match policy {
        ReasoningPolicy::Off => "none"@,
        ReasoningPolicy::Low => "low"@,
        ReasoningPolicy::Medium => "medium"@,
        ReasoningPolicy::High => "high"@,
        ReasoningPolicy::Max => "max"@,
    }
}

/// The policy that a name, free of surrounding white space, stands for.
pub open spec fn policy_called(name: Seq<char>) -> Option<ReasoningPolicy> {
    if name == "none"@ {
        Some(ReasoningPolicy::Off)
    } else if name == "low"@ {
        Some(ReasoningPolicy::Low)
    } else if name == "medium"@ {
        Some(ReasoningPolicy::Medium)
    } else if name == "high"@ {
        Some(ReasoningPolicy::High)
    } else if name == "max"@ {
        Some(ReasoningPolicy::Max)
    } else {
        None
    }
}

impl ReasoningPolicy {
    /// Canonical wire-neutral name of the policy (also the config spelling).
    pub fn as_str(self) -> (r: &'static str)
        ensures
            r@ == policy_name(self),
    {
        match self {
            ReasoningPolicy::Off => "none",
            ReasoningPolicy::Low => "low",
            ReasoningPolicy::Medium => "medium",
            ReasoningPolicy::High => "high",
            ReasoningPolicy::Max => "max",
        }
    }

    /// Whether this policy demands that reasoning is enabled at all.
    pub fn is_thinking(self) -> (r: bool)
        ensures
            r == (self != ReasoningPolicy::Off),
    {
        !matches!(self, ReasoningPolicy::Off)
    }

    /// Parses the config spelling; white space around it is ignored, and an
    /// unknown name gives `None`.
    pub fn parse(value: &str) -> (r: Option<Self>)
        ensures
            r == policy_called(text::trimmed(value@)),
    {
        let name = text::trim(value);
        let name = name.as_str();
        if text::str_eq(name, "none") {
            Some(ReasoningPolicy::Off)
        } else if text::str_eq(name, "low") {
            Some(ReasoningPolicy::Low)
        } else if text::str_eq(name, "medium") {
            Some(ReasoningPolicy::Medium)
        } else if text::str_eq(name, "high") {
            Some(ReasoningPolicy::High)
        } else if text::str_eq(name, "max") {
            Some(ReasoningPolicy::Max)
        } else {
            None
        }
    }
}

/// Parsing gives back every policy from its canonical name.
pub proof fn parse_undoes_as_str(policy: ReasoningPolicy)
    ensures
        policy_called(text::trimmed(policy_name(policy))) == Some(policy),
{
    reveal_strlit("none");
    reveal_strlit("low");
    reveal_strlit("medium");
    reveal_strlit("high");
    reveal_strlit("max");
    let name = policy_name(policy);
    assert(!text::is_white_space(name[0]));
    assert(!text::is_white_space(name.last()));
    assert("none"@[0] == 'n');
    assert("low"@[0] == 'l');
    assert("medium"@[1] == 'e');
    assert("high"@[0] == 'h');
    assert("max"@[1] == 'a');
}

/// The reasoning-control dialect an upstream speaks: how an abstract
/// [`ReasoningPolicy`] is expressed on that provider's wire.
#[derive(Clone, Copy, Debug, PartialEq, Eq, Structural)]
pub enum ReasoningDialect {
    /// `reasoning.effort = "<policy>"`, with effort `none` disabling reasoning.
    OpenAiEffort,
    /// `reasoning = { enabled = <bool> }`. Boolean switch only.
    OpenRouterEnabled,
    /// `chat_template_kwargs.enable_thinking = <bool>`. Boolean switch only.
    LlamaCppEnableThinking,
    /// `chat_template_kwargs.reasoning_effort = "<policy>"` for a thinking
    /// policy, `chat_template_kwargs.enable_thinking = false` for none.
    ChatTemplateReasoningEffort,
}

/// An object of one member.
pub open spec fn one_member(key: Seq<char>, value: JsonView) -> JsonView {
    JsonView::Object(seq![(key, value)])
}

/// The object that a dialect adds to a request to express a policy.
pub open spec fn wire_body_of(dialect: ReasoningDialect, policy: ReasoningPolicy) -> JsonView {
    let thinking = policy != ReasoningPolicy::Off;
    match dialect {
        ReasoningDialect::OpenAiEffort => one_member(
            "reasoning"@,
            one_member("effort"@, JsonView::Text(policy_name(policy))),
        ),
        ReasoningDialect::OpenRouterEnabled => one_member(
            "reasoning"@,
            one_member("enabled"@, JsonView::Bool(thinking)),
        ),
        ReasoningDialect::LlamaCppEnableThinking => one_member(
            "chat_template_kwargs"@,
            one_member("enable_thinking"@, JsonView::Bool(thinking)),
        ),
        ReasoningDialect::ChatTemplateReasoningEffort => one_member(
            "chat_template_kwargs"@,
            if thinking {
                one_member("reasoning_effort"@, JsonView::Text(policy_name(policy)))
            } else {
                one_member("enable_thinking"@, JsonView::Bool(false))
            },
        ),
    }
}

/// The dialect that a config spelling names.
pub open spec fn dialect_called(name: Seq<char>) -> Option<ReasoningDialect> {
    if name == "openai_effort"@ {
        Some(ReasoningDialect::OpenAiEffort)
    } else if name == "openrouter_enabled"@ {
        Some(ReasoningDialect::OpenRouterEnabled)
    } else if name == "llama_cpp_enable_thinking"@ {
        Some(ReasoningDialect::LlamaCppEnableThinking)
    } else if name == "chat_template_reasoning_effort"@ {
        Some(ReasoningDialect::ChatTemplateReasoningEffort)
    } else {
        None
    }
}

fn single(key: &str, value: Json) -> (r: Json)
    ensures
        r@ == one_member(key@, value@),
{
    broadcast use object_view;

    let mut members: Vec<(String, Json)> = Vec::new();
    members.push((text::copy_str(key), value));
    proof {
        assert(crate::json::members_view(members@) =~= seq![(key@, value@)]);
    }
    Json::Object(members)
}

impl ReasoningDialect {
    /// The JSON object this dialect merges into the outbound body to express
    /// `policy` (e.g. `{"reasoning": {"effort": "none"}}`).
    ///
    /// Every dialect expresses both execution modes: `none` disables reasoning
    /// exactly, any thinking policy enables it. On the boolean dialects an effort
    /// gradation collapses to "thinking on".
    pub fn wire_body(self, policy: ReasoningPolicy) -> (r: Option<Json>)
        ensures
            r is Some,
            r->0@ == wire_body_of(self, policy),
    {
        match self {
            ReasoningDialect::OpenAiEffort => Some(
                single("reasoning", single("effort", Json::Text(text::copy_str(policy.as_str())))),
            ),
            ReasoningDialect::OpenRouterEnabled => Some(
                single("reasoning", single("enabled", Json::Bool(policy.is_thinking()))),
            ),
            ReasoningDialect::LlamaCppEnableThinking => Some(
                single(
                    "chat_template_kwargs",
                    single("enable_thinking", Json::Bool(policy.is_thinking())),
                ),
            ),
            ReasoningDialect::ChatTemplateReasoningEffort => {
                if policy.is_thinking() {
                    Some(
                        single(
                            "chat_template_kwargs",
                            single(
                                "reasoning_effort",
                                Json::Text(text::copy_str(policy.as_str())),
                            ),
                        ),
                    )
                } else {
                    Some(
                        single(
                            "chat_template_kwargs",
                            single("enable_thinking", Json::Bool(false)),
                        ),
                    )
                }
            },
        }
    }

    /// Whether `policy` is expressible in this dialect. All of them are.
    pub fn honors(self, policy: ReasoningPolicy) -> (r: bool)
        ensures
            r,
    {
        self.wire_body(policy).is_some()
    }

    /// The dialect that a config spelling names.
    pub fn from_config(name: &str) -> (r: Option<Self>)
        ensures
            r == dialect_called(name@),
    {
        if text::str_eq(name, "openai_effort") {
            Some(ReasoningDialect::OpenAiEffort)
        } else if text::str_eq(name, "openrouter_enabled") {
            Some(ReasoningDialect::OpenRouterEnabled)
        } else if text::str_eq(name, "llama_cpp_enable_thinking") {
            Some(ReasoningDialect::LlamaCppEnableThinking)
        } else if text::str_eq(name, "chat_template_reasoning_effort") {
            Some(ReasoningDialect::ChatTemplateReasoningEffort)
        } else {
            None
        }
    }
}

/// A dialect that only switches reasoning on or off writes every thinking
/// policy alike.
pub proof fn boolean_dialects_collapse_effort(a: ReasoningPolicy, b: ReasoningPolicy)
    requires
        a != ReasoningPolicy::Off,
        b != ReasoningPolicy::Off,
    ensures
        wire_body_of(ReasoningDialect::OpenRouterEnabled, a) == wire_body_of(
            ReasoningDialect::OpenRouterEnabled,
            b,
        ),
        wire_body_of(ReasoningDialect::LlamaCppEnableThinking, a) == wire_body_of(
            ReasoningDialect::LlamaCppEnableThinking,
            b,
        ),
{
}

/// In every dialect a thinking policy and `none` have different wire bodies:
/// reasoning is never silently switched the other way.
pub proof fn thinking_is_never_written_as_none(dialect: ReasoningDialect, policy: ReasoningPolicy)
    requires
        policy != ReasoningPolicy::Off,
    ensures
        wire_body_of(dialect, policy) != wire_body_of(dialect, ReasoningPolicy::Off),
{
    reveal_strlit("none");
    reveal_strlit("low");
    reveal_strlit("medium");
    reveal_strlit("high");
    reveal_strlit("max");
    reveal_strlit("reasoning_effort");
    reveal_strlit("enable_thinking");
    let on = wire_body_of(dialect, policy)->Object_0[0].1->Object_0[0];
    let off = wire_body_of(dialect, ReasoningPolicy::Off)->Object_0[0].1->Object_0[0];
    assert("none"@[0] == 'n');
    assert("low"@[0] == 'l');
    assert("medium"@[0] == 'm');
    assert("high"@[0] == 'h');
    assert("max"@[0] == 'm');
    assert("reasoning_effort"@[0] == 'r');
    assert("enable_thinking"@[0] == 'e');
    assert(on != off);
}

/// The names of the policies are kept apart, and each is its own config spelling:
/// `none`, `low`, `medium`, `high` and `max`.
pub proof fn policies_are_named_verbatim(policy: ReasoningPolicy, name: &'static str)
    requires
        call_ensures(ReasoningPolicy::as_str, (policy,), name),
    ensures
        name@ == "none"@ <==> policy == ReasoningPolicy::Off,
        name@ == "low"@ <==> policy == ReasoningPolicy::Low,
        name@ == "medium"@ <==> policy == ReasoningPolicy::Medium,
        name@ == "high"@ <==> policy == ReasoningPolicy::High,
        name@ == "max"@ <==> policy == ReasoningPolicy::Max,
{
    names_differ();
    assert(name@ == policy_name(policy));
    assert(policy_name(ReasoningPolicy::Off) == "none"@ && policy_name(ReasoningPolicy::Low)
        == "low"@ && policy_name(ReasoningPolicy::Medium) == "medium"@ && policy_name(
        ReasoningPolicy::High,
    ) == "high"@ && policy_name(ReasoningPolicy::Max) == "max"@);
}

proof fn names_differ()
    ensures
        forall|a: ReasoningPolicy, b: ReasoningPolicy|
            a != b ==> #[trigger] policy_name(a) != #[trigger] policy_name(b),
{
    reveal_strlit("none");
    reveal_strlit("low");
    reveal_strlit("medium");
    reveal_strlit("high");
    reveal_strlit("max");
    assert("none"@[0] == 'n' && "low"@[0] == 'l' && "high"@[0] == 'h');
    assert("medium"@[1] == 'e' && "max"@[1] == 'a');
}

/// `reasoning.effort` carries the route's policy verbatim: whoever reads the effort
/// back as a policy gets the policy that was written.
pub proof fn openai_effort_is_read_back(policy: ReasoningPolicy, body: Option<Json>)
    requires
        call_ensures(ReasoningDialect::wire_body, (ReasoningDialect::OpenAiEffort, policy), body),
    ensures
        body is Some,
        ({
            let reasoning = field(body->0@, "reasoning"@);
            let effort = field(reasoning->0, "effort"@);
            &&& reasoning is Some
            &&& effort is Some
            &&& effort->0 is Text
            &&& forall|text: &str, read: Option<ReasoningPolicy>|
                text@ == effort->0->Text_0 && #[trigger] call_ensures(
                    ReasoningPolicy::parse,
                    (text,),
                    read,
                ) ==> read == Some(policy)
        }),
{
    parse_undoes_as_str(policy);
}

/// `chat_template_kwargs.reasoning_effort` carries a thinking policy verbatim:
/// whoever reads the effort back as a policy gets the policy that was written.
/// Without thinking no effort goes out, and thinking is switched off.
pub proof fn chat_template_effort_is_read_back(policy: ReasoningPolicy, body: Option<Json>)
    requires
        call_ensures(
            ReasoningDialect::wire_body,
            (ReasoningDialect::ChatTemplateReasoningEffort, policy),
            body,
        ),
    ensures
        body is Some,
        ({
            let kwargs = field(body->0@, "chat_template_kwargs"@);
            let effort = field(kwargs->0, "reasoning_effort"@);
            &&& kwargs is Some
            &&& if policy == ReasoningPolicy::Off {
                &&& effort is None
                &&& field(kwargs->0, "enable_thinking"@) == Some(JsonView::Bool(false))
            } else {
                &&& effort is Some
                &&& effort->0 is Text
                &&& field(kwargs->0, "enable_thinking"@) is None
                &&& forall|text: &str, read: Option<ReasoningPolicy>|
                    text@ == effort->0->Text_0 && #[trigger] call_ensures(
                        ReasoningPolicy::parse,
                        (text,),
                        read,
                    ) ==> read == Some(policy)
            }
        }),
{
    parse_undoes_as_str(policy);
    reveal_strlit("reasoning_effort");
    reveal_strlit("enable_thinking");
    assert("reasoning_effort"@[0] == 'r' && "enable_thinking"@[0] == 'e');
    let kwargs = field(body->0@, "chat_template_kwargs"@)->0->Object_0;
    assert(kwargs.drop_first() =~= Seq::empty());
    assert(find_member(kwargs.drop_first(), "reasoning_effort"@) is None);
    assert(find_member(kwargs.drop_first(), "enable_thinking"@) is None);
}

/// The switching dialects say whether reasoning is wanted: on for every policy
/// but `none`, off for `none`.
pub proof fn switches_follow_the_policy(
    policy: ReasoningPolicy,
    router: Option<Json>,
    llama: Option<Json>,
)
    requires
        call_ensures(
            ReasoningDialect::wire_body,
            (ReasoningDialect::OpenRouterEnabled, policy),
            router,
        ),
        call_ensures(
            ReasoningDialect::wire_body,
            (ReasoningDialect::LlamaCppEnableThinking, policy),
            llama,
        ),
    ensures
        router is Some && llama is Some,
        field(router->0@, "reasoning"@) is Some,
        field(field(router->0@, "reasoning"@)->0, "enabled"@) == Some(
            JsonView::Bool(policy != ReasoningPolicy::Off),
        ),
        field(llama->0@, "chat_template_kwargs"@) is Some,
        field(field(llama->0@, "chat_template_kwargs"@)->0, "enable_thinking"@) == Some(
            JsonView::Bool(policy != ReasoningPolicy::Off),
        ),
{
}

/// A dialect adds one member to a request, and in it one control.
pub proof fn one_control_goes_out(
    dialect: ReasoningDialect,
    policy: ReasoningPolicy,
    body: Option<Json>,
)
    requires
        call_ensures(ReasoningDialect::wire_body, (dialect, policy), body),
    ensures
        body is Some,
        body->0@ is Object,
        body->0@->Object_0.len() == 1,
        body->0@->Object_0[0].1 is Object,
        body->0@->Object_0[0].1->Object_0.len() == 1,
{
}

/// Where a dialect carries the effort, different policies have different bodies.
pub proof fn effort_dialects_keep_policies_apart(a: ReasoningPolicy, b: ReasoningPolicy)
    requires
        a != b,
    ensures
        wire_body_of(ReasoningDialect::OpenAiEffort, a) != wire_body_of(
            ReasoningDialect::OpenAiEffort,
            b,
        ),
        wire_body_of(ReasoningDialect::ChatTemplateReasoningEffort, a) != wire_body_of(
            ReasoningDialect::ChatTemplateReasoningEffort,
            b,
        ),
{
    names_differ();
    let x = wire_body_of(ReasoningDialect::OpenAiEffort, a)->Object_0[0].1->Object_0[0];
    let y = wire_body_of(ReasoningDialect::OpenAiEffort, b)->Object_0[0].1->Object_0[0];
    assert(x.1->Text_0 == policy_name(a) && y.1->Text_0 == policy_name(b));
    let x = wire_body_of(ReasoningDialect::ChatTemplateReasoningEffort, a)->Object_0[0].1;
    let y = wire_body_of(ReasoningDialect::ChatTemplateReasoningEffort, b)->Object_0[0].1;
    assert(x->Object_0[0].1 != y->Object_0[0].1);
}

/// A config spelling that is not one of the policy names, once trimmed, stands for
/// no policy.
pub proof fn unknown_policies_are_refused(name: &str, read: Option<ReasoningPolicy>)
    requires
        call_ensures(ReasoningPolicy::parse, (name,), read),
    ensures
        read is Some <==> {
            let t = text::trimmed(name@);
            t == "none"@ || t == "low"@ || t == "medium"@ || t == "high"@ || t == "max"@
        },
{
}

/// The config spellings of the dialects, each its own.
pub proof fn dialects_are_spelled_verbatim(name: &str, read: Option<ReasoningDialect>)
    requires
        call_ensures(ReasoningDialect::from_config, (name,), read),
    ensures
        read == Some(ReasoningDialect::OpenAiEffort) <==> name@ == "openai_effort"@,
        read == Some(ReasoningDialect::OpenRouterEnabled) <==> name@ == "openrouter_enabled"@,
        read == Some(ReasoningDialect::LlamaCppEnableThinking) <==> name@
            == "llama_cpp_enable_thinking"@,
        read == Some(ReasoningDialect::ChatTemplateReasoningEffort) <==> name@
            == "chat_template_reasoning_effort"@,
{
    reveal_strlit("openai_effort");
    reveal_strlit("openrouter_enabled");
    reveal_strlit("llama_cpp_enable_thinking");
    reveal_strlit("chat_template_reasoning_effort");
    assert("openai_effort"@.len() == 13 && "openrouter_enabled"@.len() == 18);
    assert("llama_cpp_enable_thinking"@.len() == 25);
    assert("chat_template_reasoning_effort"@.len() == 30);
}

} // verus!
