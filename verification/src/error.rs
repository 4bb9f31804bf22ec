//! Errors, and the classification of upstream error bodies.
use vstd::prelude::*;
use crate::json::{field, json_in_text, parse_text, text_of, Json, JsonView};
use crate::text;

verus! {

/// An error of the routing algorithms.
#[derive(Debug, PartialEq, Eq)]
pub enum LibsyError {
    /// An algorithm could not decide; `message` says why.
    AlgorithmError { message: String },
}

impl View for LibsyError {
    type V = Seq<char>;

    open spec fn view(&self) -> Seq<char> {
        match self {
            LibsyError::AlgorithmError { message } => message@,
        }
    }
}

impl LibsyError {
    /// The text of the error.
    pub fn message(&self) -> (r: &str)
        ensures
            r@ == self@,
    {
        match self {
            LibsyError::AlgorithmError { message } => message.as_str(),
        }
    }
}

/// An error of the LLM client.
#[derive(Debug, PartialEq, Eq)]
pub enum LlmClientError {
    /// The request cannot be served as it stands.
    InvalidRequest { message: String },
    /// No backend is configured for what was asked.
    Configuration { message: String },
    /// The request could not be written in the upstream's wire format.
    RequestEncoding(String),
    /// The raw request could not be read.
    RequestTranslation(String),
    /// The upstream's response could not be read.
    ResponseTranslation(String),
    /// The upstream answered with something else than was asked for.
    InvalidResponse { message: String },
    /// The connection failed.
    Transport { message: String },
    /// The upstream did not answer in time.
    Timeout { message: String },
    /// The upstream answered with an error status.
    UpstreamHttp { status: u16, body: String },
    /// The request exceeds the model's context window.
    ContextWindowExceeded { model: String, message: String },
}

/// What an error of the LLM client says.
pub enum LlmClientErrorView {
    InvalidRequest { message: Seq<char> },
    Configuration { message: Seq<char> },
    RequestEncoding(Seq<char>),
    RequestTranslation(Seq<char>),
    ResponseTranslation(Seq<char>),
    InvalidResponse { message: Seq<char> },
    Transport { message: Seq<char> },
    Timeout { message: Seq<char> },
    UpstreamHttp { status: u16, body: Seq<char> },
    ContextWindowExceeded { model: Seq<char>, message: Seq<char> },
}

impl View for LlmClientError {
    type V = LlmClientErrorView;

    open spec fn view(&self) -> LlmClientErrorView {
        match self {
            LlmClientError::InvalidRequest { message } => LlmClientErrorView::InvalidRequest {
                message: message@,
            },
            LlmClientError::Configuration { message } => LlmClientErrorView::Configuration {
                message: message@,
            },
            LlmClientError::RequestEncoding(m) => LlmClientErrorView::RequestEncoding(m@),
            LlmClientError::RequestTranslation(m) => LlmClientErrorView::RequestTranslation(m@),
            LlmClientError::ResponseTranslation(m) => LlmClientErrorView::ResponseTranslation(m@),
            LlmClientError::InvalidResponse { message } => LlmClientErrorView::InvalidResponse {
                message: message@,
            },
            LlmClientError::Transport { message } => LlmClientErrorView::Transport {
                message: message@,
            },
            LlmClientError::Timeout { message } => LlmClientErrorView::Timeout {
                message: message@,
            },
            LlmClientError::UpstreamHttp { status, body } => LlmClientErrorView::UpstreamHttp {
                status: *status,
                body: body@,
            },
            LlmClientError::ContextWindowExceeded { model, message } =>
                LlmClientErrorView::ContextWindowExceeded { model: model@, message: message@ },
        }
    }
}

/// What the phrases of a list say.
pub open spec fn phrases_view(phrases: Seq<&str>) -> Seq<Seq<char>> {
    Seq::new(phrases.len(), |i: int| phrases[i]@)
}

/// Some phrase stands in the message, whatever the case of ASCII letters in either.
pub open spec fn mentions_any(message: Seq<char>, phrases: Seq<Seq<char>>) -> bool {
    exists|i: int|
        0 <= i < phrases.len() && text::occurs_in(
            text::lower(message),
            text::lower(#[trigger] phrases[i]),
        )
}

/// The text at `error.<key>` of a body.
pub open spec fn error_text(body: JsonView, key: Seq<char>) -> Option<Seq<char>> {
    match field(body, "error"@) {
        Some(error) => text_of(field(error, key)),
        None => None,
    }
}

/// A phrase is mentioned: in the `error.message` of a body that is JSON, or
/// anywhere in one that is not.
pub open spec fn phrase_hit(
    parsed: Option<JsonView>,
    body: Seq<char>,
    phrases: Seq<Seq<char>>,
) -> bool {
    match parsed {
        Some(value) => error_text(value, "message"@) is Some && mentions_any(
            error_text(value, "message"@)->0,
            phrases,
        ),
        None => mentions_any(body, phrases),
    }
}

fn contains_any(message: &str, phrases: &Vec<&str>) -> (r: bool)
    ensures
        r == mentions_any(message@, phrases_view(phrases@)),
{
    let lower = text::to_lower(message);
    let mut i: usize = 0;
    while i < phrases.len()
        invariant
            i <= phrases.len(),
            lower@ == text::lower(message@),
            forall|j: int|
                0 <= j < i ==> !text::occurs_in(
                    lower@,
                    text::lower(#[trigger] phrases_view(phrases@)[j]),
                ),
        decreases phrases.len() - i,
    {
        let phrase = text::to_lower(phrases[i]);
        assert(phrases_view(phrases@)[i as int] == phrases@[i as int]@);
        if text::contains(lower.as_str(), phrase.as_str()) {
            return true;
        }
        i = i + 1;
    }
    false
}

fn error_field<'a>(body: &'a Json, key: &str) -> (r: Option<&'a str>)
    ensures
        match r {
            Some(t) => error_text(body@, key@) == Some(t@),
            None => error_text(body@, key@) is None,
        },
{
    match body.get("error") {
        Some(error) => match error.get(key) {
            Some(value) => value.as_str(),
            None => None,
        },
        None => None,
    }
}

/// Whether a body mentions one of the phrases: in its `error.message` where it
/// was parsed to `parsed`, or as a whole where it is not JSON.
pub fn mentions_phrase(parsed: &Option<Json>, body: &str, phrases: &Vec<&str>) -> (r: bool)
    ensures
        r == phrase_hit(
            (match *parsed {
                Some(value) => Some(value@),
                None => None,
            }),
            body@,
            phrases_view(phrases@),
        ),
{
    match parsed {
        Some(value) => match error_field(value, "message") {
            Some(message) => contains_any(message, phrases),
            None => false,
        },
        None => contains_any(body, phrases),
    }
}

/// Detects an error body by a provider-supplied structured check and a list of
/// phrases.
///
/// The body is parsed once. Where it is JSON, the structured check runs on what
/// was parsed, and the phrases are looked for in `error.message`; where it is not,
/// they are looked for in the raw body.
pub fn is_overflow_body<F: Fn(&Json) -> bool>(
    body: &str,
    structured_check: F,
    phrases: &Vec<&str>,
) -> (r: bool)
    requires
        forall|value: &Json| #[trigger] structured_check.requires((value,)),
    ensures
        match json_in_text(body@) {
            Some(parsed) => exists|value: Json, hit: bool|
                {
                    &&& value@ == parsed
                    &&& #[trigger] structured_check.ensures((&value,), hit)
                    &&& r == (hit || phrase_hit(Some(parsed), body@, phrases_view(phrases@)))
                },
            None => r == phrase_hit(None, body@, phrases_view(phrases@)),
        },
{
    let parsed = parse_text(body);
    if let Some(value) = &parsed {
        if structured_check(value) {
            assert(structured_check.ensures((value,), true));
            return true;
        }
        assert(structured_check.ensures((value,), false));
    }
    mentions_phrase(&parsed, body, phrases)
}

/// The phrases by which a permanent quota condition is told.
pub open spec fn quota_phrases() -> Seq<Seq<char>> {
    seq![
        "insufficient_quota"@,
        "you exceeded your current quota"@,
        "exceeded your current quota"@,
        "your billing details"@,
        "billing quota"@,
        "exhausted your quota"@,
        "quota has been exhausted"@,
        "usage limit"@,
        "payment required"@,
        "credits"@,
    ]
}

/// The structured `error.code` names a permanent quota condition.
pub open spec fn quota_code(body: JsonView) -> bool {
    match error_text(body, "code"@) {
        Some(code) => text::occurs_in(code, "insufficient_quota"@),
        None => false,
    }
}

/// A body, parsed where it is JSON, tells of a permanent quota condition.
pub open spec fn permanent_quota(parsed: Option<JsonView>, body: Seq<char>) -> bool {
    (parsed is Some && quota_code(parsed->0)) || phrase_hit(parsed, body, quota_phrases())
}

fn quota_phrase_list() -> (r: Vec<&'static str>)
    ensures
        phrases_view(r@) == quota_phrases(),
{
    let r = vec![
        "insufficient_quota",
        "you exceeded your current quota",
        "exceeded your current quota",
        "your billing details",
        "billing quota",
        "exhausted your quota",
        "quota has been exhausted",
        "usage limit",
        "payment required",
        "credits",
    ];
    proof {
        assert(phrases_view(r@) =~= quota_phrases());
    }
    r
}

/// Structured check: the canonical `error.code` of a permanent quota condition.
pub fn is_permanent_quota_structured(value: &Json) -> (r: bool)
    ensures
        r == quota_code(value@),
{
    match error_field(value, "code") {
        Some(code) => text::contains(code, "insufficient_quota"),
        None => false,
    }
}

/// Whether a body that was parsed to `parsed` (where it is JSON) tells of a
/// permanent quota condition.
pub fn is_permanent_quota(parsed: &Option<Json>, body: &str) -> (r: bool)
    ensures
        r == permanent_quota(
            (match *parsed {
                Some(value) => Some(value@),
                None => None,
            }),
            body@,
        ),
{
    if let Some(value) = parsed {
        if is_permanent_quota_structured(value) {
            return true;
        }
    }
    mentions_phrase(parsed, body, &quota_phrase_list())
}

/// Detects a permanent quota exhaustion in the body of a 429: a condition that
/// retrying the same candidate cannot fix, unlike a transient rate limit.
pub fn is_permanent_quota_429(body: &str) -> (r: bool)
    ensures
        r == permanent_quota(json_in_text(body@), body@),
{
    is_overflow_body(body, is_permanent_quota_structured, &quota_phrase_list())
}

/// A body that is not JSON tells of a used-up quota where it mentions one of the
/// known phrases, in any case.
pub proof fn raw_quota_bodies_mention_a_phrase(body: &str, r: bool)
    requires
        call_ensures(is_permanent_quota, (&None::<Json>, body), r),
    ensures
        r <==> {
            let m = text::lower(body@);
            ||| text::occurs_in(m, text::lower("insufficient_quota"@))
            ||| text::occurs_in(m, text::lower("you exceeded your current quota"@))
            ||| text::occurs_in(m, text::lower("exceeded your current quota"@))
            ||| text::occurs_in(m, text::lower("your billing details"@))
            ||| text::occurs_in(m, text::lower("billing quota"@))
            ||| text::occurs_in(m, text::lower("exhausted your quota"@))
            ||| text::occurs_in(m, text::lower("quota has been exhausted"@))
            ||| text::occurs_in(m, text::lower("usage limit"@))
            ||| text::occurs_in(m, text::lower("payment required"@))
            ||| text::occurs_in(m, text::lower("credits"@))
        },
{
    quota_phrases_are(body@);
}

/// Which phrases tell of a used-up quota.
proof fn quota_phrases_are(message: Seq<char>)
    ensures
        mentions_any(message, quota_phrases()) <==> {
            let m = text::lower(message);
            ||| text::occurs_in(m, text::lower("insufficient_quota"@))
            ||| text::occurs_in(m, text::lower("you exceeded your current quota"@))
            ||| text::occurs_in(m, text::lower("exceeded your current quota"@))
            ||| text::occurs_in(m, text::lower("your billing details"@))
            ||| text::occurs_in(m, text::lower("billing quota"@))
            ||| text::occurs_in(m, text::lower("exhausted your quota"@))
            ||| text::occurs_in(m, text::lower("quota has been exhausted"@))
            ||| text::occurs_in(m, text::lower("usage limit"@))
            ||| text::occurs_in(m, text::lower("payment required"@))
            ||| text::occurs_in(m, text::lower("credits"@))
        },
{
    let p = quota_phrases();
    assert(p[0] == "insufficient_quota"@ && p[1] == "you exceeded your current quota"@ && p[2]
        == "exceeded your current quota"@ && p[3] == "your billing details"@ && p[4]
        == "billing quota"@);
    assert(p[5] == "exhausted your quota"@ && p[6] == "quota has been exhausted"@ && p[7]
        == "usage limit"@ && p[8] == "payment required"@ && p[9] == "credits"@);
}

/// A JSON body tells of a used-up quota where `error.code` holds `insufficient_quota`
/// or `error.message` tells of one as a text of its own would; what else stands in it
/// does not count.
pub proof fn json_quota_bodies_tell_in_the_error(
    value: Json,
    body: &str,
    message: &str,
    r: bool,
    told: bool,
)
    requires
        call_ensures(is_permanent_quota, (&Some(value), body), r),
        call_ensures(is_permanent_quota, (&None::<Json>, message), told),
    ensures
        ({
            let error = field(value@, "error"@);
            let code = if error is Some {
                field(error->0, "code"@)
            } else {
                None
            };
            let text = if error is Some {
                field(error->0, "message"@)
            } else {
                None
            };
            let coded = code matches Some(JsonView::Text(c)) && text::occurs_in(
                c,
                "insufficient_quota"@,
            );
            &&& text == Some(JsonView::Text(message@)) ==> (r <==> coded || told)
            &&& !(text is Some && text->0 is Text) ==> (r <==> coded)
        }),
{
}

/// What a body is searched for: in `error.message` where it is JSON, and as a whole
/// where it is not. Case does not matter.
pub proof fn phrases_are_looked_for_in_the_message(
    parsed: Option<Json>,
    body: &str,
    phrases: Vec<&str>,
    r: bool,
)
    requires
        call_ensures(mentions_phrase, (&parsed, body, &phrases), r),
    ensures
        ({
            let error = field(parsed->0@, "error"@);
            let told = if error is Some {
                field(error->0, "message"@)
            } else {
                None
            };
            let searched = if parsed is None {
                Some(body@)
            } else if told is Some && told->0 is Text {
                Some(told->0->Text_0)
            } else {
                None
            };
            r <==> searched is Some && exists|i: int|
                0 <= i < phrases@.len() && text::occurs_in(
                    text::lower(searched->0),
                    text::lower((#[trigger] phrases@[i])@),
                )
        }),
{
    let views = phrases_view(phrases@);
    let error = field(parsed->0@, "error"@);
    let told = if error is Some {
        field(error->0, "message"@)
    } else {
        None
    };
    let searched = if parsed is None {
        body@
    } else {
        told->0->Text_0
    };
    if mentions_any(searched, views) {
        let i = choose|i: int|
            0 <= i < views.len() && text::occurs_in(
                text::lower(searched),
                text::lower(#[trigger] views[i]),
            );
        assert(phrases@[i]@ == views[i]);
    }
    if exists|i: int|
        0 <= i < phrases@.len() && text::occurs_in(
            text::lower(searched),
            text::lower((#[trigger] phrases@[i])@),
        ) {
        let i = choose|i: int|
            0 <= i < phrases@.len() && text::occurs_in(
                text::lower(searched),
                text::lower((#[trigger] phrases@[i])@),
            );
        assert(views[i] == phrases@[i]@);
    }
}

} // verus!
