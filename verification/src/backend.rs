//! Upstream backends: how one provider endpoint is reached.
use vstd::prelude::*;
use vstd::string::StringExecFns;
use crate::json::{members_view, Json, Members};
use crate::text;

verus! {

/// The wire formats that backends speak.
#[derive(Clone, Copy, Debug, PartialEq, Eq, Structural)]
pub enum WireFormat {
    AnthropicMessages,
    OpenAiChat,
    OpenAiResponses,
}

/// The name of a wire format.
pub open spec fn format_name(format: WireFormat) -> Seq<char> {
    match format {
        WireFormat::AnthropicMessages => "anthropic_messages"@,
        WireFormat::OpenAiChat => "openai_chat"@,
        WireFormat::OpenAiResponses => "openai_responses"@,
    }
}

impl WireFormat {
    /// The name of the format.
    pub fn as_str(self) -> (r: &'static str)
        ensures
            r@ == format_name(self),
    {
        match self {
            WireFormat::AnthropicMessages => "anthropic_messages",
            WireFormat::OpenAiChat => "openai_chat",
            WireFormat::OpenAiResponses => "openai_responses",
        }
    }
}

/// How one endpoint is reached, whatever format it speaks.
#[derive(Debug, PartialEq, Eq)]
pub struct HttpBackendConfig {
    /// The endpoint's base URL, with or without a slash at its end.
    pub base_url: String,
    pub api_key: Option<String>,
    /// Whether the caller's own credential is sent upstream.
    pub forward_auth: bool,
    /// Headers added to every call, by name.
    pub extra_headers: Vec<(String, String)>,
    /// Body members added where the caller does not give them.
    pub extra_body: Vec<(String, Json)>,
    /// How often a failed call is tried again.
    pub max_retries: u32,
}

/// One upstream endpoint and the format that it speaks.
#[derive(Debug, PartialEq, Eq)]
pub enum Backend {
    OpenAiChat(HttpBackendConfig),
    OpenAiResponses(HttpBackendConfig),
    Anthropic(HttpBackendConfig),
}

/// `s` without slashes at its end.
pub open spec fn without_end_slashes(s: Seq<char>) -> Seq<char>
    decreases s.len(),
{
    if s.len() > 0 && s.last() == '/' {
        without_end_slashes(s.drop_last())
    } else {
        s
    }
}

/// Whether `s` ends in `suffix`.
pub open spec fn ends_in(s: Seq<char>, suffix: Seq<char>) -> bool {
    s.len() >= suffix.len() && s.skip(s.len() - suffix.len()) == suffix
}

/// `s` without slashes at its end.
pub fn trim_end_slashes(s: &str) -> (r: String)
    ensures
        r@ == without_end_slashes(s@),
{
    let mut all = text::chars_of(s);
    while all.len() > 0 && all[all.len() - 1] == '/'
        invariant
            without_end_slashes(s@) == without_end_slashes(all@),
        decreases all.len(),
    {
        let ghost before = all@;
        let _ = all.pop();
        proof {
            assert(all@ =~= before.drop_last());
        }
    }
    text::string_of(&all)
}

fn ends_with(s: &str, suffix: &str) -> (r: bool)
    ensures
        r == ends_in(s@, suffix@),
{
    let a = text::chars_of(s);
    let b = text::chars_of(suffix);
    if a.len() < b.len() {
        return false;
    }
    let from: usize = a.len() - b.len();
    let mut i: usize = 0;
    while i < b.len()
        invariant
            i <= b.len(),
            from + b.len() == a.len(),
            a@ == s@,
            b@ == suffix@,
            forall|j: int| 0 <= j < i ==> a@[from + j] == b@[j],
        decreases b.len() - i,
    {
        if a[from + i] != b[i] {
            assert(s@.skip(from as int)[i as int] != suffix@[i as int]);
            return false;
        }
        i = i + 1;
    }
    proof {
        assert(s@.skip(from as int) =~= suffix@);
    }
    true
}

/// The part of a backend that does not depend on its format.
pub open spec fn config_of(backend: Backend) -> HttpBackendConfig {
    match backend {
        Backend::OpenAiChat(config) => config,
        Backend::OpenAiResponses(config) => config,
        Backend::Anthropic(config) => config,
    }
}

/// The format that a backend speaks.
pub open spec fn format_of(backend: Backend) -> WireFormat {
    match backend {
        Backend::OpenAiChat(_) => WireFormat::OpenAiChat,
        Backend::OpenAiResponses(_) => WireFormat::OpenAiResponses,
        Backend::Anthropic(_) => WireFormat::AnthropicMessages,
    }
}

/// The base URL that identifies a backend's provider.
pub open spec fn identity_of(backend: Backend) -> Seq<char> {
    without_end_slashes(config_of(backend).base_url@)
}

/// A strict Codex endpoint: its base URL's path ends in `/backend-api/codex`.
pub open spec fn codex(backend: Backend) -> bool {
    ends_in(identity_of(backend), "/backend-api/codex"@)
}

/// The body members that a backend adds.
pub open spec fn extra_members(backend: Backend) -> Members {
    members_view(config_of(backend).extra_body@)
}

/// The path of a format's completion endpoint below the base URL.
pub open spec fn completion_path(format: WireFormat) -> Seq<char> {
    match format {
        WireFormat::OpenAiChat => "/chat/completions"@,
        WireFormat::OpenAiResponses => "/responses"@,
        WireFormat::AnthropicMessages => "/v1/messages"@,
    }
}

/// The URL of a backend's completion endpoint.
pub open spec fn completion_url(backend: Backend) -> Seq<char> {
    identity_of(backend) + completion_path(format_of(backend))
}

impl Backend {
    /// The part that does not depend on the format.
    pub fn config(&self) -> (r: &HttpBackendConfig)
        ensures
            *r == config_of(*self),
    {
        match self {
            Backend::OpenAiChat(config) => config,
            Backend::OpenAiResponses(config) => config,
            Backend::Anthropic(config) => config,
        }
    }

    /// The format that this backend speaks.
    pub fn wire_format(&self) -> (r: WireFormat)
        ensures
            r == format_of(*self),
    {
        match self {
            Backend::OpenAiChat(_) => WireFormat::OpenAiChat,
            Backend::OpenAiResponses(_) => WireFormat::OpenAiResponses,
            Backend::Anthropic(_) => WireFormat::AnthropicMessages,
        }
    }

    /// The base URL that identifies the provider.
    pub fn provider_identity(&self) -> (r: String)
        ensures
            r@ == identity_of(*self),
    {
        trim_end_slashes(self.config().base_url.as_str())
    }

    /// Whether this is a strict Codex endpoint.
    pub fn is_codex(&self) -> (r: bool)
        ensures
            r == codex(*self),
    {
        let identity = self.provider_identity();
        ends_with(identity.as_str(), "/backend-api/codex")
    }

    /// The URL of the completion endpoint.
    pub fn url(&self) -> (r: String)
        ensures
            r@ == completion_url(*self),
    {
        let mut url = self.provider_identity();
        match self.wire_format() {
            WireFormat::OpenAiChat => url.append("/chat/completions"),
            WireFormat::OpenAiResponses => url.append("/responses"),
            WireFormat::AnthropicMessages => url.append("/v1/messages"),
        }
        url
    }

    /// The URL at which input tokens are counted in the Anthropic Messages format.
    pub fn count_tokens_url(&self) -> (r: String)
        ensures
            r@ == completion_url(*self) + "/count_tokens"@,
    {
        let mut url = self.url();
        url.append("/count_tokens");
        url
    }

    /// The URL at which input tokens are counted in the OpenAI formats.
    pub fn input_tokens_url(&self) -> (r: String)
        ensures
            r@ == completion_url(*self) + "/input_tokens"@,
    {
        let mut url = self.url();
        url.append("/input_tokens");
        url
    }
}

/// A backend's identity is its base URL without the slashes at the end.
pub proof fn identity_is_the_base_url_without_end_slashes(backend: Backend, identity: String)
    requires
        call_ensures(Backend::provider_identity, (&backend,), identity),
    ensures
        ({
            let url = match backend {
                Backend::OpenAiChat(config) => config.base_url@,
                Backend::OpenAiResponses(config) => config.base_url@,
                Backend::Anthropic(config) => config.base_url@,
            };
            &&& identity@.len() <= url.len()
            &&& identity@ == url.take(identity@.len() as int)
            &&& identity@.len() > 0 ==> identity@.last() != '/'
            &&& forall|i: int| identity@.len() <= i < url.len() ==> #[trigger] url[i] == '/'
        }),
{
    end_slashes(config_of(backend).base_url@);
}

proof fn end_slashes(s: Seq<char>)
    ensures
        ({
            let kept = without_end_slashes(s);
            &&& kept.len() <= s.len()
            &&& kept == s.take(kept.len() as int)
            &&& kept.len() > 0 ==> kept.last() != '/'
            &&& forall|i: int| kept.len() <= i < s.len() ==> #[trigger] s[i] == '/'
        }),
    decreases s.len(),
{
    if s.len() > 0 && s.last() == '/' {
        let rest = s.drop_last();
        end_slashes(rest);
        let kept = without_end_slashes(s);
        assert(rest.take(kept.len() as int) =~= s.take(kept.len() as int));
        assert forall|i: int| kept.len() <= i < s.len() implies #[trigger] s[i] == '/' by {
            if i < rest.len() {
                assert(rest[i] == s[i]);
            }
        }
    } else {
        assert(s.take(s.len() as int) =~= s);
    }
}

/// Where a backend is called: below its identity, at the path of its format, and for
/// counting tokens one step further.
pub proof fn urls_stand_below_the_identity(
    backend: Backend,
    identity: String,
    url: String,
    count: String,
    input: String,
)
    requires
        call_ensures(Backend::provider_identity, (&backend,), identity),
        call_ensures(Backend::url, (&backend,), url),
        call_ensures(Backend::count_tokens_url, (&backend,), count),
        call_ensures(Backend::input_tokens_url, (&backend,), input),
    ensures
        backend is OpenAiChat ==> url@ == identity@ + "/chat/completions"@,
        backend is OpenAiResponses ==> url@ == identity@ + "/responses"@,
        backend is Anthropic ==> url@ == identity@ + "/v1/messages"@,
        count@ == url@ + "/count_tokens"@,
        input@ == url@ + "/input_tokens"@,
{
}

/// A Codex backend is one whose identity ends in `/backend-api/codex`.
pub proof fn codex_is_told_by_the_url(backend: Backend, identity: String, r: bool)
    requires
        call_ensures(Backend::provider_identity, (&backend,), identity),
        call_ensures(Backend::is_codex, (&backend,), r),
    ensures
        r <==> exists|root: Seq<char>| identity@ == #[trigger] (root + "/backend-api/codex"@),
{
    let s = identity@;
    let suffix = "/backend-api/codex"@;
    if ends_in(s, suffix) {
        let n = s.len() - suffix.len();
        assert(s =~= s.take(n) + suffix) by {
            assert(s =~= s.take(n) + s.skip(n));
        }
    }
    if exists|root: Seq<char>| s == #[trigger] (root + suffix) {
        let root = choose|root: Seq<char>| s == #[trigger] (root + suffix);
        assert(s.skip(root.len() as int) =~= suffix);
    }
}

/// A backend speaks its own format, and its configuration is the one it was made of.
pub proof fn backends_speak_their_own_format(backend: Backend, format: WireFormat, name: &'static str)
    requires
        call_ensures(Backend::wire_format, (&backend,), format),
        call_ensures(WireFormat::as_str, (format,), name),
    ensures
        format == WireFormat::OpenAiChat <==> backend is OpenAiChat,
        format == WireFormat::OpenAiResponses <==> backend is OpenAiResponses,
        format == WireFormat::AnthropicMessages <==> backend is Anthropic,
        backend is OpenAiChat ==> name@ == "openai_chat"@,
        backend is OpenAiResponses ==> name@ == "openai_responses"@,
        backend is Anthropic ==> name@ == "anthropic_messages"@,
{
}

} // verus!
