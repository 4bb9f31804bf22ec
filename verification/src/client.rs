//! The client's decisions: which backend serves a call, what is sent to it, and
//! what its reply means.
use vstd::prelude::*;
use vstd::string::StringExecFns;
use crate::backend::{codex, completion_url, config_of, format_name, format_of, identity_of, Backend, WireFormat};
use crate::body::{prepare_body, prepared, prepared_body_names_the_model};
use crate::error::{LlmClientError, LlmClientErrorView};
use crate::headers::{bad_header, find_bad_header};
use crate::json::{bool_of, field, json_in_bytes, parse_bytes, unsigned_of, Json, JsonView};
use crate::request::ModelId;
use crate::retry::{EncodedResponse, RetryLoop};
use crate::text;

verus! {

/// How one model is served: the default backend, used when a request does not
/// pin a wire format, and any others reachable over additional formats.
#[derive(Debug)]
pub struct ModelConfig {
    pub model_name: ModelId,
    pub default_backend: Backend,
    pub other_backends: Option<Vec<Backend>>,
}

impl ModelConfig {
    /// A model named `model_name`, served by `default_backend` and by any others.
    pub fn new(
        model_name: &str,
        default_backend: Backend,
        other_backends: Option<Vec<Backend>>,
    ) -> (r: Self)
        ensures
            r.model_name@ == model_name@,
            r.default_backend == default_backend,
            r.other_backends == other_backends,
    {
        ModelConfig { model_name: text::copy_str(model_name), default_backend, other_backends }
    }
}

/// Every backend of a model, the default one first.
pub open spec fn backends_of(config: ModelConfig) -> Seq<Backend> {
    match config.other_backends {
        Some(others) => seq![config.default_backend] + others@,
        None => seq![config.default_backend],
    }
}

/// The first backend that speaks a format.
pub open spec fn of_format(backends: Seq<Backend>, format: WireFormat) -> Option<Backend>
    decreases backends.len(),
{
    if backends.len() == 0 {
        None
    } else if format_of(backends[0]) == format {
        Some(backends[0])
    } else {
        of_format(backends.drop_first(), format)
    }
}

/// The configuration of a model: the last one of that name.
pub open spec fn config_for(configs: Seq<ModelConfig>, model: Seq<char>) -> Option<ModelConfig>
    decreases configs.len(),
{
    if configs.len() == 0 {
        None
    } else if configs.last().model_name@ == model {
        Some(configs.last())
    } else {
        config_for(configs.drop_last(), model)
    }
}

/// The backend that serves a model over a format.
pub open spec fn serving_backend(
    configs: Seq<ModelConfig>,
    model: Seq<char>,
    format: WireFormat,
) -> Option<Backend> {
    match config_for(configs, model) {
        Some(config) => of_format(backends_of(config), format),
        None => None,
    }
}

/// The provider identities of a list of backends, runs of equal ones taken once.
pub open spec fn identity_runs(backends: Seq<Backend>) -> Seq<Seq<char>>
    decreases backends.len(),
{
    if backends.len() == 0 {
        Seq::empty()
    } else {
        let rest = identity_runs(backends.drop_last());
        let id = identity_of(backends.last());
        if rest.len() > 0 && rest.last() == id {
            rest
        } else {
            rest.push(id)
        }
    }
}

/// A list of texts in the form of a debug listing.
pub open spec fn listing(texts: Seq<Seq<char>>) -> Seq<char>
    decreases texts.len(),
{
    if texts.len() == 0 {
        Seq::empty()
    } else if texts.len() == 1 {
        text::debug_text(texts[0])
    } else {
        listing(texts.drop_last()) + ", "@ + text::debug_text(texts.last())
    }
}

/// The text of the error for a client that spans several providers.
pub open spec fn several_providers(config: ModelConfig) -> Seq<char> {
    "client for model "@ + config.model_name@ + " spans multiple provider identities (["@ + listing(
        identity_runs(backends_of(config)),
    )
        + "]); provider-aware fallback requires one provider per [llm_clients.*] client"@
}

/// Configuration `i` is the first whose backends belong to several providers.
pub open spec fn first_spanning(configs: Seq<ModelConfig>, i: int) -> bool {
    &&& 0 <= i < configs.len()
    &&& identity_runs(backends_of(configs[i])).len() > 1
    &&& forall|j: int|
        0 <= j < i ==> identity_runs(backends_of(#[trigger] configs[j])).len() <= 1
}

/// The name of the first header of a list of backends that cannot be sent.
pub open spec fn bad_header_of(backends: Seq<Backend>) -> Option<Seq<char>>
    decreases backends.len(),
{
    if backends.len() == 0 {
        None
    } else {
        let bad = bad_header(config_of(backends[0]).extra_headers@);
        if bad is Some {
            bad
        } else {
            bad_header_of(backends.drop_first())
        }
    }
}

/// The text of the error for the first header, in order of the configurations and
/// their backends, that cannot be sent.
pub open spec fn header_fault(configs: Seq<ModelConfig>) -> Option<Seq<char>>
    decreases configs.len(),
{
    if configs.len() == 0 {
        None
    } else {
        match bad_header_of(backends_of(configs[0])) {
            Some(name) => Some(
                "invalid extra header "@ + text::debug_text(name) + " for model "@
                    + configs[0].model_name@,
            ),
            None => header_fault(configs.drop_first()),
        }
    }
}

fn bad_header_in(config: &ModelConfig) -> (r: Option<String>)
    ensures
        text::opt_text(r) == bad_header_of(backends_of(*config)),
{
    let ghost all = backends_of(*config);
    if let Some(name) = find_bad_header(&config.default_backend) {
        return Some(name);
    }
    if let Some(others) = &config.other_backends {
        proof {
            assert(all.drop_first() =~= others@);
            assert(others@.skip(0) =~= others@);
        }
        let mut i: usize = 0;
        while i < others.len()
            invariant
                i <= others.len(),
                bad_header_of(backends_of(*config)) == bad_header_of(others@.skip(i as int)),
            decreases others.len() - i,
        {
            if let Some(name) = find_bad_header(&others[i]) {
                return Some(name);
            }
            proof {
                assert(others@.skip(i as int).drop_first() =~= others@.skip(i + 1));
            }
            i = i + 1;
        }
    } else {
        proof {
            assert(all.drop_first() =~= Seq::empty());
            assert(bad_header_of(all.drop_first()) is None);
        }
    }
    None
}

fn validate_extra_headers(configs: &Vec<ModelConfig>) -> (r: Result<(), LlmClientError>)
    ensures
        match header_fault(configs@) {
            Some(text) => r is Err && r->Err_0@ == (LlmClientErrorView::Configuration {
                message: text,
            }),
            None => r is Ok,
        },
{
    let mut i: usize = 0;
    proof {
        assert(configs@.skip(0) =~= configs@);
    }
    while i < configs.len()
        invariant
            i <= configs.len(),
            header_fault(configs@) == header_fault(configs@.skip(i as int)),
        decreases configs.len() - i,
    {
        if let Some(name) = bad_header_in(&configs[i]) {
            let q = text::quoted(name.as_str());
            let mut message = text::join3("invalid extra header ", q.as_str(), " for model ");
            message.append(configs[i].model_name.as_str());
            return Err(LlmClientError::Configuration { message });
        }
        proof {
            assert(configs@.skip(i as int).drop_first() =~= configs@.skip(i + 1));
        }
        i = i + 1;
    }
    Ok(())
}

/// Every model's backends belong to one provider.
pub open spec fn one_provider_each(configs: Seq<ModelConfig>) -> bool {
    forall|i: int, k: int|
        0 <= i < configs.len() && 0 <= k < backends_of(configs[i]).len() ==> identity_of(
            #[trigger] backends_of(#[trigger] configs[i])[k],
        ) == identity_of(configs[i].default_backend)
}

proof fn single_run(backends: Seq<Backend>)
    requires
        backends.len() > 0,
    ensures
        identity_runs(backends).len() > 0,
        identity_runs(backends).last() == identity_of(backends.last()),
        identity_runs(backends).len() <= 1 ==> forall|k: int|
            0 <= k < backends.len() ==> identity_of(#[trigger] backends[k]) == identity_of(
                backends[0],
            ),
    decreases backends.len(),
{
    let rest = backends.drop_last();
    if rest.len() > 0 {
        single_run(rest);
        if identity_runs(backends).len() <= 1 {
            assert forall|k: int| 0 <= k < backends.len() implies identity_of(
                #[trigger] backends[k],
            ) == identity_of(backends[0]) by {
                if k < rest.len() {
                    assert(rest[k] == backends[k]);
                }
                assert(rest[0] == backends[0]);
                assert(rest[rest.len() - 1] == rest.last());
            }
        }
    } else {
        assert(identity_runs(rest).len() == 0);
    }
}

fn identities(config: &ModelConfig) -> (r: Vec<String>)
    ensures
        r@.len() == identity_runs(backends_of(*config)).len(),
        forall|k: int|
            0 <= k < r@.len() ==> (#[trigger] r@[k])@ == identity_runs(backends_of(*config))[k],
{
    let ghost all = backends_of(*config);
    let mut out: Vec<String> = Vec::new();
    out.push(config.default_backend.provider_identity());
    proof {
        assert(all.take(1).drop_last() =~= Seq::empty());
        assert(identity_runs(all.take(1).drop_last()) =~= Seq::empty());
        assert(identity_runs(all.take(1)) =~= seq![identity_of(all[0])]);
    }
    if let Some(others) = &config.other_backends {
        let mut i: usize = 0;
        while i < others.len()
            invariant
                i <= others.len(),
                all == seq![config.default_backend] + others@,
                out@.len() > 0,
                out@.len() == identity_runs(all.take(i + 1)).len(),
                forall|k: int|
                    0 <= k < out@.len() ==> (#[trigger] out@[k])@ == identity_runs(
                        all.take(i + 1),
                    )[k],
            decreases others.len() - i,
        {
            let id = others[i].provider_identity();
            proof {
                assert(all.take(i + 2).drop_last() =~= all.take(i + 1));
                assert(all.take(i + 2).last() == others@[i as int]);
            }
            let last: usize = out.len() - 1;
            if !text::str_eq(out[last].as_str(), id.as_str()) {
                out.push(id);
            }
            i = i + 1;
        }
        proof {
            assert(all.take(all.len() as int) =~= all);
        }
    } else {
        proof {
            assert(all.take(1) =~= all);
        }
    }
    out
}

fn push_listing(out: &mut String, texts: &Vec<String>)
    ensures
        final(out)@ == old(out)@ + listing(Seq::new(texts@.len(), |k: int| texts@[k]@)),
{
    let ghost start = out@;
    let ghost views = Seq::new(texts@.len(), |k: int| texts@[k]@);
    let mut i: usize = 0;
    proof {
        assert(listing(views.take(0)) =~= Seq::empty());
        assert(start + listing(views.take(0)) =~= start);
    }
    while i < texts.len()
        invariant
            i <= texts.len(),
            views == Seq::new(texts@.len(), |k: int| texts@[k]@),
            out@ == start + listing(views.take(i as int)),
        decreases texts.len() - i,
    {
        let ghost before = out@;
        proof {
            assert(views.take(i + 1).drop_last() =~= views.take(i as int));
            assert(views.take(i + 1).last() == texts@[i as int]@);
        }
        if i > 0 {
            out.append(", ");
        }
        let q = text::quoted(texts[i].as_str());
        out.append(q.as_str());
        proof {
            assert(out@ =~= start + listing(views.take(i + 1)));
        }
        i = i + 1;
    }
    proof {
        assert(views.take(views.len() as int) =~= views);
    }
}

/// A client that dispatches requests to per-model backends.
#[derive(Debug)]
pub struct TranslatingLlmClient {
    pub model_configs: Vec<ModelConfig>,
}

impl TranslatingLlmClient {
    /// A client over the given models.
    ///
    /// # Errors
    ///
    /// Where a header that a backend adds cannot be sent, and else where the backends
    /// of a model belong to several providers: the provider identity of a client is
    /// that of its backends' base URL.
    pub fn new(model_configs: Vec<ModelConfig>) -> (r: Result<Self, LlmClientError>)
        ensures
            match header_fault(model_configs@) {
                Some(text) => r is Err && r->Err_0@ == (LlmClientErrorView::Configuration {
                    message: text,
                }),
                None => match r {
                    Ok(client) => {
                        &&& client.model_configs == model_configs
                        &&& one_provider_each(model_configs@)
                    },
                    Err(e) => exists|i: int| #[trigger]
                        first_spanning(model_configs@, i) && e@
                            == LlmClientErrorView::RequestEncoding(
                            several_providers(model_configs@[i]),
                        ),
                },
            },
    {
        match validate_extra_headers(&model_configs) {
            Ok(_) => {},
            Err(e) => {
                return Err(e);
            },
        }
        let mut i: usize = 0;
        while i < model_configs.len()
            invariant
                i <= model_configs.len(),
                header_fault(model_configs@) is None,
                forall|j: int|
                    0 <= j < i ==> identity_runs(backends_of(#[trigger] model_configs@[j])).len()
                        <= 1,
            decreases model_configs.len() - i,
        {
            let config = &model_configs[i];
            let ids = identities(config);
            if ids.len() > 1 {
                let mut message = text::join3(
                    "client for model ",
                    config.model_name.as_str(),
                    " spans multiple provider identities ([",
                );
                push_listing(&mut message, &ids);
                message.append(
                    "]); provider-aware fallback requires one provider per [llm_clients.*] client",
                );
                proof {
                    assert(Seq::new(ids@.len(), |k: int| ids@[k]@) =~= identity_runs(
                        backends_of(*config),
                    ));
                    assert(first_spanning(model_configs@, i as int));
                }
                return Err(LlmClientError::RequestEncoding(message));
            }
            i = i + 1;
        }
        proof {
            assert forall|i: int, k: int|
                0 <= i < model_configs@.len() && 0 <= k < backends_of(
                    model_configs@[i],
                ).len() implies identity_of(
                #[trigger] backends_of(#[trigger] model_configs@[i])[k],
            ) == identity_of(model_configs@[i].default_backend) by {
                single_run(backends_of(model_configs@[i]));
            }
        }
        Ok(TranslatingLlmClient { model_configs })
    }

    fn config_index(&self, model: &str) -> (r: Option<usize>)
        ensures
            match r {
                Some(i) => i < self.model_configs@.len() && config_for(self.model_configs@, model@)
                    == Some(self.model_configs@[i as int]),
                None => config_for(self.model_configs@, model@) is None,
            },
    {
        let mut n: usize = self.model_configs.len();
        proof {
            assert(self.model_configs@.take(n as int) =~= self.model_configs@);
        }
        while n > 0
            invariant
                n <= self.model_configs.len(),
                config_for(self.model_configs@, model@) == config_for(
                    self.model_configs@.take(n as int),
                    model@,
                ),
            decreases n,
        {
            let ghost all = self.model_configs@;
            proof {
                assert(all.take(n as int).last() == all[n - 1]);
                assert(all.take(n as int).drop_last() =~= all.take(n - 1));
            }
            if text::str_eq(self.model_configs[n - 1].model_name.as_str(), model) {
                return Some(n - 1);
            }
            n = n - 1;
        }
        None
    }

    /// The backend serving `model` over `format`: the default backend where it
    /// speaks that format, else the first of the others that does.
    pub fn backend_for(&self, model: &str, format: WireFormat) -> (r: Option<&Backend>)
        ensures
            match r {
                Some(backend) => serving_backend(self.model_configs@, model@, format) == Some(
                    *backend,
                ),
                None => serving_backend(self.model_configs@, model@, format) is None,
            },
    {
        let config = match self.config_index(model) {
            Some(i) => &self.model_configs[i],
            None => {
                return None;
            },
        };
        let ghost all = backends_of(*config);
        if config.default_backend.wire_format() == format {
            return Some(&config.default_backend);
        }
        if let Some(others) = &config.other_backends {
            proof {
                assert(all.drop_first() =~= others@);
                assert(others@.skip(0) =~= others@);
            }
            let mut i: usize = 0;
            while i < others.len()
                invariant
                    i <= others.len(),
                    serving_backend(self.model_configs@, model@, format) == of_format(
                        others@.skip(i as int),
                        format,
                    ),
                decreases others.len() - i,
            {
                if others[i].wire_format() == format {
                    return Some(&others[i]);
                }
                proof {
                    assert(others@.skip(i as int).drop_first() =~= others@.skip(i + 1));
                }
                i = i + 1;
            }
        } else {
            proof {
                assert(all.drop_first() =~= Seq::empty());
                assert(of_format(all.drop_first(), format) is None);
            }
        }
        None
    }
}

/// A model-bearing provider operation outside the normal completion endpoint.
#[derive(Clone, Copy, Debug, PartialEq, Eq, Structural)]
pub enum AuxiliaryOperation {
    /// Anthropic Messages input-token counting.
    AnthropicCountTokens,
    /// OpenAI Responses input-token counting.
    ResponsesInputTokens,
    /// Exact input-token count against an OpenAI-chat backend.
    OpenAiChatInputTokens,
    /// OpenAI Responses compaction.
    ResponsesCompact,
}

/// The format that an operation is spoken in.
pub open spec fn operation_format(operation: AuxiliaryOperation) -> WireFormat {
    match operation {
        AuxiliaryOperation::AnthropicCountTokens => WireFormat::AnthropicMessages,
        AuxiliaryOperation::ResponsesInputTokens => WireFormat::OpenAiResponses,
        AuxiliaryOperation::ResponsesCompact => WireFormat::OpenAiResponses,
        AuxiliaryOperation::OpenAiChatInputTokens => WireFormat::OpenAiChat,
    }
}

/// The path of an operation below the completion endpoint.
pub open spec fn operation_path(operation: AuxiliaryOperation) -> Seq<char> {
    match operation {
        AuxiliaryOperation::AnthropicCountTokens => "/count_tokens"@,
        AuxiliaryOperation::ResponsesInputTokens => "/input_tokens"@,
        AuxiliaryOperation::OpenAiChatInputTokens => "/input_tokens"@,
        AuxiliaryOperation::ResponsesCompact => "/compact"@,
    }
}

/// The name of an operation.
pub open spec fn operation_name(operation: AuxiliaryOperation) -> Seq<char> {
    match operation {
        AuxiliaryOperation::AnthropicCountTokens => "AnthropicCountTokens"@,
        AuxiliaryOperation::ResponsesInputTokens => "ResponsesInputTokens"@,
        AuxiliaryOperation::OpenAiChatInputTokens => "OpenAiChatInputTokens"@,
        AuxiliaryOperation::ResponsesCompact => "ResponsesCompact"@,
    }
}

impl AuxiliaryOperation {
    /// The format that the operation is spoken in.
    pub fn wire_format(self) -> (r: WireFormat)
        ensures
            r == operation_format(self),
    {
        match self {
            AuxiliaryOperation::AnthropicCountTokens => WireFormat::AnthropicMessages,
            AuxiliaryOperation::ResponsesInputTokens => WireFormat::OpenAiResponses,
            AuxiliaryOperation::ResponsesCompact => WireFormat::OpenAiResponses,
            AuxiliaryOperation::OpenAiChatInputTokens => WireFormat::OpenAiChat,
        }
    }

    /// The name of the operation.
    pub fn name(self) -> (r: &'static str)
        ensures
            r@ == operation_name(self),
    {
        match self {
            AuxiliaryOperation::AnthropicCountTokens => "AnthropicCountTokens",
            AuxiliaryOperation::ResponsesInputTokens => "ResponsesInputTokens",
            AuxiliaryOperation::OpenAiChatInputTokens => "OpenAiChatInputTokens",
            AuxiliaryOperation::ResponsesCompact => "ResponsesCompact",
        }
    }

    /// The URL at which a backend offers the operation.
    pub fn url(self, backend: &Backend) -> (r: String)
        ensures
            r@ == completion_url(*backend) + operation_path(self),
    {
        match self {
            AuxiliaryOperation::AnthropicCountTokens => backend.count_tokens_url(),
            AuxiliaryOperation::ResponsesInputTokens => backend.input_tokens_url(),
            AuxiliaryOperation::OpenAiChatInputTokens => backend.input_tokens_url(),
            AuxiliaryOperation::ResponsesCompact => {
                let mut url = backend.url();
                url.append("/compact");
                url
            },
        }
    }
}

/// Where a call goes: the completion endpoint, or an auxiliary operation.
#[derive(Clone, Copy, Debug, PartialEq, Eq, Structural)]
pub enum UpstreamEndpoint {
    Completion,
    Auxiliary(AuxiliaryOperation),
}

/// The URL of an endpoint.
pub open spec fn endpoint_url(endpoint: UpstreamEndpoint, backend: Backend) -> Seq<char> {
    match endpoint {
        UpstreamEndpoint::Completion => completion_url(backend),
        UpstreamEndpoint::Auxiliary(operation) => completion_url(backend) + operation_path(
            operation,
        ),
    }
}

impl UpstreamEndpoint {
    /// The URL of the endpoint.
    pub fn url(self, backend: &Backend) -> (r: String)
        ensures
            r@ == endpoint_url(self, *backend),
    {
        match self {
            UpstreamEndpoint::Completion => backend.url(),
            UpstreamEndpoint::Auxiliary(operation) => operation.url(backend),
        }
    }

    /// Only a completion can stream.
    pub fn allows_streaming(self) -> (r: bool)
        ensures
            r == (self == UpstreamEndpoint::Completion),
    {
        matches!(self, UpstreamEndpoint::Completion)
    }
}

/// How requests in the Responses format are encoded for a backend.
#[derive(Clone, Copy, Debug, PartialEq, Eq, Structural)]
pub enum ResponsesProfile {
    /// Standards-compliant.
    Normal,
    /// Assistant history as output text, as strict Codex endpoints want it.
    StrictCodex,
}

/// The profile in which a request is encoded for a backend.
pub fn responses_profile(wire_format: WireFormat, backend: &Backend) -> (r: ResponsesProfile)
    ensures
        r == (if wire_format == WireFormat::OpenAiResponses && codex(*backend) {
            ResponsesProfile::StrictCodex
        } else {
            ResponsesProfile::Normal
        }),
{
    if wire_format == WireFormat::OpenAiResponses && backend.is_codex() {
        ResponsesProfile::StrictCodex
    } else {
        ResponsesProfile::Normal
    }
}

/// An upstream call that is ready to be sent.
#[derive(Debug)]
pub struct PlannedCall {
    pub url: String,
    pub body: Json,
    /// Whether the reply is a stream.
    pub streaming: bool,
    pub retries: RetryLoop,
}

/// Plans the call for an encoded body: the body is prepared for the backend, and
/// the reply streams where the endpoint allows it and the prepared body asks for it.
pub fn plan_call(
    backend: &Backend,
    encoded: Json,
    model: &str,
    endpoint: UpstreamEndpoint,
) -> (r: PlannedCall)
    ensures
        r.url@ == endpoint_url(endpoint, *backend),
        r.body@ == prepared(encoded@, *backend, model@),
        r.streaming == (endpoint == UpstreamEndpoint::Completion && bool_of(
            field(r.body@, "stream"@),
        ) == Some(true)),
        r.retries.wf(),
        r.retries.attempt == 0,
        r.retries.max_retries == config_of(*backend).max_retries,
{
    let mut body = encoded;
    prepare_body(&mut body, backend, model);
    let asked = match body.get("stream") {
        Some(value) => matches!(value.as_bool(), Some(true)),
        None => false,
    };
    PlannedCall {
        url: endpoint.url(backend),
        body,
        streaming: endpoint.allows_streaming() && asked,
        retries: RetryLoop::new(backend.config().max_retries),
    }
}

/// A call of a model whose backend is known.
#[derive(Debug)]
pub struct ResolvedCall<'a> {
    pub model: ModelId,
    pub wire_format: WireFormat,
    pub backend: &'a Backend,
}

/// The model that serves a call: the one that the caller of the client names,
/// else the request's own.
pub open spec fn model_named(model_name: Option<Seq<char>>, request_model: Option<Seq<char>>) -> Option<
    Seq<char>,
> {
    if model_name is Some {
        model_name
    } else {
        request_model
    }
}

/// What a call resolves to: model, format and backend, or the error.
pub open spec fn resolution(
    configs: Seq<ModelConfig>,
    model_name: Option<Seq<char>>,
    request_model: Option<Seq<char>>,
    pinned: Option<WireFormat>,
) -> Result<(Seq<char>, WireFormat, Backend), LlmClientErrorView> {
    match model_named(model_name, request_model) {
        None => Err(LlmClientErrorView::InvalidRequest { message: "no model given"@ }),
        Some(model) => match config_for(configs, model) {
            None => Err(
                LlmClientErrorView::Configuration {
                    message: "no backend configured for model "@ + text::debug_text(model),
                },
            ),
            Some(config) => {
                let format = match pinned {
                    Some(format) => format,
                    None => format_of(config.default_backend),
                };
                match serving_backend(configs, model, format) {
                    Some(backend) => Ok((model, format, backend)),
                    None => Err(
                        LlmClientErrorView::Configuration {
                            message: "model "@ + text::debug_text(model)
                                + " has no backend for format "@ + format_name(format),
                        },
                    ),
                }
            },
        },
    }
}

/// The model that serves a call.
pub fn served_model(model_name: Option<&str>, request_model: Option<&str>) -> (r: Option<String>)
    ensures
        text::opt_text(r) == model_named(
            (match model_name {
                Some(m) => Some(m@),
                None => None,
            }),
            (match request_model {
                Some(m) => Some(m@),
                None => None,
            }),
        ),
{
    match (model_name, request_model) {
        (Some(model), _) => Some(text::copy_str(model)),
        (None, Some(model)) => Some(text::copy_str(model)),
        (None, None) => None,
    }
}

impl TranslatingLlmClient {
    /// Whether `model` has a backend for `operation`.
    pub fn supports_auxiliary(&self, model: &str, operation: AuxiliaryOperation) -> (r: bool)
        ensures
            r == (serving_backend(self.model_configs@, model@, operation_format(operation))
                is Some),
    {
        self.backend_for(model, operation.wire_format()).is_some()
    }

    /// Resolves a call: `model_name` wins over the request's own model, and a
    /// wire format that the request pins wins over that of the default backend.
    ///
    /// # Errors
    ///
    /// A missing model is an invalid request; an unknown model, or one without a
    /// backend for the format, is a configuration error.
    pub fn resolve(
        &self,
        model_name: Option<&str>,
        request_model: Option<&str>,
        pinned: Option<WireFormat>,
    ) -> (r: Result<ResolvedCall<'_>, LlmClientError>)
        ensures
            ({
                let expected = resolution(
                    self.model_configs@,
                    match model_name {
                        Some(m) => Some(m@),
                        None => None,
                    },
                    match request_model {
                        Some(m) => Some(m@),
                        None => None,
                    },
                    pinned,
                );
                match r {
                    Ok(call) => expected == Ok::<
                        (Seq<char>, WireFormat, Backend),
                        LlmClientErrorView,
                    >((call.model@, call.wire_format, *call.backend)),
                    Err(e) => expected == Err::<
                        (Seq<char>, WireFormat, Backend),
                        LlmClientErrorView,
                    >(e@),
                }
            }),
    {
        let model = match served_model(model_name, request_model) {
            Some(model) => model,
            None => {
                return Err(
                    LlmClientError::InvalidRequest { message: text::copy_str("no model given") },
                );
            },
        };
        let config = match self.config_index(model.as_str()) {
            Some(i) => &self.model_configs[i],
            None => {
                let mut message = text::copy_str("no backend configured for model ");
                let q = text::quoted(model.as_str());
                message.append(q.as_str());
                return Err(LlmClientError::Configuration { message });
            },
        };
        let wire_format = match pinned {
            Some(format) => format,
            None => config.default_backend.wire_format(),
        };
        match self.backend_for(model.as_str(), wire_format) {
            Some(backend) => Ok(ResolvedCall { model, wire_format, backend }),
            None => {
                let q = text::quoted(model.as_str());
                let mut message = text::join3("model ", q.as_str(), " has no backend for format ");
                message.append(wire_format.as_str());
                Err(LlmClientError::Configuration { message })
            },
        }
    }

    /// The backend for an auxiliary operation on `model`.
    ///
    /// # Errors
    ///
    /// Where the model has no backend in the operation's format.
    pub fn resolve_auxiliary(&self, model: &str, operation: AuxiliaryOperation) -> (r: Result<
        &Backend,
        LlmClientError,
    >)
        ensures
            match serving_backend(self.model_configs@, model@, operation_format(operation)) {
                Some(backend) => r is Ok && *r->Ok_0 == backend,
                None => r is Err && r->Err_0@ == (LlmClientErrorView::Configuration {
                    message: "model "@ + model@ + " has no backend for "@ + operation_name(
                        operation,
                    ),
                }),
            },
    {
        match self.backend_for(model, operation.wire_format()) {
            Some(backend) => Ok(backend),
            None => {
                let mut message = text::join3("model ", model, " has no backend for ");
                message.append(operation.name());
                Err(LlmClientError::Configuration { message })
            },
        }
    }

    /// The base URL that identifies the client's provider: that of the last
    /// configuration's default backend. A client without models has none.
    pub fn provider_key(&self) -> (r: Option<String>)
        ensures
            text::opt_text(r) == (if self.model_configs@.len() > 0 {
                Some(identity_of(self.model_configs@.last().default_backend))
            } else {
                None
            }),
    {
        let count: usize = self.model_configs.len();
        if count == 0 {
            None
        } else {
            Some(self.model_configs[count - 1].default_backend.provider_identity())
        }
    }
}

/// A parsed reply to an auxiliary call; a parse error is an invalid response.
pub fn parsed_auxiliary_reply(parsed: Result<Json, String>) -> (r: Result<Json, LlmClientError>)
    ensures
        match parsed {
            Ok(value) => r == Ok::<Json, LlmClientError>(value),
            Err(message) => r is Err && r->Err_0@ == (LlmClientErrorView::InvalidResponse {
                message: message@,
            }),
        },
{
    match parsed {
        Ok(value) => Ok(value),
        Err(message) => Err(LlmClientError::InvalidResponse { message }),
    }
}

/// A parsed completion body; a parse error is a response that cannot be read.
pub fn parsed_completion_body(parsed: Result<Json, String>) -> (r: Result<Json, LlmClientError>)
    ensures
        match parsed {
            Ok(value) => r == Ok::<Json, LlmClientError>(value),
            Err(message) => r is Err && r->Err_0@ == LlmClientErrorView::ResponseTranslation(
                "invalid upstream JSON: "@ + message@,
            ),
        },
{
    match parsed {
        Ok(value) => Ok(value),
        Err(error) => {
            let mut message = text::copy_str("invalid upstream JSON: ");
            message.append(error.as_str());
            Err(LlmClientError::ResponseTranslation(message))
        },
    }
}

/// The reply to an auxiliary call, as JSON.
///
/// # Errors
///
/// A stream is an invalid request; bytes that are not JSON are an invalid
/// response, with the parser's own message.
pub fn auxiliary_reply(response: &EncodedResponse) -> (r: Result<Json, LlmClientError>)
    ensures
        match *response {
            EncodedResponse::Streaming { .. } => r is Err && r->Err_0@ == (
            LlmClientErrorView::InvalidRequest {
                message: "auxiliary endpoints do not support streaming"@,
            }),
            EncodedResponse::Buffered { body, .. } => match json_in_bytes(body@) {
                Ok(value) => r is Ok && r->Ok_0@ == value,
                Err(message) => r is Err && r->Err_0@ == (LlmClientErrorView::InvalidResponse {
                    message,
                }),
            },
        },
{
    match response {
        EncodedResponse::Streaming { .. } => Err(
            LlmClientError::InvalidRequest {
                message: text::copy_str("auxiliary endpoints do not support streaming"),
            },
        ),
        EncodedResponse::Buffered { body, .. } => parsed_auxiliary_reply(
            parse_bytes(body.as_slice()),
        ),
    }
}

/// The body of a buffered completion, as JSON.
///
/// # Errors
///
/// Bytes that are not JSON cannot be read as a response.
pub fn completion_body(body: &Vec<u8>) -> (r: Result<Json, LlmClientError>)
    ensures
        match json_in_bytes(body@) {
            Ok(value) => r is Ok && r->Ok_0@ == value,
            Err(message) => r is Err && r->Err_0@ == LlmClientErrorView::ResponseTranslation(
                "invalid upstream JSON: "@ + message,
            ),
        },
{
    parsed_completion_body(parse_bytes(body.as_slice()))
}

/// The count in a reply to an input-token count.
///
/// # Errors
///
/// Only `{"input_tokens": N}` with a non-negative integer of 64 bits is accepted.
pub fn input_token_count(reply: &Json) -> (r: Result<u64, LlmClientError>)
    ensures
        match field(reply@, "input_tokens"@) {
            None => r is Err && r->Err_0@ == (LlmClientErrorView::InvalidResponse {
                message: "input_tokens response missing `input_tokens` field"@,
            }),
            Some(value) => match unsigned_of(Some(value)) {
                Some(n) => r is Ok && r->Ok_0 == n,
                None => r is Err && r->Err_0@ == (LlmClientErrorView::InvalidResponse {
                    message: "input_tokens response field is not a non-negative integer"@,
                }),
            },
        },
{
    let value = match reply.get("input_tokens") {
        Some(value) => value,
        None => {
            return Err(
                LlmClientError::InvalidResponse {
                    message: text::copy_str("input_tokens response missing `input_tokens` field"),
                },
            );
        },
    };
    match value.as_u64() {
        Some(n) => Ok(n),
        None => Err(
            LlmClientError::InvalidResponse {
                message: text::copy_str(
                    "input_tokens response field is not a non-negative integer",
                ),
            },
        ),
    }
}

/// One normalized chunk of a stream's event.
#[derive(Debug)]
pub enum LlmResponseChunk {
    /// An in-band error; `overflow` says whether the backend's rules call its
    /// message a context overflow.
    StreamError { message: String, overflow: bool },
    /// Any other chunk.
    Other,
}

/// A chunk that rejects the whole request as too long.
pub open spec fn rejects_as_overflow(chunk: LlmResponseChunk) -> bool {
    match chunk {
        LlmResponseChunk::StreamError { overflow, .. } => overflow,
        LlmResponseChunk::Other => false,
    }
}

/// The overflow message where a stream's first event is an in-band rejection of
/// the whole request rather than the start of a response. An event that could not
/// be read has no chunks here.
pub fn first_event_overflow(chunks: &Vec<LlmResponseChunk>) -> (r: Option<String>)
    ensures
        match r {
            Some(message) => exists|i: int|
                {
                    &&& 0 <= i < chunks@.len()
                    &&& rejects_as_overflow(#[trigger] chunks@[i])
                    &&& chunks@[i]->message@ == message@
                    &&& forall|j: int| 0 <= j < i ==> !rejects_as_overflow(#[trigger] chunks@[j])
                },
            None => forall|i: int|
                0 <= i < chunks@.len() ==> !rejects_as_overflow(#[trigger] chunks@[i]),
        },
{
    let mut i: usize = 0;
    while i < chunks.len()
        invariant
            i <= chunks.len(),
            forall|j: int| 0 <= j < i ==> !rejects_as_overflow(#[trigger] chunks@[j]),
        decreases chunks.len() - i,
    {
        match &chunks[i] {
            LlmResponseChunk::StreamError { message, overflow } => {
                if *overflow {
                    assert(rejects_as_overflow(chunks@[i as int]));
                    return Some(text::copy_str(message.as_str()));
                }
            },
            LlmResponseChunk::Other => {},
        }
        i = i + 1;
    }
    None
}

/// How a stream begins.
#[derive(Debug, PartialEq, Eq)]
pub enum StreamStart {
    /// It ended without an event: the reply is an empty stream.
    Empty,
    /// Its first event and what follows are the reply.
    Deliver,
}

/// The step after a stream's first event, before anything has reached the
/// caller: a rejection of the whole request as too long still fails the call, so
/// that routing can try the next candidate.
pub fn stream_start(first_event: Option<&Vec<LlmResponseChunk>>, model: &str) -> (r: Result<
    StreamStart,
    LlmClientError,
>)
    ensures
        match first_event {
            None => r is Ok && r->Ok_0 == StreamStart::Empty,
            Some(chunks) => match r {
                Ok(start) => start == StreamStart::Deliver && forall|i: int|
                    0 <= i < chunks@.len() ==> !rejects_as_overflow(#[trigger] chunks@[i]),
                Err(e) => exists|i: int|
                    {
                        &&& 0 <= i < chunks@.len()
                        &&& rejects_as_overflow(#[trigger] chunks@[i])
                        &&& e@ == (LlmClientErrorView::ContextWindowExceeded {
                            model: model@,
                            message: chunks@[i]->message@,
                        })
                        &&& forall|j: int|
                            0 <= j < i ==> !rejects_as_overflow(#[trigger] chunks@[j])
                    },
            },
        },
{
    match first_event {
        None => Ok(StreamStart::Empty),
        Some(chunks) => match first_event_overflow(chunks) {
            Some(message) => Err(
                LlmClientError::ContextWindowExceeded { model: text::copy_str(model), message },
            ),
            None => Ok(StreamStart::Deliver),
        },
    }
}

/// A resolved call goes to a backend that speaks its format.
pub proof fn resolved_backend_speaks_the_format(
    configs: Seq<ModelConfig>,
    model: Seq<char>,
    format: WireFormat,
)
    ensures
        serving_backend(configs, model, format) is Some ==> format_of(
            serving_backend(configs, model, format)->0,
        ) == format,
{
    if config_for(configs, model) is Some {
        found_format(backends_of(config_for(configs, model)->0), format);
    }
}

proof fn found_format(backends: Seq<Backend>, format: WireFormat)
    ensures
        of_format(backends, format) is Some ==> format_of(of_format(backends, format)->0) == format,
    decreases backends.len(),
{
    if backends.len() > 0 {
        found_format(backends.drop_first(), format);
    }
}

/// The provider that identifies a client serves: the configuration that it is
/// taken from is the one that its model resolves to.
pub proof fn identified_provider_serves(configs: Seq<ModelConfig>)
    requires
        configs.len() > 0,
    ensures
        config_for(configs, configs.last().model_name@) == Some(configs.last()),
{
}

/// A configured model resolves without a pinned format: its default backend
/// takes the call, in its own format.
pub proof fn default_backend_takes_unpinned_calls(
    configs: Seq<ModelConfig>,
    model: Seq<char>,
    request_model: Option<Seq<char>>,
)
    requires
        config_for(configs, model) is Some,
    ensures
        resolution(configs, Some(model), request_model, None) == Ok::<
            (Seq<char>, WireFormat, Backend),
            LlmClientErrorView,
        >(
            (
                model,
                format_of(config_for(configs, model)->0.default_backend),
                config_for(configs, model)->0.default_backend,
            ),
        ),
{
    let config = config_for(configs, model)->0;
    assert(backends_of(config)[0] == config.default_backend);
}

/// A model's configuration is the last one of its name.
proof fn last_config_serves(configs: Seq<ModelConfig>, model: Seq<char>, i: int)
    requires
        0 <= i < configs.len(),
        configs[i].model_name@ == model,
        forall|j: int| i < j < configs.len() ==> (#[trigger] configs[j]).model_name@ != model,
    ensures
        config_for(configs, model) == Some(configs[i]),
    decreases configs.len(),
{
    if i < configs.len() - 1 {
        let rest = configs.drop_last();
        assert(configs[configs.len() - 1].model_name@ != model);
        assert forall|j: int| i < j < rest.len() implies (#[trigger] rest[j]).model_name@ != model by {
            assert(rest[j] == configs[j]);
        }
        last_config_serves(rest, model, i);
    }
}

proof fn unknown_model_has_no_config(configs: Seq<ModelConfig>, model: Seq<char>)
    requires
        forall|j: int| 0 <= j < configs.len() ==> (#[trigger] configs[j]).model_name@ != model,
    ensures
        config_for(configs, model) is None,
    decreases configs.len(),
{
    if configs.len() > 0 {
        let rest = configs.drop_last();
        assert(configs[configs.len() - 1].model_name@ != model);
        assert forall|j: int| 0 <= j < rest.len() implies (#[trigger] rest[j]).model_name@ != model by {
            assert(rest[j] == configs[j]);
        }
        unknown_model_has_no_config(rest, model);
    }
}

proof fn first_of_format(backends: Seq<Backend>, format: WireFormat, i: int)
    requires
        0 <= i < backends.len(),
        format_of(backends[i]) == format,
        forall|j: int| 0 <= j < i ==> format_of(#[trigger] backends[j]) != format,
    ensures
        of_format(backends, format) == Some(backends[i]),
    decreases backends.len(),
{
    if i > 0 {
        let rest = backends.drop_first();
        assert(format_of(backends[0]) != format);
        assert forall|j: int| 0 <= j < i - 1 implies format_of(#[trigger] rest[j]) != format by {
            assert(rest[j] == backends[j + 1]);
        }
        assert(rest[i - 1] == backends[i]);
        first_of_format(rest, format, i - 1);
    }
}

proof fn none_of_format(backends: Seq<Backend>, format: WireFormat)
    requires
        forall|j: int| 0 <= j < backends.len() ==> format_of(#[trigger] backends[j]) != format,
    ensures
        of_format(backends, format) is None,
    decreases backends.len(),
{
    if backends.len() > 0 {
        let rest = backends.drop_first();
        assert(format_of(backends[0]) != format);
        assert forall|j: int| 0 <= j < rest.len() implies format_of(#[trigger] rest[j]) != format by {
            assert(rest[j] == backends[j + 1]);
        }
        none_of_format(rest, format);
    }
}

/// The default backend of a model's last configuration serves it over its own
/// format.
pub proof fn default_backend_serves_its_format(
    client: TranslatingLlmClient,
    model: &str,
    format: WireFormat,
    i: int,
    r: Option<&Backend>,
)
    requires
        call_ensures(TranslatingLlmClient::backend_for, (&client, model, format), r),
        0 <= i < client.model_configs@.len(),
        client.model_configs@[i].model_name@ == model@,
        forall|j: int|
            i < j < client.model_configs@.len() ==> (
            #[trigger] client.model_configs@[j]).model_name@ != model@,
        call_ensures(
            Backend::wire_format,
            (&client.model_configs@[i].default_backend,),
            format,
        ),
    ensures
        r is Some,
        *r->0 == client.model_configs@[i].default_backend,
{
    last_config_serves(client.model_configs@, model@, i);
    let all = backends_of(client.model_configs@[i]);
    assert(all[0] == client.model_configs@[i].default_backend);
    first_of_format(all, format, 0);
}

/// Over another format the first of the other backends that speaks it serves, and
/// nobody where none does.
pub proof fn other_backends_serve_other_formats(
    client: TranslatingLlmClient,
    model: &str,
    format: WireFormat,
    i: int,
    others: Vec<Backend>,
    k: int,
    r: Option<&Backend>,
)
    requires
        call_ensures(TranslatingLlmClient::backend_for, (&client, model, format), r),
        0 <= i < client.model_configs@.len(),
        client.model_configs@[i].model_name@ == model@,
        forall|j: int|
            i < j < client.model_configs@.len() ==> (
            #[trigger] client.model_configs@[j]).model_name@ != model@,
        client.model_configs@[i].other_backends == Some(others),
        format_of(client.model_configs@[i].default_backend) != format,
    ensures
        0 <= k < others@.len() && format_of(others@[k]) == format && (forall|j: int|
            0 <= j < k ==> format_of(#[trigger] others@[j]) != format) ==> r is Some && *r->0
            == others@[k],
        (forall|j: int| 0 <= j < others@.len() ==> format_of(#[trigger] others@[j]) != format)
            ==> r is None,
{
    let configs = client.model_configs@;
    last_config_serves(configs, model@, i);
    let all = backends_of(configs[i]);
    if 0 <= k < others@.len() && format_of(others@[k]) == format && (forall|j: int|
        0 <= j < k ==> format_of(#[trigger] others@[j]) != format) {
        assert forall|j: int| 0 <= j < k + 1 implies format_of(#[trigger] all[j]) != format by {
            if j > 0 {
                assert(all[j] == others@[j - 1]);
            }
        }
        assert(all[k + 1] == others@[k]);
        first_of_format(all, format, k + 1);
    }
    if forall|j: int| 0 <= j < others@.len() ==> format_of(#[trigger] others@[j]) != format {
        assert forall|j: int| 0 <= j < all.len() implies format_of(#[trigger] all[j]) != format by {
            if j > 0 {
                assert(all[j] == others@[j - 1]);
            }
        }
        none_of_format(all, format);
    }
}

/// A model that no configuration names has no backend.
pub proof fn unknown_models_have_no_backend(
    client: TranslatingLlmClient,
    model: &str,
    format: WireFormat,
    r: Option<&Backend>,
)
    requires
        call_ensures(TranslatingLlmClient::backend_for, (&client, model, format), r),
        forall|j: int|
            0 <= j < client.model_configs@.len() ==> (
            #[trigger] client.model_configs@[j]).model_name@ != model@,
    ensures
        r is None,
{
    unknown_model_has_no_config(client.model_configs@, model@);
}

/// A call resolves to the model that the caller of the client names, else to the
/// request's own; over the format that the request pins, else that of the model's
/// default backend; and to the backend that serves the model over that format.
pub proof fn calls_resolve_by_name_and_pin(
    client: TranslatingLlmClient,
    model_name: Option<&str>,
    request_model: Option<&str>,
    pinned: Option<WireFormat>,
    r: Result<ResolvedCall<'_>, LlmClientError>,
)
    requires
        call_ensures(
            TranslatingLlmClient::resolve,
            (&client, model_name, request_model, pinned),
            r,
        ),
    ensures
        model_name is None && request_model is None ==> r is Err && r->Err_0@ == (
        LlmClientErrorView::InvalidRequest { message: "no model given"@ }),
        r is Ok ==> {
            let call = r->Ok_0;
            &&& model_name is Some ==> call.model@ == model_name->0@
            &&& model_name is None ==> request_model is Some && call.model@ == request_model->0@
            &&& pinned is Some ==> call.wire_format == pinned->0
            &&& forall|model: &str, backend: Option<&Backend>|
                model@ == call.model@ && #[trigger] call_ensures(
                    TranslatingLlmClient::backend_for,
                    (&client, model, call.wire_format),
                    backend,
                ) ==> backend is Some && *backend->0 == *call.backend
        },
        r is Err && (model_name is Some || request_model is Some) ==> r->Err_0 is Configuration,
{
}

/// A configured model resolves without a pin, to its default backend.
pub proof fn configured_models_resolve(
    client: TranslatingLlmClient,
    model: &str,
    request_model: Option<&str>,
    i: int,
    r: Result<ResolvedCall<'_>, LlmClientError>,
)
    requires
        call_ensures(
            TranslatingLlmClient::resolve,
            (&client, Some(model), request_model, None::<WireFormat>),
            r,
        ),
        0 <= i < client.model_configs@.len(),
        client.model_configs@[i].model_name@ == model@,
        forall|j: int|
            i < j < client.model_configs@.len() ==> (
            #[trigger] client.model_configs@[j]).model_name@ != model@,
    ensures
        r is Ok,
        r->Ok_0.model@ == model@,
        *r->Ok_0.backend == client.model_configs@[i].default_backend,
{
    let configs = client.model_configs@;
    last_config_serves(configs, model@, i);
    default_backend_takes_unpinned_calls(
        configs,
        model@,
        match request_model {
            Some(m) => Some(m@),
            None => None,
        },
    );
}

/// Each auxiliary operation is spoken in its format and offered one step below the
/// completion endpoint.
pub proof fn operations_have_their_endpoints(
    operation: AuxiliaryOperation,
    backend: Backend,
    format: WireFormat,
    completion: String,
    url: String,
)
    requires
        call_ensures(AuxiliaryOperation::wire_format, (operation,), format),
        call_ensures(Backend::url, (&backend,), completion),
        call_ensures(AuxiliaryOperation::url, (operation, &backend), url),
    ensures
        format == WireFormat::AnthropicMessages <==> operation
            == AuxiliaryOperation::AnthropicCountTokens,
        format == WireFormat::OpenAiChat <==> operation
            == AuxiliaryOperation::OpenAiChatInputTokens,
        operation == AuxiliaryOperation::AnthropicCountTokens ==> url@ == completion@
            + "/count_tokens"@,
        operation == AuxiliaryOperation::ResponsesInputTokens || operation
            == AuxiliaryOperation::OpenAiChatInputTokens ==> url@ == completion@
            + "/input_tokens"@,
        operation == AuxiliaryOperation::ResponsesCompact ==> url@ == completion@ + "/compact"@,
{
}

/// A planned call goes to its endpoint's URL. It streams where it is a completion
/// whose body asks for it with `stream` true, and no auxiliary call does. It has the
/// backend's retries before it.
pub proof fn plans_follow_the_endpoint(
    backend: Backend,
    encoded: Json,
    model: &str,
    endpoint: UpstreamEndpoint,
    url: String,
    r: PlannedCall,
)
    requires
        call_ensures(plan_call, (&backend, encoded, model, endpoint), r),
        call_ensures(UpstreamEndpoint::url, (endpoint, &backend), url),
    ensures
        r.url@ == url@,
        r.streaming <==> endpoint == UpstreamEndpoint::Completion && field(r.body@, "stream"@)
            == Some(JsonView::Bool(true)),
        r.retries.attempt == 0,
        r.retries.max_retries == config_of(backend).max_retries,
        encoded@ is Object ==> field(r.body@, "model"@) == Some(JsonView::Text(model@)),
{
    if encoded@ is Object {
        prepared_body_names_the_model(encoded@, backend, model@);
    }
}

/// A completion goes to the backend's own URL, an auxiliary call to the operation's.
pub proof fn endpoints_have_their_urls(
    backend: Backend,
    operation: AuxiliaryOperation,
    completion: String,
    auxiliary: String,
    a: String,
    b: String,
)
    requires
        call_ensures(Backend::url, (&backend,), completion),
        call_ensures(AuxiliaryOperation::url, (operation, &backend), auxiliary),
        call_ensures(UpstreamEndpoint::url, (UpstreamEndpoint::Completion, &backend), a),
        call_ensures(
            UpstreamEndpoint::url,
            (UpstreamEndpoint::Auxiliary(operation), &backend),
            b,
        ),
    ensures
        a@ == completion@,
        b@ == auxiliary@,
{
}

/// The strict profile is for Responses requests to a Codex backend, and the normal
/// one for everything else.
pub proof fn strict_profile_is_for_codex_responses(
    format: WireFormat,
    backend: Backend,
    strict: bool,
    r: ResponsesProfile,
)
    requires
        call_ensures(responses_profile, (format, &backend), r),
        call_ensures(Backend::is_codex, (&backend,), strict),
    ensures
        r == ResponsesProfile::StrictCodex <==> format == WireFormat::OpenAiResponses && strict,
{
}

/// A count is read from `input_tokens` where it is a non-negative integer of 64 bits,
/// and from nothing else.
pub proof fn counts_are_read_from_input_tokens(reply: Json, r: Result<u64, LlmClientError>)
    requires
        call_ensures(input_token_count, (&reply,), r),
    ensures
        r is Ok <==> {
            let value = field(reply@, "input_tokens"@);
            value is Some && value->0 is Number && value->0->Number_0 is Unsigned
        },
        r is Ok ==> r->Ok_0 == field(reply@, "input_tokens"@)->0->Number_0->Unsigned_0,
        r is Err ==> r->Err_0 is InvalidResponse,
{
}

/// A stream whose first event rejects the request as too long fails the call with the
/// first such message; any other event is delivered, and a stream without an event
/// is an empty reply.
pub proof fn first_event_decides_the_stream(
    chunks: Vec<LlmResponseChunk>,
    model: &str,
    i: int,
    r: Result<StreamStart, LlmClientError>,
)
    requires
        call_ensures(stream_start, (Some(&chunks), model), r),
        0 <= i < chunks@.len(),
        forall|j: int|
            0 <= j < i ==> !((#[trigger] chunks@[j]) is StreamError && chunks@[j]->overflow),
    ensures
        chunks@[i] is StreamError && chunks@[i]->overflow ==> r is Err && r->Err_0@ == (
        LlmClientErrorView::ContextWindowExceeded {
            model: model@,
            message: chunks@[i]->message@,
        }),
        i == chunks@.len() - 1 && !(chunks@[i] is StreamError && chunks@[i]->overflow) ==> r is Ok
            && r->Ok_0 == StreamStart::Deliver,
{
    if chunks@[i] is StreamError && chunks@[i]->overflow {
        assert(rejects_as_overflow(chunks@[i]));
        let k = choose|k: int|
            {
                &&& 0 <= k < chunks@.len()
                &&& rejects_as_overflow(#[trigger] chunks@[k])
                &&& r->Err_0@ == (LlmClientErrorView::ContextWindowExceeded {
                    model: model@,
                    message: chunks@[k]->message@,
                })
                &&& forall|j: int| 0 <= j < k ==> !rejects_as_overflow(#[trigger] chunks@[j])
            };
        assert(k == i) by {
            if k < i {
                assert(!(chunks@[k] is StreamError && chunks@[k]->overflow));
            }
            if i < k {
                assert(!rejects_as_overflow(chunks@[i]));
            }
        }
    } else if r is Err {
        let k = choose|k: int|
            0 <= k < chunks@.len() && rejects_as_overflow(#[trigger] chunks@[k]);
        if k < i {
            assert(!(chunks@[k] is StreamError && chunks@[k]->overflow));
        }
    }
}

/// A stream that ends without an event is an empty reply.
pub proof fn silent_stream_is_an_empty_reply(model: &str, r: Result<StreamStart, LlmClientError>)
    requires
        call_ensures(stream_start, (None::<&Vec<LlmResponseChunk>>, model), r),
    ensures
        r is Ok && r->Ok_0 == StreamStart::Empty,
{
}

/// A client is accepted where every header can be sent and the backends of each model
/// have one identity.
pub proof fn clients_of_one_provider_are_accepted(
    configs: Vec<ModelConfig>,
    r: Result<TranslatingLlmClient, LlmClientError>,
    i: int,
    k: int,
)
    requires
        call_ensures(TranslatingLlmClient::new, (configs,), r),
        0 <= i < configs@.len(),
        0 <= k < backends_of(configs@[i]).len(),
    ensures
        r is Ok ==> r->Ok_0.model_configs == configs,
        r is Ok ==> identity_of(backends_of(configs@[i])[k]) == identity_of(
            configs@[i].default_backend,
        ),
        r is Ok ==> bad_header(config_of(backends_of(configs@[i])[k]).extra_headers@) is None,
{
    if r is Ok {
        no_header_fault(configs@, i, k);
    }
}

proof fn no_header_fault(configs: Seq<ModelConfig>, i: int, k: int)
    requires
        header_fault(configs) is None,
        0 <= i < configs.len(),
        0 <= k < backends_of(configs[i]).len(),
    ensures
        bad_header(config_of(backends_of(configs[i])[k]).extra_headers@) is None,
    decreases configs.len(),
{
    if i == 0 {
        no_bad_header(backends_of(configs[0]), k);
    } else {
        assert(configs.drop_first()[i - 1] == configs[i]);
        no_header_fault(configs.drop_first(), i - 1, k);
    }
}

proof fn no_bad_header(backends: Seq<Backend>, k: int)
    requires
        bad_header_of(backends) is None,
        0 <= k < backends.len(),
    ensures
        bad_header(config_of(backends[k]).extra_headers@) is None,
    decreases backends.len(),
{
    if k > 0 {
        assert(backends.drop_first()[k - 1] == backends[k]);
        no_bad_header(backends.drop_first(), k - 1);
    }
}

/// Whatever a client is refused for is wrong with it: some header cannot be sent, or
/// the backends of some model have two identities.
pub proof fn refused_clients_have_a_fault(
    configs: Vec<ModelConfig>,
    r: Result<TranslatingLlmClient, LlmClientError>,
)
    requires
        call_ensures(TranslatingLlmClient::new, (configs,), r),
        forall|i: int, k: int|
            0 <= i < configs@.len() && 0 <= k < backends_of(configs@[i]).len() ==> identity_of(
                #[trigger] backends_of(#[trigger] configs@[i])[k],
            ) == identity_of(configs@[i].default_backend) && bad_header(
                config_of(backends_of(configs@[i])[k]).extra_headers@,
            ) is None,
    ensures
        r is Ok,
{
    sound_headers_have_no_fault(configs@);
    if r is Err {
        let i = choose|i: int| #[trigger]
            first_spanning(configs@, i) && r->Err_0@ == LlmClientErrorView::RequestEncoding(
                several_providers(configs@[i]),
            );
        let all = backends_of(configs@[i]);
        assert(all[0] == configs@[i].default_backend);
        assert forall|k: int| 0 <= k < all.len() implies identity_of(#[trigger] all[k])
            == identity_of(all[0]) by {
            assert(backends_of(configs@[i])[k] == all[k]);
        }
        one_identity_is_one_run(all);
    }
}

proof fn one_identity_is_one_run(backends: Seq<Backend>)
    requires
        backends.len() > 0,
        forall|k: int|
            0 <= k < backends.len() ==> identity_of(#[trigger] backends[k]) == identity_of(
                backends[0],
            ),
    ensures
        identity_runs(backends).len() == 1,
        identity_runs(backends).last() == identity_of(backends[0]),
    decreases backends.len(),
{
    let rest = backends.drop_last();
    assert(backends.last() == backends[backends.len() - 1]);
    if rest.len() > 0 {
        assert forall|k: int| 0 <= k < rest.len() implies identity_of(#[trigger] rest[k])
            == identity_of(rest[0]) by {
            assert(rest[k] == backends[k] && rest[0] == backends[0]);
        }
        one_identity_is_one_run(rest);
        assert(rest[0] == backends[0]);
    } else {
        assert(identity_runs(rest).len() == 0);
    }
}

proof fn sound_headers_have_no_fault(configs: Seq<ModelConfig>)
    requires
        forall|i: int, k: int|
            0 <= i < configs.len() && 0 <= k < backends_of(configs[i]).len() ==> bad_header(
                config_of(
                    #[trigger] backends_of(#[trigger] configs[i])[k],
                ).extra_headers@,
            ) is None,
    ensures
        header_fault(configs) is None,
    decreases configs.len(),
{
    if configs.len() > 0 {
        let all = backends_of(configs[0]);
        assert forall|k: int| 0 <= k < all.len() implies bad_header(
            config_of(#[trigger] all[k]).extra_headers@,
        ) is None by {
            assert(backends_of(configs[0])[k] == all[k]);
        }
        sound_backends_have_no_bad_header(all);
        let rest = configs.drop_first();
        assert forall|i: int, k: int|
            0 <= i < rest.len() && 0 <= k < backends_of(rest[i]).len() implies bad_header(
            config_of(#[trigger] backends_of(#[trigger] rest[i])[k]).extra_headers@,
        ) is None by {
            assert(rest[i] == configs[i + 1]);
            assert(backends_of(configs[i + 1])[k] == backends_of(rest[i])[k]);
        }
        sound_headers_have_no_fault(rest);
    }
}

proof fn sound_backends_have_no_bad_header(backends: Seq<Backend>)
    requires
        forall|k: int|
            0 <= k < backends.len() ==> bad_header(
                config_of(#[trigger] backends[k]).extra_headers@,
            ) is None,
    ensures
        bad_header_of(backends) is None,
    decreases backends.len(),
{
    if backends.len() > 0 {
        assert(bad_header(config_of(backends[0]).extra_headers@) is None);
        let rest = backends.drop_first();
        assert forall|k: int| 0 <= k < rest.len() implies bad_header(
            config_of(#[trigger] rest[k]).extra_headers@,
        ) is None by {
            assert(rest[k] == backends[k + 1]);
        }
        sound_backends_have_no_bad_header(rest);
    }
}

/// Why a call did not resolve: nobody named a model, no configuration has the model,
/// or none of its backends speaks the format.
pub proof fn unresolved_calls_are_explained(
    client: TranslatingLlmClient,
    model: &str,
    request_model: Option<&str>,
    pinned: WireFormat,
    name: &'static str,
    r: Result<ResolvedCall<'_>, LlmClientError>,
)
    requires
        call_ensures(
            TranslatingLlmClient::resolve,
            (&client, Some(model), request_model, Some(pinned)),
            r,
        ),
        call_ensures(WireFormat::as_str, (pinned,), name),
        r is Err,
    ensures
        (forall|j: int|
            0 <= j < client.model_configs@.len() ==> (
            #[trigger] client.model_configs@[j]).model_name@ != model@) ==> r->Err_0@ == (
        LlmClientErrorView::Configuration {
            message: "no backend configured for model "@ + text::debug_text(model@),
        }),
        (exists|j: int|
            0 <= j < client.model_configs@.len() && (
            #[trigger] client.model_configs@[j]).model_name@ == model@) ==> r->Err_0@ == (
        LlmClientErrorView::Configuration {
            message: "model "@ + text::debug_text(model@) + " has no backend for format "@ + name@,
        }),
{
    let configs = client.model_configs@;
    if forall|j: int| 0 <= j < configs.len() ==> (#[trigger] configs[j]).model_name@ != model@ {
        unknown_model_has_no_config(configs, model@);
    }
    if exists|j: int| 0 <= j < configs.len() && (#[trigger] configs[j]).model_name@ == model@ {
        let j = choose|j: int|
            0 <= j < configs.len() && (#[trigger] configs[j]).model_name@ == model@;
        named_model_has_a_config(configs, model@, j);
    }
}

proof fn named_model_has_a_config(configs: Seq<ModelConfig>, model: Seq<char>, j: int)
    requires
        0 <= j < configs.len(),
        configs[j].model_name@ == model,
    ensures
        config_for(configs, model) is Some,
    decreases configs.len(),
{
    if configs.last().model_name@ != model {
        assert(configs.drop_last()[j] == configs[j]);
        named_model_has_a_config(configs.drop_last(), model, j);
    }
}

/// An auxiliary call goes to the backend that serves the model over the operation's
/// format; without one the error names the model and the operation.
pub proof fn auxiliary_calls_go_to_their_format(
    client: TranslatingLlmClient,
    model: &str,
    operation: AuxiliaryOperation,
    format: WireFormat,
    backend: Option<&Backend>,
    supported: bool,
    name: &'static str,
    r: Result<&Backend, LlmClientError>,
)
    requires
        call_ensures(AuxiliaryOperation::wire_format, (operation,), format),
        call_ensures(AuxiliaryOperation::name, (operation,), name),
        call_ensures(TranslatingLlmClient::backend_for, (&client, model, format), backend),
        call_ensures(TranslatingLlmClient::supports_auxiliary, (&client, model, operation), supported),
        call_ensures(TranslatingLlmClient::resolve_auxiliary, (&client, model, operation), r),
    ensures
        supported <==> backend is Some,
        r is Ok <==> backend is Some,
        r is Ok ==> *r->Ok_0 == *backend->0,
        r is Err ==> r->Err_0@ == (LlmClientErrorView::Configuration {
            message: "model "@ + model@ + " has no backend for "@ + name@,
        }),
        operation == AuxiliaryOperation::AnthropicCountTokens ==> name@ == "AnthropicCountTokens"@,
        operation == AuxiliaryOperation::ResponsesInputTokens ==> name@ == "ResponsesInputTokens"@,
        operation == AuxiliaryOperation::OpenAiChatInputTokens ==> name@
            == "OpenAiChatInputTokens"@,
        operation == AuxiliaryOperation::ResponsesCompact ==> name@ == "ResponsesCompact"@,
{
}

/// A client that spans providers is refused in the name of the first model that does,
/// with the identities of its backends, each run of equal ones once.
pub proof fn spanning_clients_are_explained(
    configs: Vec<ModelConfig>,
    r: Result<TranslatingLlmClient, LlmClientError>,
)
    requires
        call_ensures(TranslatingLlmClient::new, (configs,), r),
        r is Err,
        header_fault(configs@) is None,
    ensures
        exists|i: int|
            0 <= i < configs@.len() && r->Err_0@ == LlmClientErrorView::RequestEncoding(
                "client for model "@ + (#[trigger] configs@[i]).model_name@
                    + " spans multiple provider identities (["@ + listing(
                    identity_runs(backends_of(configs@[i])),
                )
                    + "]); provider-aware fallback requires one provider per [llm_clients.*] client"@,
            ),
{
    let i = choose|i: int| #[trigger]
        first_spanning(configs@, i) && r->Err_0@ == LlmClientErrorView::RequestEncoding(
            several_providers(configs@[i]),
        );
    assert(configs@[i].model_name@ == configs@[i].model_name@);
}

/// Identities and listings grow one by one: an identity is taken where it is not the
/// one before it again, and listed in quotes behind a comma.
pub proof fn identities_are_listed_in_order(
    backends: Seq<Backend>,
    backend: Backend,
    texts: Seq<Seq<char>>,
    text: Seq<char>,
)
    ensures
        identity_runs(backends.push(backend)) == (if backends.len() > 0 && identity_of(
            backends.last(),
        ) == identity_of(backend) {
            identity_runs(backends)
        } else {
            identity_runs(backends).push(identity_of(backend))
        }),
        listing(seq![text]) == text::debug_text(text),
        texts.len() > 0 ==> listing(texts.push(text)) == listing(texts) + ", "@ + text::debug_text(
            text,
        ),
{
    assert(backends.push(backend).drop_last() =~= backends);
    assert(texts.push(text).drop_last() =~= texts);
    if backends.len() > 0 {
        single_run(backends);
    }
}

/// A header that cannot be sent is reported with its name and its model.
pub proof fn bad_headers_are_reported(
    configs: Vec<ModelConfig>,
    header: Option<String>,
    r: Result<TranslatingLlmClient, LlmClientError>,
)
    requires
        call_ensures(TranslatingLlmClient::new, (configs,), r),
        configs@.len() > 0,
        call_ensures(find_bad_header, (&configs@[0].default_backend,), header),
        header is Some,
    ensures
        r is Err,
        r->Err_0@ == (LlmClientErrorView::Configuration {
            message: "invalid extra header "@ + text::debug_text(header->0@) + " for model "@
                + configs@[0].model_name@,
        }),
{
    assert(backends_of(configs@[0])[0] == configs@[0].default_backend);
}

/// A client's provider key is the identity of its last model's default backend.
pub proof fn last_model_identifies_the_client(
    client: TranslatingLlmClient,
    identity: String,
    r: Option<String>,
)
    requires
        call_ensures(TranslatingLlmClient::provider_key, (&client,), r),
        client.model_configs@.len() > 0 ==> call_ensures(
            Backend::provider_identity,
            (&client.model_configs@.last().default_backend,),
            identity,
        ),
    ensures
        r is Some <==> client.model_configs@.len() > 0,
        r is Some ==> r->0@ == identity@,
{
}

/// A reply that is not JSON is an error of its kind, with the parser's own words.
pub proof fn unreadable_replies_are_explained(
    parsed: Result<Json, String>,
    auxiliary: Result<Json, LlmClientError>,
    completion: Result<Json, LlmClientError>,
)
    requires
        call_ensures(parsed_auxiliary_reply, (parsed,), auxiliary),
        call_ensures(parsed_completion_body, (parsed,), completion),
    ensures
        parsed is Ok ==> auxiliary is Ok && auxiliary->Ok_0 == parsed->Ok_0 && completion is Ok
            && completion->Ok_0 == parsed->Ok_0,
        parsed is Err ==> auxiliary is Err && auxiliary->Err_0@ == (
        LlmClientErrorView::InvalidResponse { message: parsed->Err_0@ }),
        parsed is Err ==> completion is Err && completion->Err_0@
            == LlmClientErrorView::ResponseTranslation(
            "invalid upstream JSON: "@ + parsed->Err_0@,
        ),
{
}

/// An auxiliary reply is read whole: a stream is an invalid request, and bytes are
/// what they say as JSON.
pub proof fn auxiliary_replies_never_stream(
    response: EncodedResponse,
    r: Result<Json, LlmClientError>,
)
    requires
        call_ensures(auxiliary_reply, (&response,), r),
    ensures
        response is Streaming ==> r is Err && r->Err_0@ == (LlmClientErrorView::InvalidRequest {
            message: "auxiliary endpoints do not support streaming"@,
        }),
        response is Buffered ==> (r is Ok <==> json_in_bytes(response->body@) is Ok),
        response is Buffered && r is Ok ==> r->Ok_0@ == json_in_bytes(response->body@)->Ok_0,
{
}

/// A count that cannot be read is told apart from one that is missing.
pub proof fn unreadable_counts_are_explained(reply: Json, r: Result<u64, LlmClientError>)
    requires
        call_ensures(input_token_count, (&reply,), r),
        r is Err,
    ensures
        field(reply@, "input_tokens"@) is None ==> r->Err_0@ == (
        LlmClientErrorView::InvalidResponse {
            message: "input_tokens response missing `input_tokens` field"@,
        }),
        field(reply@, "input_tokens"@) is Some ==> r->Err_0@ == (
        LlmClientErrorView::InvalidResponse {
            message: "input_tokens response field is not a non-negative integer"@,
        }),
{
}

} // verus!
