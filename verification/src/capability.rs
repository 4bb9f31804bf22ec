//! Capability-specific routes: typed utility endpoints (embeddings and rerank)
//! that are proxied to one executor each, with their admission contracts.
use vstd::prelude::*;
use crate::text;

verus! {

/// Formats that a capability client speaks with its executor.
#[derive(Clone, Copy, Debug, PartialEq, Eq, Structural)]
pub enum CapabilityClientFormat {
    OpenAiEmbeddings,
    CohereJinaRerank,
}

/// The format that a config spelling names.
pub open spec fn format_called(name: Seq<char>) -> Option<CapabilityClientFormat> {
    if name == "openai_embeddings"@ {
        Some(CapabilityClientFormat::OpenAiEmbeddings)
    } else if name == "cohere_jina_rerank"@ {
        Some(CapabilityClientFormat::CohereJinaRerank)
    } else {
        None
    }
}

impl CapabilityClientFormat {
    /// The format that a config spelling names.
    pub fn from_config(name: &str) -> (r: Option<Self>)
        ensures
            r == format_called(name@),
    {
        if text::str_eq(name, "openai_embeddings") {
            Some(CapabilityClientFormat::OpenAiEmbeddings)
        } else if text::str_eq(name, "cohere_jina_rerank") {
            Some(CapabilityClientFormat::CohereJinaRerank)
        } else {
            None
        }
    }
}

/// Seconds that an executor has to answer, where none are configured.
pub const DEFAULT_CAPABILITY_TIMEOUT_SECONDS: u64 = 30;

/// Declares one capability executor.
#[derive(Debug, PartialEq, Eq)]
pub struct CapabilityClientConfig {
    pub format: CapabilityClientFormat,
    pub base_url: String,
    pub model: String,
    pub api_key_env: Option<String>,
    pub extra_headers: Vec<(String, String)>,
    pub timeout_seconds: u64,
}

/// The largest number of inputs per embedding request, where none is configured.
pub const DEFAULT_MAX_BATCH: usize = 64;

/// The largest number of documents per rerank request, where none is configured.
pub const DEFAULT_MAX_CANDIDATES: usize = 32;

/// How many documents a rerank returns, where neither config nor caller says.
pub const DEFAULT_TOP_N: usize = 5;

/// The largest number of characters per document, where none is configured.
pub const DEFAULT_MAX_DOC_CHARS: usize = 4096;

/// The largest number of characters of a query, where none is configured.
pub const DEFAULT_MAX_QUERY_CHARS: usize = 2048;

/// Capability-specific route semantics.
#[derive(Debug, PartialEq, Eq)]
pub enum CapabilityKind {
    Embedding {
        /// Logical embedding-space contract identity.
        contract: String,
        /// Expected vector dimension.
        dimensions: usize,
        /// Expected normalization.
        normalization: String,
        /// Maximum inputs per request.
        max_batch: usize,
    },
    Rerank {
        /// Maximum documents per request.
        max_candidates: usize,
        /// Default `top_n` when the caller omits it.
        top_n: usize,
        /// Maximum characters per document.
        max_doc_chars: usize,
        /// Maximum characters for the query.
        max_query_chars: usize,
    },
}

/// A capability route as it is written down, before it is told which kind it is.
#[derive(Debug)]
pub struct RawCapabilityRoute {
    pub id: String,
    pub target: String,
    pub contract: Option<String>,
    pub dimensions: Option<usize>,
    pub normalization: Option<String>,
    pub max_batch: Option<usize>,
    pub max_candidates: Option<usize>,
    pub top_n: Option<usize>,
    pub max_doc_chars: Option<usize>,
    pub max_query_chars: Option<usize>,
}

/// Capability-specific route declaration.
#[derive(Debug, PartialEq, Eq)]
pub struct CapabilityRouteConfig {
    /// Route id served to callers.
    pub id: String,
    /// Name of the executor that this route targets.
    pub target: String,
    /// Capability-specific admission contract.
    pub kind: CapabilityKind,
}

/// The value of an option, or a default.
pub open spec fn or_default(value: Option<usize>, default: usize) -> usize {
    match value {
        Some(v) => v,
        None => default,
    }
}

fn or_else(value: Option<usize>, default: usize) -> (r: usize)
    ensures
        r == or_default(value, default),
{
    match value {
        Some(v) => v,
        None => default,
    }
}

impl CapabilityRouteConfig {
    /// Tells which kind a route is by the fields that it gives: `contract` or
    /// `dimensions` make it an embedding route, which needs both; otherwise it is
    /// a rerank route. What is not given has its default.
    ///
    /// # Errors
    ///
    /// An embedding route without `contract` or without `dimensions`.
    pub fn from_raw(raw: RawCapabilityRoute) -> (r: Result<Self, String>)
        ensures
            match r {
                Ok(route) => {
                    &&& route.id == raw.id
                    &&& route.target == raw.target
                    &&& (raw.contract is Some) == (raw.dimensions is Some)
                    &&& match route.kind {
                        CapabilityKind::Embedding {
                            contract,
                            dimensions,
                            normalization,
                            max_batch,
                        } => {
                            &&& raw.contract == Some(contract)
                            &&& raw.dimensions == Some(dimensions)
                            &&& normalization@ == (match raw.normalization {
                                Some(n) => n@,
                                None => "L2"@,
                            })
                            &&& max_batch == or_default(raw.max_batch, DEFAULT_MAX_BATCH)
                        },
                        CapabilityKind::Rerank {
                            max_candidates,
                            top_n,
                            max_doc_chars,
                            max_query_chars,
                        } => {
                            &&& raw.contract is None
                            &&& max_candidates == or_default(
                                raw.max_candidates,
                                DEFAULT_MAX_CANDIDATES,
                            )
                            &&& top_n == or_default(raw.top_n, DEFAULT_TOP_N)
                            &&& max_doc_chars == or_default(
                                raw.max_doc_chars,
                                DEFAULT_MAX_DOC_CHARS,
                            )
                            &&& max_query_chars == or_default(
                                raw.max_query_chars,
                                DEFAULT_MAX_QUERY_CHARS,
                            )
                        },
                    }
                },
                Err(message) => if raw.contract is None {
                    &&& raw.dimensions is Some
                    &&& message@ == "embedding capability requires `contract`"@
                } else {
                    &&& raw.dimensions is None
                    &&& message@ == "embedding capability requires `dimensions`"@
                },
            },
    {
        let kind = match (raw.contract, raw.dimensions) {
            (None, Some(_)) => {
                return Err(text::copy_str("embedding capability requires `contract`"));
            },
            (Some(_), None) => {
                return Err(text::copy_str("embedding capability requires `dimensions`"));
            },
            (Some(contract), Some(dimensions)) => CapabilityKind::Embedding {
                contract,
                dimensions,
                normalization: match raw.normalization {
                    Some(n) => n,
                    None => text::copy_str("L2"),
                },
                max_batch: or_else(raw.max_batch, DEFAULT_MAX_BATCH),
            },
            (None, None) => CapabilityKind::Rerank {
                max_candidates: or_else(raw.max_candidates, DEFAULT_MAX_CANDIDATES),
                top_n: or_else(raw.top_n, DEFAULT_TOP_N),
                max_doc_chars: or_else(raw.max_doc_chars, DEFAULT_MAX_DOC_CHARS),
                max_query_chars: or_else(raw.max_query_chars, DEFAULT_MAX_QUERY_CHARS),
            },
        };
        Ok(CapabilityRouteConfig { id: raw.id, target: raw.target, kind })
    }
}

/// A route is an embedding route where it gives a contract and dimensions, and a
/// rerank route where it gives neither; one without the other is refused. What it
/// gives stands, and what it leaves out has its default.
pub proof fn routes_are_told_by_their_fields(
    raw: RawCapabilityRoute,
    r: Result<CapabilityRouteConfig, String>,
)
    requires
        call_ensures(CapabilityRouteConfig::from_raw, (raw,), r),
    ensures
        r is Ok <==> (raw.contract is Some <==> raw.dimensions is Some),
        r is Ok ==> r->Ok_0.id == raw.id && r->Ok_0.target == raw.target,
        r is Ok ==> (r->Ok_0.kind is Embedding <==> raw.contract is Some),
        r is Ok && raw.contract is Some ==> {
            let kind = r->Ok_0.kind;
            &&& kind->contract == raw.contract->0
            &&& kind->dimensions == raw.dimensions->0
            &&& raw.normalization is Some ==> kind->normalization@ == raw.normalization->0@
            &&& raw.normalization is None ==> kind->normalization@ == "L2"@
            &&& raw.max_batch is Some ==> kind->max_batch == raw.max_batch->0
            &&& raw.max_batch is None ==> kind->max_batch == 64
        },
        r is Ok && raw.contract is None ==> {
            let kind = r->Ok_0.kind;
            &&& raw.max_candidates is Some ==> kind->max_candidates == raw.max_candidates->0
            &&& raw.max_candidates is None ==> kind->max_candidates == 32
            &&& raw.top_n is Some ==> kind->top_n == raw.top_n->0
            &&& raw.top_n is None ==> kind->top_n == 5
            &&& raw.max_doc_chars is Some ==> kind->max_doc_chars == raw.max_doc_chars->0
            &&& raw.max_doc_chars is None ==> kind->max_doc_chars == 4096
            &&& raw.max_query_chars is Some ==> kind->max_query_chars == raw.max_query_chars->0
            &&& raw.max_query_chars is None ==> kind->max_query_chars == 2048
        },
        r is Err && raw.contract is None ==> r->Err_0@
            == "embedding capability requires `contract`"@,
        r is Err && raw.contract is Some ==> r->Err_0@
            == "embedding capability requires `dimensions`"@,
{
}

/// The config spellings of the formats.
pub proof fn formats_are_spelled_verbatim(name: &str, r: Option<CapabilityClientFormat>)
    requires
        call_ensures(CapabilityClientFormat::from_config, (name,), r),
    ensures
        r == Some(CapabilityClientFormat::OpenAiEmbeddings) <==> name@ == "openai_embeddings"@,
        r == Some(CapabilityClientFormat::CohereJinaRerank) <==> name@ == "cohere_jina_rerank"@,
{
    reveal_strlit("openai_embeddings");
    reveal_strlit("cohere_jina_rerank");
    assert("openai_embeddings"@.len() == 17 && "cohere_jina_rerank"@.len() == 18);
}

} // verus!
