//! Upstream attempts: what each outcome means, and whether, and after what
//! delay, the same candidate is tried again.
//!
//! Spans of time are counted in nanoseconds.
use vstd::prelude::*;
use vstd::string::StringExecFns;
use crate::error::{is_permanent_quota_429, permanent_quota, LlmClientError, LlmClientErrorView};
use crate::json::json_in_text;
use crate::text;

verus! {

/// Nanoseconds in a second.
pub const SECOND: u128 = 1_000_000_000;

/// Nanoseconds in a millisecond.
pub const MILLISECOND: u128 = 1_000_000;

/// The delay before the first retry: 250 ms.
pub const INITIAL_RETRY_DELAY: u128 = 250_000_000;

/// The longest delay that backing off reaches: 2 s.
pub const MAX_RETRY_BACKOFF: u128 = 2_000_000_000;

/// The longest delay that an upstream can ask for: 60 s.
pub const MAX_RETRY_AFTER: u128 = 60_000_000_000;

/// Seconds for one attempt to deliver response headers and the first body byte.
pub const UPSTREAM_FIRST_BYTE_TIMEOUT_SECONDS: u64 = 45;

/// The Unix time, in seconds, that `httpdate::parse_http_date` reads from a
/// text; `None` where it reports an error.
pub uninterp spec fn http_date_seconds(text: Seq<char>) -> Option<u64>;

/// Calls `httpdate::parse_http_date`. The claim: which time it reads, if any,
/// depends on the text alone, and `http_date_seconds` names it in seconds after
/// the Unix epoch. The dates that it accepts are whole seconds of the years 1970
/// to 9999.
#[verifier::external_body]
fn parse_http_date(value: &str) -> (r: Option<u64>)
    ensures
        r == http_date_seconds(value@),
{
    let time = httpdate::parse_http_date(value).ok()?;
    let since = time.duration_since(std::time::UNIX_EPOCH).ok()?;
    Some(since.as_secs())
}

/// The smaller of two spans.
pub open spec fn shorter(a: int, b: int) -> int {
    if a <= b {
        a
    } else {
        b
    }
}

/// The delay that a `Retry-After` value asks for at time `now`: a number of
/// seconds, or the time left until a date, of at most the longest delay allowed.
/// `date` is the date that the value writes, if it writes one.
pub open spec fn asked_delay(value: Seq<char>, date: Option<u64>, now: int) -> Option<int> {
    match text::unsigned_of(value) {
        Some(seconds) => Some(shorter(seconds * SECOND, MAX_RETRY_AFTER as int)),
        None => match date {
            Some(at) => Some(
                if at * SECOND <= now {
                    0
                } else {
                    shorter(at * SECOND - now, MAX_RETRY_AFTER as int)
                },
            ),
            None => None,
        },
    }
}

fn cap_delay(delay: u128) -> (r: u128)
    ensures
        r == shorter(delay as int, MAX_RETRY_AFTER as int),
{
    if delay <= MAX_RETRY_AFTER {
        delay
    } else {
        MAX_RETRY_AFTER
    }
}

/// The delay that a `Retry-After` value asks for, given the date that it writes.
pub fn delay_asked(value: &str, date: Option<u64>, now: u128) -> (r: Option<u128>)
    ensures
        match asked_delay(value@, date, now as int) {
            Some(delay) => r is Some && r->0 == delay,
            None => r is None,
        },
{
    match text::parse_unsigned(value) {
        Some(seconds) => Some(cap_delay(seconds as u128 * SECOND)),
        None => match date {
            Some(at) => {
                let at: u128 = at as u128 * SECOND;
                if at <= now {
                    Some(0)
                } else {
                    Some(cap_delay(at - now))
                }
            },
            None => None,
        },
    }
}

/// Uses `Retry-After` when supplied, capped so that an upstream cannot stall a
/// request indefinitely. `now` is the time since the Unix epoch.
pub fn retry_after_delay(retry_after: Option<&str>, now: u128) -> (r: Option<u128>)
    ensures
        match retry_after {
            None => r is None,
            Some(value) => match asked_delay(value@, http_date_seconds(value@), now as int) {
                Some(delay) => r is Some && r->0 == delay,
                None => r is None,
            },
        },
{
    match retry_after {
        None => None,
        Some(value) => {
            let date = parse_http_date(value);
            delay_asked(value, date, now)
        },
    }
}

/// The delay of backing off before retry `retry_number`: 250 ms, doubled with
/// each retry, up to 2 s.
pub open spec fn backoff(retry_number: int) -> int {
    if retry_number <= 0 {
        INITIAL_RETRY_DELAY as int
    } else if retry_number == 1 {
        2 * INITIAL_RETRY_DELAY
    } else if retry_number == 2 {
        4 * INITIAL_RETRY_DELAY
    } else {
        MAX_RETRY_BACKOFF as int
    }
}

/// The delay before retry `retry_number`: what the upstream asked for, else the
/// backoff.
pub fn retry_delay(retry_number: u64, retry_after: Option<u128>) -> (r: u128)
    ensures
        match retry_after {
            Some(delay) => r == delay,
            None => r == backoff(retry_number as int),
        },
{
    match retry_after {
        Some(delay) => delay,
        None => {
            if retry_number == 0 {
                INITIAL_RETRY_DELAY
            } else if retry_number == 1 {
                2 * INITIAL_RETRY_DELAY
            } else if retry_number == 2 {
                4 * INITIAL_RETRY_DELAY
            } else {
                MAX_RETRY_BACKOFF
            }
        },
    }
}

/// Backing off never waits less for a later retry.
pub proof fn backoff_never_shrinks(a: int, b: int)
    requires
        0 <= a <= b,
    ensures
        backoff(a) <= backoff(b),
        INITIAL_RETRY_DELAY <= backoff(a) <= MAX_RETRY_BACKOFF,
{
}

/// Each backoff doubles the one before, until the longest is reached.
pub proof fn backoff_doubles(n: int)
    requires
        0 <= n,
    ensures
        backoff(n + 1) == shorter(2 * backoff(n), MAX_RETRY_BACKOFF as int),
{
}

/// No value of `Retry-After` asks for more than the longest delay allowed.
pub proof fn asked_delay_is_capped(value: Seq<char>, date: Option<u64>, now: int)
    ensures
        asked_delay(value, date, now) is Some ==> 0 <= asked_delay(value, date, now)->0
            <= MAX_RETRY_AFTER,
{
}

/// A span in whole milliseconds, held at the largest 64-bit number.
pub fn duration_millis(duration: u128) -> (r: u64)
    ensures
        r == (if duration / MILLISECOND <= u64::MAX {
            (duration / MILLISECOND) as int
        } else {
            u64::MAX as int
        }),
{
    let millis: u128 = duration / MILLISECOND;
    if millis <= u64::MAX as u128 {
        millis as u64
    } else {
        u64::MAX
    }
}

/// HTTP statuses after which the same request may succeed: request timeout, too
/// many requests, and server errors.
pub open spec fn retryable_status(status: u16) -> bool {
    status == 408 || status == 429 || 500 <= status <= 599
}

/// Whether a failure with this status may go away by itself.
pub fn is_retryable_http_status(status: u16) -> (r: bool)
    ensures
        r == retryable_status(status),
{
    status == 408 || status == 429 || (500 <= status && status <= 599)
}

/// A failed attempt, with what the next step depends on.
#[derive(Debug)]
pub struct AttemptFailure {
    pub error: LlmClientError,
    pub status: Option<u16>,
    /// The delay that the upstream asked for.
    pub retry_after: Option<u128>,
    /// The attempt's liveness deadline elapsed: its whole budget is spent.
    pub deadline_elapsed: bool,
}

/// An error that a retry may fix, given what the body of a 429 says of quotas.
pub open spec fn retryable_error(error: LlmClientErrorView, out_of_quota: bool) -> bool {
    match error {
        LlmClientErrorView::Transport { .. } => true,
        LlmClientErrorView::Timeout { .. } => true,
        LlmClientErrorView::UpstreamHttp { status, .. } => !(status == 429 && out_of_quota)
            && retryable_status(status),
        _ => false,
    }
}

/// The body of an upstream error tells of a permanent quota condition.
pub open spec fn says_out_of_quota(error: LlmClientErrorView) -> bool {
    match error {
        LlmClientErrorView::UpstreamHttp { body, .. } => permanent_quota(json_in_text(body), body),
        _ => false,
    }
}

/// A failure after which the same candidate is worth another attempt.
pub open spec fn worth_retrying(failure: AttemptFailure) -> bool {
    !failure.deadline_elapsed && retryable_error(
        failure.error@,
        says_out_of_quota(failure.error@),
    )
}

impl AttemptFailure {
    /// Whether the failure may be retried, given what its body says of quotas.
    pub fn retryable_given(&self, out_of_quota: bool) -> (r: bool)
        ensures
            r == (!self.deadline_elapsed && retryable_error(self.error@, out_of_quota)),
    {
        if self.deadline_elapsed {
            return false;
        }
        match &self.error {
            LlmClientError::Transport { .. } => true,
            LlmClientError::Timeout { .. } => true,
            LlmClientError::UpstreamHttp { status, .. } => !(*status == 429 && out_of_quota)
                && is_retryable_http_status(*status),
            _ => false,
        }
    }

    /// Whether the same candidate is worth another attempt.
    ///
    /// A 429 that tells of a permanent quota condition is not: the request
    /// advances to the next candidate at once.
    pub fn is_retryable(&self) -> (r: bool)
        ensures
            r == worth_retrying(*self),
    {
        let out_of_quota = match &self.error {
            LlmClientError::UpstreamHttp { body, .. } => is_permanent_quota_429(body.as_str()),
            _ => false,
        };
        self.retryable_given(out_of_quota)
    }
}

/// How the connection to an upstream failed.
#[derive(Debug)]
pub struct TransportFailure {
    /// It took too long.
    pub is_timeout: bool,
    /// The request could not even be built.
    pub is_builder: bool,
    pub message: String,
}

/// The error that a failed connection stands for.
pub open spec fn transport_error(failure: TransportFailure) -> LlmClientErrorView {
    if failure.is_timeout {
        LlmClientErrorView::Timeout { message: failure.message@ }
    } else if failure.is_builder {
        LlmClientErrorView::Configuration {
            message: "failed to build upstream request: "@ + failure.message@,
        }
    } else {
        LlmClientErrorView::Transport { message: failure.message@ }
    }
}

/// The error that a failed connection stands for.
pub fn convert_reqwest_error(failure: TransportFailure) -> (r: LlmClientError)
    ensures
        r@ == transport_error(failure),
{
    if failure.is_timeout {
        LlmClientError::Timeout { message: failure.message }
    } else if failure.is_builder {
        let mut message = text::copy_str("failed to build upstream request: ");
        message.append(failure.message.as_str());
        LlmClientError::Configuration { message }
    } else {
        LlmClientError::Transport { message: failure.message }
    }
}

/// The error of a stream that breaks off: a timeout, or else a transport error.
pub fn stream_error(failure: TransportFailure) -> (r: LlmClientError)
    ensures
        r@ == (if failure.is_timeout {
            LlmClientErrorView::Timeout { message: failure.message@ }
        } else {
            LlmClientErrorView::Transport { message: failure.message@ }
        }),
{
    if failure.is_timeout {
        LlmClientError::Timeout { message: failure.message }
    } else {
        LlmClientError::Transport { message: failure.message }
    }
}

/// What came of sending a request, up to the response headers.
#[derive(Debug)]
pub enum SendOutcome {
    /// Headers arrived.
    Answered { status: u16 },
    /// The connection failed.
    Failed(TransportFailure),
    /// No headers arrived before the attempt's deadline.
    DeadlineElapsed,
}

/// What is to be read of a response.
#[derive(Debug, PartialEq, Eq)]
pub enum Reading {
    /// The first bytes of a streamed body, before the deadline.
    FirstChunk { status: u16 },
    /// The whole body.
    Body { status: u16 },
    /// The text of an error.
    ErrorText { status: u16 },
}

/// What came of reading the first bytes of a streamed body.
#[derive(Debug)]
pub enum ChunkOutcome {
    Bytes(Vec<u8>),
    Failed(TransportFailure),
    /// The stream ended without a byte.
    Closed,
    /// No byte arrived before the attempt's deadline.
    DeadlineElapsed,
}

/// A successful upstream response.
#[derive(Debug, PartialEq, Eq)]
pub enum EncodedResponse {
    /// The whole body.
    Buffered { status: u16, body: Vec<u8> },
    /// A stream whose first bytes have arrived; the rest follows.
    Streaming { status: u16, first_chunk: Vec<u8> },
}

impl EncodedResponse {
    /// The response's status.
    pub fn status(&self) -> (r: u16)
        ensures
            r == (match *self {
                EncodedResponse::Buffered { status, .. } => status,
                EncodedResponse::Streaming { status, .. } => status,
            }),
    {
        match self {
            EncodedResponse::Buffered { status, .. } => *status,
            EncodedResponse::Streaming { status, .. } => *status,
        }
    }
}

/// A status of the success class.
pub open spec fn success(status: u16) -> bool {
    200 <= status <= 299
}

/// A failed attempt of the given error, status, requested delay and deadline.
pub open spec fn fails_as(
    failure: AttemptFailure,
    error: LlmClientErrorView,
    status: Option<u16>,
    retry_after: Option<u128>,
    deadline_elapsed: bool,
) -> bool {
    &&& failure.error@ == error
    &&& failure.status == status
    &&& failure.retry_after == retry_after
    &&& failure.deadline_elapsed == deadline_elapsed
}

/// The text of the timeout where no headers arrived.
pub open spec fn headers_overdue() -> Seq<char> {
    "upstream did not deliver response headers within "@ + text::decimal(
        UPSTREAM_FIRST_BYTE_TIMEOUT_SECONDS as nat,
    ) + "s"@
}

/// The text of the timeout where no body byte arrived.
pub open spec fn body_overdue() -> Seq<char> {
    "upstream sent no body bytes within "@ + text::decimal(
        UPSTREAM_FIRST_BYTE_TIMEOUT_SECONDS as nat,
    ) + "s of the attempt deadline"@
}

/// The step after sending: what is to be read, or how the attempt failed.
pub fn after_send(outcome: SendOutcome, streaming: bool) -> (r: Result<Reading, AttemptFailure>)
    ensures
        match outcome {
            SendOutcome::Answered { status } => r is Ok && r->Ok_0 == (if !success(status) {
                Reading::ErrorText { status }
            } else if streaming {
                Reading::FirstChunk { status }
            } else {
                Reading::Body { status }
            }),
            SendOutcome::Failed(failure) => r is Err && fails_as(
                r->Err_0,
                transport_error(failure),
                None,
                None,
                false,
            ),
            SendOutcome::DeadlineElapsed => r is Err && fails_as(
                r->Err_0,
                LlmClientErrorView::Timeout { message: headers_overdue() },
                None,
                None,
                true,
            ),
        },
{
    match outcome {
        SendOutcome::Answered { status } => {
            if !(200 <= status && status <= 299) {
                Ok(Reading::ErrorText { status })
            } else if streaming {
                Ok(Reading::FirstChunk { status })
            } else {
                Ok(Reading::Body { status })
            }
        },
        SendOutcome::Failed(failure) => Err(
            AttemptFailure {
                error: convert_reqwest_error(failure),
                status: None,
                retry_after: None,
                deadline_elapsed: false,
            },
        ),
        SendOutcome::DeadlineElapsed => {
            let mut message = text::copy_str("upstream did not deliver response headers within ");
            text::push_decimal(&mut message, UPSTREAM_FIRST_BYTE_TIMEOUT_SECONDS);
            message.append("s");
            Err(
                AttemptFailure {
                    error: LlmClientError::Timeout { message },
                    status: None,
                    retry_after: None,
                    deadline_elapsed: true,
                },
            )
        },
    }
}

/// The step after the first bytes of a stream: a candidate counts only once it
/// has delivered a byte.
pub fn after_first_chunk(status: u16, outcome: ChunkOutcome) -> (r: Result<
    EncodedResponse,
    AttemptFailure,
>)
    ensures
        match outcome {
            ChunkOutcome::Bytes(bytes) => r is Ok && r->Ok_0 == (EncodedResponse::Streaming {
                status,
                first_chunk: bytes,
            }),
            ChunkOutcome::Failed(failure) => r is Err && fails_as(
                r->Err_0,
                transport_error(failure),
                Some(status),
                None,
                false,
            ),
            ChunkOutcome::Closed => r is Err && fails_as(
                r->Err_0,
                LlmClientErrorView::Transport {
                    message: "upstream closed the stream before sending any body bytes"@,
                },
                Some(status),
                None,
                false,
            ),
            ChunkOutcome::DeadlineElapsed => r is Err && fails_as(
                r->Err_0,
                LlmClientErrorView::Timeout { message: body_overdue() },
                Some(status),
                None,
                true,
            ),
        },
{
    match outcome {
        ChunkOutcome::Bytes(bytes) => Ok(
            EncodedResponse::Streaming { status, first_chunk: bytes },
        ),
        ChunkOutcome::Failed(failure) => Err(
            AttemptFailure {
                error: convert_reqwest_error(failure),
                status: Some(status),
                retry_after: None,
                deadline_elapsed: false,
            },
        ),
        ChunkOutcome::Closed => Err(
            AttemptFailure {
                error: LlmClientError::Transport {
                    message: text::copy_str(
                        "upstream closed the stream before sending any body bytes",
                    ),
                },
                status: Some(status),
                retry_after: None,
                deadline_elapsed: false,
            },
        ),
        ChunkOutcome::DeadlineElapsed => {
            let mut message = text::copy_str("upstream sent no body bytes within ");
            text::push_decimal(&mut message, UPSTREAM_FIRST_BYTE_TIMEOUT_SECONDS);
            message.append("s of the attempt deadline");
            Err(
                AttemptFailure {
                    error: LlmClientError::Timeout { message },
                    status: Some(status),
                    retry_after: None,
                    deadline_elapsed: true,
                },
            )
        },
    }
}

/// The step after a buffered body.
pub fn after_body(status: u16, outcome: Result<Vec<u8>, TransportFailure>) -> (r: Result<
    EncodedResponse,
    AttemptFailure,
>)
    ensures
        match outcome {
            Ok(body) => r is Ok && r->Ok_0 == (EncodedResponse::Buffered { status, body }),
            Err(failure) => r is Err && fails_as(
                r->Err_0,
                transport_error(failure),
                Some(status),
                None,
                false,
            ),
        },
{
    match outcome {
        Ok(body) => Ok(EncodedResponse::Buffered { status, body }),
        Err(failure) => Err(
            AttemptFailure {
                error: convert_reqwest_error(failure),
                status: Some(status),
                retry_after: None,
                deadline_elapsed: false,
            },
        ),
    }
}

/// The error that an upstream's error response stands for: a 400 whose body the
/// backend's rules call a context overflow is one.
pub open spec fn upstream_error(
    status: u16,
    body: Seq<char>,
    overflow: bool,
    model: Seq<char>,
) -> LlmClientErrorView {
    if status == 400 && overflow {
        LlmClientErrorView::ContextWindowExceeded { model, message: body }
    } else {
        LlmClientErrorView::UpstreamHttp { status, body }
    }
}

/// The step after the text of an error response. `overflow` says whether the
/// backend's rules call the text a context overflow.
pub fn after_error_text(
    status: u16,
    retry_after: Option<u128>,
    outcome: Result<String, TransportFailure>,
    overflow: bool,
    model: &str,
) -> (r: AttemptFailure)
    ensures
        match outcome {
            Ok(body) => fails_as(
                r,
                upstream_error(status, body@, overflow, model@),
                Some(status),
                retry_after,
                false,
            ),
            Err(failure) => fails_as(
                r,
                transport_error(failure),
                Some(status),
                retry_after,
                false,
            ),
        },
{
    let error = match outcome {
        Ok(body) => {
            if status == 400 && overflow {
                LlmClientError::ContextWindowExceeded {
                    model: text::copy_str(model),
                    message: body,
                }
            } else {
                LlmClientError::UpstreamHttp { status, body }
            }
        },
        Err(failure) => convert_reqwest_error(failure),
    };
    AttemptFailure { error, status: Some(status), retry_after, deadline_elapsed: false }
}

/// The retries of one request: how many have been made, of how many.
#[derive(Debug, PartialEq, Eq)]
pub struct RetryLoop {
    pub attempt: u64,
    pub max_retries: u64,
}

/// What follows a failed attempt.
#[derive(Debug, PartialEq, Eq)]
pub enum RetryStep {
    /// The request fails with this error.
    GiveUp(LlmClientError),
    /// The same candidate is tried again after this delay.
    Wait { delay: u128 },
}

impl RetryLoop {
    /// No more retries are made than are allowed.
    pub open spec fn wf(self) -> bool {
        self.attempt <= self.max_retries
    }

    /// Before the first attempt.
    pub fn new(max_retries: u32) -> (r: Self)
        ensures
            r.wf(),
            r.attempt == 0,
            r.max_retries == max_retries,
    {
        RetryLoop { attempt: 0, max_retries: max_retries as u64 }
    }

    /// Whether a failed attempt is followed by another.
    pub open spec fn retries(self, failure: AttemptFailure) -> bool {
        self.attempt < self.max_retries && worth_retrying(failure)
    }

    /// The step after a failed attempt: another one, within the budget and where
    /// the failure is worth it, or the failure's error.
    pub fn on_failure(&mut self, failure: AttemptFailure) -> (r: RetryStep)
        requires
            old(self).wf(),
        ensures
            final(self).wf(),
            final(self).max_retries == old(self).max_retries,
            if old(self).retries(failure) {
                &&& final(self).attempt == old(self).attempt + 1
                &&& r is Wait
                &&& r->delay == (match failure.retry_after {
                    Some(delay) => delay as int,
                    None => backoff(old(self).attempt as int),
                })
            } else {
                &&& final(self).attempt == old(self).attempt
                &&& r == RetryStep::GiveUp(failure.error)
            },
    {
        if self.attempt < self.max_retries && failure.is_retryable() {
            let delay: u128 = retry_delay(self.attempt, failure.retry_after);
            self.attempt = self.attempt + 1;
            RetryStep::Wait { delay }
        } else {
            RetryStep::GiveUp(failure.error)
        }
    }
}

/// The number of attempts made while every one of `failures` fails in turn,
/// starting with `attempt` retries behind.
pub open spec fn attempts_made(
    attempt: nat,
    max_retries: nat,
    failures: Seq<AttemptFailure>,
) -> nat
    decreases failures.len(),
{
    if failures.len() == 0 {
        0
    } else if attempt < max_retries && worth_retrying(failures[0]) {
        1 + attempts_made(attempt + 1, max_retries, failures.drop_first())
    } else {
        1
    }
}

/// However an upstream fails, a request makes at most one attempt more than the
/// retries allowed.
pub proof fn attempts_are_bounded(attempt: nat, max_retries: nat, failures: Seq<AttemptFailure>)
    requires
        attempt <= max_retries,
    ensures
        attempts_made(attempt, max_retries, failures) <= max_retries - attempt + 1,
    decreases failures.len(),
{
    if failures.len() > 0 && attempt < max_retries && worth_retrying(failures[0]) {
        attempts_are_bounded(attempt + 1, max_retries, failures.drop_first());
    }
}

/// Once the liveness deadline has elapsed the same candidate is not tried again.
pub proof fn elapsed_deadline_fails_over(failure: AttemptFailure)
    requires
        failure.deadline_elapsed,
    ensures
        !worth_retrying(failure),
{
}

/// A context overflow is never retried on the same candidate.
pub proof fn overflow_is_not_retried(
    failure: AttemptFailure,
    body: Seq<char>,
    model: Seq<char>,
)
    requires
        failure.error@ == upstream_error(400, body, true, model),
    ensures
        !worth_retrying(failure),
{
}

/// Backing off starts at a quarter of a second and doubles up to two seconds; a
/// delay that the upstream asked for takes its place.
pub proof fn backoff_doubles_from_a_quarter_second(n: u64, asked: Option<u128>, a: u128, b: u128)
    requires
        n < u64::MAX,
        call_ensures(retry_delay, (n, asked), a),
        call_ensures(retry_delay, ((n + 1) as u64, asked), b),
    ensures
        asked is Some ==> a == asked->0 && b == asked->0,
        asked is None && n == 0 ==> a == 250_000_000,
        asked is None ==> b == (if 2 * a <= 2_000_000_000 {
            2 * a
        } else {
            2_000_000_000
        }),
{
}

/// What a `Retry-After` value asks for: its number of seconds, else the time left
/// until its date, or none where that is past; and never more than a minute.
pub proof fn asked_delay_in_plain_terms(value: &str, date: Option<u64>, now: u128, r: Option<u128>)
    requires
        call_ensures(delay_asked, (value, date, now), r),
    ensures
        match text::unsigned_of(value@) {
            Some(seconds) => r is Some && r->0 == (if seconds <= 60 {
                seconds * 1_000_000_000
            } else {
                60_000_000_000
            }),
            None => match date {
                Some(at) => r is Some && r->0 == (if at * 1_000_000_000 <= now {
                    0
                } else if at * 1_000_000_000 - now <= 60_000_000_000 {
                    at * 1_000_000_000 - now
                } else {
                    60_000_000_000
                }),
                None => r is None,
            },
        },
{
}

/// Milliseconds are counted whole: what is left over is less than one.
pub proof fn milliseconds_are_whole(duration: u128, millis: u64)
    requires
        call_ensures(duration_millis, (duration,), millis),
    ensures
        millis * 1_000_000 <= duration,
        millis < u64::MAX ==> duration < (millis + 1) * 1_000_000,
{
}

/// Of the statuses a request timeout, too many requests and the server errors may
/// go away by themselves, and no others.
pub proof fn statuses_that_pass(status: u16, r: bool)
    requires
        call_ensures(is_retryable_http_status, (status,), r),
    ensures
        r <==> status == 408 || status == 429 || (status >= 500 && status < 600),
{
}

/// What is worth another attempt on the same candidate. Nothing is once the deadline
/// has elapsed. Else a failed connection and a timeout are; an upstream error is by
/// its status, but a 429 only where its body does not tell of a quota that is used up;
/// and nothing else is.
pub proof fn failures_worth_another_attempt(
    failure: AttemptFailure,
    retryable: bool,
    body: &str,
    out_of_quota: bool,
)
    requires
        call_ensures(AttemptFailure::is_retryable, (&failure,), retryable),
        call_ensures(is_permanent_quota_429, (body,), out_of_quota),
        failure.error is UpstreamHttp ==> body@ == failure.error->UpstreamHttp_body@,
    ensures
        failure.deadline_elapsed ==> !retryable,
        !failure.deadline_elapsed ==> retryable == (match failure.error {
            LlmClientError::Transport { .. } => true,
            LlmClientError::Timeout { .. } => true,
            LlmClientError::UpstreamHttp { status, .. } => status == 408 || (status == 429
                && !out_of_quota) || (status >= 500 && status < 600),
            _ => false,
        }),
{
}

/// The step after a failure: within the budget and where it is worth it the same
/// candidate is tried again, one retry is spent, and the wait is what the upstream
/// asked for; else the failure's own error is the answer, and nothing is spent.
pub proof fn budget_and_failure_decide(retries: RetryLoop, failure: AttemptFailure, worth: bool)
    requires
        call_ensures(AttemptFailure::is_retryable, (&failure,), worth),
    ensures
        retries.retries(failure) <==> retries.attempt < retries.max_retries && worth,
{
}

/// What sending a request leads to: an answer of the success class is read, by its
/// first bytes where it streams and else whole; any other answer is read as an
/// error. A failed connection or a missed deadline fails the attempt, of which only
/// the deadline is final.
pub proof fn answers_are_read_by_class(
    outcome: SendOutcome,
    streaming: bool,
    r: Result<Reading, AttemptFailure>,
)
    requires
        call_ensures(after_send, (outcome, streaming), r),
    ensures
        match outcome {
            SendOutcome::Answered { status } => {
                &&& r is Ok
                &&& r->Ok_0 == (Reading::ErrorText { status }) <==> status < 200 || status >= 300
                &&& r->Ok_0 == (Reading::FirstChunk { status }) <==> 200 <= status < 300
                    && streaming
                &&& r->Ok_0 == (Reading::Body { status }) <==> 200 <= status < 300 && !streaming
            },
            SendOutcome::Failed(failure) => r is Err && !r->Err_0.deadline_elapsed
                && r->Err_0.retry_after is None && r->Err_0.status is None,
            SendOutcome::DeadlineElapsed => r is Err && r->Err_0.deadline_elapsed
                && r->Err_0.error is Timeout && r->Err_0.retry_after is None
                && r->Err_0.status is None,
        },
{
}

/// A failed connection is a timeout where it took too long, else a configuration
/// error where the request could not be built, else a transport error.
pub proof fn connections_fail_as_they_failed(failure: TransportFailure, r: LlmClientError)
    requires
        call_ensures(convert_reqwest_error, (failure,), r),
    ensures
        r is Timeout <==> failure.is_timeout,
        r is Configuration <==> !failure.is_timeout && failure.is_builder,
        r is Transport <==> !failure.is_timeout && !failure.is_builder,
        r is Timeout ==> r->Timeout_message@ == failure.message@,
        r is Transport ==> r->Transport_message@ == failure.message@,
        r is Configuration ==> r->Configuration_message@ == "failed to build upstream request: "@
            + failure.message@,
{
}

/// A stream that breaks off is a timeout or a transport error.
pub proof fn streams_break_off_as_they_broke(failure: TransportFailure, r: LlmClientError)
    requires
        call_ensures(stream_error, (failure,), r),
    ensures
        r is Timeout <==> failure.is_timeout,
        r is Transport <==> !failure.is_timeout,
        r is Timeout ==> r->Timeout_message@ == failure.message@,
        r is Transport ==> r->Transport_message@ == failure.message@,
{
}

/// A streamed candidate counts once a byte has arrived: then the reply streams on
/// from it. Without one the attempt fails, and only a missed deadline is final.
pub proof fn streams_count_from_their_first_byte(
    status: u16,
    outcome: ChunkOutcome,
    r: Result<EncodedResponse, AttemptFailure>,
)
    requires
        call_ensures(after_first_chunk, (status, outcome), r),
    ensures
        r is Ok <==> outcome is Bytes,
        outcome matches ChunkOutcome::Bytes(bytes) ==> r->Ok_0 == (EncodedResponse::Streaming {
            status,
            first_chunk: bytes,
        }),
        r is Err ==> r->Err_0.status == Some(status) && (r->Err_0.deadline_elapsed
            <==> outcome is DeadlineElapsed),
        outcome is DeadlineElapsed ==> r->Err_0.error is Timeout,
        outcome is Closed ==> r->Err_0.error is Transport,
{
}

/// A whole body is the reply as it came.
pub proof fn bodies_are_handed_on(
    status: u16,
    outcome: Result<Vec<u8>, TransportFailure>,
    r: Result<EncodedResponse, AttemptFailure>,
)
    requires
        call_ensures(after_body, (status, outcome), r),
    ensures
        r is Ok <==> outcome is Ok,
        outcome is Ok ==> r->Ok_0 == (EncodedResponse::Buffered { status, body: outcome->Ok_0 }),
        outcome is Err ==> r->Err_0.status == Some(status) && !r->Err_0.deadline_elapsed,
{
}

/// An upstream's error is a context overflow where its status is 400 and the
/// backend's rules call its text one, and the upstream's own error otherwise, with
/// its status and its text; the delay that it asked for is kept.
pub proof fn upstream_errors_keep_their_text(
    status: u16,
    retry_after: Option<u128>,
    body: String,
    overflow: bool,
    model: &str,
    r: AttemptFailure,
)
    requires
        call_ensures(
            after_error_text,
            (status, retry_after, Ok::<String, TransportFailure>(body), overflow, model),
            r,
        ),
    ensures
        r.status == Some(status),
        r.retry_after == retry_after,
        !r.deadline_elapsed,
        status == 400 && overflow ==> r.error is ContextWindowExceeded
            && r.error->ContextWindowExceeded_model@ == model@
            && r.error->ContextWindowExceeded_message@ == body@,
        !(status == 400 && overflow) ==> r.error is UpstreamHttp && r.error->UpstreamHttp_status
            == status && r.error->UpstreamHttp_body@ == body@,
{
}

/// What follows a failed attempt. Within the budget, and where the failure is worth
/// it, the same candidate is tried again, one retry is spent, and the wait is what
/// the upstream asked for, or else the backoff of that retry. Otherwise the answer is
/// the failure's own error, and nothing is spent.
pub proof fn failed_attempts_are_followed_up(
    retries: &mut RetryLoop,
    failure: AttemptFailure,
    worth: bool,
    wait: u128,
    r: RetryStep,
)
    requires
        call_ensures(RetryLoop::on_failure, (retries, failure), r),
        call_ensures(AttemptFailure::is_retryable, (&failure,), worth),
        call_ensures(retry_delay, (old(retries).attempt, failure.retry_after), wait),
    ensures
        final(retries).max_retries == old(retries).max_retries,
        old(retries).attempt < old(retries).max_retries && worth ==> r == (RetryStep::Wait {
            delay: wait,
        }) && final(retries).attempt == old(retries).attempt + 1,
        !(old(retries).attempt < old(retries).max_retries && worth) ==> r == RetryStep::GiveUp(
            failure.error,
        ) && final(retries).attempt == old(retries).attempt,
{
}

/// A missed deadline is told with the seconds that it allows.
pub proof fn missed_deadlines_are_told(
    streaming: bool,
    status: u16,
    a: Result<Reading, AttemptFailure>,
    b: Result<EncodedResponse, AttemptFailure>,
)
    requires
        call_ensures(after_send, (SendOutcome::DeadlineElapsed, streaming), a),
        call_ensures(after_first_chunk, (status, ChunkOutcome::DeadlineElapsed), b),
    ensures
        a is Err && a->Err_0.error is Timeout,
        a->Err_0.error->Timeout_message@ == "upstream did not deliver response headers within "@
            + text::decimal(45) + "s"@,
        b is Err && b->Err_0.error is Timeout,
        b->Err_0.error->Timeout_message@ == "upstream sent no body bytes within "@ + text::decimal(
            45,
        ) + "s of the attempt deadline"@,
{
}

} // verus!
