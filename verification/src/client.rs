//! The JSON-RPC client as a state machine.
//!
//! A request is a sequence of attempts. [`JsonRpcProviderClient::begin_request`]
//! allocates an id, counts the request as in flight and yields the first
//! body to post; for each attempt's outcome,
//! [`JsonRpcProviderClient::process_attempt`] either finishes the request —
//! taking it out of flight — or asks the caller to wait and post the next
//! body. The caller owns the transport and the clock; every decision in
//! between is made here.

use vstd::prelude::*;
use vstd::string::StringSliceAdditionalSpecFns;
use crate::errors::{ErrV, HttpRequestError, JsonRpcProviderClientError, RetryAction, errv, herrv};
use crate::json::{JsonValue, JsonV};
use crate::retry::{SimpleJsonRpcRetryPolicy, spec_retry_action};
use crate::rpc::{RespV, ResponseKind, build_request, classify_response, clone_bytes, clone_json,
    spec_classify, spec_request_body};

verus! {

/// A JSON-RPC client: an id counter, an in-flight counter, the endpoint
/// URL and a retry policy. The transport that posts the bodies lives with
/// the caller.
pub struct JsonRpcProviderClient {
    /// The id the next attempt will use; starts at 1, never reused.
    pub id: u64,
    /// How many requests are in flight, including those sleeping between
    /// retries.
    pub requests_enqueued: u32,
    /// The endpoint URL, as bytes.
    pub url: Vec<u8>,
    /// The retry policy consulted after each failed attempt.
    pub retry_policy: SimpleJsonRpcRetryPolicy,
}

/// One request in flight: what to resend and how often it has failed.
pub struct PendingRequest {
    /// The method name, as bytes.
    pub method: Vec<u8>,
    /// The params value, absent when the caller expects a zero-sized
    /// result.
    pub params: Option<JsonValue>,
    /// Attempts failed so far.
    pub num_retries: u32,
}

/// What one attempt came back with.
#[derive(Debug)]
pub enum AttemptOutcome {
    /// The transport delivered a response body.
    Response(Vec<u8>),
    /// The transport itself failed.
    Transport(HttpRequestError),
}

/// What to do after an attempt.
#[derive(Debug)]
pub enum RequestStep {
    /// The request is finished: the raw `result` rendering, or the
    /// terminal error.
    Done(Result<Vec<u8>, JsonRpcProviderClientError>),
    /// Wait `delay_ms`, then post `next_body`.
    Retry { delay_ms: u64, next_body: Vec<u8> },
}

// ---------------------------------------------------------------------------
// Specification of the machine
// ---------------------------------------------------------------------------

/// The numeric state of one request: the client counters and the pending
/// request.
pub struct MachineV {
    pub id: int,
    pub enq: int,
    pub retries: int,
    pub method: Seq<u8>,
    pub params: Option<JsonV>,
}

/// The abstract content of an outcome.
pub open spec fn outv(o: AttemptOutcome) -> OutV {
    match o {
        AttemptOutcome::Response(b) => OutV::Response(b@),
        AttemptOutcome::Transport(e) => OutV::Transport(herrv(e)),
    }
}

/// The abstract content of an attempt outcome.
pub enum OutV {
    Response(Seq<u8>),
    Transport(crate::errors::HttpErrV),
}

/// What one step does.
pub enum StepV {
    Succeed { result: Seq<u8>, st: MachineV },
    Fail { err: ErrV, st: MachineV },
    Sleep { delay: u64, body: Seq<u8>, st: MachineV },
}

/// The params of the pending request, abstractly.
pub open spec fn opt_deep(p: Option<JsonValue>) -> Option<JsonV> {
    match p {
        Some(v) => Some(v.deep()),
        None => None,
    }
}

/// The machine state of a client and a pending request.
pub open spec fn mv(c: JsonRpcProviderClient, pd: PendingRequest) -> MachineV {
    MachineV {
        id: c.id as int,
        enq: c.requests_enqueued as int,
        retries: pd.num_retries as int,
        method: pd.method@,
        params: opt_deep(pd.params),
    }
}

/// The error an attempt failed with, given its outcome classification.
pub open spec fn errv_of_response(b: Seq<u8>) -> ErrV {
    match spec_classify(b) {
        RespV::Failure { code, message, data } => ErrV::Rpc { code, message, data },
        _ => ErrV::Serde(b),
    }
}

/// How the machine reacts to a failed attempt: count the failure, consult
/// the policy, then either stop or allocate the next id and body.
pub open spec fn spec_fail_step(p: SimpleJsonRpcRetryPolicy, st: MachineV, e: ErrV) -> StepV {
    let r = st.retries + 1;
    match spec_retry_action(p, e, r, st.enq) {
        RetryAction::NoRetry => StepV::Fail {
            err: e,
            st: MachineV { enq: st.enq - 1, retries: r, ..st },
        },
        RetryAction::RetryAfter(d) => StepV::Sleep {
            delay: d,
            body: spec_request_body(st.id as u64, st.method, st.params),
            st: MachineV { id: st.id + 1, retries: r, ..st },
        },
    }
}

/// How the machine reacts to one attempt outcome.
pub open spec fn spec_step(p: SimpleJsonRpcRetryPolicy, st: MachineV, o: OutV) -> StepV {
    match o {
        OutV::Response(b) => match spec_classify(b) {
            RespV::Success { id, result } => StepV::Succeed {
                result,
                st: MachineV { enq: st.enq - 1, ..st },
            },
            _ => spec_fail_step(p, st, errv_of_response(b)),
        },
        OutV::Transport(e) => spec_fail_step(p, st, ErrV::Backend(e)),
    }
}

// ---------------------------------------------------------------------------
// The executable machine
// ---------------------------------------------------------------------------

impl JsonRpcProviderClient {
    /// Creates a client for the given endpoint: ids start at 1, nothing is
    /// in flight.
    pub fn new(base_url: &str, retry_policy: SimpleJsonRpcRetryPolicy) -> (c: Self)
        ensures
            c.id == 1,
            c.requests_enqueued == 0,
            c.url@ == base_url.spec_bytes(),
            c.retry_policy == retry_policy,
    {
        JsonRpcProviderClient {
            id: 1,
            requests_enqueued: 0,
            url: copy_slice(base_url.as_bytes()),
            retry_policy,
        }
    }

    /// How many requests are in flight, including those sleeping between
    /// retries.
    pub fn requests_enqueued(&self) -> (n: u32)
        ensures
            n == self.requests_enqueued,
    {
        self.requests_enqueued
    }

    /// Starts a request: counts it as in flight, allocates its first id
    /// and builds the first body to post.
    pub fn begin_request(&mut self, method: &Vec<u8>, params: Option<&JsonValue>) -> (r: (
        PendingRequest,
        Vec<u8>,
    ))
        requires
            old(self).id < u64::MAX,
            old(self).requests_enqueued < u32::MAX,
        ensures
            final(self).id == old(self).id + 1,
            final(self).requests_enqueued == old(self).requests_enqueued + 1,
            final(self).url@ == old(self).url@,
            final(self).retry_policy == old(self).retry_policy,
            r.0.method@ == method@,
            opt_deep(r.0.params) == (match params {
                Some(p) => Some(p.deep()),
                None => None::<JsonV>,
            }),
            r.0.num_retries == 0,
            r.1@ == spec_request_body(
                old(self).id,
                method@,
                match params {
                    Some(p) => Some(p.deep()),
                    None => None::<JsonV>,
                },
            ),
    {
        let body = build_request(self.id, method, params);
        self.id = self.id + 1;
        self.requests_enqueued = self.requests_enqueued + 1;
        let pending = PendingRequest {
            method: clone_bytes(method),
            params: match params {
                Some(p) => Some(clone_json(p)),
                None => None,
            },
            num_retries: 0,
        };
        (pending, body)
    }

    /// Feeds one attempt's outcome to the machine. On success or a
    /// terminal error the request leaves the in-flight count and the
    /// result is final; otherwise the caller must wait the returned delay
    /// and post the next body.
    pub fn process_attempt(&mut self, pending: &mut PendingRequest, outcome: AttemptOutcome) -> (r:
        RequestStep)
        requires
            old(self).requests_enqueued >= 1,
            old(self).id < u64::MAX,
            old(pending).num_retries < u32::MAX,
        ensures
            final(self).url@ == old(self).url@,
            final(self).retry_policy == old(self).retry_policy,
            final(pending).method@ == old(pending).method@,
            opt_deep(final(pending).params) == opt_deep(old(pending).params),
            match r {
                RequestStep::Done(res) => match res {
                    Ok(result) => spec_step(
                        old(self).retry_policy,
                        mv(*old(self), *old(pending)),
                        outv(outcome),
                    ) == (StepV::Succeed { result: result@, st: mv(*final(self), *final(pending)) }),
                    Err(e) => spec_step(
                        old(self).retry_policy,
                        mv(*old(self), *old(pending)),
                        outv(outcome),
                    ) == (StepV::Fail { err: errv(e), st: mv(*final(self), *final(pending)) }),
                },
                RequestStep::Retry { delay_ms, next_body } => spec_step(
                    old(self).retry_policy,
                    mv(*old(self), *old(pending)),
                    outv(outcome),
                ) == (StepV::Sleep {
                    delay: delay_ms,
                    body: next_body@,
                    st: mv(*final(self), *final(pending)),
                }),
            },
    {
        let err: JsonRpcProviderClientError = match outcome {
            AttemptOutcome::Response(body) => {
                match classify_response(&body) {
                    ResponseKind::Success { id: _, result } => {
                        self.requests_enqueued = self.requests_enqueued - 1;
                        return RequestStep::Done(Ok(result));
                    },
                    ResponseKind::Failure { error } => JsonRpcProviderClientError::JsonRpcError(
                        error,
                    ),
                    ResponseKind::Invalid => JsonRpcProviderClientError::SerdeJson { text: body },
                }
            },
            AttemptOutcome::Transport(e) => JsonRpcProviderClientError::BackendError(e),
        };
        pending.num_retries = pending.num_retries + 1;
        let action = self.retry_policy.is_retryable_error(
            &err,
            pending.num_retries,
            self.requests_enqueued,
        );
        match action {
            RetryAction::NoRetry => {
                self.requests_enqueued = self.requests_enqueued - 1;
                RequestStep::Done(Err(err))
            },
            RetryAction::RetryAfter(delay_ms) => {
                let next_body = build_request(self.id, &pending.method, pending.params.as_ref());
                self.id = self.id + 1;
                RequestStep::Retry { delay_ms, next_body }
            },
        }
    }
}

impl JsonRpcProviderClient {
    /// Takes a request out of the in-flight count without a terminal
    /// step, for a caller that can no longer drive it; the pending
    /// request is consumed.
    pub fn abandon_request(&mut self, pending: PendingRequest)
        requires
            old(self).requests_enqueued >= 1,
        ensures
            *final(self) == (JsonRpcProviderClient {
                requests_enqueued: (old(self).requests_enqueued - 1) as u32,
                ..*old(self)
            }),
    {
        let _ = pending;
        self.requests_enqueued = self.requests_enqueued - 1;
    }
}

impl Clone for JsonRpcProviderClient {
    /// A clone is a fresh logical client for the same endpoint and policy:
    /// its ids restart at 1 and nothing is in flight.
    fn clone(&self) -> (c: Self)
        ensures
            c.id == 1,
            c.requests_enqueued == 0,
            c.url@ == self.url@,
            policy_like(c.retry_policy, self.retry_policy),
    {
        JsonRpcProviderClient {
            id: 1,
            requests_enqueued: 0,
            url: clone_bytes(&self.url),
            retry_policy: clone_policy(&self.retry_policy),
        }
    }
}

/// Copies a byte slice into a fresh vector.
fn copy_slice(s: &[u8]) -> (v: Vec<u8>)
    ensures
        v@ == s@,
{
    let mut v: Vec<u8> = Vec::new();
    let mut k: usize = 0;
    while k < s.len()
        invariant
            k <= s@.len(),
            v@ == s@.subrange(0, k as int),
        decreases s@.len() - k,
    {
        v.push(s[k]);
        proof {
            assert(v@ =~= s@.subrange(0, k + 1));
        }
        k = k + 1;
    }
    proof {
        assert(v@ =~= s@);
    }
    v
}

/// Two policies that decide alike: equal in every field, with lists equal
/// as sequences.
pub open spec fn policy_like(a: SimpleJsonRpcRetryPolicy, b: SimpleJsonRpcRetryPolicy) -> bool {
    &&& a.min_retries == b.min_retries
    &&& a.max_retries == b.max_retries
    &&& a.initial_backoff_ms == b.initial_backoff_ms
    &&& a.backoff_coefficient_permille == b.backoff_coefficient_permille
    &&& a.max_backoff_ms == b.max_backoff_ms
    &&& a.backoff_on_transport_errors == b.backoff_on_transport_errors
    &&& a.retryable_json_rpc_errors@ == b.retryable_json_rpc_errors@
    &&& a.retryable_http_errors@ == b.retryable_http_errors@
    &&& a.max_retry_queue_size == b.max_retry_queue_size
}

/// Copies a retry policy.
pub fn clone_policy(p: &SimpleJsonRpcRetryPolicy) -> (r: SimpleJsonRpcRetryPolicy)
    ensures
        policy_like(r, *p),
{
    let mut rpc_errors: Vec<i64> = Vec::new();
    let mut k: usize = 0;
    while k < p.retryable_json_rpc_errors.len()
        invariant
            k <= p.retryable_json_rpc_errors@.len(),
            rpc_errors@ == p.retryable_json_rpc_errors@.subrange(0, k as int),
        decreases p.retryable_json_rpc_errors@.len() - k,
    {
        rpc_errors.push(p.retryable_json_rpc_errors[k]);
        proof {
            assert(rpc_errors@ =~= p.retryable_json_rpc_errors@.subrange(0, k + 1));
        }
        k = k + 1;
    }
    let mut http_errors: Vec<u16> = Vec::new();
    let mut k2: usize = 0;
    while k2 < p.retryable_http_errors.len()
        invariant
            k2 <= p.retryable_http_errors@.len(),
            http_errors@ == p.retryable_http_errors@.subrange(0, k2 as int),
        decreases p.retryable_http_errors@.len() - k2,
    {
        http_errors.push(p.retryable_http_errors[k2]);
        proof {
            assert(http_errors@ =~= p.retryable_http_errors@.subrange(0, k2 + 1));
        }
        k2 = k2 + 1;
    }
    proof {
        assert(rpc_errors@ =~= p.retryable_json_rpc_errors@);
        assert(http_errors@ =~= p.retryable_http_errors@);
    }
    SimpleJsonRpcRetryPolicy {
        min_retries: p.min_retries,
        max_retries: p.max_retries,
        initial_backoff_ms: p.initial_backoff_ms,
        backoff_coefficient_permille: p.backoff_coefficient_permille,
        max_backoff_ms: p.max_backoff_ms,
        backoff_on_transport_errors: p.backoff_on_transport_errors,
        retryable_json_rpc_errors: rpc_errors,
        retryable_http_errors: http_errors,
        max_retry_queue_size: p.max_retry_queue_size,
    }
}

// ---------------------------------------------------------------------------
// Laws of the machine
// ---------------------------------------------------------------------------

/// Drives the machine over a sequence of attempt outcomes until a terminal
/// step: the final state and the result (`Some` on success, `None` on a
/// terminal error), or `None` when the outcomes run out first.
pub open spec fn run_steps(p: SimpleJsonRpcRetryPolicy, st: MachineV, outs: Seq<OutV>) -> Option<
    (MachineV, Option<Seq<u8>>),
>
    decreases outs.len(),
{
    if outs.len() == 0 {
        None
    } else {
        match spec_step(p, st, outs[0]) {
            StepV::Succeed { result, st: s2 } => Some((s2, Some(result))),
            StepV::Fail { err, st: s2 } => Some((s2, None)),
            StepV::Sleep { delay, body, st: s2 } => run_steps(
                p,
                s2,
                outs.subrange(1, outs.len() as int),
            ),
        }
    }
}

/// Every completed request gives the in-flight counter back: however many
/// retries happen in between, a run that reaches a terminal step leaves
/// `requests_enqueued` one below the value it had while the request was in
/// flight — that is, exactly where it stood before `begin_request` raised
/// it.
pub proof fn lemma_requests_enqueued_restored(
    p: SimpleJsonRpcRetryPolicy,
    st: MachineV,
    outs: Seq<OutV>,
)
    requires
        run_steps(p, st, outs) is Some,
    ensures
        (run_steps(p, st, outs)->0).0.enq == st.enq - 1,
    decreases outs.len(),
{
    match spec_step(p, st, outs[0]) {
        StepV::Sleep { delay, body, st: s2 } => {
            lemma_requests_enqueued_restored(p, s2, outs.subrange(1, outs.len() as int));
        },
        _ => {},
    }
}

/// How many retries a run grants: the number of sleep steps before the
/// terminal step.
pub open spec fn retries_granted(p: SimpleJsonRpcRetryPolicy, st: MachineV, outs: Seq<OutV>) -> int
    decreases outs.len(),
{
    if outs.len() == 0 {
        0
    } else {
        match spec_step(p, st, outs[0]) {
            StepV::Sleep { delay, body, st: s2 } => 1 + retries_granted(
                p,
                s2,
                outs.subrange(1, outs.len() as int),
            ),
            _ => 0,
        }
    }
}

/// With `max_retries` set, no run ever grants more retries than that
/// bound: a request that has already failed `st.retries` times gets at
/// most `max_retries - st.retries` more.
pub proof fn lemma_retries_bounded(
    p: SimpleJsonRpcRetryPolicy,
    st: MachineV,
    outs: Seq<OutV>,
    m: u32,
)
    requires
        p.max_retries == Some(m),
        st.retries >= 0,
    ensures
        retries_granted(p, st, outs) <= if st.retries <= m {
            m - st.retries
        } else {
            0
        },
    decreases outs.len(),
{
    if outs.len() > 0 {
        match spec_step(p, st, outs[0]) {
            StepV::Sleep { delay, body, st: s2 } => {
                assert(st.retries + 1 <= m);
                assert(s2.retries == st.retries + 1);
                lemma_retries_bounded(p, s2, outs.subrange(1, outs.len() as int), m);
            },
            _ => {},
        }
    }
}

/// Policies that are equal field by field decide every attempt alike.
pub proof fn lemma_policy_like_same_action(
    a: SimpleJsonRpcRetryPolicy,
    b: SimpleJsonRpcRetryPolicy,
    e: ErrV,
    num_retries: int,
    retry_queue_size: int,
)
    requires
        policy_like(a, b),
    ensures
        spec_retry_action(a, e, num_retries, retry_queue_size) == spec_retry_action(
            b,
            e,
            num_retries,
            retry_queue_size,
        ),
{
}

/// A cloned client runs every request exactly as a fresh client for the
/// same endpoint and policy would: fed the same attempt outcomes, it goes
/// through the same states and returns the same decoded result. Retry
/// delays aside, the same call on the clone yields the same value.
pub proof fn lemma_clone_runs_alike(
    a: SimpleJsonRpcRetryPolicy,
    b: SimpleJsonRpcRetryPolicy,
    st: MachineV,
    outs: Seq<OutV>,
)
    requires
        policy_like(a, b),
    ensures
        run_steps(a, st, outs) == run_steps(b, st, outs),
    decreases outs.len(),
{
    if outs.len() > 0 {
        let o = outs[0];
        assert(spec_step(a, st, o) == spec_step(b, st, o)) by {
            match o {
                OutV::Response(body) => {
                    match spec_classify(body) {
                        RespV::Success { id, result } => {},
                        _ => {
                            lemma_policy_like_same_action(
                                a,
                                b,
                                errv_of_response(body),
                                st.retries + 1,
                                st.enq,
                            );
                        },
                    }
                },
                OutV::Transport(e) => {
                    lemma_policy_like_same_action(a, b, ErrV::Backend(e), st.retries + 1, st.enq);
                },
            }
        }
        match spec_step(a, st, o) {
            StepV::Sleep { delay, body, st: s2 } => {
                lemma_clone_runs_alike(a, b, s2, outs.subrange(1, outs.len() as int));
            },
            _ => {},
        }
    }
}

} // verus!
