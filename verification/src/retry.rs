//! The retry policy: classifies a failed request and computes the delay
//! before the next attempt.
//!
//! Durations are milliseconds. The growth factor of the exponential backoff
//! is a per-mille coefficient: a value of 300 grows each delay by a factor
//! of 1.3, a value of 0 keeps delays flat.

use vstd::prelude::*;
use vstd::arithmetic::div_mod::{lemma_div_is_ordered, lemma_div_multiples_vanish};
use vstd::arithmetic::mul::lemma_mul_inequality;
use crate::errors::{ErrV, HttpErrV, HttpRequestError, JsonRpcError, JsonRpcProviderClientError,
    RetryAction, errv};
use crate::rpc::{extract_embedded_error, spec_embedded_error};

verus! {

/// A retry policy for the JSON-RPC client.
///
/// Up to `max_retries` retries are made (`None` retries indefinitely), at
/// least `min_retries` regardless of the error class. Retry `k` waits
/// `initial_backoff_ms * (1 + backoff_coefficient_permille/1000)^(k-1)`
/// milliseconds, capped at `max_backoff_ms`, with the growth applied in
/// integer arithmetic one step at a time. Transport errors wait a flat
/// `initial_backoff_ms` unless `backoff_on_transport_errors` is set. No
/// retry is granted while more than `max_retry_queue_size` requests are
/// already being retried.
#[derive(Clone, Debug, PartialEq, Eq)]
pub struct SimpleJsonRpcRetryPolicy {
    /// Minimum number of retries of any error, regardless of its class.
    pub min_retries: Option<u32>,
    /// Maximum number of retries; `None` keeps retrying indefinitely.
    pub max_retries: Option<u32>,
    /// Initial wait before a retry, in milliseconds.
    pub initial_backoff_ms: u64,
    /// Backoff growth per retry, in thousandths; 0 disables growth.
    pub backoff_coefficient_permille: u32,
    /// Upper bound on any backoff wait, in milliseconds.
    pub max_backoff_ms: u64,
    /// Whether transport errors also back off exponentially.
    pub backoff_on_transport_errors: bool,
    /// JSON-RPC error codes that are retried with backoff.
    pub retryable_json_rpc_errors: Vec<i64>,
    /// HTTP status codes that are retried with backoff.
    pub retryable_http_errors: Vec<u16>,
    /// Maximum number of distinct requests being retried at once.
    pub max_retry_queue_size: u32,
}

impl Default for SimpleJsonRpcRetryPolicy {
    /// The stock policy: up to 12 retries, 1 s initial backoff growing by
    /// 1.3 per retry up to 30 s, retrying JSON-RPC codes -32005, -32016 and
    /// 429 and HTTP statuses 429, 504 and 503.
    fn default() -> (r: Self)
        ensures
            r.min_retries == Some(0u32),
            r.max_retries == Some(12u32),
            r.initial_backoff_ms == 1000,
            r.backoff_coefficient_permille == 300,
            r.max_backoff_ms == 30000,
            !r.backoff_on_transport_errors,
            r.retryable_json_rpc_errors@ == seq![-32005i64, -32016i64, 429i64],
            r.retryable_http_errors@ == seq![429u16, 504u16, 503u16],
            r.max_retry_queue_size == 100,
    {
        let mut rpc_errors: Vec<i64> = Vec::new();
        rpc_errors.push(-32005);
        rpc_errors.push(-32016);
        rpc_errors.push(429);
        let mut http_errors: Vec<u16> = Vec::new();
        http_errors.push(429);
        http_errors.push(504);
        http_errors.push(503);
        proof {
            assert(rpc_errors@ =~= seq![-32005i64, -32016i64, 429i64]);
            assert(http_errors@ =~= seq![429u16, 504u16, 503u16]);
        }
        SimpleJsonRpcRetryPolicy {
            min_retries: Some(0),
            max_retries: Some(12),
            initial_backoff_ms: 1000,
            backoff_coefficient_permille: 300,
            max_backoff_ms: 30000,
            backoff_on_transport_errors: false,
            retryable_json_rpc_errors: rpc_errors,
            retryable_http_errors: http_errors,
            max_retry_queue_size: 100,
        }
    }
}

/// A policy is valid when its queue bound is at least 5 and its retry
/// bound, when given, is at least 1.
pub open spec fn spec_policy_valid(p: SimpleJsonRpcRetryPolicy) -> bool {
    &&& p.max_retry_queue_size >= 5
    &&& match p.max_retries {
        Some(m) => m >= 1,
        None => true,
    }
}

impl SimpleJsonRpcRetryPolicy {
    /// Checks the construction constraints.
    pub fn is_valid(&self) -> (r: bool)
        ensures
            r == spec_policy_valid(*self),
    {
        self.max_retry_queue_size >= 5 && match self.max_retries {
            Some(m) => m >= 1,
            None => true,
        }
    }
}

// ---------------------------------------------------------------------------
// Backoff
// ---------------------------------------------------------------------------

/// The uncapped backoff before retry `k`, grown step by step in integer
/// arithmetic: one more factor of `(1000 + coeff) / 1000` per retry.
pub open spec fn raw_backoff(initial: int, coeff: int, k: int) -> int
    decreases k,
{
    if k <= 1 {
        initial
    } else {
        raw_backoff(initial, coeff, k - 1) * (1000 + coeff) / 1000
    }
}

/// The backoff before retry `k`: the raw value, capped at `max_backoff_ms`.
pub open spec fn spec_backoff_ms(p: SimpleJsonRpcRetryPolicy, k: int) -> u64 {
    let raw = raw_backoff(p.initial_backoff_ms as int, p.backoff_coefficient_permille as int, k);
    if raw >= p.max_backoff_ms as int {
        p.max_backoff_ms
    } else {
        raw as u64
    }
}

/// One growth step never shrinks a non-negative backoff.
proof fn lemma_step_grows(x: int, coeff: int)
    requires
        x >= 0,
        coeff >= 0,
    ensures
        x * (1000 + coeff) / 1000 >= x,
        x * (1000 + coeff) / 1000 >= 0,
{
    assert(x * (1000 + coeff) >= x * 1000) by {
        lemma_mul_inequality(1000, 1000 + coeff, x);
        assert(1000 * x <= (1000 + coeff) * x);
        assert(x * 1000 == 1000 * x) by (nonlinear_arith);
        assert(x * (1000 + coeff) == (1000 + coeff) * x) by (nonlinear_arith);
    }
    lemma_div_is_ordered(x * 1000, x * (1000 + coeff), 1000);
    assert(x * 1000 / 1000 == x) by {
        lemma_div_multiples_vanish(x, 1000);
        assert(x * 1000 == 1000 * x) by (nonlinear_arith);
    }
}

pub proof fn lemma_raw_backoff_nonneg(initial: int, coeff: int, k: int)
    requires
        initial >= 0,
        coeff >= 0,
    ensures
        raw_backoff(initial, coeff, k) >= 0,
    decreases k,
{
    if k > 1 {
        lemma_raw_backoff_nonneg(initial, coeff, k - 1);
        lemma_step_grows(raw_backoff(initial, coeff, k - 1), coeff);
    }
}

/// The raw backoff never decreases as the retry count grows.
pub proof fn lemma_raw_backoff_monotone(initial: int, coeff: int, k1: int, k2: int)
    requires
        initial >= 0,
        coeff >= 0,
        k1 <= k2,
    ensures
        raw_backoff(initial, coeff, k1) <= raw_backoff(initial, coeff, k2),
    decreases k2 - k1,
{
    if k1 < k2 {
        lemma_raw_backoff_monotone(initial, coeff, k1, k2 - 1);
        if k2 > 1 {
            lemma_raw_backoff_nonneg(initial, coeff, k2 - 1);
            lemma_step_grows(raw_backoff(initial, coeff, k2 - 1), coeff);
        }
    }
}

/// With a zero coefficient the raw backoff stays at the initial value.
pub proof fn lemma_raw_backoff_flat(initial: int, k: int)
    requires
        initial >= 0,
    ensures
        raw_backoff(initial, 0, k) == initial,
    decreases k,
{
    if k > 1 {
        lemma_raw_backoff_flat(initial, k - 1);
        assert(initial * 1000 / 1000 == initial) by {
            lemma_div_multiples_vanish(initial, 1000);
            assert(initial * 1000 == 1000 * initial) by (nonlinear_arith);
        }
    }
}

impl SimpleJsonRpcRetryPolicy {
    /// Computes the capped backoff before retry `num_retries`; mirrors
    /// [`spec_backoff_ms`].
    pub fn next_backoff_ms(&self, num_retries: u32) -> (b: u64)
        ensures
            b == spec_backoff_ms(*self, num_retries as int),
    {
        let ghost gi = self.initial_backoff_ms as int;
        let ghost gc = self.backoff_coefficient_permille as int;
        let initial = self.initial_backoff_ms;
        let max = self.max_backoff_ms;
        if initial >= max {
            proof {
                if num_retries as int >= 1 {
                    lemma_raw_backoff_monotone(gi, gc, 1, num_retries as int);
                }
                assert(raw_backoff(gi, gc, num_retries as int) >= max);
            }
            return max;
        }
        let growth: u64 = 1000 + self.backoff_coefficient_permille as u64;
        let mut b: u64 = initial;
        let mut j: u32 = 1;
        if num_retries <= 1 {
            return b;
        }
        while j < num_retries
            invariant
                1 <= j <= num_retries,
                b == raw_backoff(gi, gc, j as int),
                b < max,
                growth == 1000 + gc,
                max == self.max_backoff_ms,
                gi == self.initial_backoff_ms as int,
                gc == self.backoff_coefficient_permille as int,
            decreases num_retries - j,
        {
            proof {
                assert((b as int) * (growth as int) <= 0xffffffffffffffff * 0x200000000int) by (
                nonlinear_arith)
                    requires
                        0 <= b <= 0xffffffffffffffffu64,
                        0 <= growth <= 0x200000000u64,
                ;
            }
            let wide: u128 = (b as u128) * (growth as u128) / 1000;
            proof {
                assert((b as u128) * (growth as u128) == (b as int) * (1000 + gc)) by (
                nonlinear_arith)
                    requires
                        growth == 1000 + gc,
                        gc >= 0,
                        b >= 0,
                        b <= u64::MAX,
                        growth <= 1000 + u32::MAX,
                ;
                assert(wide == raw_backoff(gi, gc, j + 1));
            }
            if wide >= max as u128 {
                proof {
                    lemma_raw_backoff_monotone(gi, gc, j + 1, num_retries as int);
                }
                return max;
            }
            b = wide as u64;
            j = j + 1;
        }
        b
    }
}

// ---------------------------------------------------------------------------
// Error classification
// ---------------------------------------------------------------------------

/// The bytes of the substring `rate limit`.
pub open spec fn rate_limit_pat() -> Seq<u8> {
    seq![0x72, 0x61, 0x74, 0x65, 0x20, 0x6c, 0x69, 0x6d, 0x69, 0x74]
}

fn b_rate_limit() -> (v: Vec<u8>)
    ensures
        v@ == rate_limit_pat(),
{
    let mut v: Vec<u8> = Vec::new();
    v.push(0x72);
    v.push(0x61);
    v.push(0x74);
    v.push(0x65);
    v.push(0x20);
    v.push(0x6c);
    v.push(0x69);
    v.push(0x6d);
    v.push(0x69);
    v.push(0x74);
    proof {
        assert(v@ =~= rate_limit_pat());
    }
    v
}

/// `needle` occurs somewhere in `hay`.
pub open spec fn contains_sub(hay: Seq<u8>, needle: Seq<u8>) -> bool {
    exists|i: int|
        0 <= i <= hay.len() - needle.len() && #[trigger] hay.subrange(i, i + needle.len() as int)
            == needle
}

/// Searches for `needle` in `hay`; mirrors [`contains_sub`].
pub fn find_sub(hay: &Vec<u8>, needle: &Vec<u8>) -> (r: bool)
    ensures
        r == contains_sub(hay@, needle@),
{
    let n = needle.len();
    if n > hay.len() {
        return false;
    }
    if n == 0 {
        proof {
            assert(hay@.subrange(0, 0 + needle@.len() as int) =~= needle@);
        }
        return true;
    }
    let last = hay.len() - n;
    let mut i: usize = 0;
    while i <= last
        invariant
            n == needle@.len(),
            1 <= n <= hay@.len(),
            hay@.len() <= usize::MAX,
            last == hay@.len() - n,
            i <= last + 1,
            forall|ii: int|
                0 <= ii < i ==> #[trigger] hay@.subrange(ii, ii + needle@.len() as int)
                    != needle@,
        decreases last + 1 - i,
    {
        let mut j: usize = 0;
        let mut matches: bool = true;
        while j < n
            invariant
                n == needle@.len(),
                i + n <= hay@.len(),
                hay@.len() <= usize::MAX,
                j <= n,
                matches ==> forall|jj: int| 0 <= jj < j ==> hay@[i + jj] == needle@[jj],
                !matches ==> hay@.subrange(i as int, i + needle@.len() as int) != needle@,
            decreases n - j,
        {
            if hay[i + j] != needle[j] {
                proof {
                    assert(hay@.subrange(i as int, i + needle@.len() as int)[j as int] == hay@[i
                        + j]);
                }
                matches = false;
                j = n;
            } else {
                j = j + 1;
            }
        }
        if matches {
            proof {
                assert(hay@.subrange(i as int, i + needle@.len() as int) =~= needle@);
            }
            return true;
        }
        i = i + 1;
    }
    proof {
        assert(!contains_sub(hay@, needle@)) by {
            if contains_sub(hay@, needle@) {
                let w = choose|w: int|
                    0 <= w <= hay@.len() - needle@.len() && #[trigger] hay@.subrange(
                        w,
                        w + needle@.len() as int,
                    ) == needle@;
                assert(hay@.subrange(w, w + needle@.len() as int) != needle@);
            }
        }
    }
    false
}

/// Whether a list of codes contains `c`.
fn codes_contain(list: &Vec<i64>, c: i64) -> (r: bool)
    ensures
        r == list@.contains(c),
{
    let mut k: usize = 0;
    while k < list.len()
        invariant
            k <= list@.len(),
            forall|j: int| 0 <= j < k ==> list@[j] != c,
        decreases list@.len() - k,
    {
        if list[k] == c {
            return true;
        }
        k = k + 1;
    }
    false
}

/// Whether a list of HTTP statuses contains `s`.
fn statuses_contain(list: &Vec<u16>, s: u16) -> (r: bool)
    ensures
        r == list@.contains(s),
{
    let mut k: usize = 0;
    while k < list.len()
        invariant
            k <= list@.len(),
            forall|j: int| 0 <= j < k ==> list@[j] != s,
        decreases list@.len() - k,
    {
        if list[k] == s {
            return true;
        }
        k = k + 1;
    }
    false
}

/// A JSON-RPC error is retryable when its code is listed or its message
/// mentions a rate limit.
pub open spec fn spec_retryable_rpc_error(
    p: SimpleJsonRpcRetryPolicy,
    code: i64,
    message: Seq<u8>,
) -> bool {
    p.retryable_json_rpc_errors@.contains(code) || contains_sub(message, rate_limit_pat())
}

/// What the policy decides for a failed attempt, in order: the retry
/// bound, then the queue bound, then the minimum-retries override, then
/// the class of the error.
pub open spec fn spec_retry_action(
    p: SimpleJsonRpcRetryPolicy,
    err: ErrV,
    num_retries: int,
    retry_queue_size: int,
) -> RetryAction {
    if (match p.max_retries {
        Some(max) => num_retries > max,
        None => false,
    }) {
        RetryAction::NoRetry
    } else if retry_queue_size > p.max_retry_queue_size {
        RetryAction::NoRetry
    } else {
        let backoff = spec_backoff_ms(p, num_retries);
        if (match p.min_retries {
            Some(min) => num_retries <= min,
            None => false,
        }) {
            RetryAction::RetryAfter(backoff)
        } else {
            match err {
                ErrV::Rpc { code, message, data } => {
                    if spec_retryable_rpc_error(p, code, message) {
                        RetryAction::RetryAfter(backoff)
                    } else {
                        RetryAction::NoRetry
                    }
                },
                ErrV::Backend(be) => match be {
                    HttpErrV::Http(status) => {
                        if p.retryable_http_errors@.contains(status) {
                            RetryAction::RetryAfter(backoff)
                        } else {
                            RetryAction::NoRetry
                        }
                    },
                    HttpErrV::Timeout => RetryAction::RetryAfter(
                        if p.backoff_on_transport_errors {
                            backoff
                        } else {
                            p.initial_backoff_ms
                        },
                    ),
                    HttpErrV::Transport(_) => RetryAction::RetryAfter(
                        if p.backoff_on_transport_errors {
                            backoff
                        } else {
                            p.initial_backoff_ms
                        },
                    ),
                    HttpErrV::Unknown(_) => RetryAction::RetryAfter(
                        if p.backoff_on_transport_errors {
                            backoff
                        } else {
                            p.initial_backoff_ms
                        },
                    ),
                },
                ErrV::Serde(text) => {
                    match spec_embedded_error(text) {
                        Some((code, message, _)) => {
                            if spec_retryable_rpc_error(p, code, message) {
                                RetryAction::RetryAfter(backoff)
                            } else {
                                RetryAction::NoRetry
                            }
                        },
                        None => RetryAction::NoRetry,
                    }
                },
            }
        }
    }
}

impl SimpleJsonRpcRetryPolicy {
    /// Whether a JSON-RPC error object is retryable; mirrors
    /// [`spec_retryable_rpc_error`].
    pub fn is_retryable_json_rpc_error(&self, err: &JsonRpcError) -> (r: bool)
        ensures
            r == spec_retryable_rpc_error(*self, err.code, err.message@),
    {
        codes_contain(&self.retryable_json_rpc_errors, err.code) || find_sub(
            &err.message,
            &b_rate_limit(),
        )
    }

    /// Whether an HTTP status is retryable.
    pub fn is_retryable_http_error(&self, status: u16) -> (r: bool)
        ensures
            r == self.retryable_http_errors@.contains(status),
    {
        statuses_contain(&self.retryable_http_errors, status)
    }

    /// Decides what to do about a failed attempt; mirrors
    /// [`spec_retry_action`].
    ///
    /// `num_retries` counts the attempts failed so far (1 after the first
    /// failure); `retry_queue_size` is the number of requests currently in
    /// flight or sleeping between retries.
    pub fn is_retryable_error(
        &self,
        err: &JsonRpcProviderClientError,
        num_retries: u32,
        retry_queue_size: u32,
    ) -> (r: RetryAction)
        ensures
            r == spec_retry_action(*self, errv(*err), num_retries as int, retry_queue_size as int),
    {
        match self.max_retries {
            Some(max) => {
                if num_retries > max {
                    return RetryAction::NoRetry;
                }
            },
            None => {},
        }
        if retry_queue_size > self.max_retry_queue_size {
            return RetryAction::NoRetry;
        }
        let backoff = self.next_backoff_ms(num_retries);
        match self.min_retries {
            Some(min) => {
                if num_retries <= min {
                    return RetryAction::RetryAfter(backoff);
                }
            },
            None => {},
        }
        match err {
            JsonRpcProviderClientError::JsonRpcError(e) => {
                if self.is_retryable_json_rpc_error(e) {
                    RetryAction::RetryAfter(backoff)
                } else {
                    RetryAction::NoRetry
                }
            },
            JsonRpcProviderClientError::BackendError(be) => match be {
                HttpRequestError::HttpError(status) => {
                    if self.is_retryable_http_error(*status) {
                        RetryAction::RetryAfter(backoff)
                    } else {
                        RetryAction::NoRetry
                    }
                },
                HttpRequestError::Timeout => RetryAction::RetryAfter(
                    if self.backoff_on_transport_errors {
                        backoff
                    } else {
                        self.initial_backoff_ms
                    },
                ),
                HttpRequestError::TransportError(_) => RetryAction::RetryAfter(
                    if self.backoff_on_transport_errors {
                        backoff
                    } else {
                        self.initial_backoff_ms
                    },
                ),
                HttpRequestError::UnknownError(_) => RetryAction::RetryAfter(
                    if self.backoff_on_transport_errors {
                        backoff
                    } else {
                        self.initial_backoff_ms
                    },
                ),
            },
            JsonRpcProviderClientError::SerdeJson { text } => {
                match extract_embedded_error(text) {
                    Some(e) => {
                        if self.is_retryable_json_rpc_error(&e) {
                            RetryAction::RetryAfter(backoff)
                        } else {
                            RetryAction::NoRetry
                        }
                    },
                    None => RetryAction::NoRetry,
                }
            },
        }
    }
}

// ---------------------------------------------------------------------------
// Laws of the policy
// ---------------------------------------------------------------------------

/// With `max_retries` of zero, the first failure is terminal: no error is
/// ever retried.
pub proof fn lemma_zero_max_retries_is_terminal(
    p: SimpleJsonRpcRetryPolicy,
    err: ErrV,
    num_retries: int,
    retry_queue_size: int,
)
    requires
        p.max_retries == Some(0u32),
        num_retries >= 1,
    ensures
        spec_retry_action(p, err, num_retries, retry_queue_size) == RetryAction::NoRetry,
{
}

/// Once the retry queue is over its bound, a request that is not yet over
/// `max_retries` still gets no retry.
pub proof fn lemma_queue_cap(
    p: SimpleJsonRpcRetryPolicy,
    err: ErrV,
    num_retries: int,
    retry_queue_size: int,
)
    requires
        retry_queue_size > p.max_retry_queue_size,
    ensures
        spec_retry_action(p, err, num_retries, retry_queue_size) == RetryAction::NoRetry,
{
}

/// Every granted backoff delay is capped by `max_backoff_ms`, as long as
/// the initial backoff does not itself exceed the cap.
pub proof fn lemma_delay_capped(
    p: SimpleJsonRpcRetryPolicy,
    err: ErrV,
    num_retries: int,
    retry_queue_size: int,
)
    requires
        p.initial_backoff_ms <= p.max_backoff_ms,
    ensures
        match spec_retry_action(p, err, num_retries, retry_queue_size) {
            RetryAction::RetryAfter(d) => d <= p.max_backoff_ms,
            RetryAction::NoRetry => true,
        },
{
    lemma_raw_backoff_nonneg(p.initial_backoff_ms as int, p.backoff_coefficient_permille as int,
        num_retries);
}

/// With a zero backoff coefficient, every granted delay is exactly the
/// initial backoff: delays stay flat.
pub proof fn lemma_flat_delays(
    p: SimpleJsonRpcRetryPolicy,
    err: ErrV,
    num_retries: int,
    retry_queue_size: int,
)
    requires
        p.backoff_coefficient_permille == 0,
        p.initial_backoff_ms <= p.max_backoff_ms,
    ensures
        match spec_retry_action(p, err, num_retries, retry_queue_size) {
            RetryAction::RetryAfter(d) => d == p.initial_backoff_ms,
            RetryAction::NoRetry => true,
        },
{
    lemma_raw_backoff_flat(p.initial_backoff_ms as int, num_retries);
}

} // verus!
