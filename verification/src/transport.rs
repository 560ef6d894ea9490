//! The HTTP transport rules that do not touch the network: request shape
//! validation and the per-host rate limit.

use vstd::prelude::*;
use crate::errors::{HttpErrV, HttpRequestError, herrv};

verus! {

/// Configuration of an HTTP transport.
#[derive(Clone, Debug, PartialEq, Eq)]
pub struct HttpPostRequestorConfig {
    /// Per-request timeout, in milliseconds.
    pub http_request_timeout_ms: u64,
    /// How many redirects a request may follow.
    pub max_redirects: u32,
    /// Maximum requests per second per host; `None` or 0 means unlimited.
    pub max_requests_per_sec: Option<u32>,
}

/// An HTTP method, as far as the transport supports them.
#[derive(Clone, Copy, Debug, PartialEq, Eq)]
pub enum HttpMethod {
    Get,
    Post,
    Other,
}

/// Whether a query is well formed: a POST carries a body, a GET does
/// not, and no other method is supported.
pub open spec fn spec_query_ok(method: HttpMethod, has_body: bool) -> bool {
    match method {
        HttpMethod::Post => has_body,
        HttpMethod::Get => !has_body,
        HttpMethod::Other => false,
    }
}

/// The bytes of `unsupported method`.
pub open spec fn unsupported_method_msg() -> Seq<u8> {
    seq![0x75, 0x6e, 0x73, 0x75, 0x70, 0x70, 0x6f, 0x72, 0x74, 0x65, 0x64, 0x20, 0x6d, 0x65, 0x74,
        0x68, 0x6f, 0x64]
}

/// The bytes of `missing data`.
pub open spec fn missing_data_msg() -> Seq<u8> {
    seq![0x6d, 0x69, 0x73, 0x73, 0x69, 0x6e, 0x67, 0x20, 0x64, 0x61, 0x74, 0x61]
}

/// The bytes of `unexpected data`.
pub open spec fn unexpected_data_msg() -> Seq<u8> {
    seq![0x75, 0x6e, 0x65, 0x78, 0x70, 0x65, 0x63, 0x74, 0x65, 0x64, 0x20, 0x64, 0x61, 0x74, 0x61]
}

/// Rejects queries the transport does not support, each with its named
/// message: an unsupported method, a POST without data, a GET with data.
pub fn validate_query(method: HttpMethod, has_body: bool) -> (r: Result<(), HttpRequestError>)
    ensures
        r is Ok <==> spec_query_ok(method, has_body),
        method is Other ==> (match r {
            Err(e) => herrv(e) == HttpErrV::Unknown(unsupported_method_msg()),
            Ok(_) => false,
        }),
        method is Post && !has_body ==> (match r {
            Err(e) => herrv(e) == HttpErrV::Unknown(missing_data_msg()),
            Ok(_) => false,
        }),
        method is Get && has_body ==> (match r {
            Err(e) => herrv(e) == HttpErrV::Unknown(unexpected_data_msg()),
            Ok(_) => false,
        }),
{
    match method {
        HttpMethod::Post => {
            if has_body {
                Ok(())
            } else {
                Err(HttpRequestError::UnknownError(b_missing_data()))
            }
        },
        HttpMethod::Get => {
            if !has_body {
                Ok(())
            } else {
                Err(HttpRequestError::UnknownError(b_unexpected_data()))
            }
        },
        HttpMethod::Other => Err(HttpRequestError::UnknownError(b_unsupported_method())),
    }
}

fn b_unsupported_method() -> (v: Vec<u8>)
    ensures
        v@ == unsupported_method_msg(),
{
    let mut v: Vec<u8> = Vec::new();
    v.push(0x75);
    v.push(0x6e);
    v.push(0x73);
    v.push(0x75);
    v.push(0x70);
    v.push(0x70);
    v.push(0x6f);
    v.push(0x72);
    v.push(0x74);
    v.push(0x65);
    v.push(0x64);
    v.push(0x20);
    v.push(0x6d);
    v.push(0x65);
    v.push(0x74);
    v.push(0x68);
    v.push(0x6f);
    v.push(0x64);
    proof {
        assert(v@ =~= unsupported_method_msg());
    }
    v
}

fn b_missing_data() -> (v: Vec<u8>)
    ensures
        v@ == missing_data_msg(),
{
    let mut v: Vec<u8> = Vec::new();
    v.push(0x6d);
    v.push(0x69);
    v.push(0x73);
    v.push(0x73);
    v.push(0x69);
    v.push(0x6e);
    v.push(0x67);
    v.push(0x20);
    v.push(0x64);
    v.push(0x61);
    v.push(0x74);
    v.push(0x61);
    proof {
        assert(v@ =~= missing_data_msg());
    }
    v
}

fn b_unexpected_data() -> (v: Vec<u8>)
    ensures
        v@ == unexpected_data_msg(),
{
    let mut v: Vec<u8> = Vec::new();
    v.push(0x75);
    v.push(0x6e);
    v.push(0x65);
    v.push(0x78);
    v.push(0x70);
    v.push(0x65);
    v.push(0x63);
    v.push(0x74);
    v.push(0x65);
    v.push(0x64);
    v.push(0x20);
    v.push(0x64);
    v.push(0x61);
    v.push(0x74);
    v.push(0x61);
    proof {
        assert(v@ =~= unexpected_data_msg());
    }
    v
}

/// A token bucket limiting requests to `max_per_sec` per second.
///
/// Tokens are counted in thousandths: a full second refills
/// `1000 * max_per_sec` of them, one request spends 1000, and the bucket
/// never holds more than one second's worth. A bound of 0 disables the
/// limit.
#[derive(Clone, Debug, PartialEq, Eq)]
pub struct RateLimiter {
    /// The bound; 0 means unlimited.
    pub max_per_sec: u32,
    /// Milli-tokens available, at most `1000 * max_per_sec`.
    pub tokens_milli: u64,
    /// When the bucket was last refilled, in milliseconds.
    pub last_refill_ms: u64,
}

/// How many milli-tokens the bucket holds after refilling at `now`.
pub open spec fn spec_refill(r: RateLimiter, now_ms: u64) -> int {
    let elapsed: int = if now_ms >= r.last_refill_ms {
        now_ms - r.last_refill_ms
    } else {
        0
    };
    let cap: int = 1000 * (r.max_per_sec as int);
    let refilled: int = r.tokens_milli + elapsed * (r.max_per_sec as int);
    if refilled >= cap {
        cap
    } else {
        refilled
    }
}

impl RateLimiter {
    /// A full bucket.
    pub fn new(max_per_sec: u32) -> (r: Self)
        ensures
            r.max_per_sec == max_per_sec,
            r.tokens_milli == 1000 * max_per_sec,
            r.last_refill_ms == 0,
    {
        RateLimiter { max_per_sec, tokens_milli: 1000 * (max_per_sec as u64), last_refill_ms: 0 }
    }

    /// Admits or rejects a request at time `now_ms`: refills the bucket
    /// for the time passed, then spends one token when one is there. A
    /// rejected request is answered with HTTP 429 at once and spends
    /// nothing.
    pub fn check(&mut self, now_ms: u64) -> (admitted: bool)
        requires
            old(self).tokens_milli <= 1000 * (old(self).max_per_sec as int),
        ensures
            final(self).max_per_sec == old(self).max_per_sec,
            final(self).tokens_milli <= 1000 * (final(self).max_per_sec as int),
            old(self).max_per_sec == 0 ==> admitted && *final(self) == *old(self),
            old(self).max_per_sec > 0 ==> {
                let avail = spec_refill(*old(self), now_ms);
                &&& admitted == (avail >= 1000)
                &&& final(self).last_refill_ms == (if now_ms >= old(self).last_refill_ms {
                    now_ms
                } else {
                    old(self).last_refill_ms
                })
                &&& final(self).tokens_milli == (if avail >= 1000 {
                    avail - 1000
                } else {
                    avail
                })
            },
    {
        if self.max_per_sec == 0 {
            return true;
        }
        let cap: u64 = 1000 * (self.max_per_sec as u64);
        let elapsed: u64 = if now_ms >= self.last_refill_ms {
            now_ms - self.last_refill_ms
        } else {
            0
        };
        proof {
            assert(0 <= (elapsed as int) * (self.max_per_sec as int) <= 0xffffffffffffffff
                * 0xffffffffint) by (nonlinear_arith)
                requires
                    0 <= elapsed <= 0xffffffffffffffffu64,
                    0 <= self.max_per_sec <= 0xffffffffu32,
            ;
        }
        let wide: u128 = (self.tokens_milli as u128) + (elapsed as u128) * (
        self.max_per_sec as u128);
        let avail: u64 = if wide >= cap as u128 {
            cap
        } else {
            wide as u64
        };
        proof {
            assert(avail == spec_refill(*old(self), now_ms));
        }
        if now_ms >= self.last_refill_ms {
            self.last_refill_ms = now_ms;
        }
        if avail >= 1000 {
            self.tokens_milli = avail - 1000;
            true
        } else {
            self.tokens_milli = avail;
            false
        }
    }
}

} // verus!
