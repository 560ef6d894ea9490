//! The JSON-RPC 2.0 envelope: building request bodies and reading response
//! bodies, on top of the JSON codec.

use vstd::prelude::*;
use crate::errors::JsonRpcError;
use crate::json::{
    JsonValue, JsonV, bytes_eq, deep_members, deep_seq, jv_lookup, lemma_deep_members_index,
    obj_get, parse_json, sp_json, sv, to_bytes, wf_json, wf_member_list,
};
use crate::numeric::{dec_digits, dec_val, is_digit, lemma_digits_end_bounds, digits_end,
    push_dec_u64, scan_dec_u64};

verus! {

// ---------------------------------------------------------------------------
// Envelope keys
// ---------------------------------------------------------------------------

pub open spec fn k_jsonrpc() -> Seq<u8> {
    seq![0x6a, 0x73, 0x6f, 0x6e, 0x72, 0x70, 0x63]
}

pub open spec fn k_version() -> Seq<u8> {
    seq![0x32, 0x2e, 0x30]
}

pub open spec fn k_id() -> Seq<u8> {
    seq![0x69, 0x64]
}

pub open spec fn k_method() -> Seq<u8> {
    seq![0x6d, 0x65, 0x74, 0x68, 0x6f, 0x64]
}

pub open spec fn k_params() -> Seq<u8> {
    seq![0x70, 0x61, 0x72, 0x61, 0x6d, 0x73]
}

pub open spec fn k_result() -> Seq<u8> {
    seq![0x72, 0x65, 0x73, 0x75, 0x6c, 0x74]
}

pub open spec fn k_error() -> Seq<u8> {
    seq![0x65, 0x72, 0x72, 0x6f, 0x72]
}

pub open spec fn k_code() -> Seq<u8> {
    seq![0x63, 0x6f, 0x64, 0x65]
}

pub open spec fn k_message() -> Seq<u8> {
    seq![0x6d, 0x65, 0x73, 0x73, 0x61, 0x67, 0x65]
}

pub open spec fn k_data() -> Seq<u8> {
    seq![0x64, 0x61, 0x74, 0x61]
}

fn b_jsonrpc() -> (v: Vec<u8>)
    ensures
        v@ == k_jsonrpc(),
{
    let mut v: Vec<u8> = Vec::new();
    v.push(0x6a);
    v.push(0x73);
    v.push(0x6f);
    v.push(0x6e);
    v.push(0x72);
    v.push(0x70);
    v.push(0x63);
    proof {
        assert(v@ =~= k_jsonrpc());
    }
    v
}

fn b_version() -> (v: Vec<u8>)
    ensures
        v@ == k_version(),
{
    let mut v: Vec<u8> = Vec::new();
    v.push(0x32);
    v.push(0x2e);
    v.push(0x30);
    proof {
        assert(v@ =~= k_version());
    }
    v
}

fn b_id() -> (v: Vec<u8>)
    ensures
        v@ == k_id(),
{
    let mut v: Vec<u8> = Vec::new();
    v.push(0x69);
    v.push(0x64);
    proof {
        assert(v@ =~= k_id());
    }
    v
}

fn b_method() -> (v: Vec<u8>)
    ensures
        v@ == k_method(),
{
    let mut v: Vec<u8> = Vec::new();
    v.push(0x6d);
    v.push(0x65);
    v.push(0x74);
    v.push(0x68);
    v.push(0x6f);
    v.push(0x64);
    proof {
        assert(v@ =~= k_method());
    }
    v
}

fn b_params() -> (v: Vec<u8>)
    ensures
        v@ == k_params(),
{
    let mut v: Vec<u8> = Vec::new();
    v.push(0x70);
    v.push(0x61);
    v.push(0x72);
    v.push(0x61);
    v.push(0x6d);
    v.push(0x73);
    proof {
        assert(v@ =~= k_params());
    }
    v
}

fn b_result() -> (v: Vec<u8>)
    ensures
        v@ == k_result(),
{
    let mut v: Vec<u8> = Vec::new();
    v.push(0x72);
    v.push(0x65);
    v.push(0x73);
    v.push(0x75);
    v.push(0x6c);
    v.push(0x74);
    proof {
        assert(v@ =~= k_result());
    }
    v
}

fn b_error() -> (v: Vec<u8>)
    ensures
        v@ == k_error(),
{
    let mut v: Vec<u8> = Vec::new();
    v.push(0x65);
    v.push(0x72);
    v.push(0x72);
    v.push(0x6f);
    v.push(0x72);
    proof {
        assert(v@ =~= k_error());
    }
    v
}

fn b_code() -> (v: Vec<u8>)
    ensures
        v@ == k_code(),
{
    let mut v: Vec<u8> = Vec::new();
    v.push(0x63);
    v.push(0x6f);
    v.push(0x64);
    v.push(0x65);
    proof {
        assert(v@ =~= k_code());
    }
    v
}

fn b_message() -> (v: Vec<u8>)
    ensures
        v@ == k_message(),
{
    let mut v: Vec<u8> = Vec::new();
    v.push(0x6d);
    v.push(0x65);
    v.push(0x73);
    v.push(0x73);
    v.push(0x61);
    v.push(0x67);
    v.push(0x65);
    proof {
        assert(v@ =~= k_message());
    }
    v
}

fn b_data() -> (v: Vec<u8>)
    ensures
        v@ == k_data(),
{
    let mut v: Vec<u8> = Vec::new();
    v.push(0x64);
    v.push(0x61);
    v.push(0x74);
    v.push(0x61);
    proof {
        assert(v@ =~= k_data());
    }
    v
}

/// Copies a byte vector.
pub fn clone_bytes(v: &Vec<u8>) -> (r: Vec<u8>)
    ensures
        r@ == v@,
{
    let r = v.clone();
    proof {
        assert(r@ =~= v@);
    }
    r
}

// ---------------------------------------------------------------------------
// Integer tokens
// ---------------------------------------------------------------------------

/// The `u64` denoted by a number token, when it is a plain run of digits
/// whose value fits.
pub open spec fn u64_of_num(t: Seq<u8>) -> Option<u64> {
    if t.len() > 0 && (forall|k: int| 0 <= k < t.len() ==> is_digit(#[trigger] t[k])) && dec_val(t)
        <= u64::MAX {
        Some(dec_val(t) as u64)
    } else {
        None
    }
}

/// The `i64` denoted by a number token: an optional minus sign and digits,
/// within the `i64` range.
pub open spec fn i64_of_num(t: Seq<u8>) -> Option<i64> {
    if t.len() > 0 && t[0] == 0x2d {
        let rest = t.subrange(1, t.len() as int);
        if rest.len() > 0 && (forall|k: int| 0 <= k < rest.len() ==> is_digit(#[trigger] rest[k]))
            && dec_val(rest) <= 0x8000000000000000 {
            Some((0 - dec_val(rest) as int) as i64)
        } else {
            None
        }
    } else if t.len() > 0 && (forall|k: int| 0 <= k < t.len() ==> is_digit(#[trigger] t[k]))
        && dec_val(t) <= i64::MAX {
        Some(dec_val(t) as i64)
    } else {
        None
    }
}

/// Converts a number token to `u64`; mirrors [`u64_of_num`].
pub fn num_to_u64(t: &Vec<u8>) -> (r: Option<u64>)
    ensures
        r == u64_of_num(t@),
{
    let (end, val) = scan_dec_u64(t, 0);
    proof {
        lemma_digits_end_bounds(t@, 0);
        assert(t@.subrange(0, t@.len() as int) =~= t@);
    }
    if end == t.len() {
        if t.len() == 0 {
            None
        } else {
            val
        }
    } else {
        None
    }
}

/// Converts a number token to `i64`; mirrors [`i64_of_num`].
pub fn num_to_i64(t: &Vec<u8>) -> (r: Option<i64>)
    ensures
        r == i64_of_num(t@),
{
    if t.len() == 0 {
        return None;
    }
    if t[0] == 0x2d {
        let ghost rest = t@.subrange(1, t@.len() as int);
        let (end, val) = scan_dec_u64(t, 1);
        proof {
            lemma_digits_end_bounds(t@, 1);
            assert forall|k: int| 1 <= k < digits_end(t@, 1) implies is_digit(#[trigger] t@[k])
                by {}
            assert(t@.subrange(1, end as int) =~= rest.subrange(0, end - 1));
            if end == t@.len() {
                assert(t@.subrange(1, end as int) =~= rest);
            }
            assert forall|k: int| 0 <= k < end - 1 implies is_digit(#[trigger] rest[k]) by {
                assert(rest[k] == t@[k + 1]);
            }
            if (end as int) < t@.len() {
                assert(rest[end - 1] == t@[end as int]);
                assert(!is_digit(rest[end - 1]));
            }
        }
        if end == t.len() && end > 1 {
            match val {
                Some(v) => {
                    if v <= 0x8000000000000000 {
                        if v == 0x8000000000000000 {
                            Some(i64::MIN)
                        } else {
                            Some(-(v as i64))
                        }
                    } else {
                        None
                    }
                },
                None => None,
            }
        } else {
            None
        }
    } else {
        let (end, val) = scan_dec_u64(t, 0);
        proof {
            lemma_digits_end_bounds(t@, 0);
            assert(t@.subrange(0, t@.len() as int) =~= t@);
        }
        if end == t.len() {
            match val {
                Some(v) => {
                    if v <= i64::MAX as u64 {
                        Some(v as i64)
                    } else {
                        None
                    }
                },
                None => None,
            }
        } else {
            None
        }
    }
}

// ---------------------------------------------------------------------------
// Requests
// ---------------------------------------------------------------------------

/// The request envelope as a JSON value:
/// `{"jsonrpc":"2.0","id":<id>,"method":<method>}`, with a `params` member
/// appended when params are given.
pub open spec fn req_jsonv(id: u64, method: Seq<u8>, params: Option<JsonV>) -> JsonV {
    match params {
        Some(p) => JsonV::Obj(
            seq![
                (k_jsonrpc(), JsonV::Str(k_version())),
                (k_id(), JsonV::Num(dec_digits(id as nat))),
                (k_method(), JsonV::Str(method)),
                (k_params(), p),
            ],
        ),
        None => JsonV::Obj(
            seq![
                (k_jsonrpc(), JsonV::Str(k_version())),
                (k_id(), JsonV::Num(dec_digits(id as nat))),
                (k_method(), JsonV::Str(method)),
            ],
        ),
    }
}

/// The serialized request body.
pub open spec fn spec_request_body(id: u64, method: Seq<u8>, params: Option<JsonV>) -> Seq<u8> {
    sv(req_jsonv(id, method, params))
}

/// Builds the serialized request body.
///
/// When `params` is `None` — the caller expects a zero-sized result — the
/// body carries no `params` member at all.
pub fn build_request(id: u64, method: &Vec<u8>, params: Option<&JsonValue>) -> (body: Vec<u8>)
    ensures
        body@ == spec_request_body(
            id,
            method@,
            match params {
                Some(p) => Some(p.deep()),
                None => None,
            },
        ),
{
    let mut idtok: Vec<u8> = Vec::new();
    push_dec_u64(id, &mut idtok);
    let ghost gid = dec_digits(id as nat);
    let mut members: Vec<(Vec<u8>, JsonValue)> = Vec::new();
    members.push((b_jsonrpc(), JsonValue::Str(b_version())));
    members.push((b_id(), JsonValue::Num(idtok)));
    members.push((b_method(), JsonValue::Str(clone_bytes(method))));
    match params {
        Some(p) => {
            members.push((b_params(), clone_json(p)));
            let v = JsonValue::Obj(members);
            proof {
                let ms = v->Obj_0@;
                lemma_deep_members_index(ms);
                assert(deep_members(ms)[0] == (ms[0].0@, ms[0].1.deep()));
                assert(deep_members(ms)[1] == (ms[1].0@, ms[1].1.deep()));
                assert(deep_members(ms)[2] == (ms[2].0@, ms[2].1.deep()));
                assert(deep_members(ms)[3] == (ms[3].0@, ms[3].1.deep()));
                assert(deep_members(ms) =~= seq![
                    (k_jsonrpc(), JsonV::Str(k_version())),
                    (k_id(), JsonV::Num(gid)),
                    (k_method(), JsonV::Str(method@)),
                    (k_params(), p.deep()),
                ]);
            }
            to_bytes(&v)
        },
        None => {
            let v = JsonValue::Obj(members);
            proof {
                let ms = v->Obj_0@;
                lemma_deep_members_index(ms);
                assert(deep_members(ms)[0] == (ms[0].0@, ms[0].1.deep()));
                assert(deep_members(ms)[1] == (ms[1].0@, ms[1].1.deep()));
                assert(deep_members(ms)[2] == (ms[2].0@, ms[2].1.deep()));
                assert(deep_members(ms) =~= seq![
                    (k_jsonrpc(), JsonV::Str(k_version())),
                    (k_id(), JsonV::Num(gid)),
                    (k_method(), JsonV::Str(method@)),
                ]);
            }
            to_bytes(&v)
        },
    }
}

/// Copies a JSON value.
pub fn clone_json(v: &JsonValue) -> (r: JsonValue)
    ensures
        r.deep() == v.deep(),
    decreases v, 0int,
{
    match v {
        JsonValue::Null => JsonValue::Null,
        JsonValue::Bool(b) => JsonValue::Bool(*b),
        JsonValue::Num(t) => JsonValue::Num(clone_bytes(t)),
        JsonValue::Str(t) => JsonValue::Str(clone_bytes(t)),
        JsonValue::Arr(items) => JsonValue::Arr(clone_json_list(items)),
        JsonValue::Obj(members) => JsonValue::Obj(clone_json_members(members)),
    }
}

fn clone_json_list(items: &Vec<JsonValue>) -> (r: Vec<JsonValue>)
    ensures
        deep_seq(r@) == deep_seq(items@),
    decreases items, 1int,
{
    let mut out: Vec<JsonValue> = Vec::new();
    let mut k: usize = 0;
    while k < items.len()
        invariant
            k <= items@.len(),
            out@.len() == k,
            forall|j: int| 0 <= j < k ==> #[trigger] out@[j].deep() == items@[j].deep(),
        decreases items@.len() - k,
    {
        let c = clone_json(&items[k]);
        out.push(c);
        k = k + 1;
    }
    proof {
        crate::json::lemma_deep_seq_index(out@);
        crate::json::lemma_deep_seq_index(items@);
        assert forall|j: int| 0 <= j < out@.len() implies deep_seq(out@)[j] == deep_seq(items@)[j]
            by {
            assert(out@[j].deep() == items@[j].deep());
        }
        assert(deep_seq(out@) =~= deep_seq(items@));
    }
    out
}

fn clone_json_members(members: &Vec<(Vec<u8>, JsonValue)>) -> (r: Vec<(Vec<u8>, JsonValue)>)
    ensures
        deep_members(r@) == deep_members(members@),
    decreases members, 1int,
{
    let mut out: Vec<(Vec<u8>, JsonValue)> = Vec::new();
    let mut k: usize = 0;
    while k < members.len()
        invariant
            k <= members@.len(),
            out@.len() == k,
            forall|j: int| 0 <= j < k ==> (#[trigger] out@[j]).0@ == members@[j].0@,
            forall|j: int| 0 <= j < k ==> (#[trigger] out@[j]).1.deep() == members@[j].1.deep(),
        decreases members@.len() - k,
    {
        let ck = clone_bytes(&members[k].0);
        let cv = clone_json(&members[k].1);
        out.push((ck, cv));
        k = k + 1;
    }
    proof {
        lemma_deep_members_index(out@);
        lemma_deep_members_index(members@);
        assert forall|j: int|
            0 <= j < out@.len() implies deep_members(out@)[j] == deep_members(members@)[j] by {
            assert(out@[j].0@ == members@[j].0@ && out@[j].1.deep() == members@[j].1.deep());
        }
        assert(deep_members(out@) =~= deep_members(members@));
    }
    out
}

// ---------------------------------------------------------------------------
// Responses
// ---------------------------------------------------------------------------

/// What a response body means.
pub enum RespV {
    /// `{"id":.., "result":..}`: the raw rendering of the `result` value.
    Success { id: u64, result: Seq<u8> },
    /// `{"id":.., "error":{"code":..,"message":..,"data"?:..}}`.
    Failure { code: i64, message: Seq<u8>, data: Option<Seq<u8>> },
    /// Anything else: not a JSON-RPC response over HTTP.
    Invalid,
}

/// Reads `{"code":..,"message":..,"data"?:..}` out of an `error` member.
pub open spec fn spec_error_members(ms: Seq<(Seq<u8>, JsonV)>) -> Option<
    (i64, Seq<u8>, Option<Seq<u8>>),
> {
    match jv_lookup(ms, k_error()) {
        Some(JsonV::Obj(ems)) => match (jv_lookup(ems, k_code()), jv_lookup(ems, k_message())) {
            (Some(JsonV::Num(ct)), Some(JsonV::Str(m))) => match i64_of_num(ct) {
                Some(code) => Some(
                    (
                        code,
                        m,
                        match jv_lookup(ems, k_data()) {
                            Some(d) => Some(sv(d)),
                            None => None,
                        },
                    ),
                ),
                None => None,
            },
            _ => None,
        },
        _ => None,
    }
}

/// Classifies a response body.
///
/// A body is a success when it is a JSON object with an integer `id` and a
/// `result` member; a failure when it has an integer `id` and a well-formed
/// `error` member instead; anything else is invalid (notifications are a
/// protocol violation over HTTP).
pub open spec fn spec_classify(s: Seq<u8>) -> RespV {
    match sp_json(s) {
        Some(JsonV::Obj(ms)) => match jv_lookup(ms, k_id()) {
            Some(JsonV::Num(t)) => match u64_of_num(t) {
                Some(id) => match jv_lookup(ms, k_result()) {
                    Some(rv) => RespV::Success { id, result: sv(rv) },
                    None => match spec_error_members(ms) {
                        Some((code, message, data)) => RespV::Failure { code, message, data },
                        None => RespV::Invalid,
                    },
                },
                None => RespV::Invalid,
            },
            _ => RespV::Invalid,
        },
        _ => RespV::Invalid,
    }
}

/// An error object found in a body that is not a full response: some
/// providers omit the `id` on errors.
pub open spec fn spec_embedded_error(s: Seq<u8>) -> Option<(i64, Seq<u8>, Option<Seq<u8>>)> {
    match sp_json(s) {
        Some(JsonV::Obj(ms)) => spec_error_members(ms),
        _ => None,
    }
}

/// The abstract content of an optional raw byte field.
pub open spec fn opt_bytes_view(o: Option<Vec<u8>>) -> Option<Seq<u8>> {
    match o {
        Some(d) => Some(d@),
        None => None,
    }
}

/// A classified response body.
#[derive(Debug, PartialEq, Eq)]
pub enum ResponseKind {
    /// The raw rendering of the `result` value, to be decoded by the caller.
    Success { id: u64, result: Vec<u8> },
    /// The error object the server answered with.
    Failure { error: JsonRpcError },
    /// The body is not a JSON-RPC response.
    Invalid,
}

fn error_from_members(ms: &Vec<(Vec<u8>, JsonValue)>) -> (r: Option<JsonRpcError>)
    ensures
        match r {
            Some(e) => spec_error_members(deep_members(ms@)) == Some(
                (e.code, e.message@, opt_bytes_view(e.data)),
            ),
            None => spec_error_members(deep_members(ms@)) is None,
        },
{
    match obj_get(ms, &b_error()) {
        None => None,
        Some(ev) => match ev {
            JsonValue::Obj(ems) => {
                let code = match obj_get(ems, &b_code()) {
                    Some(cv) => match cv {
                        JsonValue::Num(t) => num_to_i64(t),
                        _ => None,
                    },
                    None => None,
                };
                let message = match obj_get(ems, &b_message()) {
                    Some(mv) => match mv {
                        JsonValue::Str(m) => Some(clone_bytes(m)),
                        _ => None,
                    },
                    None => None,
                };
                match (code, message) {
                    (Some(c), Some(m)) => {
                        let data = match obj_get(ems, &b_data()) {
                            Some(d) => Some(to_bytes(d)),
                            None => None,
                        };
                        Some(JsonRpcError { code: c, message: m, data })
                    },
                    _ => None,
                }
            },
            _ => None,
        },
    }
}

/// Classifies a response body; mirrors [`spec_classify`].
pub fn classify_response(body: &Vec<u8>) -> (r: ResponseKind)
    ensures
        match r {
            ResponseKind::Success { id, result } => spec_classify(body@) == RespV::Success {
                id,
                result: result@,
            },
            ResponseKind::Failure { error } => spec_classify(body@) == RespV::Failure {
                code: error.code,
                message: error.message@,
                data: opt_bytes_view(error.data),
            },
            ResponseKind::Invalid => spec_classify(body@) == RespV::Invalid,
        },
{
    match parse_json(body) {
        None => ResponseKind::Invalid,
        Some(v) => match v {
            JsonValue::Obj(ms) => {
                let id = match obj_get(&ms, &b_id()) {
                    Some(idv) => match idv {
                        JsonValue::Num(t) => num_to_u64(t),
                        _ => None,
                    },
                    None => None,
                };
                match id {
                    None => ResponseKind::Invalid,
                    Some(idval) => match obj_get(&ms, &b_result()) {
                        Some(rv) => ResponseKind::Success { id: idval, result: to_bytes(rv) },
                        None => match error_from_members(&ms) {
                            Some(e) => ResponseKind::Failure { error: e },
                            None => ResponseKind::Invalid,
                        },
                    },
                }
            },
            _ => ResponseKind::Invalid,
        },
    }
}

/// Reads an error object out of an arbitrary body; mirrors
/// [`spec_embedded_error`].
pub fn extract_embedded_error(body: &Vec<u8>) -> (r: Option<JsonRpcError>)
    ensures
        match r {
            Some(e) => spec_embedded_error(body@) == Some(
                (e.code, e.message@, opt_bytes_view(e.data)),
            ),
            None => spec_embedded_error(body@) is None,
        },
{
    match parse_json(body) {
        None => None,
        Some(v) => match v {
            JsonValue::Obj(ms) => error_from_members(&ms),
            _ => None,
        },
    }
}

// ---------------------------------------------------------------------------
// Reading a request back (round trip)
// ---------------------------------------------------------------------------

/// Reads the envelope fields out of a parsed request.
pub open spec fn req_of_jsonv(v: JsonV) -> Option<(u64, Seq<u8>, Option<JsonV>)> {
    match v {
        JsonV::Obj(ms) => {
            if jv_lookup(ms, k_jsonrpc()) == Some(JsonV::Str(k_version())) {
                match (jv_lookup(ms, k_id()), jv_lookup(ms, k_method())) {
                    (Some(JsonV::Num(t)), Some(JsonV::Str(m))) => match u64_of_num(t) {
                        Some(id) => Some((id, m, jv_lookup(ms, k_params()))),
                        None => None,
                    },
                    _ => None,
                }
            } else {
                None
            }
        },
        _ => None,
    }
}

/// Parses a request body back into id, method and params.
pub open spec fn spec_parse_request(s: Seq<u8>) -> Option<(u64, Seq<u8>, Option<JsonV>)> {
    match sp_json(s) {
        Some(v) => req_of_jsonv(v),
        None => None,
    }
}

/// Parses a request body; mirrors [`spec_parse_request`].
pub fn parse_request(body: &Vec<u8>) -> (r: Option<(u64, Vec<u8>, Option<JsonValue>)>)
    ensures
        match r {
            Some((id, m, p)) => spec_parse_request(body@) == Some(
                (
                    id,
                    m@,
                    match p {
                        Some(pv) => Some(pv.deep()),
                        None => None,
                    },
                ),
            ),
            None => spec_parse_request(body@) is None,
        },
{
    match parse_json(body) {
        None => None,
        Some(v) => match v {
            JsonValue::Obj(ms) => {
                let version_ok = match obj_get(&ms, &b_jsonrpc()) {
                    Some(vv) => match vv {
                        JsonValue::Str(t) => bytes_eq(t, &b_version()),
                        _ => false,
                    },
                    None => false,
                };
                if !version_ok {
                    return None;
                }
                let id = match obj_get(&ms, &b_id()) {
                    Some(idv) => match idv {
                        JsonValue::Num(t) => num_to_u64(t),
                        _ => None,
                    },
                    None => None,
                };
                let method = match obj_get(&ms, &b_method()) {
                    Some(mv) => match mv {
                        JsonValue::Str(m) => Some(clone_bytes(m)),
                        _ => None,
                    },
                    None => None,
                };
                match (id, method) {
                    (Some(idval), Some(m)) => {
                        let params = match obj_get(&ms, &b_params()) {
                            Some(pv) => Some(clone_json(pv)),
                            None => None,
                        };
                        Some((idval, m, params))
                    },
                    _ => None,
                }
            },
            _ => None,
        },
    }
}

// ---------------------------------------------------------------------------
// Request round trip
// ---------------------------------------------------------------------------

proof fn lemma_req_wf(id: u64, method: Seq<u8>, params: Option<JsonV>)
    requires
        match params {
            Some(p) => wf_json(p),
            None => true,
        },
    ensures
        wf_json(req_jsonv(id, method, params)),
{
    let t = dec_digits(id as nat);
    crate::numeric::lemma_dec_digits_are_digits(id as nat);
    assert forall|k: int| 0 <= k < t.len() implies crate::json::is_num_char(#[trigger] t[k]) by {
        assert(is_digit(t[k]));
    }
    assert(wf_json(JsonV::Num(t)));
    assert(wf_json(JsonV::Str(k_version())));
    assert(wf_json(JsonV::Str(method)));
    match req_jsonv(id, method, params) {
        JsonV::Obj(ms) => {
            assert(ms[0].1 == JsonV::Str(k_version()));
            assert(ms[1].1 == JsonV::Num(t));
            assert(ms[2].1 == JsonV::Str(method));
            match params {
                Some(p) => {
                    assert(ms.len() == 4);
                    assert(ms[3].1 == p);
                    assert(wf_member_list(ms, 4));
                    assert(wf_member_list(ms, 3));
                    assert(wf_member_list(ms, 2));
                    assert(wf_member_list(ms, 1));
                    assert(wf_member_list(ms, 0));
                },
                None => {
                    assert(ms.len() == 3);
                    assert(wf_member_list(ms, 3));
                    assert(wf_member_list(ms, 2));
                    assert(wf_member_list(ms, 1));
                    assert(wf_member_list(ms, 0));
                },
            }
        },
        _ => {},
    }
}

proof fn lemma_keys_distinct()
    ensures
        k_jsonrpc() != k_id(),
        k_jsonrpc() != k_method(),
        k_jsonrpc() != k_params(),
        k_id() != k_method(),
        k_id() != k_params(),
        k_method() != k_params(),
{
    assert(k_jsonrpc().len() == 7 && k_id().len() == 2 && k_method().len() == 6 && k_params().len()
        == 6);
    assert(k_method()[0] == 0x6d && k_params()[0] == 0x70);
}

proof fn lemma_req_extract(id: u64, method: Seq<u8>, params: Option<JsonV>)
    ensures
        req_of_jsonv(req_jsonv(id, method, params)) == Some((id, method, params)),
{
    lemma_keys_distinct();
    crate::numeric::lemma_dec_digits_are_digits(id as nat);
    crate::numeric::lemma_dec_roundtrip(id as nat);
    let t = dec_digits(id as nat);
    assert(u64_of_num(t) == Some(id));
    match req_jsonv(id, method, params) {
        JsonV::Obj(ms) => {
            let m0 = (k_jsonrpc(), JsonV::Str(k_version()));
            let m1 = (k_id(), JsonV::Num(t));
            let m2 = (k_method(), JsonV::Str(method));
            let ms1 = ms.subrange(1, ms.len() as int);
            let ms2 = ms1.subrange(1, ms1.len() as int);
            let ms3 = ms2.subrange(1, ms2.len() as int);
            match params {
                Some(p) => {
                    let m3 = (k_params(), p);
                    assert(ms =~= seq![m0, m1, m2, m3]);
                    assert(ms1 =~= seq![m1, m2, m3]);
                    assert(ms2 =~= seq![m2, m3]);
                    assert(ms3 =~= seq![m3]);
                    assert(jv_lookup(ms, k_jsonrpc()) == Some(JsonV::Str(k_version())));
                    assert(jv_lookup(ms, k_id()) == jv_lookup(ms1, k_id()));
                    assert(jv_lookup(ms1, k_id()) == Some(JsonV::Num(t)));
                    assert(jv_lookup(ms, k_method()) == jv_lookup(ms1, k_method()));
                    assert(jv_lookup(ms1, k_method()) == jv_lookup(ms2, k_method()));
                    assert(jv_lookup(ms2, k_method()) == Some(JsonV::Str(method)));
                    assert(jv_lookup(ms, k_params()) == jv_lookup(ms1, k_params()));
                    assert(jv_lookup(ms1, k_params()) == jv_lookup(ms2, k_params()));
                    assert(jv_lookup(ms2, k_params()) == jv_lookup(ms3, k_params()));
                    assert(jv_lookup(ms3, k_params()) == Some(p));
                },
                None => {
                    assert(ms =~= seq![m0, m1, m2]);
                    assert(ms1 =~= seq![m1, m2]);
                    assert(ms2 =~= seq![m2]);
                    assert(ms3 =~= Seq::<(Seq<u8>, JsonV)>::empty());
                    assert(jv_lookup(ms, k_jsonrpc()) == Some(JsonV::Str(k_version())));
                    assert(jv_lookup(ms, k_id()) == jv_lookup(ms1, k_id()));
                    assert(jv_lookup(ms1, k_id()) == Some(JsonV::Num(t)));
                    assert(jv_lookup(ms, k_method()) == jv_lookup(ms1, k_method()));
                    assert(jv_lookup(ms1, k_method()) == jv_lookup(ms2, k_method()));
                    assert(jv_lookup(ms2, k_method()) == Some(JsonV::Str(method)));
                    assert(jv_lookup(ms, k_params()) == jv_lookup(ms1, k_params()));
                    assert(jv_lookup(ms1, k_params()) == jv_lookup(ms2, k_params()));
                    assert(jv_lookup(ms2, k_params()) == jv_lookup(ms3, k_params()));
                    assert(jv_lookup(ms3, k_params()) is None);
                },
            }
        },
        _ => {},
    }
}

/// Serializing a request and parsing the body back yields the same id,
/// method and params, for every id, method and well-formed params.
pub proof fn lemma_request_roundtrip(id: u64, method: Seq<u8>, params: Option<JsonV>)
    requires
        match params {
            Some(p) => wf_json(p),
            None => true,
        },
    ensures
        spec_parse_request(spec_request_body(id, method, params)) == Some((id, method, params)),
{
    lemma_req_wf(id, method, params);
    crate::json::lemma_json_roundtrip(req_jsonv(id, method, params));
    lemma_req_extract(id, method, params);
}

/// A request built without params — the zero-sized return case — carries no
/// `params` member at all.
pub proof fn lemma_zero_sized_omits_params(id: u64, method: Seq<u8>)
    ensures
        match req_jsonv(id, method, None) {
            JsonV::Obj(ms) => jv_lookup(ms, k_params()) is None,
            _ => false,
        },
{
    lemma_keys_distinct();
    match req_jsonv(id, method, None) {
        JsonV::Obj(ms) => {
            let ms1 = ms.subrange(1, ms.len() as int);
            let ms2 = ms1.subrange(1, ms1.len() as int);
            let ms3 = ms2.subrange(1, ms2.len() as int);
            assert(ms1 =~= seq![(k_id(), JsonV::Num(dec_digits(id as nat))), (k_method(),
                JsonV::Str(method))]);
            assert(ms2 =~= seq![(k_method(), JsonV::Str(method))]);
            assert(ms3 =~= Seq::<(Seq<u8>, JsonV)>::empty());
            assert(jv_lookup(ms, k_params()) == jv_lookup(ms1, k_params()));
            assert(jv_lookup(ms1, k_params()) == jv_lookup(ms2, k_params()));
            assert(jv_lookup(ms2, k_params()) == jv_lookup(ms3, k_params()));
            assert(jv_lookup(ms3, k_params()) is None);
        },
        _ => {},
    }
}

} // verus!
