//! A small JSON codec: an abstract syntax tree, a serializer, a
//! recursive-descent parser, and proofs that the parser inverts the
//! serializer.
//!
//! The codec is the crate's own framing layer for the JSON-RPC wire format.
//! Number tokens are kept as raw byte runs, so no floating-point values
//! appear anywhere; integer-valued tokens are converted on demand.
//! String escapes cover `\"`, `\\`, `\/`, `\b`, `\f`, `\n`, `\r`, `\t` and
//! `\uXXXX` for code points below 0x80; other `\u` escapes are rejected as
//! unparseable input.

use vstd::prelude::*;
use crate::numeric::is_digit;

verus! {

/// A parsed JSON value.
///
/// `Num` holds the raw number token; `Str` holds the unescaped content
/// bytes; `Obj` holds members in source order.
#[derive(Debug, PartialEq, Eq)]
pub enum JsonValue {
    Null,
    Bool(bool),
    Num(Vec<u8>),
    Str(Vec<u8>),
    Arr(Vec<JsonValue>),
    Obj(Vec<(Vec<u8>, JsonValue)>),
}

/// The mathematical shape of a JSON value, used in specifications.
pub enum JsonV {
    Null,
    Bool(bool),
    Num(Seq<u8>),
    Str(Seq<u8>),
    Arr(Seq<JsonV>),
    Obj(Seq<(Seq<u8>, JsonV)>),
}

impl JsonValue {
    /// The abstract value of this node.
    pub open spec fn deep(self) -> JsonV
        decreases self,
    {
        match self {
            JsonValue::Null => JsonV::Null,
            JsonValue::Bool(b) => JsonV::Bool(b),
            JsonValue::Num(t) => JsonV::Num(t@),
            JsonValue::Str(t) => JsonV::Str(t@),
            JsonValue::Arr(items) => JsonV::Arr(deep_seq(items@)),
            JsonValue::Obj(members) => JsonV::Obj(deep_members(members@)),
        }
    }
}

/// The abstract values of a sequence of nodes.
pub open spec fn deep_seq(s: Seq<JsonValue>) -> Seq<JsonV>
    decreases s,
{
    if s.len() == 0 {
        Seq::empty()
    } else {
        seq![s[0].deep()] + deep_seq(s.subrange(1, s.len() as int))
    }
}

/// The abstract values of a sequence of object members.
pub open spec fn deep_members(s: Seq<(Vec<u8>, JsonValue)>) -> Seq<(Seq<u8>, JsonV)>
    decreases s,
{
    if s.len() == 0 {
        Seq::empty()
    } else {
        seq![(s[0].0@, s[0].1.deep())] + deep_members(s.subrange(1, s.len() as int))
    }
}

pub proof fn lemma_deep_seq_index(s: Seq<JsonValue>)
    ensures
        deep_seq(s).len() == s.len(),
        forall|k: int| 0 <= k < s.len() ==> deep_seq(s)[k] == #[trigger] s[k].deep(),
    decreases s.len(),
{
    if s.len() > 0 {
        let rest = s.subrange(1, s.len() as int);
        lemma_deep_seq_index(rest);
        assert forall|k: int| 0 <= k < s.len() implies deep_seq(s)[k] == #[trigger] s[k].deep() by {
            if k > 0 {
                assert(deep_seq(s)[k] == deep_seq(rest)[k - 1]);
                assert(rest[k - 1] == s[k]);
            }
        }
    }
}

pub proof fn lemma_deep_members_index(s: Seq<(Vec<u8>, JsonValue)>)
    ensures
        deep_members(s).len() == s.len(),
        forall|k: int| 0 <= k < s.len() ==> deep_members(s)[k] == (#[trigger] s[k].0@, s[k].1.deep()),
    decreases s.len(),
{
    if s.len() > 0 {
        let rest = s.subrange(1, s.len() as int);
        lemma_deep_members_index(rest);
        assert forall|k: int|
            0 <= k < s.len() implies deep_members(s)[k] == (#[trigger] s[k].0@, s[k].1.deep()) by {
            if k > 0 {
                assert(deep_members(s)[k] == deep_members(rest)[k - 1]);
                assert(rest[k - 1] == s[k]);
            }
        }
    }
}

pub proof fn lemma_deep_seq_cons(x: JsonValue, s: Seq<JsonValue>)
    ensures
        deep_seq(seq![x] + s) == seq![x.deep()] + deep_seq(s),
{
    let t = seq![x] + s;
    assert(t.len() == s.len() + 1);
    assert(t[0] == x);
    assert(t.subrange(1, t.len() as int) =~= s);
}

pub proof fn lemma_deep_members_cons(k: Vec<u8>, x: JsonValue, s: Seq<(Vec<u8>, JsonValue)>)
    ensures
        deep_members(seq![(k, x)] + s) == seq![(k@, x.deep())] + deep_members(s),
{
    let t = seq![(k, x)] + s;
    assert(t[0] == (k, x));
    assert(t.subrange(1, t.len() as int) =~= s);
}

// ---------------------------------------------------------------------------
// Byte classes and escape sequences
// ---------------------------------------------------------------------------

/// JSON whitespace.
pub open spec fn is_ws(b: u8) -> bool {
    b == 0x20 || b == 0x09 || b == 0x0a || b == 0x0d
}

/// Bytes that may continue a number token.
pub open spec fn is_num_char(b: u8) -> bool {
    is_digit(b) || b == 0x2d || b == 0x2b || b == 0x2e || b == 0x65 || b == 0x45
}

/// A hexadecimal digit.
pub open spec fn is_hex(b: u8) -> bool {
    is_digit(b) || (0x61 <= b <= 0x66) || (0x41 <= b <= 0x46)
}

/// Value of a hexadecimal digit.
pub open spec fn hex_val(b: u8) -> nat {
    if is_digit(b) {
        (b - 0x30) as nat
    } else if 0x61 <= b <= 0x66 {
        (b - 0x61 + 10) as nat
    } else if 0x41 <= b <= 0x46 {
        (b - 0x41 + 10) as nat
    } else {
        0
    }
}

/// Lower-case hexadecimal digit for a value below 16.
pub open spec fn hex_digit(v: nat) -> u8 {
    if v < 10 {
        (v + 0x30) as u8
    } else {
        (v - 10 + 0x61) as u8
    }
}

/// The single-character escapes, keyed by the byte after the backslash.
pub open spec fn is_simple_escape(b: u8) -> bool {
    b == 0x22 || b == 0x5c || b == 0x2f || b == 0x62 || b == 0x66 || b == 0x6e || b == 0x72
        || b == 0x74
}

/// The byte denoted by a single-character escape.
pub open spec fn simple_unescape(b: u8) -> u8 {
    if b == 0x62 {
        0x08
    } else if b == 0x66 {
        0x0c
    } else if b == 0x6e {
        0x0a
    } else if b == 0x72 {
        0x0d
    } else if b == 0x74 {
        0x09
    } else {
        b
    }
}

/// How the serializer writes one string content byte.
pub open spec fn esc_byte(b: u8) -> Seq<u8> {
    if b == 0x22 {
        seq![0x5c, 0x22]
    } else if b == 0x5c {
        seq![0x5c, 0x5c]
    } else if b < 0x20 {
        seq![0x5c, 0x75, 0x30, 0x30, hex_digit((b / 16) as nat), hex_digit((b % 16) as nat)]
    } else {
        seq![b]
    }
}

/// How the serializer writes a whole string content.
pub open spec fn esc_bytes(m: Seq<u8>) -> Seq<u8>
    decreases m.len(),
{
    if m.len() == 0 {
        Seq::empty()
    } else {
        esc_byte(m[0]) + esc_bytes(m.subrange(1, m.len() as int))
    }
}

pub proof fn lemma_esc_bytes_snoc(m: Seq<u8>, b: u8)
    ensures
        esc_bytes(m.push(b)) == esc_bytes(m) + esc_byte(b),
    decreases m.len(),
{
    let t = m.push(b);
    if m.len() == 0 {
        assert(t[0] == b);
        assert(t.subrange(1, t.len() as int) =~= Seq::<u8>::empty());
        assert(esc_bytes(t.subrange(1, t.len() as int)) == Seq::<u8>::empty());
        assert(esc_bytes(t) =~= esc_byte(b));
        assert(esc_bytes(m) + esc_byte(b) =~= esc_byte(b));
    } else {
        assert(t[0] == m[0]);
        assert(t.subrange(1, t.len() as int) =~= m.subrange(1, m.len() as int).push(b));
        lemma_esc_bytes_snoc(m.subrange(1, m.len() as int), b);
        assert(esc_bytes(t) =~= esc_bytes(m) + esc_byte(b));
    }
}

/// Appends the escaped form of `m` to `out`.
pub fn write_escaped(m: &Vec<u8>, out: &mut Vec<u8>)
    ensures
        final(out)@ == old(out)@ + esc_bytes(m@),
{
    let mut k: usize = 0;
    while k < m.len()
        invariant
            k <= m@.len(),
            out@ == old(out)@ + esc_bytes(m@.subrange(0, k as int)),
        decreases m@.len() - k,
    {
        let b = m[k];
        proof {
            lemma_esc_bytes_snoc(m@.subrange(0, k as int), b);
            assert(m@.subrange(0, k as int).push(b) =~= m@.subrange(0, k + 1));
        }
        if b == 0x22 {
            out.push(0x5c);
            out.push(0x22);
        } else if b == 0x5c {
            out.push(0x5c);
            out.push(0x5c);
        } else if b < 0x20 {
            out.push(0x5c);
            out.push(0x75);
            out.push(0x30);
            out.push(0x30);
            let hi = b / 16;
            let lo = b % 16;
            out.push(if hi < 10 { hi + 0x30 } else { hi - 10 + 0x61 });
            out.push(if lo < 10 { lo + 0x30 } else { lo - 10 + 0x61 });
        } else {
            out.push(b);
        }
        proof {
            assert(out@ =~= old(out)@ + esc_bytes(m@.subrange(0, k + 1)));
        }
        k = k + 1;
    }
    proof {
        assert(m@.subrange(0, m@.len() as int) =~= m@);
    }
}

// ---------------------------------------------------------------------------
// String token parsing
// ---------------------------------------------------------------------------

/// Parses the body of a string token, starting just after the opening
/// quote; yields the unescaped content and the position after the closing
/// quote.
pub open spec fn sp_str_body(s: Seq<u8>, i: int) -> Option<(Seq<u8>, int)>
    decreases s.len() - i,
{
    if i < 0 || i >= s.len() {
        None
    } else if s[i] == 0x22 {
        Some((Seq::empty(), i + 1))
    } else if s[i] == 0x5c {
        if i + 1 < s.len() && is_simple_escape(s[i + 1]) {
            match sp_str_body(s, i + 2) {
                Some((t, e)) => Some((seq![simple_unescape(s[i + 1])] + t, e)),
                None => None,
            }
        } else if i + 5 < s.len() && s[i + 1] == 0x75 && is_hex(s[i + 2]) && is_hex(s[i + 3])
            && is_hex(s[i + 4]) && is_hex(s[i + 5]) && hex_val(s[i + 2]) * 4096 + hex_val(
            s[i + 3],
        ) * 256 + hex_val(s[i + 4]) * 16 + hex_val(s[i + 5]) < 0x80 {
            match sp_str_body(s, i + 6) {
                Some((t, e)) => Some(
                    (
                        seq![(hex_val(s[i + 4]) * 16 + hex_val(s[i + 5])) as u8] + t,
                        e,
                    ),
                ),
                None => None,
            }
        } else {
            None
        }
    } else if s[i] >= 0x20 {
        match sp_str_body(s, i + 1) {
            Some((t, e)) => Some((seq![s[i]] + t, e)),
            None => None,
        }
    } else {
        None
    }
}

/// Parses a string token body; mirrors [`sp_str_body`].
pub fn parse_str_body(s: &Vec<u8>, i: usize) -> (r: Option<(Vec<u8>, usize)>)
    requires
        i <= s@.len(),
    ensures
        match r {
            Some((t, e)) => sp_str_body(s@, i as int) == Some((t@, e as int)) && i < e
                <= s@.len(),
            None => sp_str_body(s@, i as int) is None,
        },
{
    let mut acc: Vec<u8> = Vec::new();
    let mut j: usize = i;
    loop
        invariant
            i <= j <= s@.len(),
            sp_str_body(s@, i as int) == match sp_str_body(s@, j as int) {
                Some((t, e)) => Some((acc@ + t, e)),
                None => None::<(Seq<u8>, int)>,
            },
        decreases s@.len() - j,
    {
        if j == s.len() {
            return None;
        }
        let b = s[j];
        if b == 0x22 {
            proof {
                assert(acc@ + Seq::<u8>::empty() =~= acc@);
            }
            return Some((acc, j + 1));
        } else if b == 0x5c {
            if j + 1 < s.len() && (s[j + 1] == 0x22 || s[j + 1] == 0x5c || s[j + 1] == 0x2f || s[j
                + 1] == 0x62 || s[j + 1] == 0x66 || s[j + 1] == 0x6e || s[j + 1] == 0x72 || s[j + 1]
                == 0x74) {
                let c = s[j + 1];
                let u = if c == 0x62 {
                    0x08
                } else if c == 0x66 {
                    0x0c
                } else if c == 0x6e {
                    0x0a
                } else if c == 0x72 {
                    0x0d
                } else if c == 0x74 {
                    0x09
                } else {
                    c
                };
                proof {
                    lemma_push_comp(acc@, u, sp_str_body(s@, (j + 2) as int));
                }
                acc.push(u);
                j = j + 2;
            } else if s.len() - j > 5 && s[j + 1] == 0x75 && hex_ok(s[j + 2]) && hex_ok(s[j + 3])
                && hex_ok(s[j + 4]) && hex_ok(s[j + 5]) && (s[j + 2] == 0x30 && s[j + 3] == 0x30
                && hex_val_of(s[j + 4]) < 8) {
                let u: u8 = hex_val_of(s[j + 4]) * 16 + hex_val_of(s[j + 5]);
                proof {
                    lemma_push_comp(acc@, u, sp_str_body(s@, (j + 6) as int));
                }
                acc.push(u);
                j = j + 6;
            } else {
                proof {
                    if j + 5 < s@.len() && s@[j as int + 1] == 0x75 && is_hex(s@[j as int + 2])
                        && is_hex(s@[j as int + 3]) && is_hex(s@[j as int + 4]) && is_hex(
                        s@[j as int + 5],
                    ) {
                        let v = hex_val(s@[j as int + 2]) * 4096 + hex_val(s@[j as int + 3]) * 256
                            + hex_val(s@[j as int + 4]) * 16 + hex_val(s@[j as int + 5]);
                        assert(v < 0x80 ==> (s@[j as int + 2] == 0x30 && s@[j as int + 3] == 0x30
                            && hex_val(s@[j as int + 4]) < 8));
                    }
                }
                return None;
            }
        } else if b >= 0x20 {
            proof {
                lemma_push_comp(acc@, b, sp_str_body(s@, (j + 1) as int));
            }
            acc.push(b);
            j = j + 1;
        } else {
            return None;
        }
    }
}

/// Whether a byte is a hexadecimal digit; mirrors [`is_hex`].
fn hex_ok(b: u8) -> (r: bool)
    ensures
        r == is_hex(b),
{
    (b >= 0x30 && b <= 0x39) || (b >= 0x61 && b <= 0x66) || (b >= 0x41 && b <= 0x46)
}

/// The value of a hexadecimal digit; mirrors [`hex_val`].
fn hex_val_of(b: u8) -> (r: u8)
    ensures
        r == hex_val(b),
        r < 16 || !is_hex(b),
{
    if b >= 0x30 && b <= 0x39 {
        b - 0x30
    } else if b >= 0x61 && b <= 0x66 {
        b - 0x61 + 10
    } else if b >= 0x41 && b <= 0x46 {
        b - 0x41 + 10
    } else {
        0
    }
}

/// Pushing a byte onto the accumulator commutes with prepending it to the
/// remaining parse result.
pub proof fn lemma_push_comp(acc: Seq<u8>, b: u8, rest: Option<(Seq<u8>, int)>)
    ensures
        (match rest {
            Some((t, e)) => Some((acc.push(b) + t, e)),
            None => None::<(Seq<u8>, int)>,
        }) == (match (match rest {
            Some((t, e)) => Some((seq![b] + t, e)),
            None => None::<(Seq<u8>, int)>,
        }) {
            Some((t, e)) => Some((acc + t, e)),
            None => None::<(Seq<u8>, int)>,
        }),
{
    match rest {
        Some((t, e)) => {
            assert(acc.push(b) + t =~= acc + (seq![b] + t));
        },
        None => {},
    }
}

// ---------------------------------------------------------------------------
// Whitespace and number tokens
// ---------------------------------------------------------------------------

/// First index at or after `i` whose byte is not JSON whitespace.
pub open spec fn sp_ws(s: Seq<u8>, i: int) -> int
    decreases s.len() - i,
{
    if 0 <= i < s.len() && is_ws(s[i]) {
        sp_ws(s, i + 1)
    } else {
        i
    }
}

/// Advances over whitespace; mirrors [`sp_ws`].
pub fn skip_ws(s: &Vec<u8>, i: usize) -> (j: usize)
    requires
        i <= s@.len(),
    ensures
        j == sp_ws(s@, i as int),
        i <= j <= s@.len(),
{
    let mut j: usize = i;
    while j < s.len() && (s[j] == 0x20 || s[j] == 0x09 || s[j] == 0x0a || s[j] == 0x0d)
        invariant
            i <= j <= s@.len(),
            sp_ws(s@, i as int) == sp_ws(s@, j as int),
        decreases s@.len() - j,
    {
        j = j + 1;
    }
    j
}

/// First index at or after `i` whose byte cannot continue a number token.
pub open spec fn num_end(s: Seq<u8>, i: int) -> int
    decreases s.len() - i,
{
    if 0 <= i < s.len() && is_num_char(s[i]) {
        num_end(s, i + 1)
    } else {
        i
    }
}

pub proof fn lemma_num_end_bounds(s: Seq<u8>, i: int)
    requires
        0 <= i <= s.len(),
    ensures
        i <= num_end(s, i) <= s.len(),
        forall|k: int| i <= k < num_end(s, i) ==> is_num_char(#[trigger] s[k]),
        num_end(s, i) < s.len() ==> !is_num_char(s[num_end(s, i)]),
    decreases s.len() - i,
{
    if 0 <= i < s.len() && is_num_char(s[i]) {
        lemma_num_end_bounds(s, i + 1);
    }
}

/// Parses a number token: the maximal run of number bytes starting with a
/// digit or a minus sign.
pub open spec fn sp_num(s: Seq<u8>, i: int) -> Option<(Seq<u8>, int)> {
    if 0 <= i < s.len() && (s[i] == 0x2d || is_digit(s[i])) {
        Some((s.subrange(i, num_end(s, i)), num_end(s, i)))
    } else {
        None
    }
}

/// Scans a number token; mirrors [`sp_num`].
pub fn scan_num(s: &Vec<u8>, i: usize) -> (r: Option<(Vec<u8>, usize)>)
    requires
        i <= s@.len(),
    ensures
        match r {
            Some((t, e)) => sp_num(s@, i as int) == Some((t@, e as int)) && i < e <= s@.len(),
            None => sp_num(s@, i as int) is None,
        },
{
    if i == s.len() || !(s[i] == 0x2d || (s[i] >= 0x30 && s[i] <= 0x39)) {
        return None;
    }
    proof {
        lemma_num_end_bounds(s@, i as int);
    }
    let ghost e = num_end(s@, i as int);
    let mut j: usize = i;
    let mut token: Vec<u8> = Vec::new();
    while j < s.len() && (s[j] == 0x2d || s[j] == 0x2b || s[j] == 0x2e || s[j] == 0x65 || s[j]
        == 0x45 || (s[j] >= 0x30 && s[j] <= 0x39))
        invariant
            i <= j <= s@.len(),
            e == num_end(s@, i as int),
            num_end(s@, j as int) == e,
            j <= e,
            token@ == s@.subrange(i as int, j as int),
        decreases s@.len() - j,
    {
        proof {
            lemma_num_end_bounds(s@, (j + 1) as int);
            assert(num_end(s@, (j + 1) as int) == e);
        }
        token.push(s[j]);
        proof {
            assert(token@ =~= s@.subrange(i as int, (j + 1) as int));
        }
        j = j + 1;
    }
    proof {
        assert(num_end(s@, j as int) == j);
        assert(j == e);
        assert(j > i) by {
            assert(is_num_char(s@[i as int]));
        }
    }
    Some((token, j))
}

// ---------------------------------------------------------------------------
// Value grammar
// ---------------------------------------------------------------------------

pub open spec fn lit_null() -> Seq<u8> {
    seq![0x6e, 0x75, 0x6c, 0x6c]
}

pub open spec fn lit_true() -> Seq<u8> {
    seq![0x74, 0x72, 0x75, 0x65]
}

pub open spec fn lit_false() -> Seq<u8> {
    seq![0x66, 0x61, 0x6c, 0x73, 0x65]
}

/// Parses one JSON value starting at `i0`, leading whitespace allowed;
/// yields the value and the position just after it.
pub open spec fn sp_value(s: Seq<u8>, i0: int) -> Option<(JsonV, int)>
    decreases s.len() - i0, 0int,
{
    if i0 < 0 || i0 >= s.len() {
        None
    } else {
        let i = sp_ws(s, i0);
        if i >= s.len() || i < i0 {
            None
        } else if s[i] == 0x7b {
            match sp_members(s, i + 1, true) {
                Some((ms, e)) => Some((JsonV::Obj(ms), e)),
                None => None,
            }
        } else if s[i] == 0x5b {
            match sp_elements(s, i + 1, true) {
                Some((vs, e)) => Some((JsonV::Arr(vs), e)),
                None => None,
            }
        } else if s[i] == 0x22 {
            match sp_str_body(s, i + 1) {
                Some((t, e)) => Some((JsonV::Str(t), e)),
                None => None,
            }
        } else if s[i] == 0x6e {
            if i + 4 <= s.len() && s.subrange(i, i + 4) == lit_null() {
                Some((JsonV::Null, i + 4))
            } else {
                None
            }
        } else if s[i] == 0x74 {
            if i + 4 <= s.len() && s.subrange(i, i + 4) == lit_true() {
                Some((JsonV::Bool(true), i + 4))
            } else {
                None
            }
        } else if s[i] == 0x66 {
            if i + 5 <= s.len() && s.subrange(i, i + 5) == lit_false() {
                Some((JsonV::Bool(false), i + 5))
            } else {
                None
            }
        } else if s[i] == 0x2d || is_digit(s[i]) {
            match sp_num(s, i) {
                Some((t, e)) => Some((JsonV::Num(t), e)),
                None => None,
            }
        } else {
            None
        }
    }
}

/// Parses the elements of an array, starting just after `[` or just after a
/// comma; `first` tells whether a closing `]` may come immediately.
pub open spec fn sp_elements(s: Seq<u8>, i: int, first: bool) -> Option<(Seq<JsonV>, int)>
    decreases s.len() - i, 1int,
{
    if i < 0 || i > s.len() {
        None
    } else {
        let j = sp_ws(s, i);
        if j >= s.len() || j < i {
            None
        } else if first && s[j] == 0x5d {
            Some((Seq::empty(), j + 1))
        } else {
            match sp_value(s, i) {
                Some((v, p)) => {
                    let q = sp_ws(s, p);
                    if q < 0 || q >= s.len() {
                        None
                    } else if s[q] == 0x5d {
                        Some((seq![v], q + 1))
                    } else if s[q] == 0x2c && q + 1 > i {
                        match sp_elements(s, q + 1, false) {
                            Some((vs, e)) => Some((seq![v] + vs, e)),
                            None => None,
                        }
                    } else {
                        None
                    }
                },
                None => None,
            }
        }
    }
}

/// Parses the members of an object, starting just after `{` or just after a
/// comma; `first` tells whether a closing `}` may come immediately.
pub open spec fn sp_members(s: Seq<u8>, i: int, first: bool) -> Option<
    (Seq<(Seq<u8>, JsonV)>, int),
>
    decreases s.len() - i, 1int,
{
    if i < 0 || i > s.len() {
        None
    } else {
        let j = sp_ws(s, i);
        if j >= s.len() || j < i {
            None
        } else if first && s[j] == 0x7d {
            Some((Seq::empty(), j + 1))
        } else if s[j] == 0x22 {
            match sp_str_body(s, j + 1) {
                Some((k, p)) => {
                    let c = sp_ws(s, p);
                    if 0 <= c < s.len() && s[c] == 0x3a && c + 1 > i {
                        match sp_value(s, c + 1) {
                            Some((v, pv)) => {
                                let q = sp_ws(s, pv);
                                if q < 0 || q >= s.len() {
                                    None
                                } else if s[q] == 0x7d {
                                    Some((seq![(k, v)], q + 1))
                                } else if s[q] == 0x2c && q + 1 > i {
                                    match sp_members(s, q + 1, false) {
                                        Some((ms, e)) => Some((seq![(k, v)] + ms, e)),
                                        None => None,
                                    }
                                } else {
                                    None
                                }
                            },
                            None => None,
                        }
                    } else {
                        None
                    }
                },
                None => None,
            }
        } else {
            None
        }
    }
}

/// Parses a whole document: one value with nothing but whitespace after it.
pub open spec fn sp_json(s: Seq<u8>) -> Option<JsonV> {
    match sp_value(s, 0) {
        Some((v, p)) => {
            if sp_ws(s, p) == s.len() {
                Some(v)
            } else {
                None
            }
        },
        None => None,
    }
}

// ---------------------------------------------------------------------------
// Executable parser
// ---------------------------------------------------------------------------

/// Relates an executable value parse to its specification.
pub open spec fn rel_value(r: Option<(JsonValue, usize)>, o: Option<(JsonV, int)>) -> bool {
    match r {
        Some((v, p)) => o == Some((v.deep(), p as int)),
        None => o is None,
    }
}

/// Relates an executable element-list parse to its specification.
pub open spec fn rel_elements(
    r: Option<(Vec<JsonValue>, usize)>,
    o: Option<(Seq<JsonV>, int)>,
) -> bool {
    match r {
        Some((vs, p)) => o == Some((deep_seq(vs@), p as int)),
        None => o is None,
    }
}

/// Relates an executable member-list parse to its specification.
pub open spec fn rel_members(
    r: Option<(Vec<(Vec<u8>, JsonValue)>, usize)>,
    o: Option<(Seq<(Seq<u8>, JsonV)>, int)>,
) -> bool {
    match r {
        Some((ms, p)) => o == Some((deep_members(ms@), p as int)),
        None => o is None,
    }
}

/// Parses one JSON value; mirrors [`sp_value`].
pub fn parse_value(s: &Vec<u8>, i0: usize) -> (r: Option<(JsonValue, usize)>)
    requires
        i0 <= s@.len(),
    ensures
        rel_value(r, sp_value(s@, i0 as int)),
        r is Some ==> (r->0).1 <= s@.len(),
    decreases s@.len() - i0, 0int,
{
    if i0 == s.len() {
        return None;
    }
    let i = skip_ws(s, i0);
    if i == s.len() {
        return None;
    }
    let b = s[i];
    if b == 0x7b {
        match parse_members(s, i + 1, true) {
            Some((ms, e)) => Some((JsonValue::Obj(ms), e)),
            None => None,
        }
    } else if b == 0x5b {
        match parse_elements(s, i + 1, true) {
            Some((vs, e)) => Some((JsonValue::Arr(vs), e)),
            None => None,
        }
    } else if b == 0x22 {
        match parse_str_body(s, i + 1) {
            Some((t, e)) => Some((JsonValue::Str(t), e)),
            None => None,
        }
    } else if b == 0x6e {
        if s.len() - i >= 4 && s[i + 1] == 0x75 && s[i + 2] == 0x6c && s[i + 3] == 0x6c {
            proof {
                assert(s@.subrange(i as int, i + 4) =~= lit_null());
            }
            Some((JsonValue::Null, i + 4))
        } else {
            proof {
                lemma_lit_mismatch(s@, i as int, lit_null());
            }
            None
        }
    } else if b == 0x74 {
        if s.len() - i >= 4 && s[i + 1] == 0x72 && s[i + 2] == 0x75 && s[i + 3] == 0x65 {
            proof {
                assert(s@.subrange(i as int, i + 4) =~= lit_true());
            }
            Some((JsonValue::Bool(true), i + 4))
        } else {
            proof {
                lemma_lit_mismatch(s@, i as int, lit_true());
            }
            None
        }
    } else if b == 0x66 {
        if s.len() - i >= 5 && s[i + 1] == 0x61 && s[i + 2] == 0x6c && s[i + 3] == 0x73 && s[i + 4]
            == 0x65 {
            proof {
                assert(s@.subrange(i as int, i + 5) =~= lit_false());
            }
            Some((JsonValue::Bool(false), i + 5))
        } else {
            proof {
                lemma_lit_mismatch(s@, i as int, lit_false());
            }
            None
        }
    } else if b == 0x2d || (b >= 0x30 && b <= 0x39) {
        match scan_num(s, i) {
            Some((t, e)) => Some((JsonValue::Num(t), e)),
            None => None,
        }
    } else {
        None
    }
}

/// If the bytes at `i` differ from `lit` somewhere, the subrange at `i`
/// does not equal `lit`.
proof fn lemma_lit_mismatch(s: Seq<u8>, i: int, lit: Seq<u8>)
    requires
        0 <= i <= s.len(),
    ensures
        i + lit.len() <= s.len() && s.subrange(i, i + lit.len() as int) == lit ==> forall|k: int|
            0 <= k < lit.len() ==> s[i + k] == #[trigger] lit[k],
{
    if i + lit.len() <= s.len() && s.subrange(i, i + lit.len() as int) == lit {
        assert forall|k: int| 0 <= k < lit.len() implies s[i + k] == #[trigger] lit[k] by {
            assert(s.subrange(i, i + lit.len() as int)[k] == s[i + k]);
        }
    }
}

/// Parses array elements; mirrors [`sp_elements`].
pub fn parse_elements(s: &Vec<u8>, i: usize, first: bool) -> (r: Option<(Vec<JsonValue>, usize)>)
    requires
        i <= s@.len(),
    ensures
        rel_elements(r, sp_elements(s@, i as int, first)),
        r is Some ==> (r->0).1 <= s@.len(),
    decreases s@.len() - i, 1int,
{
    let j = skip_ws(s, i);
    if j == s.len() {
        return None;
    }
    if first && s[j] == 0x5d {
        let out: Vec<JsonValue> = Vec::new();
        proof {
            assert(deep_seq(out@) == Seq::<JsonV>::empty());
        }
        return Some((out, j + 1));
    }
    match parse_value(s, i) {
        None => None,
        Some((v, p)) => {
            let q = skip_ws(s, p);
            if q == s.len() {
                return None;
            }
            if s[q] == 0x5d {
                let ghost gv = v.deep();
                let mut out: Vec<JsonValue> = Vec::new();
                out.push(v);
                proof {
                    assert(out@ =~= seq![out@[0]] + Seq::<JsonValue>::empty());
                    lemma_deep_seq_cons(out@[0], Seq::empty());
                    assert(deep_seq(Seq::<JsonValue>::empty()) == Seq::<JsonV>::empty());
                    assert(deep_seq(out@) =~= seq![gv]);
                }
                Some((out, q + 1))
            } else if s[q] == 0x2c && q + 1 > i {
                match parse_elements(s, q + 1, false) {
                    None => None,
                    Some((vs, e)) => {
                        let ghost prev = vs@;
                        let ghost gv = v.deep();
                        let mut vs = vs;
                        vs.insert(0, v);
                        proof {
                            assert(vs@ =~= seq![vs@[0]] + prev);
                            lemma_deep_seq_cons(vs@[0], prev);
                            assert(deep_seq(vs@) =~= seq![gv] + deep_seq(prev));
                        }
                        Some((vs, e))
                    },
                }
            } else {
                None
            }
        },
    }
}

/// Parses object members; mirrors [`sp_members`].
pub fn parse_members(s: &Vec<u8>, i: usize, first: bool) -> (r: Option<
    (Vec<(Vec<u8>, JsonValue)>, usize),
>)
    requires
        i <= s@.len(),
    ensures
        rel_members(r, sp_members(s@, i as int, first)),
        r is Some ==> (r->0).1 <= s@.len(),
    decreases s@.len() - i, 1int,
{
    let j = skip_ws(s, i);
    if j == s.len() {
        return None;
    }
    if first && s[j] == 0x7d {
        let out: Vec<(Vec<u8>, JsonValue)> = Vec::new();
        proof {
            assert(deep_members(out@) == Seq::<(Seq<u8>, JsonV)>::empty());
        }
        return Some((out, j + 1));
    }
    if s[j] != 0x22 {
        return None;
    }
    match parse_str_body(s, j + 1) {
        None => None,
        Some((k, p)) => {
            let c = skip_ws(s, p);
            if c == s.len() {
                return None;
            }
            if s[c] == 0x3a && c + 1 > i {
                match parse_value(s, c + 1) {
                    None => None,
                    Some((v, pv)) => {
                        let q = skip_ws(s, pv);
                        if q == s.len() {
                            return None;
                        }
                        if s[q] == 0x7d {
                            let ghost gk = k@;
                            let ghost gv = v.deep();
                            let mut out: Vec<(Vec<u8>, JsonValue)> = Vec::new();
                            out.push((k, v));
                            proof {
                                assert(out@ =~= seq![out@[0]] + Seq::<(Vec<u8>, JsonValue)>::empty());
                                lemma_deep_members_cons(out@[0].0, out@[0].1, Seq::empty());
                                assert(deep_members(Seq::<(Vec<u8>, JsonValue)>::empty())
                                    == Seq::<(Seq<u8>, JsonV)>::empty());
                                assert(out@[0] == (out@[0].0, out@[0].1));
                                assert(deep_members(out@) =~= seq![(gk, gv)]);
                            }
                            Some((out, q + 1))
                        } else if s[q] == 0x2c && q + 1 > i {
                            match parse_members(s, q + 1, false) {
                                None => None,
                                Some((ms, e)) => {
                                    let ghost prev = ms@;
                                    let ghost gk = k@;
                                    let ghost gv = v.deep();
                                    let mut ms = ms;
                                    ms.insert(0, (k, v));
                                    proof {
                                        assert(ms@ =~= seq![ms@[0]] + prev);
                                        lemma_deep_members_cons(ms@[0].0, ms@[0].1, prev);
                                        assert(ms@[0] == (ms@[0].0, ms@[0].1));
                                        assert(deep_members(ms@) =~= seq![(gk, gv)]
                                            + deep_members(prev));
                                    }
                                    Some((ms, e))
                                },
                            }
                        } else {
                            None
                        }
                    },
                }
            } else {
                None
            }
        },
    }
}

/// Parses a whole document; mirrors [`sp_json`].
pub fn parse_json(s: &Vec<u8>) -> (r: Option<JsonValue>)
    ensures
        match r {
            Some(v) => sp_json(s@) == Some(v.deep()),
            None => sp_json(s@) is None,
        },
{
    match parse_value(s, 0) {
        None => None,
        Some((v, p)) => {
            let q = skip_ws(s, p);
            if q == s.len() {
                Some(v)
            } else {
                None
            }
        },
    }
}

// ---------------------------------------------------------------------------
// Serializer
// ---------------------------------------------------------------------------

/// The byte rendering of a JSON value (no whitespace is emitted).
pub open spec fn sv(v: JsonV) -> Seq<u8>
    decreases v, 0int,
{
    match v {
        JsonV::Null => lit_null(),
        JsonV::Bool(b) => if b {
            lit_true()
        } else {
            lit_false()
        },
        JsonV::Num(t) => t,
        JsonV::Str(t) => seq![0x22] + esc_bytes(t) + seq![0x22],
        JsonV::Arr(es) => seq![0x5b] + sv_list(es, 0) + seq![0x5d],
        JsonV::Obj(ms) => seq![0x7b] + sv_members(ms, 0) + seq![0x7d],
    }
}

/// The comma-separated rendering of `es[k..]`.
pub open spec fn sv_list(es: Seq<JsonV>, k: int) -> Seq<u8>
    decreases es, es.len() - k,
{
    if k < 0 || k >= es.len() {
        Seq::empty()
    } else if k == es.len() - 1 {
        sv(es[k])
    } else {
        sv(es[k]) + seq![0x2c] + sv_list(es, k + 1)
    }
}

/// The comma-separated rendering of the members `ms[k..]`.
pub open spec fn sv_members(ms: Seq<(Seq<u8>, JsonV)>, k: int) -> Seq<u8>
    decreases ms, ms.len() - k,
{
    if k < 0 || k >= ms.len() {
        Seq::empty()
    } else if k == ms.len() - 1 {
        sv_member(ms[k])
    } else {
        sv_member(ms[k]) + seq![0x2c] + sv_members(ms, k + 1)
    }
}

/// The rendering of one object member: a quoted key, a colon, a value.
pub open spec fn sv_member(m: (Seq<u8>, JsonV)) -> Seq<u8>
    decreases m, 0int,
{
    seq![0x22] + esc_bytes(m.0) + seq![0x22, 0x3a] + sv(m.1)
}

/// Appends the rendering of `v` to `out`; mirrors [`sv`].
pub fn write_value(v: &JsonValue, out: &mut Vec<u8>)
    ensures
        final(out)@ == old(out)@ + sv(v.deep()),
    decreases v, 0int,
{
    match v {
        JsonValue::Null => {
            out.push(0x6e);
            out.push(0x75);
            out.push(0x6c);
            out.push(0x6c);
            proof {
                assert(out@ =~= old(out)@ + lit_null());
            }
        },
        JsonValue::Bool(b) => {
            if *b {
                out.push(0x74);
                out.push(0x72);
                out.push(0x75);
                out.push(0x65);
                proof {
                    assert(out@ =~= old(out)@ + lit_true());
                }
            } else {
                out.push(0x66);
                out.push(0x61);
                out.push(0x6c);
                out.push(0x73);
                out.push(0x65);
                proof {
                    assert(out@ =~= old(out)@ + lit_false());
                }
            }
        },
        JsonValue::Num(t) => {
            out.extend_from_slice(t.as_slice());
        },
        JsonValue::Str(t) => {
            out.push(0x22);
            write_escaped(t, out);
            out.push(0x22);
            proof {
                assert(out@ =~= old(out)@ + (seq![0x22u8] + esc_bytes(t@) + seq![0x22u8]));
            }
        },
        JsonValue::Arr(items) => {
            out.push(0x5b);
            write_list(items, 0, out);
            out.push(0x5d);
            proof {
                assert(out@ =~= old(out)@ + (seq![0x5bu8] + sv_list(deep_seq(items@), 0)
                    + seq![0x5du8]));
            }
        },
        JsonValue::Obj(members) => {
            out.push(0x7b);
            write_members(members, 0, out);
            out.push(0x7d);
            proof {
                assert(out@ =~= old(out)@ + (seq![0x7bu8] + sv_members(deep_members(members@), 0)
                    + seq![0x7du8]));
            }
        },
    }
}

/// Appends the rendering of `items[k..]`; mirrors [`sv_list`].
pub fn write_list(items: &Vec<JsonValue>, k: usize, out: &mut Vec<u8>)
    requires
        k <= items@.len(),
    ensures
        final(out)@ == old(out)@ + sv_list(deep_seq(items@), k as int),
    decreases items, items@.len() - k,
{
    proof {
        lemma_deep_seq_index(items@);
    }
    if k >= items.len() {
        proof {
            assert(out@ =~= old(out)@ + sv_list(deep_seq(items@), k as int));
        }
        return;
    }
    write_value(&items[k], out);
    if k + 1 < items.len() {
        out.push(0x2c);
        write_list(items, k + 1, out);
        proof {
            assert(out@ =~= old(out)@ + sv_list(deep_seq(items@), k as int));
        }
    } else {
        proof {
            assert(out@ =~= old(out)@ + sv_list(deep_seq(items@), k as int));
        }
    }
}

/// Appends the rendering of `members[k..]`; mirrors [`sv_members`].
pub fn write_members(members: &Vec<(Vec<u8>, JsonValue)>, k: usize, out: &mut Vec<u8>)
    requires
        k <= members@.len(),
    ensures
        final(out)@ == old(out)@ + sv_members(deep_members(members@), k as int),
    decreases members, members@.len() - k,
{
    proof {
        lemma_deep_members_index(members@);
    }
    if k >= members.len() {
        proof {
            assert(out@ =~= old(out)@ + sv_members(deep_members(members@), k as int));
        }
        return;
    }
    out.push(0x22);
    write_escaped(&members[k].0, out);
    out.push(0x22);
    out.push(0x3a);
    write_value(&members[k].1, out);
    proof {
        assert(out@ =~= old(out)@ + sv_member(deep_members(members@)[k as int]));
    }
    if k + 1 < members.len() {
        out.push(0x2c);
        write_members(members, k + 1, out);
        proof {
            assert(out@ =~= old(out)@ + sv_members(deep_members(members@), k as int));
        }
    } else {
        proof {
            assert(out@ =~= old(out)@ + sv_members(deep_members(members@), k as int));
        }
    }
}

/// The rendering of `v` as a fresh byte vector.
pub fn to_bytes(v: &JsonValue) -> (r: Vec<u8>)
    ensures
        r@ == sv(v.deep()),
{
    let mut out: Vec<u8> = Vec::new();
    write_value(v, &mut out);
    proof {
        assert(out@ =~= sv(v.deep()));
    }
    out
}

// ---------------------------------------------------------------------------
// Round trip: parsing inverts serialization
// ---------------------------------------------------------------------------

/// Values the serializer renders faithfully: number tokens must look like
/// numbers, everything else is unrestricted.
pub open spec fn wf_json(v: JsonV) -> bool
    decreases v, 0int,
{
    match v {
        JsonV::Null => true,
        JsonV::Bool(_) => true,
        JsonV::Num(t) => t.len() > 0 && (t[0] == 0x2d || is_digit(t[0])) && (forall|k: int|
            0 <= k < t.len() ==> is_num_char(#[trigger] t[k])),
        JsonV::Str(_) => true,
        JsonV::Arr(es) => wf_list(es, 0),
        JsonV::Obj(ms) => wf_member_list(ms, 0),
    }
}

/// All of `es[k..]` are well formed.
pub open spec fn wf_list(es: Seq<JsonV>, k: int) -> bool
    decreases es, es.len() - k,
{
    if k < 0 || k >= es.len() {
        true
    } else {
        wf_json(es[k]) && wf_list(es, k + 1)
    }
}

/// All values of `ms[k..]` are well formed.
pub open spec fn wf_member_list(ms: Seq<(Seq<u8>, JsonV)>, k: int) -> bool
    decreases ms, ms.len() - k,
{
    if k < 0 || k >= ms.len() {
        true
    } else {
        wf_json(ms[k].1) && wf_member_list(ms, k + 1)
    }
}

/// `t` occurs in `s` at position `i`.
pub open spec fn sub_at(s: Seq<u8>, i: int, t: Seq<u8>) -> bool {
    0 <= i && i + t.len() <= s.len() && s.subrange(i, i + t.len() as int) == t
}

pub proof fn lemma_sub_at_index(s: Seq<u8>, i: int, t: Seq<u8>)
    requires
        sub_at(s, i, t),
    ensures
        forall|k: int| 0 <= k < t.len() ==> #[trigger] s[i + k] == t[k],
{
    assert forall|k: int| 0 <= k < t.len() implies #[trigger] s[i + k] == t[k] by {
        assert(s.subrange(i, i + t.len() as int)[k] == s[i + k]);
    }
}

pub proof fn lemma_sub_at_split(s: Seq<u8>, i: int, a: Seq<u8>, b: Seq<u8>)
    requires
        sub_at(s, i, a + b),
    ensures
        sub_at(s, i, a),
        sub_at(s, i + a.len(), b),
{
    lemma_sub_at_index(s, i, a + b);
    assert(s.subrange(i, i + a.len() as int) =~= a);
    assert forall|k: int|
        0 <= k < b.len() implies s.subrange(i + a.len(), i + a.len() + b.len() as int)[k]
        == b[k] by {
        assert(s[i + (a.len() + k)] == (a + b)[a.len() + k]);
    }
    assert(s.subrange(i + a.len(), i + a.len() + b.len() as int) =~= b);
}

/// The first byte of a rendered well-formed value: one of the value start
/// bytes, never whitespace nor a delimiter.
proof fn lemma_sv_first(v: JsonV)
    requires
        wf_json(v),
    ensures
        sv(v).len() >= 1,
        sv(v)[0] == 0x7b || sv(v)[0] == 0x5b || sv(v)[0] == 0x22 || sv(v)[0] == 0x6e || sv(v)[0]
            == 0x74 || sv(v)[0] == 0x66 || sv(v)[0] == 0x2d || is_digit(sv(v)[0]),
{
    match v {
        JsonV::Null => {
            assert(sv(v)[0] == 0x6e);
        },
        JsonV::Bool(b) => {
            if b {
                assert(sv(v)[0] == 0x74);
            } else {
                assert(sv(v)[0] == 0x66);
            }
        },
        JsonV::Num(t) => {
            assert(sv(v)[0] == t[0]);
        },
        JsonV::Str(t) => {
            assert(sv(v)[0] == 0x22);
        },
        JsonV::Arr(es) => {
            assert(sv(v)[0] == 0x5b);
        },
        JsonV::Obj(ms) => {
            assert(sv(v)[0] == 0x7b);
        },
    }
}

/// `num_end` lands exactly where the number bytes stop.
proof fn lemma_num_end_exact(s: Seq<u8>, i: int, e: int)
    requires
        0 <= i <= e <= s.len(),
        forall|k: int| i <= k < e ==> is_num_char(#[trigger] s[k]),
        e == s.len() || !is_num_char(s[e]),
    ensures
        num_end(s, i) == e,
    decreases e - i,
{
    if i < e {
        lemma_num_end_exact(s, i + 1, e);
    }
}

/// Hex digits written by the serializer scan back to their value.
proof fn lemma_hex_digit_inverts(d: nat)
    requires
        d < 16,
    ensures
        is_hex(hex_digit(d)),
        hex_val(hex_digit(d)) == d,
{
}

/// Parsing a string body written by the serializer yields the original
/// content.
pub proof fn lemma_str_body_of_esc(s: Seq<u8>, i: int, m: Seq<u8>)
    requires
        sub_at(s, i, esc_bytes(m) + seq![0x22]),
    ensures
        sp_str_body(s, i) == Some((m, i + esc_bytes(m).len() + 1)),
    decreases m.len(),
{
    if m.len() == 0 {
        assert(esc_bytes(m) + seq![0x22u8] =~= seq![0x22u8]);
        lemma_sub_at_index(s, i, seq![0x22u8]);
        assert(s[i] == 0x22);
        assert(sp_str_body(s, i) == Some((Seq::<u8>::empty(), i + 1)));
        assert(m =~= Seq::<u8>::empty());
    } else {
        let b = m[0];
        let m1 = m.subrange(1, m.len() as int);
        assert(esc_bytes(m) == esc_byte(b) + esc_bytes(m1));
        assert((esc_byte(b) + esc_bytes(m1)) + seq![0x22u8] =~= esc_byte(b) + (esc_bytes(m1)
            + seq![0x22u8]));
        lemma_sub_at_split(s, i, esc_byte(b), esc_bytes(m1) + seq![0x22u8]);
        lemma_sub_at_index(s, i, esc_byte(b));
        assert(s[i + 0] == esc_byte(b)[0]);
        let n = esc_byte(b).len();
        lemma_str_body_of_esc(s, i + n, m1);
        if b == 0x22 {
            assert(s[i] == 0x5c && s[i + 1] == 0x22);
            assert(is_simple_escape(s[i + 1]) && simple_unescape(s[i + 1]) == b);
            assert(seq![b] + m1 =~= m);
        } else if b == 0x5c {
            assert(s[i] == 0x5c && s[i + 1] == 0x5c);
            assert(is_simple_escape(s[i + 1]) && simple_unescape(s[i + 1]) == b);
            assert(seq![b] + m1 =~= m);
        } else if b < 0x20 {
            assert(s[i] == 0x5c && s[i + 1] == 0x75 && s[i + 2] == 0x30 && s[i + 3] == 0x30);
            assert(s[i + 4] == hex_digit((b / 16) as nat) && s[i + 5] == hex_digit(
                (b % 16) as nat,
            ));
            assert(!is_simple_escape(s[i + 1]));
            lemma_hex_digit_inverts((b / 16) as nat);
            lemma_hex_digit_inverts((b % 16) as nat);
            assert(is_hex(s[i + 2]) && is_hex(s[i + 3]) && is_hex(s[i + 4]) && is_hex(s[i + 5]));
            assert(hex_val(s[i + 2]) == 0 && hex_val(s[i + 3]) == 0);
            assert(hex_val(s[i + 4]) * 16 + hex_val(s[i + 5]) == b) by {
                assert(b / 16 * 16 + b % 16 == b) by {
                    vstd::arithmetic::div_mod::lemma_fundamental_div_mod(b as int, 16);
                }
            }
            assert(hex_val(s[i + 2]) * 4096 + hex_val(s[i + 3]) * 256 + hex_val(s[i + 4]) * 16
                + hex_val(s[i + 5]) == b);
            assert(b < 0x80);
            assert(seq![b] + m1 =~= m);
        } else {
            assert(s[i] == b);
            assert(b != 0x22 && b != 0x5c && b >= 0x20);
            assert(seq![b] + m1 =~= m);
        }
    }
}

/// Parsing a rendered well-formed value recovers the value, as long as the
/// byte just after the rendering cannot extend a number token.
pub proof fn lemma_parse_of_sv(s: Seq<u8>, i: int, v: JsonV)
    requires
        wf_json(v),
        sub_at(s, i, sv(v)),
        i + sv(v).len() == s.len() || !is_num_char(s[i + sv(v).len()]),
    ensures
        sp_value(s, i) == Some((v, i + sv(v).len())),
    decreases v, 0int,
{
    let n = sv(v).len() as int;
    lemma_sv_first(v);
    lemma_sub_at_index(s, i, sv(v));
    assert(s[i] == sv(v)[0]) by {
        assert(s[i + 0] == sv(v)[0]);
    }
    assert(!is_ws(s[i]));
    assert(sp_ws(s, i) == i);
    match v {
        JsonV::Null => {
            assert(s.subrange(i, i + 4) =~= lit_null());
        },
        JsonV::Bool(b) => {
            if b {
                assert(s.subrange(i, i + 4) =~= lit_true());
            } else {
                assert(s.subrange(i, i + 5) =~= lit_false());
                assert(s[i] != 0x74);
            }
        },
        JsonV::Num(t) => {
            assert forall|k: int| i <= k < i + t.len() implies is_num_char(#[trigger] s[k]) by {
                assert(s[i + (k - i)] == t[k - i]);
            }
            lemma_num_end_exact(s, i, i + t.len() as int);
            assert(s.subrange(i, i + t.len() as int) == t);
        },
        JsonV::Str(t) => {
            assert(sv(v) =~= seq![0x22u8] + (esc_bytes(t) + seq![0x22u8]));
            lemma_sub_at_split(s, i, seq![0x22u8], esc_bytes(t) + seq![0x22u8]);
            lemma_str_body_of_esc(s, i + 1, t);
        },
        JsonV::Arr(es) => {
            if es.len() == 0 {
                assert(sv_list(es, 0) == Seq::<u8>::empty());
                assert(sv(v) =~= seq![0x5bu8, 0x5du8]);
                assert(s[i + 1] == 0x5d);
                assert(!is_ws(s[i + 1]));
                assert(sp_ws(s, i + 1) == i + 1);
                assert(sp_elements(s, i + 1, true) == Some((Seq::<JsonV>::empty(), i + 2)));
                assert(es =~= Seq::<JsonV>::empty());
            } else {
                assert(sv(v) =~= seq![0x5bu8] + (sv_list(es, 0) + seq![0x5du8]));
                lemma_sub_at_split(s, i, seq![0x5bu8], sv_list(es, 0) + seq![0x5du8]);
                lemma_list_of_sv(s, i + 1, es, 0, true);
                assert(es.subrange(0, es.len() as int) =~= es);
            }
        },
        JsonV::Obj(ms) => {
            if ms.len() == 0 {
                assert(sv_members(ms, 0) == Seq::<u8>::empty());
                assert(sv(v) =~= seq![0x7bu8, 0x7du8]);
                assert(s[i + 1] == 0x7d);
                assert(!is_ws(s[i + 1]));
                assert(sp_ws(s, i + 1) == i + 1);
                assert(sp_members(s, i + 1, true) == Some(
                    (Seq::<(Seq<u8>, JsonV)>::empty(), i + 2),
                ));
                assert(ms =~= Seq::<(Seq<u8>, JsonV)>::empty());
            } else {
                assert(sv(v) =~= seq![0x7bu8] + (sv_members(ms, 0) + seq![0x7du8]));
                lemma_sub_at_split(s, i, seq![0x7bu8], sv_members(ms, 0) + seq![0x7du8]);
                lemma_members_of_sv(s, i + 1, ms, 0, true);
                assert(ms.subrange(0, ms.len() as int) =~= ms);
            }
        },
    }
}

/// Parsing a rendered non-empty element list recovers `es[k..]`.
proof fn lemma_list_of_sv(s: Seq<u8>, i: int, es: Seq<JsonV>, k: int, fst: bool)
    requires
        0 <= k < es.len(),
        wf_list(es, k),
        sub_at(s, i, sv_list(es, k) + seq![0x5d]),
    ensures
        sp_elements(s, i, fst) == Some(
            (es.subrange(k, es.len() as int), i + sv_list(es, k).len() + 1),
        ),
    decreases es, es.len() - k,
{
    let v = es[k];
    let body = sv(v);
    lemma_sv_first(v);
    if k == es.len() - 1 {
        assert(sv_list(es, k) == body);
        lemma_sub_at_split(s, i, body, seq![0x5du8]);
        lemma_sub_at_index(s, i, body);
        lemma_sub_at_index(s, i + body.len(), seq![0x5du8]);
        assert(s[i + body.len() + 0] == 0x5d);
        assert(s[i + 0] == body[0]);
        assert(!is_ws(s[i]));
        assert(sp_ws(s, i) == i);
        assert(!(fst && s[i] == 0x5d));
        lemma_parse_of_sv(s, i, v);
        let p = i + body.len();
        assert(!is_ws(s[p]));
        assert(sp_ws(s, p) == p);
        assert(sp_elements(s, i, fst) == Some((seq![v], p + 1)));
        assert(seq![v] =~= es.subrange(k, es.len() as int));
    } else {
        assert(sv_list(es, k) == body + seq![0x2cu8] + sv_list(es, k + 1));
        assert(sv_list(es, k) + seq![0x5du8] =~= body + (seq![0x2cu8] + (sv_list(es, k + 1)
            + seq![0x5du8])));
        lemma_sub_at_split(s, i, body, seq![0x2cu8] + (sv_list(es, k + 1) + seq![0x5du8]));
        let p = i + body.len();
        lemma_sub_at_split(s, p, seq![0x2cu8], sv_list(es, k + 1) + seq![0x5du8]);
        lemma_sub_at_index(s, p, seq![0x2cu8]);
        assert(s[p + 0] == 0x2c);
        lemma_sub_at_index(s, i, body);
        assert(s[i + 0] == body[0]);
        assert(!is_ws(s[i]));
        assert(sp_ws(s, i) == i);
        assert(!(fst && s[i] == 0x5d));
        lemma_parse_of_sv(s, i, v);
        assert(!is_ws(s[p]));
        assert(sp_ws(s, p) == p);
        lemma_list_of_sv(s, p + 1, es, k + 1, false);
        assert(sp_elements(s, i, fst) == Some((seq![v] + es.subrange(k + 1, es.len() as int), i
            + sv_list(es, k).len() + 1)));
        assert(seq![v] + es.subrange(k + 1, es.len() as int) =~= es.subrange(k, es.len() as int));
    }
}

/// Parsing a rendered non-empty member list recovers `ms[k..]`.
proof fn lemma_members_of_sv(s: Seq<u8>, i: int, ms: Seq<(Seq<u8>, JsonV)>, k: int, fst: bool)
    requires
        0 <= k < ms.len(),
        wf_member_list(ms, k),
        sub_at(s, i, sv_members(ms, k) + seq![0x7d]),
    ensures
        sp_members(s, i, fst) == Some(
            (ms.subrange(k, ms.len() as int), i + sv_members(ms, k).len() + 1),
        ),
    decreases ms, ms.len() - k,
{
    let key = ms[k].0;
    let v = ms[k].1;
    let body = sv_member(ms[k]);
    assert(body == seq![0x22u8] + esc_bytes(key) + seq![0x22u8, 0x3au8] + sv(v));
    lemma_sv_first(v);
    let kl = esc_bytes(key).len() as int;
    let tail: Seq<u8> = if k == ms.len() - 1 {
        seq![0x7du8]
    } else {
        seq![0x2cu8] + (sv_members(ms, k + 1) + seq![0x7du8])
    };
    if k == ms.len() - 1 {
        assert(sv_members(ms, k) == body);
        assert(sv_members(ms, k) + seq![0x7du8] =~= body + tail);
    } else {
        assert(sv_members(ms, k) == body + seq![0x2cu8] + sv_members(ms, k + 1));
        assert(sv_members(ms, k) + seq![0x7du8] =~= body + tail);
    }
    // decompose the member body
    assert(body + tail =~= seq![0x22u8] + ((esc_bytes(key) + seq![0x22u8]) + (seq![0x3au8] + (sv(v)
        + tail))));
    lemma_sub_at_split(s, i, seq![0x22u8], (esc_bytes(key) + seq![0x22u8]) + (seq![0x3au8] + (sv(v)
        + tail)));
    lemma_sub_at_index(s, i, seq![0x22u8]);
    assert(s[i + 0] == 0x22);
    assert(!is_ws(s[i]));
    assert(sp_ws(s, i) == i);
    lemma_sub_at_split(s, i + 1, esc_bytes(key) + seq![0x22u8], seq![0x3au8] + (sv(v) + tail));
    lemma_str_body_of_esc(s, i + 1, key);
    let c = i + 1 + kl + 1;
    lemma_sub_at_split(s, c, seq![0x3au8], sv(v) + tail);
    lemma_sub_at_index(s, c, seq![0x3au8]);
    assert(s[c + 0] == 0x3a);
    assert(!is_ws(s[c]));
    assert(sp_ws(s, c) == c);
    lemma_sub_at_split(s, c + 1, sv(v), tail);
    lemma_sub_at_index(s, c + 1, sv(v));
    assert(s[c + 1 + 0] == sv(v)[0]);
    assert(!is_ws(s[c + 1]));
    assert(sp_ws(s, c + 1) == c + 1);
    let pv = c + 1 + sv(v).len() as int;
    lemma_sub_at_index(s, pv, tail);
    assert(s[pv + 0] == tail[0]);
    lemma_parse_of_sv(s, c + 1, v);
    assert(sp_value(s, c + 1) == Some((v, pv)));
    assert(!is_ws(s[pv]));
    assert(sp_ws(s, pv) == pv);
    if k == ms.len() - 1 {
        assert(s[pv] == 0x7d);
        assert(sp_members(s, i, fst) == Some((seq![(key, v)], pv + 1)));
        assert((key, v) == ms[k]);
        assert(seq![(key, v)] =~= ms.subrange(k, ms.len() as int));
        assert(pv + 1 == i + sv_members(ms, k).len() + 1);
    } else {
        assert(s[pv] == 0x2c);
        lemma_sub_at_split(s, pv, seq![0x2cu8], sv_members(ms, k + 1) + seq![0x7du8]);
        lemma_members_of_sv(s, pv + 1, ms, k + 1, false);
        assert(sp_members(s, i, fst) == Some((seq![(key, v)] + ms.subrange(k + 1, ms.len() as int),
            i + sv_members(ms, k).len() + 1)));
        assert(seq![(key, v)] + ms.subrange(k + 1, ms.len() as int) =~= ms.subrange(
            k,
            ms.len() as int,
        ));
    }
}

/// A whole rendered document parses back to the value it came from.
pub proof fn lemma_json_roundtrip(v: JsonV)
    requires
        wf_json(v),
    ensures
        sp_json(sv(v)) == Some(v),
{
    let s = sv(v);
    assert(s.subrange(0, s.len() as int) =~= s);
    lemma_parse_of_sv(s, 0, v);
    assert(sp_ws(s, s.len() as int) == s.len());
}

// ---------------------------------------------------------------------------
// Object member lookup
// ---------------------------------------------------------------------------

/// The value of the first member named `key`, if any.
pub open spec fn jv_lookup(ms: Seq<(Seq<u8>, JsonV)>, key: Seq<u8>) -> Option<JsonV>
    decreases ms.len(),
{
    if ms.len() == 0 {
        None
    } else if ms[0].0 == key {
        Some(ms[0].1)
    } else {
        jv_lookup(ms.subrange(1, ms.len() as int), key)
    }
}

/// Compares two byte vectors.
pub fn bytes_eq(a: &Vec<u8>, b: &Vec<u8>) -> (r: bool)
    ensures
        r == (a@ == b@),
{
    if a.len() != b.len() {
        return false;
    }
    let mut k: usize = 0;
    while k < a.len()
        invariant
            a@.len() == b@.len(),
            k <= a@.len(),
            forall|j: int| 0 <= j < k ==> a@[j] == b@[j],
        decreases a@.len() - k,
    {
        if a[k] != b[k] {
            return false;
        }
        k = k + 1;
    }
    proof {
        assert(a@ =~= b@);
    }
    true
}

/// Finds the first member named `key`; mirrors [`jv_lookup`].
pub fn obj_get<'a>(ms: &'a Vec<(Vec<u8>, JsonValue)>, key: &Vec<u8>) -> (r: Option<
    &'a JsonValue,
>)
    ensures
        match r {
            Some(v) => jv_lookup(deep_members(ms@), key@) == Some(v.deep()),
            None => jv_lookup(deep_members(ms@), key@) is None,
        },
{
    proof {
        lemma_deep_members_index(ms@);
    }
    let ghost dm = deep_members(ms@);
    proof {
        assert(dm.subrange(0, dm.len() as int) =~= dm);
    }
    let mut k: usize = 0;
    while k < ms.len()
        invariant
            k <= ms@.len(),
            dm == deep_members(ms@),
            dm.len() == ms@.len(),
            forall|j: int| 0 <= j < ms@.len() ==> dm[j] == (#[trigger] ms@[j].0@, ms@[j].1.deep()),
            jv_lookup(dm, key@) == jv_lookup(dm.subrange(k as int, dm.len() as int), key@),
        decreases ms@.len() - k,
    {
        let ghost suff = dm.subrange(k as int, dm.len() as int);
        proof {
            assert(suff[0] == dm[k as int]);
            assert(suff.subrange(1, suff.len() as int) =~= dm.subrange(
                k + 1,
                dm.len() as int,
            ));
        }
        if bytes_eq(&ms[k].0, key) {
            return Some(&ms[k].1);
        }
        k = k + 1;
    }
    proof {
        assert(dm.subrange(k as int, dm.len() as int) =~= Seq::<(Seq<u8>, JsonV)>::empty());
    }
    None
}

} // verus!
