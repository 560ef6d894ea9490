//! The snapshot store: a record/replay cache of request/response pairs,
//! with a text codec for its snapshot file.
//!
//! The store keeps entries sorted by id with unique request keys. The file
//! format is a YAML sequence of maps: each entry is written as
//! `- id: <n>`, `  request: "<escaped>"`, `  response: "<escaped>"`, with
//! the same string escapes as the JSON codec. Loading accepts entries in
//! any id order, and each value as a double-quoted, single-quoted or
//! plain one-line scalar, so files written by a YAML emitter read back
//! too.

use vstd::prelude::*;
use crate::json::{esc_bytes, sp_str_body, sub_at, lemma_sub_at_split, lemma_sub_at_index,
    lemma_push_comp, lemma_str_body_of_esc, parse_str_body, write_escaped, bytes_eq};
use crate::numeric::{dec_digits, dec_val, digits_end, is_digit, lemma_dec_roundtrip,
    lemma_dec_digits_are_digits, push_dec_u64, scan_dec_u64};
use crate::rpc::clone_bytes;
use crate::text::is_valid_utf8;
use crate::errors::{HttpErrV, HttpRequestError, herrv};
use vstd::utf8::valid_utf8;

verus! {

/// One recorded request/response pair.
#[derive(Clone, Debug, PartialEq, Eq)]
pub struct RequestorResponseSnapshot {
    /// Insertion order: lower ids were recorded earlier.
    pub id: u64,
    /// The serialized request body, the lookup key.
    pub request: Vec<u8>,
    /// The verbatim response body.
    pub response: Vec<u8>,
}

/// The abstract content of an entry.
pub open spec fn entry_view(e: RequestorResponseSnapshot) -> (u64, Seq<u8>, Seq<u8>) {
    (e.id, e.request@, e.response@)
}

/// The abstract content of an entry list.
pub open spec fn entries_view(s: Seq<RequestorResponseSnapshot>) -> Seq<(u64, Seq<u8>, Seq<u8>)>
    decreases s.len(),
{
    if s.len() == 0 {
        Seq::empty()
    } else {
        seq![entry_view(s[0])] + entries_view(s.subrange(1, s.len() as int))
    }
}

pub proof fn lemma_entries_view_index(s: Seq<RequestorResponseSnapshot>)
    ensures
        entries_view(s).len() == s.len(),
        forall|k: int| 0 <= k < s.len() ==> entries_view(s)[k] == entry_view(#[trigger] s[k]),
    decreases s.len(),
{
    if s.len() > 0 {
        let rest = s.subrange(1, s.len() as int);
        lemma_entries_view_index(rest);
        assert forall|k: int|
            0 <= k < s.len() implies entries_view(s)[k] == entry_view(#[trigger] s[k]) by {
            if k > 0 {
                assert(entries_view(s)[k] == entries_view(rest)[k - 1]);
                assert(rest[k - 1] == s[k]);
            }
        }
    }
}

/// The replay cache as a map from request key to id and response.
pub open spec fn store_map(s: Seq<(u64, Seq<u8>, Seq<u8>)>) -> Map<Seq<u8>, (u64, Seq<u8>)>
    decreases s.len(),
{
    if s.len() == 0 {
        Map::empty()
    } else {
        store_map(s.drop_last()).insert(s.last().1, (s.last().0, s.last().2))
    }
}

/// The keys of `s[i..]` are pairwise distinct and distinct from earlier
/// keys, and ids never decrease.
pub open spec fn wf_entry_list(s: Seq<(u64, Seq<u8>, Seq<u8>)>) -> bool {
    &&& forall|i: int, j: int| 0 <= i < j < s.len() ==> (#[trigger] s[i]).1 != (#[trigger] s[j]).1
    &&& forall|i: int, j: int| 0 <= i < j < s.len() ==> (#[trigger] s[i]).0 <= (#[trigger] s[j]).0
}

/// Replays responses recorded in a snapshot file and records what the
/// inner transport answered for requests not seen before.
///
/// The store itself holds the cache and the decision logic; reading and
/// writing the snapshot file, and calling the inner transport, are the
/// caller's part.
pub struct SnapshotRequestor {
    /// The recorded entries, sorted by id, with unique request keys.
    pub entries: Vec<RequestorResponseSnapshot>,
    /// The id the next recorded entry will get.
    pub next_id: u64,
    /// The path of the snapshot file on disk.
    pub file: String,
    /// Whether every newly recorded entry should be saved at once.
    pub aggressive_save: bool,
    /// Whether a missing entry fails instead of asking the inner
    /// transport.
    pub fail_on_miss: bool,
    /// Whether snapshot data is ignored: loading and saving become no-ops.
    pub ignore_snapshot: bool,
}

/// The store invariant: entries sorted by id below `next_id`, with
/// unique keys.
pub open spec fn wf_store(s: SnapshotRequestor) -> bool {
    &&& wf_entry_list(entries_view(s.entries@))
    &&& forall|i: int| 0 <= i < s.entries@.len() ==> (#[trigger] s.entries@[i]).id < s.next_id
    &&& s.next_id >= 1
}

/// What a lookup decides for an incoming request.
#[derive(Debug, PartialEq, Eq)]
pub enum SnapshotLookup {
    /// The request was recorded: replay this response.
    Hit { response: Vec<u8> },
    /// Not recorded, and misses must fail: answer HTTP 404.
    MissFail,
    /// Not recorded: ask the inner transport, then record the answer.
    MissFetch,
}

// ---------------------------------------------------------------------------
// Map view lemmas
// ---------------------------------------------------------------------------

pub proof fn lemma_store_map_contains(s: Seq<(u64, Seq<u8>, Seq<u8>)>, i: int)
    requires
        forall|x: int, y: int| 0 <= x < y < s.len() ==> (#[trigger] s[x]).1 != (#[trigger] s[y]).1,
        0 <= i < s.len(),
    ensures
        store_map(s).contains_key(s[i].1),
        store_map(s)[s[i].1] == (s[i].0, s[i].2),
    decreases s.len(),
{
    if i == s.len() - 1 {
        assert(s.last() == s[i]);
    } else {
        let t = s.drop_last();
        assert(t[i] == s[i]);
        lemma_store_map_contains(t, i);
        assert(s.last().1 != s[i].1);
    }
}

pub proof fn lemma_store_map_absent(s: Seq<(u64, Seq<u8>, Seq<u8>)>, k: Seq<u8>)
    requires
        forall|i: int| 0 <= i < s.len() ==> (#[trigger] s[i]).1 != k,
    ensures
        !store_map(s).contains_key(k),
    decreases s.len(),
{
    if s.len() > 0 {
        let t = s.drop_last();
        assert(forall|i: int| 0 <= i < t.len() ==> #[trigger] t[i] == s[i]);
        lemma_store_map_absent(t, k);
    }
}

// ---------------------------------------------------------------------------
// The store operations
// ---------------------------------------------------------------------------

impl SnapshotRequestor {
    /// Creates an empty store for the given snapshot file. Nothing is
    /// loaded: use [`SnapshotRequestor::try_load`] with the file contents.
    pub fn new(snapshot_file: &str) -> (s: Self)
        ensures
            wf_store(s),
            s.entries@.len() == 0,
            s.next_id == 1,
            s.file@ == snapshot_file@,
            !s.aggressive_save,
            !s.fail_on_miss,
            !s.ignore_snapshot,
    {
        let s = SnapshotRequestor {
            entries: Vec::new(),
            next_id: 1,
            file: snapshot_file.to_owned(),
            aggressive_save: false,
            fail_on_miss: false,
            ignore_snapshot: false,
        };
        proof {
            assert(entries_view(s.entries@) =~= Seq::<(u64, Seq<u8>, Seq<u8>)>::empty());
        }
        s
    }

    /// The path of the snapshot file on disk.
    pub fn snapshot_path(&self) -> (p: &str)
        ensures
            p@ == self.file@,
    {
        self.file.as_str()
    }

    /// Forces a save after each newly recorded entry; the caller performs
    /// the save whenever recording reports an insertion.
    pub fn with_aggresive_save(self) -> (s: Self)
        ensures
            s == (SnapshotRequestor { aggressive_save: true, ..self }),
    {
        SnapshotRequestor { aggressive_save: true, ..self }
    }

    /// Ignores snapshot data: loads and saves become no-ops and every
    /// request is resolved by the inner transport.
    pub fn with_ignore_snapshot(self, ignore_snapshot: bool) -> (s: Self)
        ensures
            s == (SnapshotRequestor { ignore_snapshot, ..self }),
    {
        SnapshotRequestor { ignore_snapshot, ..self }
    }

    /// Drops all entries and resets the id counter; the file is untouched.
    pub fn clear(&mut self)
        ensures
            final(self).entries@.len() == 0,
            final(self).next_id == 1,
            final(self).file@ == old(self).file@,
            final(self).aggressive_save == old(self).aggressive_save,
            final(self).fail_on_miss == old(self).fail_on_miss,
            final(self).ignore_snapshot == old(self).ignore_snapshot,
            wf_store(*final(self)),
    {
        self.entries.clear();
        self.next_id = 1;
        proof {
            assert(entries_view(final(self).entries@)
                =~= Seq::<(u64, Seq<u8>, Seq<u8>)>::empty());
        }
    }

    /// Decides how to answer a POST: replay a recorded response, fail the
    /// miss, or ask the inner transport. With `fail_on_miss` set, the
    /// inner transport is never asked.
    pub fn lookup(&self, request: &Vec<u8>) -> (r: SnapshotLookup)
        requires
            wf_store(*self),
        ensures
            match r {
                SnapshotLookup::Hit { response } => {
                    &&& store_map(entries_view(self.entries@)).contains_key(request@)
                    &&& store_map(entries_view(self.entries@))[request@].1 == response@
                },
                SnapshotLookup::MissFail => {
                    &&& !store_map(entries_view(self.entries@)).contains_key(request@)
                    &&& self.fail_on_miss
                },
                SnapshotLookup::MissFetch => {
                    &&& !store_map(entries_view(self.entries@)).contains_key(request@)
                    &&& !self.fail_on_miss
                },
            },
    {
        proof {
            lemma_entries_view_index(self.entries@);
        }
        let ghost ev = entries_view(self.entries@);
        let mut k: usize = 0;
        while k < self.entries.len()
            invariant
                wf_store(*self),
                ev == entries_view(self.entries@),
                ev.len() == self.entries@.len(),
                forall|i: int| 0 <= i < self.entries@.len() ==> ev[i] == entry_view(
                    #[trigger] self.entries@[i],
                ),
                k <= self.entries@.len(),
                forall|i: int| 0 <= i < k ==> (#[trigger] ev[i]).1 != request@,
            decreases self.entries@.len() - k,
        {
            if bytes_eq(&self.entries[k].request, request) {
                proof {
                    lemma_store_map_contains(ev, k as int);
                }
                return SnapshotLookup::Hit { response: clone_bytes(&self.entries[k].response) };
            }
            k = k + 1;
        }
        proof {
            lemma_store_map_absent(ev, request@);
        }
        if self.fail_on_miss {
            SnapshotLookup::MissFail
        } else {
            SnapshotLookup::MissFetch
        }
    }

    /// Records what the inner transport answered for a missed request.
    ///
    /// When the key was recorded in the meantime the stored response wins
    /// and nothing changes. Otherwise the response must be valid UTF-8 —
    /// entries are strings in the snapshot model — and is stored under a
    /// fresh id; a response that is not UTF-8 is rejected as an unknown
    /// error and nothing is cached. The returned flag tells whether an
    /// entry was inserted, so the caller can save at once under
    /// `aggressive_save`.
    pub fn record_response(&mut self, request: &Vec<u8>, response: Vec<u8>) -> (r: Result<
        (Vec<u8>, bool),
        HttpRequestError,
    >)
        requires
            wf_store(*old(self)),
            old(self).next_id < u64::MAX,
        ensures
            wf_store(*final(self)),
            final(self).file@ == old(self).file@,
            final(self).aggressive_save == old(self).aggressive_save,
            final(self).fail_on_miss == old(self).fail_on_miss,
            final(self).ignore_snapshot == old(self).ignore_snapshot,
            if store_map(entries_view(old(self).entries@)).contains_key(request@) {
                match r {
                    Ok((out, inserted)) => {
                        &&& !inserted
                        &&& *final(self) == *old(self)
                        &&& out@ == store_map(entries_view(old(self).entries@))[request@].1
                    },
                    Err(_) => false,
                }
            } else if valid_utf8(response@) {
                match r {
                    Ok((out, inserted)) => {
                        &&& inserted
                        &&& out@ == response@
                        &&& store_map(entries_view(final(self).entries@)) == store_map(
                            entries_view(old(self).entries@),
                        ).insert(request@, (old(self).next_id, response@))
                        &&& final(self).next_id == old(self).next_id + 1
                    },
                    Err(_) => false,
                }
            } else {
                match r {
                    Ok(_) => false,
                    Err(e) => {
                        &&& *final(self) == *old(self)
                        &&& herrv(e) == HttpErrV::Unknown(unparseable_data_msg())
                    },
                }
            },
    {
        proof {
            lemma_entries_view_index(self.entries@);
        }
        let ghost ev = entries_view(self.entries@);
        let mut k: usize = 0;
        while k < self.entries.len()
            invariant
                wf_store(*self),
                self == old(self),
                ev == entries_view(self.entries@),
                ev.len() == self.entries@.len(),
                forall|i: int| 0 <= i < self.entries@.len() ==> ev[i] == entry_view(
                    #[trigger] self.entries@[i],
                ),
                k <= self.entries@.len(),
                forall|i: int| 0 <= i < k ==> (#[trigger] ev[i]).1 != request@,
            decreases self.entries@.len() - k,
        {
            if bytes_eq(&self.entries[k].request, request) {
                proof {
                    lemma_store_map_contains(ev, k as int);
                }
                return Ok((clone_bytes(&self.entries[k].response), false));
            }
            k = k + 1;
        }
        proof {
            lemma_store_map_absent(ev, request@);
        }
        if !is_valid_utf8(&response) {
            return Err(HttpRequestError::UnknownError(b_unparseable_data()));
        }
        let id = self.next_id;
        let out = clone_bytes(&response);
        let entry = RequestorResponseSnapshot { id, request: clone_bytes(request), response };
        let ghost prev = self.entries@;
        self.entries.push(entry);
        self.next_id = self.next_id + 1;
        proof {
            lemma_entries_view_index(self.entries@);
            let ev2 = entries_view(self.entries@);
            assert(self.entries@ =~= prev.push(entry));
            assert(ev2.len() == prev.len() + 1);
            assert forall|i: int| 0 <= i < prev.len() implies ev2[i] == ev[i] by {
                assert(self.entries@[i] == prev[i]);
            }
            assert(self.entries@[prev.len() as int] == entry);
            assert(ev2[prev.len() as int] == entry_view(entry));
            assert(entry_view(entry) == (id, request@, out@));
            assert(ev2.drop_last() =~= ev);
            assert(ev2.last() == (id, request@, out@));
            assert(store_map(ev2) == store_map(ev).insert(request@, (id, out@)));
            assert forall|x: int, y: int|
                0 <= x < y < ev2.len() implies (#[trigger] ev2[x]).1 != (#[trigger] ev2[y]).1 by {
                if y == prev.len() {
                    assert(ev2[x] == ev[x]);
                    assert(ev[x].1 != request@);
                }
            }
            assert forall|x: int, y: int|
                0 <= x < y < ev2.len() implies (#[trigger] ev2[x]).0 <= (#[trigger] ev2[y]).0 by {
                if y == prev.len() {
                    assert(ev2[x] == ev[x]);
                    assert(ev[x] == entry_view(prev[x]));
                    assert(prev[x].id < id);
                }
            }
            assert forall|i: int|
                0 <= i < self.entries@.len() implies (#[trigger] self.entries@[i]).id
                < self.next_id by {
                if i < prev.len() {
                    assert(self.entries@[i] == prev[i]);
                }
            }
        }
        Ok((out, true))
    }
}

/// The bytes of `unparseable data`.
pub open spec fn unparseable_data_msg() -> Seq<u8> {
    seq![0x75, 0x6e, 0x70, 0x61, 0x72, 0x73, 0x65, 0x61, 0x62, 0x6c, 0x65, 0x20, 0x64, 0x61, 0x74,
        0x61]
}

fn b_unparseable_data() -> (v: Vec<u8>)
    ensures
        v@ == unparseable_data_msg(),
{
    let mut v: Vec<u8> = Vec::new();
    v.push(0x75);
    v.push(0x6e);
    v.push(0x70);
    v.push(0x61);
    v.push(0x72);
    v.push(0x73);
    v.push(0x65);
    v.push(0x61);
    v.push(0x62);
    v.push(0x6c);
    v.push(0x65);
    v.push(0x20);
    v.push(0x64);
    v.push(0x61);
    v.push(0x74);
    v.push(0x61);
    proof {
        assert(v@ =~= unparseable_data_msg());
    }
    v
}

// ---------------------------------------------------------------------------
// The snapshot file codec
// ---------------------------------------------------------------------------

/// The bytes of `- id: `.
pub open spec fn lit_entry_head() -> Seq<u8> {
    seq![0x2d, 0x20, 0x69, 0x64, 0x3a, 0x20]
}

/// The bytes of a newline followed by `  request: `.
pub open spec fn lit_request_key() -> Seq<u8> {
    seq![0x0a, 0x20, 0x20, 0x72, 0x65, 0x71, 0x75, 0x65, 0x73, 0x74, 0x3a, 0x20]
}

/// The bytes of a newline followed by `  response: `.
pub open spec fn lit_response_key() -> Seq<u8> {
    seq![0x0a, 0x20, 0x20, 0x72, 0x65, 0x73, 0x70, 0x6f, 0x6e, 0x73, 0x65, 0x3a, 0x20]
}

fn b_entry_head() -> (v: Vec<u8>)
    ensures
        v@ == lit_entry_head(),
{
    let mut v: Vec<u8> = Vec::new();
    v.push(0x2d);
    v.push(0x20);
    v.push(0x69);
    v.push(0x64);
    v.push(0x3a);
    v.push(0x20);
    proof {
        assert(v@ =~= lit_entry_head());
    }
    v
}

fn b_request_key() -> (v: Vec<u8>)
    ensures
        v@ == lit_request_key(),
{
    let mut v: Vec<u8> = Vec::new();
    v.push(0x0a);
    v.push(0x20);
    v.push(0x20);
    v.push(0x72);
    v.push(0x65);
    v.push(0x71);
    v.push(0x75);
    v.push(0x65);
    v.push(0x73);
    v.push(0x74);
    v.push(0x3a);
    v.push(0x20);
    proof {
        assert(v@ =~= lit_request_key());
    }
    v
}

fn b_response_key() -> (v: Vec<u8>)
    ensures
        v@ == lit_response_key(),
{
    let mut v: Vec<u8> = Vec::new();
    v.push(0x0a);
    v.push(0x20);
    v.push(0x20);
    v.push(0x72);
    v.push(0x65);
    v.push(0x73);
    v.push(0x70);
    v.push(0x6f);
    v.push(0x6e);
    v.push(0x73);
    v.push(0x65);
    v.push(0x3a);
    v.push(0x20);
    proof {
        assert(v@ =~= lit_response_key());
    }
    v
}

/// The rendering of one entry: both values are written double-quoted.
pub open spec fn render_entry(e: (u64, Seq<u8>, Seq<u8>)) -> Seq<u8> {
    lit_entry_head() + dec_digits(e.0 as nat) + lit_request_key() + seq![0x22u8] + esc_bytes(e.1)
        + seq![0x22u8] + lit_response_key() + seq![0x22u8] + esc_bytes(e.2) + seq![
        0x22u8,
        0x0au8,
    ]
}

/// The rendering of the entries `es[k..]`.
pub open spec fn render_from(es: Seq<(u64, Seq<u8>, Seq<u8>)>, k: int) -> Seq<u8>
    decreases es.len() - k,
{
    if k < 0 || k >= es.len() {
        Seq::empty()
    } else {
        render_entry(es[k]) + render_from(es, k + 1)
    }
}

/// First index at or after `i` whose byte ends a line: a control byte,
/// newline included.
pub open spec fn line_end(s: Seq<u8>, i: int) -> int
    decreases s.len() - i,
{
    if 0 <= i < s.len() && s[i] >= 0x20 {
        line_end(s, i + 1)
    } else {
        i
    }
}

pub proof fn lemma_line_end_bounds(s: Seq<u8>, i: int)
    requires
        0 <= i <= s.len(),
    ensures
        i <= line_end(s, i) <= s.len(),
    decreases s.len() - i,
{
    if 0 <= i < s.len() && s[i] >= 0x20 {
        lemma_line_end_bounds(s, i + 1);
    }
}

/// Parses the body of a single-quoted scalar, starting just after the
/// opening quote: a doubled quote stands for one quote, any other
/// printable byte stands for itself.
pub open spec fn sp_sq_body(s: Seq<u8>, i: int) -> Option<(Seq<u8>, int)>
    decreases s.len() - i,
{
    if i < 0 || i >= s.len() {
        None
    } else if s[i] == 0x27 {
        if i + 1 < s.len() && s[i + 1] == 0x27 {
            match sp_sq_body(s, i + 2) {
                Some((t, e)) => Some((seq![0x27u8] + t, e)),
                None => None,
            }
        } else {
            Some((Seq::empty(), i + 1))
        }
    } else if s[i] >= 0x20 {
        match sp_sq_body(s, i + 1) {
            Some((t, e)) => Some((seq![s[i]] + t, e)),
            None => None,
        }
    } else {
        None
    }
}

/// Parses one scalar value at `i`: double-quoted with the JSON-style
/// escapes, single-quoted, or a plain one-line scalar taken verbatim.
/// Yields the content and the position of the line terminator (just
/// after the closing quote for quoted styles).
pub open spec fn sp_scalar(s: Seq<u8>, i: int) -> Option<(Seq<u8>, int)> {
    if i < 0 || i >= s.len() {
        None
    } else if s[i] == 0x22 {
        sp_str_body(s, i + 1)
    } else if s[i] == 0x27 {
        sp_sq_body(s, i + 1)
    } else if s[i] > 0x20 {
        Some((s.subrange(i, line_end(s, i)), line_end(s, i)))
    } else {
        None
    }
}

/// Parses a single-quoted scalar body; mirrors [`sp_sq_body`].
fn parse_sq_body(s: &Vec<u8>, i: usize) -> (r: Option<(Vec<u8>, usize)>)
    requires
        i <= s@.len(),
    ensures
        match r {
            Some((t, e)) => sp_sq_body(s@, i as int) == Some((t@, e as int)) && i < e <= s@.len(),
            None => sp_sq_body(s@, i as int) is None,
        },
{
    let mut acc: Vec<u8> = Vec::new();
    let mut j: usize = i;
    loop
        invariant
            i <= j <= s@.len(),
            sp_sq_body(s@, i as int) == (match sp_sq_body(s@, j as int) {
                Some((t, e)) => Some((acc@ + t, e)),
                None => None::<(Seq<u8>, int)>,
            }),
        decreases s@.len() - j,
    {
        if j == s.len() {
            return None;
        }
        let b = s[j];
        if b == 0x27 {
            if j + 1 < s.len() && s[j + 1] == 0x27 {
                proof {
                    lemma_push_comp(acc@, 0x27, sp_sq_body(s@, (j + 2) as int));
                }
                acc.push(0x27);
                j = j + 2;
            } else {
                proof {
                    assert(acc@ + Seq::<u8>::empty() =~= acc@);
                }
                return Some((acc, j + 1));
            }
        } else if b >= 0x20 {
            proof {
                lemma_push_comp(acc@, b, sp_sq_body(s@, (j + 1) as int));
            }
            acc.push(b);
            j = j + 1;
        } else {
            return None;
        }
    }
}

/// Parses one scalar value; mirrors [`sp_scalar`].
fn parse_scalar(s: &Vec<u8>, i: usize) -> (r: Option<(Vec<u8>, usize)>)
    requires
        i <= s@.len(),
    ensures
        match r {
            Some((t, e)) => sp_scalar(s@, i as int) == Some((t@, e as int)) && i < e <= s@.len(),
            None => sp_scalar(s@, i as int) is None,
        },
{
    if i == s.len() {
        return None;
    }
    let b = s[i];
    if b == 0x22 {
        parse_str_body(s, i + 1)
    } else if b == 0x27 {
        parse_sq_body(s, i + 1)
    } else if b > 0x20 {
        proof {
            lemma_line_end_bounds(s@, (i + 1) as int);
            assert(line_end(s@, i as int) == line_end(s@, (i + 1) as int));
        }
        let ghost e = line_end(s@, i as int);
        let mut j: usize = i;
        let mut t: Vec<u8> = Vec::new();
        while j < s.len() && s[j] >= 0x20
            invariant
                i <= j <= s@.len(),
                e == line_end(s@, i as int),
                line_end(s@, j as int) == e,
                j <= e,
                t@ == s@.subrange(i as int, j as int),
            decreases s@.len() - j,
        {
            proof {
                lemma_line_end_bounds(s@, (j + 1) as int);
                assert(line_end(s@, (j + 1) as int) == e);
            }
            t.push(s[j]);
            proof {
                assert(t@ =~= s@.subrange(i as int, (j + 1) as int));
            }
            j = j + 1;
        }
        proof {
            assert(line_end(s@, j as int) == j);
            assert(j == e);
        }
        Some((t, j))
    } else {
        None
    }
}

/// Parses entries from position `i` to the end of the file.
pub open spec fn sp_snapshot(s: Seq<u8>, i: int) -> Option<Seq<(u64, Seq<u8>, Seq<u8>)>>
    decreases s.len() - i,
{
    if i < 0 || i > s.len() {
        None
    } else if i == s.len() {
        Some(Seq::empty())
    } else if sub_at(s, i, lit_entry_head()) {
        let dend = digits_end(s, i + 6);
        if dend > i + 6 && dec_val(s.subrange(i + 6, dend)) <= u64::MAX && sub_at(
            s,
            dend,
            lit_request_key(),
        ) {
            match sp_scalar(s, dend + 12) {
                Some((req, p)) => {
                    if sub_at(s, p, lit_response_key()) {
                        match sp_scalar(s, p + 13) {
                            Some((resp, q)) => {
                                if q < s.len() && s[q] == 0x0a && q + 1 > i {
                                    match sp_snapshot(s, q + 1) {
                                        Some(rest) => Some(
                                            seq![
                                                (
                                                    dec_val(s.subrange(i + 6, dend)) as u64,
                                                    req,
                                                    resp,
                                                ),
                                            ] + rest,
                                        ),
                                        None => None,
                                    }
                                } else {
                                    None
                                }
                            },
                            None => None,
                        }
                    } else {
                        None
                    }
                },
                None => None,
            }
        } else {
            None
        }
    } else {
        None
    }
}

/// Whether `pat` occurs at position `i`; mirrors [`sub_at`].
fn match_at(s: &Vec<u8>, i: usize, pat: &Vec<u8>) -> (r: bool)
    requires
        i <= s@.len(),
    ensures
        r == sub_at(s@, i as int, pat@),
{
    if pat.len() > s.len() - i {
        proof {
            assert(!sub_at(s@, i as int, pat@));
        }
        return false;
    }
    let mut j: usize = 0;
    while j < pat.len()
        invariant
            i + pat@.len() <= s@.len(),
            s@.len() <= usize::MAX,
            j <= pat@.len(),
            forall|k: int| 0 <= k < j ==> s@[i + k] == pat@[k],
        decreases pat@.len() - j,
    {
        if s[i + j] != pat[j] {
            proof {
                assert(!sub_at(s@, i as int, pat@)) by {
                    if sub_at(s@, i as int, pat@) {
                        lemma_sub_at_index(s@, i as int, pat@);
                        assert(s@[i + j] == pat@[j as int]);
                    }
                }
            }
            return false;
        }
        j = j + 1;
    }
    proof {
        assert(s@.subrange(i as int, i + pat@.len() as int) =~= pat@);
    }
    true
}

/// Renders the entries `entries[k..]` onto `out`; mirrors [`render_from`].
pub fn write_entries(entries: &Vec<RequestorResponseSnapshot>, k: usize, out: &mut Vec<u8>)
    requires
        k <= entries@.len(),
    ensures
        final(out)@ == old(out)@ + render_from(entries_view(entries@), k as int),
    decreases entries@.len() - k,
{
    proof {
        lemma_entries_view_index(entries@);
    }
    if k >= entries.len() {
        proof {
            assert(out@ =~= old(out)@ + render_from(entries_view(entries@), k as int));
        }
        return;
    }
    let head = b_entry_head();
    let rkey = b_request_key();
    let pkey = b_response_key();
    out.append(&mut { head });
    push_dec_u64(entries[k].id, out);
    out.append(&mut { rkey });
    out.push(0x22);
    write_escaped(&entries[k].request, out);
    out.push(0x22);
    out.append(&mut { pkey });
    out.push(0x22);
    write_escaped(&entries[k].response, out);
    out.push(0x22);
    out.push(0x0a);
    proof {
        assert(out@ =~= old(out)@ + render_entry(entries_view(entries@)[k as int]));
    }
    write_entries(entries, k + 1, out);
    proof {
        assert(out@ =~= old(out)@ + render_from(entries_view(entries@), k as int));
    }
}

/// Parses a snapshot file; mirrors [`sp_snapshot`].
pub fn parse_snapshot(s: &Vec<u8>) -> (r: Option<Vec<RequestorResponseSnapshot>>)
    ensures
        match r {
            Some(list) => sp_snapshot(s@, 0) == Some(entries_view(list@)),
            None => sp_snapshot(s@, 0) is None,
        },
{
    let head = b_entry_head();
    let rkey = b_request_key();
    let pkey = b_response_key();
    let mut acc: Vec<RequestorResponseSnapshot> = Vec::new();
    let mut j: usize = 0;
    proof {
        assert(entries_view(acc@) =~= Seq::<(u64, Seq<u8>, Seq<u8>)>::empty());
        assert(entries_view(acc@) + Seq::<(u64, Seq<u8>, Seq<u8>)>::empty()
            =~= entries_view(acc@));
    }
    loop
        invariant
            j <= s@.len(),
            head@ == lit_entry_head(),
            rkey@ == lit_request_key(),
            pkey@ == lit_response_key(),
            sp_snapshot(s@, 0) == (match sp_snapshot(s@, j as int) {
                Some(rest) => Some(entries_view(acc@) + rest),
                None => None::<Seq<(u64, Seq<u8>, Seq<u8>)>>,
            }),
        decreases s@.len() - j,
    {
        if j == s.len() {
            proof {
                assert(entries_view(acc@) + Seq::<(u64, Seq<u8>, Seq<u8>)>::empty()
                    =~= entries_view(acc@));
            }
            return Some(acc);
        }
        if !match_at(s, j, &head) {
            return None;
        }
        let (dend, val) = scan_dec_u64(s, j + 6);
        if dend == j + 6 {
            return None;
        }
        let id = match val {
            Some(v) => v,
            None => {
                return None;
            },
        };
        if !match_at(s, dend, &rkey) {
            return None;
        }
        let (req, p) = match parse_scalar(s, dend + 12) {
            Some(x) => x,
            None => {
                return None;
            },
        };
        if !match_at(s, p, &pkey) {
            return None;
        }
        let (resp, q) = match parse_scalar(s, p + 13) {
            Some(x) => x,
            None => {
                return None;
            },
        };
        if !(q < s.len() && s[q] == 0x0a) {
            return None;
        }
        let entry = RequestorResponseSnapshot { id, request: req, response: resp };
        let ghost prev = acc@;
        let ghost tri = (id, entry.request@, entry.response@);
        acc.push(entry);
        proof {
            lemma_entries_view_index(acc@);
            lemma_entries_view_index(prev);
            assert(acc@ =~= prev.push(acc@[prev.len() as int]));
            assert forall|x: int|
                0 <= x < acc@.len() implies entries_view(acc@)[x] == (if x < prev.len() {
                entries_view(prev)[x]
            } else {
                tri
            }) by {
                if x < prev.len() {
                    assert(acc@[x] == prev[x]);
                }
            }
            assert(entries_view(acc@) =~= entries_view(prev) + seq![tri]);
            let rest0 = sp_snapshot(s@, j as int);
            let rest1 = sp_snapshot(s@, (q + 1) as int);
            assert(rest0 == (match rest1 {
                Some(rest) => Some(seq![tri] + rest),
                None => None::<Seq<(u64, Seq<u8>, Seq<u8>)>>,
            }));
            match rest1 {
                Some(rest) => {
                    assert(entries_view(prev) + (seq![tri] + rest) =~= entries_view(acc@) + rest);
                },
                None => {},
            }
        }
        j = q + 1;
    }
}

// ---------------------------------------------------------------------------
// Round trip: parsing inverts rendering
// ---------------------------------------------------------------------------

proof fn lemma_digits_end_exact(s: Seq<u8>, i: int, e: int)
    requires
        0 <= i <= e <= s.len(),
        forall|k: int| i <= k < e ==> is_digit(#[trigger] s[k]),
        e == s.len() || !is_digit(s[e]),
    ensures
        digits_end(s, i) == e,
    decreases e - i,
{
    if i < e {
        lemma_digits_end_exact(s, i + 1, e);
    }
}

/// Parsing a rendered entry list recovers `es[k..]`, provided the
/// rendering reaches the end of the file.
#[verifier::rlimit(100)]
pub proof fn lemma_snapshot_roundtrip_at(
    s: Seq<u8>,
    i: int,
    es: Seq<(u64, Seq<u8>, Seq<u8>)>,
    k: int,
)
    requires
        0 <= k <= es.len(),
        sub_at(s, i, render_from(es, k)),
        i + render_from(es, k).len() == s.len(),
    ensures
        sp_snapshot(s, i) == Some(es.subrange(k, es.len() as int)),
    decreases es.len() - k,
{
    if k == es.len() {
        assert(render_from(es, k) == Seq::<u8>::empty());
        assert(i == s.len());
        assert(es.subrange(k, es.len() as int) =~= Seq::<(u64, Seq<u8>, Seq<u8>)>::empty());
    } else {
        let e = es[k];
        let digits = dec_digits(e.0 as nat);
        lemma_dec_digits_are_digits(e.0 as nat);
        lemma_dec_roundtrip(e.0 as nat);
        let body = render_entry(e);
        let rest = render_from(es, k + 1);
        assert(render_from(es, k) == body + rest);
        // peel the pieces of the entry off one by one
        assert(body + rest =~= lit_entry_head() + (digits + (lit_request_key() + (seq![0x22u8]
            + ((esc_bytes(e.1) + seq![0x22u8]) + (lit_response_key() + (seq![0x22u8] + ((esc_bytes(
            e.2,
        ) + seq![0x22u8]) + (seq![0x0au8] + rest)))))))));
        lemma_sub_at_split(s, i, lit_entry_head(), digits + (lit_request_key() + (seq![0x22u8]
            + ((esc_bytes(e.1) + seq![0x22u8]) + (lit_response_key() + (seq![0x22u8] + ((esc_bytes(
            e.2,
        ) + seq![0x22u8]) + (seq![0x0au8] + rest))))))));
        let i1 = i + 6;
        lemma_sub_at_split(s, i1, digits, lit_request_key() + (seq![0x22u8] + ((esc_bytes(e.1)
            + seq![0x22u8]) + (lit_response_key() + (seq![0x22u8] + ((esc_bytes(e.2)
            + seq![0x22u8]) + (seq![0x0au8] + rest)))))));
        let i2 = i1 + digits.len() as int;
        lemma_sub_at_split(s, i2, lit_request_key(), seq![0x22u8] + ((esc_bytes(e.1)
            + seq![0x22u8]) + (lit_response_key() + (seq![0x22u8] + ((esc_bytes(e.2)
            + seq![0x22u8]) + (seq![0x0au8] + rest))))));
        let i3 = i2 + 12;
        lemma_sub_at_split(s, i3, seq![0x22u8], (esc_bytes(e.1) + seq![0x22u8]) + (
        lit_response_key() + (seq![0x22u8] + ((esc_bytes(e.2) + seq![0x22u8]) + (seq![0x0au8]
            + rest)))));
        lemma_sub_at_split(s, i3 + 1, esc_bytes(e.1) + seq![0x22u8], lit_response_key() + (
        seq![0x22u8] + ((esc_bytes(e.2) + seq![0x22u8]) + (seq![0x0au8] + rest))));
        let i4 = i3 + 1 + esc_bytes(e.1).len() as int + 1;
        lemma_sub_at_split(s, i4, lit_response_key(), seq![0x22u8] + ((esc_bytes(e.2)
            + seq![0x22u8]) + (seq![0x0au8] + rest)));
        let i5 = i4 + 13;
        lemma_sub_at_split(s, i5, seq![0x22u8], (esc_bytes(e.2) + seq![0x22u8]) + (seq![0x0au8]
            + rest));
        lemma_sub_at_split(s, i5 + 1, esc_bytes(e.2) + seq![0x22u8], seq![0x0au8] + rest);
        let i6 = i5 + 1 + esc_bytes(e.2).len() as int + 1;
        lemma_sub_at_split(s, i6, seq![0x0au8], rest);
        // the head matches, so the entry branch is taken
        assert(i < s.len());
        // the digit run is exactly the id digits
        lemma_sub_at_index(s, i1, digits);
        lemma_sub_at_index(s, i2, lit_request_key());
        assert(s[i2 + 0] == 0x0a);
        assert forall|x: int| i1 <= x < i2 implies is_digit(#[trigger] s[x]) by {
            assert(s[i1 + (x - i1)] == digits[x - i1]);
        }
        lemma_digits_end_exact(s, i1, i2);
        assert(s.subrange(i1, i2) =~= digits);
        assert(dec_val(s.subrange(i1, i2)) == e.0 as nat);
        // both values are written double-quoted, so the scalar parser
        // takes the double-quoted branch
        lemma_sub_at_index(s, i3, seq![0x22u8]);
        assert(s[i3 + 0] == 0x22);
        lemma_str_body_of_esc(s, i3 + 1, e.1);
        assert(sp_str_body(s, i3 + 1) == Some((e.1, i4)));
        assert(sp_scalar(s, i3) == Some((e.1, i4)));
        lemma_sub_at_index(s, i5, seq![0x22u8]);
        assert(s[i5 + 0] == 0x22);
        lemma_str_body_of_esc(s, i5 + 1, e.2);
        assert(sp_str_body(s, i5 + 1) == Some((e.2, i6)));
        assert(sp_scalar(s, i5) == Some((e.2, i6)));
        // the newline after the response
        lemma_sub_at_index(s, i6, seq![0x0au8]);
        assert(s[i6 + 0] == 0x0a);
        // and the rest of the file parses by induction
        lemma_snapshot_roundtrip_at(s, i6 + 1, es, k + 1);
        assert(sp_snapshot(s, i6 + 1) == Some(es.subrange(k + 1, es.len() as int)));
        assert(seq![(e.0, e.1, e.2)] + es.subrange(k + 1, es.len() as int) =~= es.subrange(
            k,
            es.len() as int,
        ));
        assert((dec_val(s.subrange(i1, i2)) as u64, e.1, e.2) == (e.0, e.1, e.2));
    }
}

// ---------------------------------------------------------------------------
// Loading and saving
// ---------------------------------------------------------------------------

/// Why a snapshot file could not be loaded.
#[derive(Debug, PartialEq, Eq)]
pub enum SnapshotLoadError {
    /// The file does not parse as a snapshot, or an id is out of range.
    Malformed,
}

/// Some entry of `s` has the key `k`.
pub open spec fn skey_present(s: Seq<(u64, Seq<u8>, Seq<u8>)>, k: Seq<u8>) -> bool {
    exists|i: int| 0 <= i < s.len() && (#[trigger] s[i]).1 == k
}

/// The first position of `s` at or after `j` whose id reaches `id`:
/// inserting there keeps ids sorted and leaves entries of equal id in
/// their relative order.
pub open spec fn spos_from(s: Seq<(u64, Seq<u8>, Seq<u8>)>, id: u64, j: int) -> int
    decreases s.len() - j,
{
    if j < 0 || j >= s.len() {
        j
    } else if s[j].0 >= id {
        j
    } else {
        spos_from(s, id, j + 1)
    }
}

/// How one loaded entry joins the cache: dropped when its key is already
/// present — a later file entry wins — otherwise put at its id's place.
pub open spec fn sinsert(
    acc: Seq<(u64, Seq<u8>, Seq<u8>)>,
    e: (u64, Seq<u8>, Seq<u8>),
) -> Seq<(u64, Seq<u8>, Seq<u8>)> {
    if skey_present(acc, e.1) {
        acc
    } else {
        acc.insert(spos_from(acc, e.0, 0), e)
    }
}

/// The cache rebuilt from the file entries `list[k..]`, processed from
/// the last entry backwards so that the last occurrence of a key wins.
pub open spec fn sload_from(list: Seq<(u64, Seq<u8>, Seq<u8>)>, k: int) -> Seq<
    (u64, Seq<u8>, Seq<u8>),
>
    decreases list.len() - k,
{
    if k < 0 || k >= list.len() {
        Seq::empty()
    } else {
        sinsert(sload_from(list, k + 1), list[k])
    }
}

/// The id counter after loading `list[k..]`: one past the largest id
/// observed, at least 1.
pub open spec fn snext_from(list: Seq<(u64, Seq<u8>, Seq<u8>)>, k: int) -> int
    decreases list.len() - k,
{
    if k < 0 || k >= list.len() {
        1
    } else {
        let rest = snext_from(list, k + 1);
        if list[k].0 + 1 > rest {
            list[k].0 + 1
        } else {
            rest
        }
    }
}

/// All ids leave room for a fresh one after them.
pub open spec fn ids_ok(list: Seq<(u64, Seq<u8>, Seq<u8>)>) -> bool {
    forall|i: int| 0 <= i < list.len() ==> (#[trigger] list[i]).0 < u64::MAX
}

impl SnapshotRequestor {
    /// Renders the current entries as the snapshot file contents, sorted
    /// by id; yields nothing when snapshot data is ignored. The caller
    /// writes the bytes to [`SnapshotRequestor::snapshot_path`].
    pub fn save(&self) -> (r: Option<Vec<u8>>)
        requires
            wf_store(*self),
        ensures
            self.ignore_snapshot <==> r is None,
            match r {
                Some(bytes) => bytes@ == render_from(entries_view(self.entries@), 0),
                None => true,
            },
    {
        if self.ignore_snapshot {
            return None;
        }
        let mut out: Vec<u8> = Vec::new();
        write_entries(&self.entries, 0, &mut out);
        proof {
            assert(out@ =~= render_from(entries_view(self.entries@), 0));
        }
        Some(out)
    }

    /// Puts one loaded entry into the cache; mirrors [`sinsert`].
    fn insert_entry(&mut self, e: RequestorResponseSnapshot)
        requires
            wf_store(*old(self)),
            e.id < old(self).next_id,
        ensures
            wf_store(*final(self)),
            final(self).next_id == old(self).next_id,
            final(self).file@ == old(self).file@,
            final(self).aggressive_save == old(self).aggressive_save,
            final(self).fail_on_miss == old(self).fail_on_miss,
            final(self).ignore_snapshot == old(self).ignore_snapshot,
            entries_view(final(self).entries@) == sinsert(
                entries_view(old(self).entries@),
                entry_view(e),
            ),
    {
        proof {
            lemma_entries_view_index(self.entries@);
        }
        let ghost ev = entries_view(self.entries@);
        let mut k: usize = 0;
        while k < self.entries.len()
            invariant
                *self == *old(self),
                wf_store(*self),
                e.id < self.next_id,
                ev == entries_view(self.entries@),
                ev.len() == self.entries@.len(),
                forall|i: int| 0 <= i < self.entries@.len() ==> ev[i] == entry_view(
                    #[trigger] self.entries@[i],
                ),
                k <= self.entries@.len(),
                forall|i: int| 0 <= i < k ==> (#[trigger] ev[i]).1 != e.request@,
            decreases self.entries@.len() - k,
        {
            if bytes_eq(&self.entries[k].request, &e.request) {
                proof {
                    assert(skey_present(ev, e.request@));
                }
                return;
            }
            k = k + 1;
        }
        proof {
            assert(!skey_present(ev, e.request@));
        }
        let mut p: usize = 0;
        while p < self.entries.len() && self.entries[p].id < e.id
            invariant
                *self == *old(self),
                wf_store(*self),
                e.id < self.next_id,
                ev == entries_view(self.entries@),
                ev.len() == self.entries@.len(),
                forall|i: int| 0 <= i < self.entries@.len() ==> ev[i] == entry_view(
                    #[trigger] self.entries@[i],
                ),
                p <= self.entries@.len(),
                spos_from(ev, e.id, 0) == spos_from(ev, e.id, p as int),
                forall|i: int| 0 <= i < p ==> (#[trigger] ev[i]).0 < e.id,
            decreases self.entries@.len() - p,
        {
            p = p + 1;
        }
        proof {
            assert(spos_from(ev, e.id, p as int) == p);
        }
        let ghost prev = self.entries@;
        let ghost tri = entry_view(e);
        self.entries.insert(p, e);
        proof {
            lemma_entries_view_index(self.entries@);
            lemma_entries_view_index(prev);
            let ev2 = entries_view(self.entries@);
            assert(self.entries@ =~= prev.insert(p as int, self.entries@[p as int]));
            assert forall|x: int|
                0 <= x < ev2.len() implies ev2[x] == (if x < p {
                ev[x]
            } else if x == p {
                tri
            } else {
                ev[x - 1]
            }) by {
                if x < p {
                    assert(self.entries@[x] == prev[x]);
                } else if x > p {
                    assert(self.entries@[x] == prev[x - 1]);
                }
            }
            assert(ev2 =~= ev.insert(p as int, tri));
            assert(wf_entry_list(ev2)) by {
                assert forall|x: int, y: int|
                    0 <= x < y < ev2.len() implies (#[trigger] ev2[x]).1 != (#[trigger] ev2[y]).1
                        && (ev2[x]).0 <= (ev2[y]).0 by {
                    if x == p {
                        assert(ev2[y] == ev[y - 1]);
                        assert(ev[y - 1].0 >= e.id) by {
                            lemma_spos_found(ev, e.id, p as int);
                            if y - 1 > p {
                                assert(ev[p as int].0 <= ev[y - 1].0);
                            }
                        }
                    } else if y == p {
                        assert(ev2[x] == ev[x]);
                        assert(ev[x].0 < e.id);
                    } else {
                        let xx: int = if x < p {
                            x
                        } else {
                            x - 1
                        };
                        let yy: int = if y < p {
                            y
                        } else {
                            y - 1
                        };
                        assert(ev2[x] == ev[xx] && ev2[y] == ev[yy]);
                        if xx == yy {
                            assert(x == p);
                        }
                    }
                }
            }
            assert forall|i: int|
                0 <= i < self.entries@.len() implies (#[trigger] self.entries@[i]).id
                < self.next_id by {
                assert(entry_view(self.entries@[i]) == ev2[i]);
                if i < p {
                    assert(ev2[i] == ev[i]);
                    assert(ev[i] == entry_view(prev[i]));
                } else if i > p {
                    assert(ev2[i] == ev[i - 1]);
                    assert(ev[i - 1] == entry_view(prev[i - 1]));
                }
            }
        }
    }
}

proof fn lemma_spos_bounds(s: Seq<(u64, Seq<u8>, Seq<u8>)>, id: u64, j: int)
    requires
        0 <= j <= s.len(),
    ensures
        j <= spos_from(s, id, j) <= s.len(),
    decreases s.len() - j,
{
    if j < s.len() && !(s[j].0 >= id) {
        lemma_spos_bounds(s, id, j + 1);
    }
}

/// Where the id scan stops inside the list, the id there reaches the
/// probe.
proof fn lemma_spos_found(s: Seq<(u64, Seq<u8>, Seq<u8>)>, id: u64, p: int)
    requires
        0 <= p < s.len(),
        spos_from(s, id, p) == p,
    ensures
        s[p].0 >= id,
{
    if !(s[p].0 >= id) {
        lemma_spos_bounds(s, id, p + 1);
    }
}

impl SnapshotRequestor {
    /// Clears the cache and refills it from the parsed snapshot file
    /// contents; the id counter moves past every id in the file. When the
    /// load brings in at least one entry, the given `fail_on_miss` is
    /// adopted. A file that does not parse, or whose ids leave no room for
    /// fresh ones, leaves the store untouched. A no-op when snapshot data
    /// is ignored.
    pub fn try_load(&mut self, contents: &Vec<u8>, fail_on_miss: bool) -> (r: Result<
        (),
        SnapshotLoadError,
    >)
        requires
            wf_store(*old(self)),
        ensures
            wf_store(*final(self)),
            final(self).file@ == old(self).file@,
            final(self).aggressive_save == old(self).aggressive_save,
            final(self).ignore_snapshot == old(self).ignore_snapshot,
            old(self).ignore_snapshot ==> r is Ok && *final(self) == *old(self),
            !old(self).ignore_snapshot ==> match sp_snapshot(contents@, 0) {
                Some(list) => {
                    if ids_ok(list) {
                        &&& r is Ok
                        &&& entries_view(final(self).entries@) == sload_from(list, 0)
                        &&& final(self).next_id == snext_from(list, 0)
                        &&& final(self).fail_on_miss == (if list.len() > 0 {
                            fail_on_miss
                        } else {
                            old(self).fail_on_miss
                        })
                    } else {
                        r is Err && *final(self) == *old(self)
                    }
                },
                None => r is Err && *final(self) == *old(self),
            },
    {
        if self.ignore_snapshot {
            return Ok(());
        }
        let list = match parse_snapshot(contents) {
            Some(l) => l,
            None => {
                return Err(SnapshotLoadError::Malformed);
            },
        };
        proof {
            lemma_entries_view_index(list@);
        }
        let ghost lv = entries_view(list@);
        let mut k: usize = 0;
        while k < list.len()
            invariant
                *self == *old(self),
                wf_store(*self),
                !old(self).ignore_snapshot,
                sp_snapshot(contents@, 0) == Some(lv),
                lv == entries_view(list@),
                lv.len() == list@.len(),
                forall|i: int| 0 <= i < list@.len() ==> lv[i] == entry_view(#[trigger] list@[i]),
                k <= list@.len(),
                forall|i: int| 0 <= i < k ==> (#[trigger] lv[i]).0 < u64::MAX,
            decreases list@.len() - k,
        {
            if list[k].id == u64::MAX {
                proof {
                    assert(lv[k as int].0 == u64::MAX);
                    assert(!ids_ok(lv));
                }
                return Err(SnapshotLoadError::Malformed);
            }
            k = k + 1;
        }
        proof {
            assert(ids_ok(lv));
        }
        let any = list.len() > 0;
        self.clear();
        let mut work = list;
        proof {
            assert(work@.subrange(0, work@.len() as int) =~= work@);
            assert(entries_view(work@.subrange(0, work@.len() as int)) == lv);
        }
        while work.len() > 0
            invariant
                ids_ok(lv),
                lv.len() >= work@.len(),
                entries_view(work@) == lv.subrange(0, work@.len() as int),
                forall|i: int| 0 <= i < work@.len() ==> entry_view(#[trigger] work@[i]) == lv[i],
                entries_view(self.entries@) == sload_from(lv, work@.len() as int),
                self.next_id == snext_from(lv, work@.len() as int),
                wf_store(*self),
                self.file@ == old(self).file@,
                self.aggressive_save == old(self).aggressive_save,
                self.fail_on_miss == old(self).fail_on_miss,
                self.ignore_snapshot == old(self).ignore_snapshot,
            decreases work@.len(),
        {
            let ghost m = work@.len() as int;
            let ghost wprev = work@;
            let e = match work.pop() {
                Some(e) => e,
                None => {
                    proof {
                        assert(false);
                    }
                    return Err(SnapshotLoadError::Malformed);
                },
            };
            proof {
                assert(work@ =~= wprev.drop_last());
                assert(entry_view(e) == lv[m - 1]);
                assert(lv[m - 1].0 < u64::MAX);
            }
            let cand = e.id + 1;
            if cand > self.next_id {
                self.next_id = cand;
            }
            proof {
                assert(self.next_id == snext_from(lv, m - 1));
                assert(e.id < self.next_id);
                assert forall|i: int|
                    0 <= i < work@.len() implies entry_view(#[trigger] work@[i]) == lv[i] by {
                    assert(work@[i] == wprev[i]);
                }
                lemma_entries_view_index(work@);
                assert forall|i: int|
                    0 <= i < work@.len() implies entries_view(work@)[i] == lv.subrange(
                    0,
                    work@.len() as int,
                )[i] by {
                    assert(entries_view(work@)[i] == entry_view(work@[i]));
                    assert(work@[i] == wprev[i]);
                }
                assert(entries_view(work@) =~= lv.subrange(0, work@.len() as int));
            }
            self.insert_entry(e);
            proof {
                assert(entries_view(self.entries@) == sinsert(sload_from(lv, m), lv[m - 1]));
                assert(entries_view(self.entries@) == sload_from(lv, m - 1));
            }
        }
        proof {
            assert(entries_view(self.entries@) == sload_from(lv, 0));
            assert(self.next_id == snext_from(lv, 0));
        }
        if any {
            self.fail_on_miss = fail_on_miss;
        }
        Ok(())
    }

    /// Like [`SnapshotRequestor::try_load`], but keeps going when the
    /// load fails, leaving the store as it was; consumes and returns the
    /// store for chaining.
    pub fn load(self, contents: &Vec<u8>, fail_on_miss: bool) -> (s: Self)
        requires
            wf_store(self),
        ensures
            wf_store(s),
            s.file@ == self.file@,
            s.aggressive_save == self.aggressive_save,
            s.ignore_snapshot == self.ignore_snapshot,
            self.ignore_snapshot ==> s == self,
            !self.ignore_snapshot ==> match sp_snapshot(contents@, 0) {
                Some(list) => {
                    if ids_ok(list) {
                        &&& entries_view(s.entries@) == sload_from(list, 0)
                        &&& s.next_id == snext_from(list, 0)
                        &&& s.fail_on_miss == (if list.len() > 0 {
                            fail_on_miss
                        } else {
                            self.fail_on_miss
                        })
                    } else {
                        s == self
                    }
                },
                None => s == self,
            },
    {
        let mut out = self;
        let _ = out.try_load(contents, fail_on_miss);
        out
    }
}

// ---------------------------------------------------------------------------
// Laws of the snapshot store
// ---------------------------------------------------------------------------

/// Up to where the id scan stops, every id is below the probe.
proof fn lemma_spos_prefix(s: Seq<(u64, Seq<u8>, Seq<u8>)>, id: u64, j: int)
    requires
        0 <= j <= s.len(),
    ensures
        forall|i: int| j <= i < spos_from(s, id, j) ==> (#[trigger] s[i]).0 < id,
    decreases s.len() - j,
{
    if j < s.len() && !(s[j].0 >= id) {
        lemma_spos_prefix(s, id, j + 1);
    }
}

/// The id where the scan from the front stops reaches the probe.
proof fn lemma_spos_gt(s: Seq<(u64, Seq<u8>, Seq<u8>)>, id: u64, q: int)
    requires
        0 <= q < s.len(),
        spos_from(s, id, 0) == q,
    ensures
        s[q].0 >= id,
{
    lemma_spos_step(s, id, 0, q);
}

proof fn lemma_spos_step(s: Seq<(u64, Seq<u8>, Seq<u8>)>, id: u64, j: int, q: int)
    requires
        0 <= j <= q < s.len(),
        spos_from(s, id, j) == q,
    ensures
        s[q].0 >= id,
    decreases q - j,
{
    lemma_spos_bounds(s, id, j);
    if j == q {
        lemma_spos_found(s, id, j);
    } else {
        if s[j].0 >= id {
        } else {
            lemma_spos_step(s, id, j + 1, q);
        }
    }
}

/// Rebuilding a cache from its own sorted entries appends them one by one
/// and changes nothing: the insert position is stable, so entries of
/// equal id keep their order.
proof fn lemma_sload_of_sorted(ev: Seq<(u64, Seq<u8>, Seq<u8>)>, k: int)
    requires
        wf_entry_list(ev),
        0 <= k <= ev.len(),
    ensures
        sload_from(ev, k) == ev.subrange(k, ev.len() as int),
    decreases ev.len() - k,
{
    if k == ev.len() {
        assert(ev.subrange(k, ev.len() as int) =~= Seq::<(u64, Seq<u8>, Seq<u8>)>::empty());
    } else {
        lemma_sload_of_sorted(ev, k + 1);
        let acc = ev.subrange(k + 1, ev.len() as int);
        let e = ev[k];
        assert(!skey_present(acc, e.1)) by {
            if skey_present(acc, e.1) {
                let i = choose|i: int| 0 <= i < acc.len() && (#[trigger] acc[i]).1 == e.1;
                assert(acc[i] == ev[k + 1 + i]);
            }
        }
        assert(spos_from(acc, e.0, 0) == 0) by {
            if acc.len() > 0 {
                assert(acc[0] == ev[k + 1]);
                assert(acc[0].0 >= e.0);
            }
        }
        assert(acc.insert(0, e) =~= ev.subrange(k, ev.len() as int));
    }
}

/// Saving a cache and loading the rendered file yields a cache with
/// exactly the same entries: every key, id and response survives the
/// round trip.
pub proof fn lemma_save_then_load(ev: Seq<(u64, Seq<u8>, Seq<u8>)>)
    requires
        wf_entry_list(ev),
    ensures
        sp_snapshot(render_from(ev, 0), 0) == Some(ev),
        sload_from(ev, 0) == ev,
{
    let s = render_from(ev, 0);
    assert(s.subrange(0, s.len() as int) =~= s);
    lemma_snapshot_roundtrip_at(s, 0, ev, 0);
    assert(ev.subrange(0, ev.len() as int) =~= ev);
    lemma_sload_of_sorted(ev, 0);
}

/// Whatever the file holds, the rebuilt cache is well formed: sorted by
/// id with unique keys.
proof fn lemma_sload_wf(list: Seq<(u64, Seq<u8>, Seq<u8>)>, k: int)
    requires
        0 <= k <= list.len(),
    ensures
        wf_entry_list(sload_from(list, k)),
    decreases list.len() - k,
{
    if k < list.len() {
        lemma_sload_wf(list, k + 1);
        let acc = sload_from(list, k + 1);
        let e = list[k];
        if !skey_present(acc, e.1) {
            let q = spos_from(acc, e.0, 0);
            lemma_spos_bounds(acc, e.0, 0);
            lemma_spos_prefix(acc, e.0, 0);
            let acc2 = acc.insert(q, e);
            assert(sload_from(list, k) == acc2);
            assert(wf_entry_list(acc2)) by {
                assert forall|x: int, y: int|
                    0 <= x < y < acc2.len() implies (#[trigger] acc2[x]).1 != (#[trigger] acc2[y]).1
                        && (acc2[x]).0 <= (acc2[y]).0 by {
                    let xx: int = if x < q {
                        x
                    } else {
                        x - 1
                    };
                    let yy: int = if y < q {
                        y
                    } else {
                        y - 1
                    };
                    if x == q {
                        assert(acc2[y] == acc[y - 1]);
                        assert(acc[y - 1].0 >= e.0) by {
                            lemma_spos_gt(acc, e.0, q);
                            if y - 1 > q {
                                assert(acc[q].0 <= acc[y - 1].0);
                            }
                        }
                        assert(!(acc2[y].1 == e.1)) by {
                            assert(!skey_present(acc, e.1));
                        }
                    } else if y == q {
                        assert(acc2[x] == acc[x]);
                        assert(acc[x].0 < e.0);
                        assert(!(acc[x].1 == e.1)) by {
                            assert(!skey_present(acc, e.1));
                        }
                    } else {
                        assert(acc2[x] == acc[xx] && acc2[y] == acc[yy]);
                        if xx == yy {
                            assert(x == q);
                        }
                    }
                }
            }
        }
    } else {
        assert(sload_from(list, k) == Seq::<(u64, Seq<u8>, Seq<u8>)>::empty());
    }
}

/// Loading a snapshot file, saving the cache, and loading the saved file
/// again is a fixed point, whatever the file held: the second load
/// yields the same cache, and saving it again yields the same file
/// bytes.
pub proof fn lemma_load_save_load_fixed_point(list: Seq<(u64, Seq<u8>, Seq<u8>)>)
    ensures
        sp_snapshot(render_from(sload_from(list, 0), 0), 0) == Some(sload_from(list, 0)),
        sload_from(sload_from(list, 0), 0) == sload_from(list, 0),
{
    lemma_sload_wf(list, 0);
    lemma_save_then_load(sload_from(list, 0));
}

} // verus!
