//! Run status and metadata records, and their on-disk JSON forms.
//!
//! A run's `status.json` holds exactly two fields: the outcome and an
//! optional error text.  The writer emits one canonical compact JSON form;
//! the reader accepts exactly that form and treats anything else as a
//! corrupt record, which callers surface as "no status" rather than an
//! error.  Reading back what was written always yields the same record.

use vstd::prelude::*;

use crate::json::esc_spec;
use crate::json::lemma_unesc_esc;
use crate::json::push_escaped;
use crate::json::unesc_from;
use crate::json::unescape_from;
use crate::paths::push_all;

verus! {

/// How a run ended.
#[derive(Clone, Copy, Debug, PartialEq, Eq, Structural)]
pub enum Outcome {
    Success,
    Failed,
}

/// A run's persisted status record.
#[derive(Debug, Clone, PartialEq, Eq)]
pub struct RunStatus {
    pub status: Outcome,
    pub error: Option<Vec<u8>>,
}

/// Caller-supplied run metadata; every field is free-form text.
#[derive(Debug, Clone, PartialEq, Eq)]
pub struct Meta {
    pub branch: Option<Vec<u8>>,
    pub commit: Option<Vec<u8>>,
    pub trigger: Option<Vec<u8>>,
    pub started_at: Option<Vec<u8>>,
}

impl Default for Meta {
    /// All fields absent.
    fn default() -> (r: Self)
        ensures
            r.branch is None && r.commit is None && r.trigger is None && r.started_at is None,
    {
        Meta { branch: None, commit: None, trigger: None, started_at: None }
    }
}

pub open spec fn err_view(e: Option<Vec<u8>>) -> Option<Seq<u8>> {
    match e {
        Some(v) => Some(v@),
        None => None,
    }
}

/// `'{"status":"'` as bytes.
pub open spec fn lit_status_prefix() -> Seq<u8> {
    seq![0x7bu8, 0x22, 0x73, 0x74, 0x61, 0x74, 0x75, 0x73, 0x22, 0x3a, 0x22]
}

fn v_lit_status_prefix() -> (r: Vec<u8>)
    ensures
        r@ == lit_status_prefix(),
{
    let mut v: Vec<u8> = Vec::new();
    v.push(0x7b);
    v.push(0x22);
    v.push(0x73);
    v.push(0x74);
    v.push(0x61);
    v.push(0x74);
    v.push(0x75);
    v.push(0x73);
    v.push(0x22);
    v.push(0x3a);
    v.push(0x22);
    proof {
        assert(v@ =~= lit_status_prefix());
    }
    v
}

/// `'success'` as bytes.
pub open spec fn lit_success() -> Seq<u8> {
    seq![0x73u8, 0x75, 0x63, 0x63, 0x65, 0x73, 0x73]
}

fn v_lit_success() -> (r: Vec<u8>)
    ensures
        r@ == lit_success(),
{
    let mut v: Vec<u8> = Vec::new();
    v.push(0x73);
    v.push(0x75);
    v.push(0x63);
    v.push(0x63);
    v.push(0x65);
    v.push(0x73);
    v.push(0x73);
    proof {
        assert(v@ =~= lit_success());
    }
    v
}

/// `'failed'` as bytes.
pub open spec fn lit_failed() -> Seq<u8> {
    seq![0x66u8, 0x61, 0x69, 0x6c, 0x65, 0x64]
}

fn v_lit_failed() -> (r: Vec<u8>)
    ensures
        r@ == lit_failed(),
{
    let mut v: Vec<u8> = Vec::new();
    v.push(0x66);
    v.push(0x61);
    v.push(0x69);
    v.push(0x6c);
    v.push(0x65);
    v.push(0x64);
    proof {
        assert(v@ =~= lit_failed());
    }
    v
}

/// `'","error":'` as bytes.
pub open spec fn lit_error_mid() -> Seq<u8> {
    seq![0x22u8, 0x2c, 0x22, 0x65, 0x72, 0x72, 0x6f, 0x72, 0x22, 0x3a]
}

fn v_lit_error_mid() -> (r: Vec<u8>)
    ensures
        r@ == lit_error_mid(),
{
    let mut v: Vec<u8> = Vec::new();
    v.push(0x22);
    v.push(0x2c);
    v.push(0x22);
    v.push(0x65);
    v.push(0x72);
    v.push(0x72);
    v.push(0x6f);
    v.push(0x72);
    v.push(0x22);
    v.push(0x3a);
    proof {
        assert(v@ =~= lit_error_mid());
    }
    v
}

/// `'null}'` as bytes.
pub open spec fn lit_null_brace() -> Seq<u8> {
    seq![0x6eu8, 0x75, 0x6c, 0x6c, 0x7d]
}

fn v_lit_null_brace() -> (r: Vec<u8>)
    ensures
        r@ == lit_null_brace(),
{
    let mut v: Vec<u8> = Vec::new();
    v.push(0x6e);
    v.push(0x75);
    v.push(0x6c);
    v.push(0x6c);
    v.push(0x7d);
    proof {
        assert(v@ =~= lit_null_brace());
    }
    v
}

/// `'null'` as bytes.
pub open spec fn lit_null() -> Seq<u8> {
    seq![0x6eu8, 0x75, 0x6c, 0x6c]
}

fn v_lit_null() -> (r: Vec<u8>)
    ensures
        r@ == lit_null(),
{
    let mut v: Vec<u8> = Vec::new();
    v.push(0x6e);
    v.push(0x75);
    v.push(0x6c);
    v.push(0x6c);
    proof {
        assert(v@ =~= lit_null());
    }
    v
}

/// `'{"branch":'` as bytes.
pub open spec fn lit_branch_prefix() -> Seq<u8> {
    seq![0x7bu8, 0x22, 0x62, 0x72, 0x61, 0x6e, 0x63, 0x68, 0x22, 0x3a]
}

fn v_lit_branch_prefix() -> (r: Vec<u8>)
    ensures
        r@ == lit_branch_prefix(),
{
    let mut v: Vec<u8> = Vec::new();
    v.push(0x7b);
    v.push(0x22);
    v.push(0x62);
    v.push(0x72);
    v.push(0x61);
    v.push(0x6e);
    v.push(0x63);
    v.push(0x68);
    v.push(0x22);
    v.push(0x3a);
    proof {
        assert(v@ =~= lit_branch_prefix());
    }
    v
}

/// `',"commit":'` as bytes.
pub open spec fn lit_commit_mid() -> Seq<u8> {
    seq![0x2cu8, 0x22, 0x63, 0x6f, 0x6d, 0x6d, 0x69, 0x74, 0x22, 0x3a]
}

fn v_lit_commit_mid() -> (r: Vec<u8>)
    ensures
        r@ == lit_commit_mid(),
{
    let mut v: Vec<u8> = Vec::new();
    v.push(0x2c);
    v.push(0x22);
    v.push(0x63);
    v.push(0x6f);
    v.push(0x6d);
    v.push(0x6d);
    v.push(0x69);
    v.push(0x74);
    v.push(0x22);
    v.push(0x3a);
    proof {
        assert(v@ =~= lit_commit_mid());
    }
    v
}

/// `',"trigger":'` as bytes.
pub open spec fn lit_trigger_mid() -> Seq<u8> {
    seq![0x2cu8, 0x22, 0x74, 0x72, 0x69, 0x67, 0x67, 0x65, 0x72, 0x22, 0x3a]
}

fn v_lit_trigger_mid() -> (r: Vec<u8>)
    ensures
        r@ == lit_trigger_mid(),
{
    let mut v: Vec<u8> = Vec::new();
    v.push(0x2c);
    v.push(0x22);
    v.push(0x74);
    v.push(0x72);
    v.push(0x69);
    v.push(0x67);
    v.push(0x67);
    v.push(0x65);
    v.push(0x72);
    v.push(0x22);
    v.push(0x3a);
    proof {
        assert(v@ =~= lit_trigger_mid());
    }
    v
}

/// `',"started_at":'` as bytes.
pub open spec fn lit_started_mid() -> Seq<u8> {
    seq![0x2cu8, 0x22, 0x73, 0x74, 0x61, 0x72, 0x74, 0x65, 0x64, 0x5f, 0x61, 0x74, 0x22, 0x3a]
}

fn v_lit_started_mid() -> (r: Vec<u8>)
    ensures
        r@ == lit_started_mid(),
{
    let mut v: Vec<u8> = Vec::new();
    v.push(0x2c);
    v.push(0x22);
    v.push(0x73);
    v.push(0x74);
    v.push(0x61);
    v.push(0x72);
    v.push(0x74);
    v.push(0x65);
    v.push(0x64);
    v.push(0x5f);
    v.push(0x61);
    v.push(0x74);
    v.push(0x22);
    v.push(0x3a);
    proof {
        assert(v@ =~= lit_started_mid());
    }
    v
}

pub open spec fn outcome_lit(o: Outcome) -> Seq<u8> {
    match o {
        Outcome::Success => lit_success(),
        Outcome::Failed => lit_failed(),
    }
}

/// A JSON value that is either `null` or an escaped string.
pub open spec fn enc_val(e: Option<Seq<u8>>) -> Seq<u8> {
    match e {
        None => lit_null(),
        Some(v) => seq![0x22u8] + esc_spec(v) + seq![0x22u8],
    }
}

/// The canonical byte form of a status record:
/// `{"status":"...","error":...}`.
pub open spec fn enc_status(o: Outcome, e: Option<Seq<u8>>) -> Seq<u8> {
    lit_status_prefix() + outcome_lit(o) + lit_error_mid() + enc_val(e) + seq![0x7du8]
}

/// The canonical byte form of a metadata record, fields in fixed order.
pub open spec fn enc_meta(m: Meta) -> Seq<u8> {
    lit_branch_prefix() + enc_val(err_view(m.branch)) + lit_commit_mid() + enc_val(
        err_view(m.commit),
    ) + lit_trigger_mid() + enc_val(err_view(m.trigger)) + lit_started_mid() + enc_val(
        err_view(m.started_at),
    ) + seq![0x7du8]
}

pub open spec fn starts_with_at(s: Seq<u8>, p: Seq<u8>, at: int) -> bool {
    0 <= at && at + p.len() <= s.len() && s.subrange(at, at + p.len()) == p
}

/// What the status reader makes of a byte string: the record, if the bytes
/// are exactly a canonical status record, else nothing.
pub open spec fn parse_status_spec(s: Seq<u8>) -> Option<(Outcome, Option<Seq<u8>>)> {
    if !starts_with_at(s, lit_status_prefix(), 0) {
        None
    } else if starts_with_at(s, lit_success(), 11) {
        parse_after_outcome(s, Outcome::Success, 18)
    } else if starts_with_at(s, lit_failed(), 11) {
        parse_after_outcome(s, Outcome::Failed, 17)
    } else {
        None
    }
}

pub open spec fn parse_after_outcome(s: Seq<u8>, o: Outcome, i: int) -> Option<
    (Outcome, Option<Seq<u8>>),
> {
    if !starts_with_at(s, lit_error_mid(), i) {
        None
    } else {
        let j = i + 10;
        if starts_with_at(s, lit_null_brace(), j) && j + 5 == s.len() {
            Some((o, None))
        } else if j < s.len() && s[j] == 0x22 {
            match unesc_from(s, j + 1) {
                Some(p) => if p.1 + 1 == s.len() && s[p.1] == 0x7d {
                    Some((o, Some(p.0)))
                } else {
                    None
                },
                None => None,
            }
        } else {
            None
        }
    }
}

/// Serialize a status record into its canonical JSON bytes.
pub fn encode_status_json(st: &RunStatus) -> (r: Vec<u8>)
    ensures
        r@ == enc_status(st.status, err_view(st.error)),
{
    let mut out: Vec<u8> = v_lit_status_prefix();
    match st.status {
        Outcome::Success => {
            let l = v_lit_success();
            push_all(&mut out, &l);
        },
        Outcome::Failed => {
            let l = v_lit_failed();
            push_all(&mut out, &l);
        },
    }
    let l = v_lit_error_mid();
    push_all(&mut out, &l);
    match &st.error {
        None => {
            let l = v_lit_null();
            push_all(&mut out, &l);
        },
        Some(e) => {
            out.push(0x22);
            push_escaped(&mut out, e);
            out.push(0x22);
        },
    }
    out.push(0x7d);
    proof {
        assert(out@ =~= enc_status(st.status, err_view(st.error)));
    }
    out
}

/// Serialize a metadata record into its canonical JSON bytes.
pub fn encode_meta_json(m: &Meta) -> (r: Vec<u8>)
    ensures
        r@ == enc_meta(*m),
{
    let mut out: Vec<u8> = v_lit_branch_prefix();
    push_val(&mut out, &m.branch);
    let l = v_lit_commit_mid();
    push_all(&mut out, &l);
    push_val(&mut out, &m.commit);
    let l = v_lit_trigger_mid();
    push_all(&mut out, &l);
    push_val(&mut out, &m.trigger);
    let l = v_lit_started_mid();
    push_all(&mut out, &l);
    push_val(&mut out, &m.started_at);
    out.push(0x7d);
    proof {
        assert(out@ =~= enc_meta(*m));
    }
    out
}

fn push_val(out: &mut Vec<u8>, e: &Option<Vec<u8>>)
    ensures
        final(out)@ == old(out)@ + enc_val(err_view(*e)),
{
    match e {
        None => {
            let l = v_lit_null();
            push_all(out, &l);
        },
        Some(v) => {
            out.push(0x22);
            push_escaped(out, v);
            out.push(0x22);
            proof {
                assert(out@ =~= old(out)@ + enc_val(err_view(*e)));
            }
        },
    }
}

/// Is `lit` the content of `s` at offset `at`?
pub fn has_at(s: &Vec<u8>, at: usize, lit: &Vec<u8>) -> (r: bool)
    ensures
        r == starts_with_at(s@, lit@, at as int),
{
    let n: usize = s.len();
    if at > n {
        return false;
    }
    if n - at < lit.len() {
        return false;
    }
    let mut k: usize = 0;
    while k < lit.len()
        invariant
            k <= lit@.len(),
            n == s@.len(),
            at + lit@.len() <= n,
            forall|t: int| 0 <= t < k ==> s@[at + t] == lit@[t],
        decreases lit@.len() - k,
    {
        let idx: usize = at + k;
        if s[idx] != lit[k] {
            proof {
                assert(s@.subrange(at as int, at + lit@.len())[k as int] == s@[at + k]);
            }
            return false;
        }
        k = k + 1;
    }
    proof {
        assert(s@.subrange(at as int, at + lit@.len()) =~= lit@);
    }
    true
}

/// Deserialize a status record; `None` on anything but a canonical record.
pub fn decode_status_json(bytes: &Vec<u8>) -> (r: Option<RunStatus>)
    ensures
        match r {
            Some(st) => parse_status_spec(bytes@) == Some((st.status, err_view(st.error))),
            None => parse_status_spec(bytes@) is None,
        },
{
    let prefix = v_lit_status_prefix();
    if !has_at(bytes, 0, &prefix) {
        return None;
    }
    let succ = v_lit_success();
    let fail = v_lit_failed();
    let o: Outcome;
    let i: usize;
    if has_at(bytes, 11, &succ) {
        o = Outcome::Success;
        i = 18;
    } else if has_at(bytes, 11, &fail) {
        o = Outcome::Failed;
        i = 17;
    } else {
        return None;
    }
    let mid = v_lit_error_mid();
    if !has_at(bytes, i, &mid) {
        return None;
    }
    let j: usize = i + 10;
    let nullb = v_lit_null_brace();
    if has_at(bytes, j, &nullb) && j + 5 == bytes.len() {
        return Some(RunStatus { status: o, error: None });
    }
    if j < bytes.len() && bytes[j] == 0x22 {
        match unescape_from(bytes, j + 1) {
            Some(p) => {
                let content: Vec<u8> = p.0;
                let k: usize = p.1;
                if k < bytes.len() && bytes[k] == 0x7d && k + 1 == bytes.len() {
                    Some(RunStatus { status: o, error: Some(content) })
                } else {
                    None
                }
            },
            None => None,
        }
    } else {
        None
    }
}


proof fn lemma_chop(s: Seq<u8>, at: int, x: Seq<u8>, y: Seq<u8>)
    requires
        0 <= at <= s.len(),
        s.subrange(at, s.len() as int) == x + y,
    ensures
        starts_with_at(s, x, at),
        s.subrange(at + x.len(), s.len() as int) == y,
{
    let suf = s.subrange(at, s.len() as int);
    assert(suf.len() == x.len() + y.len());
    assert forall|k: int| 0 <= k < x.len() implies s.subrange(at, at + x.len())[k] == x[k] by {
        assert(s.subrange(at, at + x.len())[k] == s[at + k]);
        assert(suf[k] == s[at + k]);
        assert(suf[k] == x[k]);
    }
    assert(s.subrange(at, at + x.len()) =~= x);
    assert forall|k: int| 0 <= k < y.len() implies s.subrange(at + x.len(), s.len() as int)[k]
        == y[k] by {
        assert(s.subrange(at + x.len(), s.len() as int)[k] == s[at + x.len() + k]);
        assert(suf[x.len() + k] == s[at + x.len() + k]);
        assert(suf[x.len() + k] == y[k]);
    }
    assert(s.subrange(at + x.len(), s.len() as int) =~= y);
}

/// Round trip: a status record written in canonical form always reads back
/// as the identical outcome and error text.
pub proof fn lemma_status_round_trip(o: Outcome, e: Option<Seq<u8>>)
    ensures
        parse_status_spec(enc_status(o, e)) == Some((o, e)),
{
    match e {
        None => {
            lemma_status_round_trip_null(o);
        },
        Some(v) => {
            lemma_status_round_trip_text(o, v);
        },
    }
}

proof fn lemma_status_frame(o: Outcome, e: Option<Seq<u8>>)
    ensures
        starts_with_at(enc_status(o, e), lit_status_prefix(), 0),
        o is Success ==> starts_with_at(enc_status(o, e), lit_success(), 11),
        o is Failed ==> !starts_with_at(enc_status(o, e), lit_success(), 11) && starts_with_at(
            enc_status(o, e),
            lit_failed(),
            11,
        ),
        starts_with_at(enc_status(o, e), lit_error_mid(), 11 + outcome_lit(o).len() as int),
        enc_status(o, e).subrange(
            21 + outcome_lit(o).len() as int,
            enc_status(o, e).len() as int,
        ) == enc_val(e) + seq![0x7du8],
{
    let s = enc_status(o, e);
    let a = lit_status_prefix();
    let b = outcome_lit(o);
    let c = lit_error_mid();
    let d = enc_val(e);
    let tail1 = b + (c + (d + seq![0x7du8]));
    assert(s.subrange(0, s.len() as int) =~= s);
    assert(s =~= a + tail1);
    lemma_chop(s, 0, a, tail1);
    assert(a.len() == 11);
    let tail2 = c + (d + seq![0x7du8]);
    assert(s.subrange(11, s.len() as int) =~= b + tail2);
    lemma_chop(s, 11, b, tail2);
    let i = 11 + b.len() as int;
    if o is Failed {
        assert(b == lit_failed());
        if starts_with_at(s, lit_success(), 11) {
            assert(s.subrange(11, 18)[0] == s[11]);
            assert(s.subrange(11, 17)[0] == s[11]);
            assert(lit_success()[0] == 0x73);
            assert(lit_failed()[0] == 0x66);
            assert(false);
        }
    }
    let tail3 = d + seq![0x7du8];
    assert(s.subrange(i, s.len() as int) =~= c + tail3);
    lemma_chop(s, i, c, tail3);
    assert(c.len() == 10);
}

proof fn lemma_status_round_trip_null(o: Outcome)
    ensures
        parse_status_spec(enc_status(o, None)) == Some((o, None::<Seq<u8>>)),
{
    let s = enc_status(o, None);
    let b = outcome_lit(o);
    let d = enc_val(None);
    lemma_status_frame(o, None);
    let j = 21 + b.len() as int;
    assert(s.subrange(j, s.len() as int) == d + seq![0x7du8]);
    assert(d == lit_null());
    assert(d.len() == 4);
    assert(s.len() == j + 5);
    assert(lit_null() + seq![0x7du8] =~= lit_null_brace());
    assert(s.subrange(j, j + 5) == s.subrange(j, s.len() as int));
    assert(starts_with_at(s, lit_null_brace(), j));
}

proof fn lemma_status_round_trip_text(o: Outcome, v: Seq<u8>)
    ensures
        parse_status_spec(enc_status(o, Some(v))) == Some((o, Some(v))),
{
    let s = enc_status(o, Some(v));
    let b = outcome_lit(o);
    let d = enc_val(Some(v));
    lemma_status_frame(o, Some(v));
    let j = 21 + b.len() as int;
    let tail3 = d + seq![0x7du8];
    assert(s.subrange(j, s.len() as int) == tail3);
    let esc = esc_spec(v);
    assert(d =~= seq![0x22u8] + esc + seq![0x22u8]);
    assert(tail3 =~= seq![0x22u8] + (esc + seq![0x22u8] + seq![0x7du8]));
    lemma_chop(s, j, seq![0x22u8], esc + seq![0x22u8] + seq![0x7du8]);
    assert(s.subrange(j, j + 1)[0] == s[j]);
    assert(s[j] == 0x22);
    if starts_with_at(s, lit_null_brace(), j) {
        assert(s.subrange(j, j + 5)[0] == s[j]);
        assert(lit_null_brace()[0] == 0x6e);
        assert(false);
    }
    lemma_unesc_esc(s, j + 1, v, seq![0x7du8]);
    let k = j + 1 + esc.len() + 1;
    assert(unesc_from(s, j + 1) == Some((v, k)));
    assert(s.len() == j + tail3.len());
    assert(tail3.len() == esc.len() + 3);
    assert(k + 1 == s.len());
    assert(s.subrange(k, s.len() as int) =~= seq![0x7du8]);
    assert(s.subrange(k, s.len() as int)[0] == s[k]);
    assert(s[k] == 0x7d);
}

} // verus!
