//! On-disk layout and crash-consistent metadata semantics of the run store.
//!
//! Every piece of run metadata lives in one small file, written by the
//! caller with a sibling-temp-file-then-atomic-rename step; these functions
//! define exactly what the files hold and mean.  Reading tolerates a
//! missing or corrupt counter or pointer file ("absent", never an error);
//! the counter starts at 1 when absent or unparsable.

use vstd::prelude::*;

use crate::paths::join;
use crate::paths::join_spec;
use crate::records::decode_status_json;
use crate::records::err_view;
use crate::records::parse_status_spec;
use crate::records::Outcome;
use crate::records::RunStatus;
use crate::text::dec_spec;
use crate::text::lemma_dec_round_trip;
use crate::text::parse_text_u64;
use crate::text::parse_text_u64_spec;
use crate::text::u64_to_dec;

verus! {

/// The view of an optional file content.
pub open spec fn opt_view(c: Option<Vec<u8>>) -> Option<Seq<u8>> {
    match c {
        Some(v) => Some(v@),
        None => None,
    }
}

/// `"projects"` as bytes.
pub open spec fn lit_projects() -> Seq<u8> {
    seq![0x70u8, 0x72, 0x6f, 0x6a, 0x65, 0x63, 0x74, 0x73]
}

fn v_lit_projects() -> (r: Vec<u8>)
    ensures
        r@ == lit_projects(),
{
    let mut v: Vec<u8> = Vec::new();
    v.push(0x70);
    v.push(0x72);
    v.push(0x6f);
    v.push(0x6a);
    v.push(0x65);
    v.push(0x63);
    v.push(0x74);
    v.push(0x73);
    proof {
        assert(v@ =~= lit_projects());
    }
    v
}

/// `"runs"` as bytes.
pub open spec fn lit_runs() -> Seq<u8> {
    seq![0x72u8, 0x75, 0x6e, 0x73]
}

fn v_lit_runs() -> (r: Vec<u8>)
    ensures
        r@ == lit_runs(),
{
    let mut v: Vec<u8> = Vec::new();
    v.push(0x72);
    v.push(0x75);
    v.push(0x6e);
    v.push(0x73);
    proof {
        assert(v@ =~= lit_runs());
    }
    v
}

/// `<data>/projects/<project>`.
pub open spec fn project_dir_spec(data_dir: Seq<u8>, project: Seq<u8>) -> Seq<u8> {
    join_spec(join_spec(data_dir, lit_projects()), project)
}

/// `<data>/projects/<project>/runs`.
pub open spec fn runs_dir_spec(data_dir: Seq<u8>, project: Seq<u8>) -> Seq<u8> {
    join_spec(project_dir_spec(data_dir, project), lit_runs())
}

/// `<data>/projects/<project>/runs/<run_id>`.
pub open spec fn run_dir_spec(data_dir: Seq<u8>, project: Seq<u8>, run_id: u64) -> Seq<u8> {
    join_spec(runs_dir_spec(data_dir, project), dec_spec(run_id))
}

/// The directory owning one project's files.
pub fn project_dir(data_dir: &Vec<u8>, project: &Vec<u8>) -> (r: Vec<u8>)
    ensures
        r@ == project_dir_spec(data_dir@, project@),
{
    let p = v_lit_projects();
    let base = join(data_dir, &p);
    join(&base, project)
}

/// The directory holding one project's runs.
pub fn runs_dir(data_dir: &Vec<u8>, project: &Vec<u8>) -> (r: Vec<u8>)
    ensures
        r@ == runs_dir_spec(data_dir@, project@),
{
    let base = project_dir(data_dir, project);
    let r = v_lit_runs();
    join(&base, &r)
}

/// The directory owning one run's files.
pub fn run_dir(data_dir: &Vec<u8>, project: &Vec<u8>, run_id: u64) -> (r: Vec<u8>)
    ensures
        r@ == run_dir_spec(data_dir@, project@, run_id),
{
    let base = runs_dir(data_dir, project);
    let id = u64_to_dec(run_id);
    join(&base, &id)
}

/// What the counter file means: the next run ID to hand out.  An absent or
/// unparsable file means 1.
pub open spec fn counter_val(content: Option<Seq<u8>>) -> u64 {
    match content {
        None => 1,
        Some(s) => match parse_text_u64_spec(s) {
            Some(v) => v,
            None => 1,
        },
    }
}

/// What the pointer file means: the latest run, or nothing if the file is
/// absent or corrupt.
pub open spec fn latest_val(content: Option<Seq<u8>>) -> Option<u64> {
    match content {
        None => None,
        Some(s) => parse_text_u64_spec(s),
    }
}

/// One reservation step over the counter file's content: the ID handed out
/// and the content to write back atomically in its place.  The caller must
/// hold the project's guard across read, decide and write.
pub fn reserve_next_run_id(current_content: &Option<Vec<u8>>) -> (r: (u64, Vec<u8>))
    requires
        counter_val(opt_view(*current_content)) < u64::MAX,
    ensures
        r.0 == counter_val(opt_view(*current_content)),
        r.1@ == dec_spec((r.0 + 1) as u64),
{
    let current: u64 = match current_content {
        None => 1,
        Some(c) => match parse_text_u64(c) {
            Some(v) => v,
            None => 1,
        },
    };
    let next = u64_to_dec(current + 1);
    (current, next)
}

/// The content `set_latest_run_id` writes for a run.
pub fn latest_run_id_content(run_id: u64) -> (r: Vec<u8>)
    ensures
        r@ == dec_spec(run_id),
        latest_val(Some(r@)) == Some(run_id),
{
    proof {
        lemma_dec_round_trip(run_id);
    }
    u64_to_dec(run_id)
}

/// Read the latest-run pointer out of its file content.
pub fn read_latest_run_id(content: &Option<Vec<u8>>) -> (r: Option<u64>)
    ensures
        r == latest_val(opt_view(*content)),
{
    match content {
        None => None,
        Some(c) => parse_text_u64(c),
    }
}

/// What a status file's content means: the record, or "no status" when the
/// file is absent or not a canonical record.
pub open spec fn read_status_spec(content: Option<Seq<u8>>) -> Option<(Outcome, Option<Seq<u8>>)> {
    match content {
        None => None,
        Some(s) => parse_status_spec(s),
    }
}

/// Read a run's status record out of its file content.
pub fn read_run_status(content: &Option<Vec<u8>>) -> (r: Option<RunStatus>)
    ensures
        match r {
            Some(st) => read_status_spec(opt_view(*content)) == Some(
                (st.status, err_view(st.error)),
            ),
            None => read_status_spec(opt_view(*content)) is None,
        },
{
    match content {
        None => None,
        Some(c) => decode_status_json(c),
    }
}

/// The counter content after `k` reservations of a fresh project: absent at
/// first, then what the previous step wrote.  This models a caller that
/// holds the guard, so every read sees the previous write.
pub open spec fn reserve_chain_content(k: nat) -> Option<Seq<u8>>
    decreases k,
{
    if k == 0 {
        None
    } else {
        Some(dec_spec((counter_val(reserve_chain_content((k - 1) as nat)) + 1) as u64))
    }
}

/// The ID the `k`-th reservation returns (0-based).
pub open spec fn reserved_id(k: nat) -> u64 {
    counter_val(reserve_chain_content(k))
}

proof fn lemma_reserved_id_is(k: nat)
    requires
        k + 1 <= u64::MAX,
    ensures
        reserved_id(k) == k + 1,
    decreases k,
{
    if k == 0 {
    } else {
        lemma_reserved_id_is((k - 1) as nat);
        lemma_dec_round_trip((k + 1) as u64);
    }
}

/// Serialized reservations on one project hand out exactly 1, 2, 3, ...:
/// strictly increasing from 1, no gaps, no repeats, even when the callers
/// are concurrent, as long as the project's guard serializes them.
pub proof fn lemma_reserved_ids_strictly_increasing(n: nat)
    requires
        n <= u64::MAX - 1,
    ensures
        forall|k: int| 0 <= k < n ==> #[trigger] reserved_id(k as nat) == k + 1,
        forall|i: int, j: int|
            0 <= i < j < n ==> #[trigger] reserved_id(i as nat) < #[trigger] reserved_id(j as nat),
{
    assert forall|k: int| 0 <= k < n implies #[trigger] reserved_id(k as nat) == k + 1 by {
        lemma_reserved_id_is(k as nat);
    }
    assert forall|i: int, j: int| 0 <= i < j < n implies #[trigger] reserved_id(i as nat)
        < #[trigger] reserved_id(j as nat) by {
        lemma_reserved_id_is(i as nat);
        lemma_reserved_id_is(j as nat);
    }
}

} // verus!
