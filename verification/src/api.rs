//! Request-level decisions: response records, UI URLs, status records for
//! each outcome, and the latest-pointer advancement policy.
//!
//! The surrounding service does the transport; everything it decides with
//! is here.  Notably the pointer policy: an upload advances the latest
//! pointer only when the run succeeded, and a re-render advances it only
//! when no pointer exists yet or the re-rendered run already is the
//! pointer — re-rendering an older run never promotes it.

use vstd::prelude::*;

use crate::listing::ProjectSummary;
use crate::paths::clone_bytes;
use crate::paths::push_all;
use crate::records::err_view;
use crate::records::Outcome;
use crate::records::RunStatus;
use crate::text::dec_spec;
use crate::text::u64_to_dec;
use crate::unzip::extract_error_message;
use crate::unzip::extract_error_msg_spec;
use crate::unzip::ExtractError;

verus! {

/// `"/ui/"` as bytes.
pub open spec fn lit_ui_prefix() -> Seq<u8> {
    seq![0x2fu8, 0x75, 0x69, 0x2f]
}

fn v_lit_ui_prefix() -> (r: Vec<u8>)
    ensures
        r@ == lit_ui_prefix(),
{
    let mut v: Vec<u8> = Vec::new();
    v.push(0x2f);
    v.push(0x75);
    v.push(0x69);
    v.push(0x2f);
    proof {
        assert(v@ =~= lit_ui_prefix());
    }
    v
}

/// `"/runs/"` as bytes.
pub open spec fn lit_runs_seg() -> Seq<u8> {
    seq![0x2fu8, 0x72, 0x75, 0x6e, 0x73, 0x2f]
}

fn v_lit_runs_seg() -> (r: Vec<u8>)
    ensures
        r@ == lit_runs_seg(),
{
    let mut v: Vec<u8> = Vec::new();
    v.push(0x2f);
    v.push(0x72);
    v.push(0x75);
    v.push(0x6e);
    v.push(0x73);
    v.push(0x2f);
    proof {
        assert(v@ =~= lit_runs_seg());
    }
    v
}

/// `"/latest/"` as bytes.
pub open spec fn lit_latest_seg() -> Seq<u8> {
    seq![0x2fu8, 0x6c, 0x61, 0x74, 0x65, 0x73, 0x74, 0x2f]
}

fn v_lit_latest_seg() -> (r: Vec<u8>)
    ensures
        r@ == lit_latest_seg(),
{
    let mut v: Vec<u8> = Vec::new();
    v.push(0x2f);
    v.push(0x6c);
    v.push(0x61);
    v.push(0x74);
    v.push(0x65);
    v.push(0x73);
    v.push(0x74);
    v.push(0x2f);
    proof {
        assert(v@ =~= lit_latest_seg());
    }
    v
}

/// `"bad zip: "` as bytes.
pub open spec fn lit_bad_zip() -> Seq<u8> {
    seq![0x62u8, 0x61, 0x64, 0x20, 0x7a, 0x69, 0x70, 0x3a, 0x20]
}

fn v_lit_bad_zip() -> (r: Vec<u8>)
    ensures
        r@ == lit_bad_zip(),
{
    let mut v: Vec<u8> = Vec::new();
    v.push(0x62);
    v.push(0x61);
    v.push(0x64);
    v.push(0x20);
    v.push(0x7a);
    v.push(0x69);
    v.push(0x70);
    v.push(0x3a);
    v.push(0x20);
    proof {
        assert(v@ =~= lit_bad_zip());
    }
    v
}

/// `/ui/<project>/runs/<run_id>/`.
pub open spec fn ui_run_url_spec(project: Seq<u8>, run_id: u64) -> Seq<u8> {
    lit_ui_prefix() + project + lit_runs_seg() + dec_spec(run_id) + seq![0x2fu8]
}

/// `/ui/<project>/latest/`.
pub open spec fn ui_latest_url_spec(project: Seq<u8>) -> Seq<u8> {
    lit_ui_prefix() + project + lit_latest_seg()
}

/// The UI URL of one run.
pub fn ui_run_url(project: &Vec<u8>, run_id: u64) -> (r: Vec<u8>)
    ensures
        r@ == ui_run_url_spec(project@, run_id),
{
    let mut out: Vec<u8> = v_lit_ui_prefix();
    push_all(&mut out, project);
    let seg = v_lit_runs_seg();
    push_all(&mut out, &seg);
    let id = u64_to_dec(run_id);
    push_all(&mut out, &id);
    out.push(0x2f);
    proof {
        assert(out@ =~= ui_run_url_spec(project@, run_id));
    }
    out
}

/// The UI URL of a project's latest run.
pub fn ui_latest_url(project: &Vec<u8>) -> (r: Vec<u8>)
    ensures
        r@ == ui_latest_url_spec(project@),
{
    let mut out: Vec<u8> = v_lit_ui_prefix();
    push_all(&mut out, project);
    let seg = v_lit_latest_seg();
    push_all(&mut out, &seg);
    proof {
        assert(out@ =~= ui_latest_url_spec(project@));
    }
    out
}

/// The status record a finished run gets: success when the renderer
/// succeeded, failed with its diagnostic otherwise.
pub fn run_status_for_render(render_err: Option<Vec<u8>>) -> (r: RunStatus)
    ensures
        match render_err {
            None => r.status is Success && r.error is None,
            Some(e) => r.status is Failed && err_view(r.error) == Some(e@),
        },
{
    match render_err {
        None => RunStatus { status: Outcome::Success, error: None },
        Some(e) => RunStatus { status: Outcome::Failed, error: Some(e) },
    }
}

/// The status record an upload gets when its archive is rejected:
/// failed, with `bad zip: ` and the extraction error.
pub fn status_for_bad_zip(e: &ExtractError) -> (r: RunStatus)
    ensures
        r.status is Failed,
        err_view(r.error) == Some(lit_bad_zip() + extract_error_msg_spec(*e)),
{
    let mut msg: Vec<u8> = v_lit_bad_zip();
    let detail = extract_error_message(e);
    push_all(&mut msg, &detail);
    proof {
        assert(msg@ =~= lit_bad_zip() + extract_error_msg_spec(*e));
    }
    RunStatus { status: Outcome::Failed, error: Some(msg) }
}

/// After an upload, the latest pointer advances exactly when the new run
/// succeeded.
pub fn should_advance_latest_after_upload(st: &RunStatus) -> (r: bool)
    ensures
        r == (st.status is Success),
{
    match st.status {
        Outcome::Success => true,
        Outcome::Failed => false,
    }
}

/// After a successful re-render of `run_id`, the latest pointer advances
/// only when there is no pointer yet or `run_id` already is the pointer:
/// re-rendering an older run never promotes it.
pub fn should_advance_latest_on_regenerate(latest: Option<u64>, run_id: u64) -> (r: bool)
    ensures
        r == (latest is None || latest == Some(run_id)),
{
    match latest {
        None => true,
        Some(l) => l == run_id,
    }
}

/// What an upload answers: the run's identity, its UI URLs, and how it
/// ended.
#[derive(Debug, Clone, PartialEq, Eq)]
pub struct UploadResp {
    pub project: Vec<u8>,
    pub run_id: u64,
    pub ui_url: Vec<u8>,
    pub latest_url: Vec<u8>,
    pub status: Outcome,
    pub error: Option<Vec<u8>>,
}

/// What a re-render answers.
#[derive(Debug, Clone, PartialEq, Eq)]
pub struct RegenerateResp {
    pub project: Vec<u8>,
    pub run_id: u64,
    pub status: Outcome,
    pub error: Option<Vec<u8>>,
}

/// What a project deletion answers.
#[derive(Debug, Clone, PartialEq, Eq)]
pub struct DeleteResp {
    pub deleted: bool,
    pub project: Vec<u8>,
}

/// One run in a project's run listing.
#[derive(Debug, Clone, PartialEq, Eq)]
pub struct RunItem {
    pub run_id: u64,
    pub status: Option<Outcome>,
    pub error: Option<Vec<u8>>,
    pub ui_url: Vec<u8>,
}

/// A project's run listing.
#[derive(Debug, Clone, PartialEq, Eq)]
pub struct RunsResp {
    pub project: Vec<u8>,
    pub runs: Vec<RunItem>,
}

/// The bulk project listing with its totals.
#[derive(Debug, Clone, PartialEq, Eq)]
pub struct ProjectsSummaryResp {
    pub total_projects: usize,
    pub total_runs: usize,
    pub projects: Vec<ProjectSummary>,
}

/// Assemble an upload's answer from its status record.
pub fn upload_response(project: &Vec<u8>, run_id: u64, st: &RunStatus) -> (r: UploadResp)
    ensures
        r.project@ == project@,
        r.run_id == run_id,
        r.ui_url@ == ui_run_url_spec(project@, run_id),
        r.latest_url@ == ui_latest_url_spec(project@),
        r.status == st.status,
        err_view(r.error) == err_view(st.error),
{
    UploadResp {
        project: clone_bytes(project),
        run_id,
        ui_url: ui_run_url(project, run_id),
        latest_url: ui_latest_url(project),
        status: st.status,
        error: clone_opt_bytes(&st.error),
    }
}

/// Assemble a re-render's answer from its status record.
pub fn regenerate_response(project: &Vec<u8>, run_id: u64, st: &RunStatus) -> (r: RegenerateResp)
    ensures
        r.project@ == project@,
        r.run_id == run_id,
        r.status == st.status,
        err_view(r.error) == err_view(st.error),
{
    RegenerateResp {
        project: clone_bytes(project),
        run_id,
        status: st.status,
        error: clone_opt_bytes(&st.error),
    }
}

/// Assemble a deletion's answer; deletion is idempotent, so it is always
/// reported done.
pub fn delete_response(project: &Vec<u8>) -> (r: DeleteResp)
    ensures
        r.deleted == true,
        r.project@ == project@,
{
    DeleteResp { deleted: true, project: clone_bytes(project) }
}

/// One row of a run listing, from the run's ID and status record.
pub fn run_item(project: &Vec<u8>, run_id: u64, st: &Option<RunStatus>) -> (r: RunItem)
    ensures
        r.run_id == run_id,
        r.ui_url@ == ui_run_url_spec(project@, run_id),
        match st {
            Some(s) => r.status == Some(s.status) && err_view(r.error) == err_view(s.error),
            None => r.status is None && r.error is None,
        },
{
    let (status, error): (Option<Outcome>, Option<Vec<u8>>) = match st {
        Some(s) => (Some(s.status), clone_opt_bytes(&s.error)),
        None => (None, None),
    };
    RunItem { run_id, status, error, ui_url: ui_run_url(project, run_id) }
}

fn clone_opt_bytes(e: &Option<Vec<u8>>) -> (r: Option<Vec<u8>>)
    ensures
        err_view(r) == err_view(*e),
{
    match e {
        Some(v) => Some(clone_bytes(v)),
        None => None,
    }
}

/// Run IDs newest first, as the run listing shows them.
pub fn sort_run_ids_desc(ids: Vec<u64>) -> (r: Vec<u64>)
    ensures
        r@.to_multiset() == ids@.to_multiset(),
        forall|x: int, y: int| 0 <= x < y < r@.len() ==> r@[x] >= r@[y],
        r@.len() == ids@.len(),
{
    let asc = crate::listing::sort_u64(ids);
    let mut out: Vec<u64> = Vec::new();
    let n: usize = asc.len();
    let mut i: usize = 0;
    while i < n
        invariant
            i <= n,
            n == asc@.len(),
            out@.len() == i,
            forall|t: int| 0 <= t < i ==> out@[t] == asc@[n - 1 - t],
            forall|x: int, y: int| 0 <= x < y < asc@.len() ==> asc@[x] <= asc@[y],
            asc@.to_multiset() == ids@.to_multiset(),
        decreases n - i,
    {
        out.push(asc[n - 1 - i]);
        i = i + 1;
    }
    proof {
        assert(out@ =~= asc@.reverse());
        asc@.lemma_reverse_to_multiset();
    }
    out
}

/// Total runs across summaries, as an unbounded count.
pub open spec fn total_runs_of(s: Seq<ProjectSummary>) -> int
    decreases s.len(),
{
    if s.len() == 0 {
        0
    } else {
        total_runs_of(s.drop_last()) + s.last().runs_count
    }
}

/// Assemble the bulk project listing: how many projects, how many runs in
/// all (saturating at the machine limit), and the summaries themselves.
pub fn summaries_response(projects: Vec<ProjectSummary>) -> (r: ProjectsSummaryResp)
    ensures
        r.total_projects == projects@.len(),
        r.total_runs == if total_runs_of(projects@) <= usize::MAX {
            total_runs_of(projects@)
        } else {
            usize::MAX as int
        },
        r.projects == projects,
{
    let mut total: usize = 0;
    let mut i: usize = 0;
    while i < projects.len()
        invariant
            i <= projects@.len(),
            total == if total_runs_of(projects@.take(i as int)) <= usize::MAX {
                total_runs_of(projects@.take(i as int))
            } else {
                usize::MAX as int
            },
        decreases projects@.len() - i,
    {
        let c: usize = projects[i].runs_count;
        proof {
            assert(projects@.take(i + 1).drop_last() =~= projects@.take(i as int));
            assert(projects@.take(i + 1).last() == projects@[i as int]);
        }
        if usize::MAX - total < c {
            total = usize::MAX;
        } else {
            total = total + c;
        }
        i = i + 1;
    }
    proof {
        assert(projects@.take(projects@.len() as int) =~= projects@);
    }
    ProjectsSummaryResp { total_projects: projects.len(), total_runs: total, projects }
}

} // verus!
