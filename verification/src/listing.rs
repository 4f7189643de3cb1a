//! Directory listings: run IDs, project names, and per-project summaries.
//!
//! A listing is whatever the filesystem hands back: arbitrary entry names.
//! Only directories whose names parse as run IDs (respectively, whose
//! names are valid project identifiers) are kept; everything else is
//! silently skipped, never an error.  Results are sorted: ascending run
//! IDs, lexicographic project names.

use vstd::prelude::*;

use crate::records::err_view;
use crate::records::Outcome;
use crate::records::RunStatus;
use crate::text::parse_u64_spec;
use crate::text::parse_text_u64;
use crate::paths::clone_bytes;
use crate::util::sanitize_name;
use crate::util::valid_name;
use vstd::multiset::Multiset;
use vstd::seq_lib::to_multiset_build;
use vstd::seq_lib::to_multiset_remove;
use vstd::seq_lib::to_multiset_contains;

verus! {

broadcast use vstd::multiset::group_multiset_axioms;

/// One filesystem directory entry, as the caller read it.
#[derive(Debug, Clone, PartialEq, Eq)]
pub struct DirEntry {
    pub name: Vec<u8>,
    pub is_dir: bool,
}

/// The run IDs among a listing: directories whose names parse as `u64`.
pub open spec fn run_ids_of(es: Seq<DirEntry>) -> Seq<u64>
    decreases es.len(),
{
    if es.len() == 0 {
        Seq::empty()
    } else {
        let rest = run_ids_of(es.drop_last());
        let e = es.last();
        if e.is_dir {
            match parse_u64_spec(e.name@) {
                Some(id) => rest.push(id),
                None => rest,
            }
        } else {
            rest
        }
    }
}

/// The project names among a listing: directories whose names are valid
/// project identifiers; anything else is silently skipped.
pub open spec fn project_names_of(es: Seq<DirEntry>) -> Seq<Seq<u8>>
    decreases es.len(),
{
    if es.len() == 0 {
        Seq::empty()
    } else {
        let rest = project_names_of(es.drop_last());
        let e = es.last();
        if e.is_dir && valid_name(e.name@) {
            rest.push(e.name@)
        } else {
            rest
        }
    }
}

/// Byte-wise lexicographic order, the order `sort` on strings uses.
pub open spec fn lex_le(a: Seq<u8>, b: Seq<u8>) -> bool
    decreases a.len(),
{
    if a.len() == 0 {
        true
    } else if b.len() == 0 {
        false
    } else if a[0] < b[0] {
        true
    } else if a[0] > b[0] {
        false
    } else {
        lex_le(a.drop_first(), b.drop_first())
    }
}

pub proof fn lemma_lex_refl(a: Seq<u8>)
    ensures
        lex_le(a, a),
    decreases a.len(),
{
    if a.len() > 0 {
        lemma_lex_refl(a.drop_first());
    }
}

pub proof fn lemma_lex_total(a: Seq<u8>, b: Seq<u8>)
    ensures
        lex_le(a, b) || lex_le(b, a),
    decreases a.len(),
{
    if a.len() > 0 && b.len() > 0 && a[0] == b[0] {
        lemma_lex_total(a.drop_first(), b.drop_first());
    }
}

pub proof fn lemma_lex_trans(a: Seq<u8>, b: Seq<u8>, c: Seq<u8>)
    requires
        lex_le(a, b),
        lex_le(b, c),
    ensures
        lex_le(a, c),
    decreases a.len(),
{
    if a.len() > 0 && b.len() > 0 && c.len() > 0 && a[0] == b[0] && b[0] == c[0] {
        lemma_lex_trans(a.drop_first(), b.drop_first(), c.drop_first());
    }
}

/// Byte-wise lexicographic comparison.
pub fn bytes_le(a: &Vec<u8>, b: &Vec<u8>) -> (r: bool)
    ensures
        r == lex_le(a@, b@),
{
    let mut i: usize = 0;
    proof {
        assert(a@.skip(0) =~= a@);
        assert(b@.skip(0) =~= b@);
    }
    loop
        invariant
            i <= a@.len(),
            i <= b@.len(),
            lex_le(a@, b@) == lex_le(a@.skip(i as int), b@.skip(i as int)),
        decreases a@.len() - i,
    {
        proof {
            assert(a@.skip(i as int).len() == a@.len() - i);
        }
        if i >= a.len() {
            return true;
        }
        if i >= b.len() {
            return false;
        }
        let x: u8 = a[i];
        let y: u8 = b[i];
        proof {
            assert(a@.skip(i as int)[0] == x);
            assert(b@.skip(i as int)[0] == y);
        }
        if x < y {
            return true;
        }
        if x > y {
            return false;
        }
        proof {
            assert(a@.skip(i as int).drop_first() =~= a@.skip(i as int + 1));
            assert(b@.skip(i as int).drop_first() =~= b@.skip(i as int + 1));
        }
        i = i + 1;
    }
}

/// Sort run IDs ascending, keeping exactly the same IDs.
pub fn sort_u64(input: Vec<u64>) -> (r: Vec<u64>)
    ensures
        r@.to_multiset() == input@.to_multiset(),
        forall|x: int, y: int| 0 <= x < y < r@.len() ==> r@[x] <= r@[y],
        r@.len() == input@.len(),
{
    let ghost orig = input@;
    let mut rem = input;
    let mut out: Vec<u64> = Vec::new();
    proof {
        vstd::seq_lib::to_multiset_len(orig);
        vstd::seq_lib::to_multiset_len(out@);
        vstd::multiset::lemma_multiset_empty_len(out@.to_multiset());
        assert(out@.to_multiset().add(rem@.to_multiset()) =~= orig.to_multiset());
    }
    while rem.len() > 0
        invariant
            out@.to_multiset().add(rem@.to_multiset()) == orig.to_multiset(),
            out@.len() + rem@.len() == orig.len(),
            forall|x: int, y: int| 0 <= x < y < out@.len() ==> out@[x] <= out@[y],
            forall|x: int, y: int|
                0 <= x < out@.len() && 0 <= y < rem@.len() ==> out@[x] <= rem@[y],
        decreases rem@.len(),
    {
        let mut mi: usize = 0;
        let mut k: usize = 1;
        while k < rem.len()
            invariant
                mi < k <= rem@.len(),
                rem@.len() > 0,
                forall|t: int| 0 <= t < k ==> rem@[mi as int] <= rem@[t],
            decreases rem@.len() - k,
        {
            if rem[k] < rem[mi] {
                mi = k;
            }
            k = k + 1;
        }
        let ghost rem_pre = rem@;
        let ghost out_pre = out@;
        let v: u64 = rem.remove(mi);
        out.push(v);
        proof {
            to_multiset_remove(rem_pre, mi as int);
            to_multiset_build(out_pre, v);
            assert(rem_pre.contains(v));
            to_multiset_contains(rem_pre, v);
            assert(out@.to_multiset().add(rem@.to_multiset()) =~= orig.to_multiset());
            vstd::seq_lib::to_multiset_len(rem_pre);
            assert forall|y: int| 0 <= y < rem@.len() implies v <= rem@[y] by {
                assert(rem@[y] == if y < mi {
                    rem_pre[y]
                } else {
                    rem_pre[y + 1]
                });
            }
        }
    }
    proof {
        vstd::seq_lib::to_multiset_len(rem@);
        vstd::multiset::lemma_multiset_empty_len(rem@.to_multiset());
        assert(rem@.to_multiset() =~= Multiset::<u64>::empty());
        assert(out@.to_multiset() =~= orig.to_multiset());
        vstd::seq_lib::to_multiset_len(out@);
        vstd::seq_lib::to_multiset_len(orig);
    }
    out
}

/// The run IDs in a listing, ascending: the directories under `runs/`
/// whose names are decimal run IDs; anything else is skipped.
pub fn list_run_ids(entries: &Vec<DirEntry>) -> (r: Vec<u64>)
    ensures
        r@.to_multiset() == run_ids_of(entries@).to_multiset(),
        forall|x: int, y: int| 0 <= x < y < r@.len() ==> r@[x] <= r@[y],
        r@.len() == run_ids_of(entries@).len(),
{
    let mut picked: Vec<u64> = Vec::new();
    let mut i: usize = 0;
    while i < entries.len()
        invariant
            i <= entries@.len(),
            picked@ == run_ids_of(entries@.take(i as int)),
        decreases entries@.len() - i,
    {
        let e: &DirEntry = &entries[i];
        proof {
            assert(entries@.take(i + 1).drop_last() =~= entries@.take(i as int));
            assert(entries@.take(i + 1).last() == entries@[i as int]);
        }
        if e.is_dir {
            match parse_run_id_name(&e.name) {
                Some(id) => {
                    picked.push(id);
                },
                None => {},
            }
        }
        i = i + 1;
    }
    proof {
        assert(entries@.take(entries@.len() as int) =~= entries@);
    }
    sort_u64(picked)
}

/// Parse a directory name as a run ID, exactly as `u64::from_str` would:
/// no surrounding whitespace tolerated.
pub fn parse_run_id_name(name: &Vec<u8>) -> (r: Option<u64>)
    ensures
        r == parse_u64_spec(name@),
{
    let mut has_ws = false;
    if name.len() > 0 && (name[0] == 0x20 || (0x09 <= name[0] && name[0] <= 0x0d)) {
        has_ws = true;
    }
    if name.len() > 0 && !has_ws {
        let lastb: u8 = name[name.len() - 1];
        if lastb == 0x20 || (0x09 <= lastb && lastb <= 0x0d) {
            has_ws = true;
        }
    }
    if has_ws {
        // `parse` rejects whitespace; the trimming reader would not.
        none_if_ws(name)
    } else {
        proof {
            crate::text::lemma_trim_noop(name@);
        }
        parse_text_u64(name)
    }
}

fn none_if_ws(name: &Vec<u8>) -> (r: Option<u64>)
    requires
        name@.len() > 0,
        crate::text::is_space(name@[0]) || crate::text::is_space(name@[name@.len() - 1]),
    ensures
        r == parse_u64_spec(name@),
        r is None,
{
    proof {
        crate::text::lemma_ws_rejected(name@);
    }
    None
}

/// The project names in a listing, sorted lexicographically: directories
/// whose names are valid project identifiers; non-conforming entries are
/// silently skipped.
pub fn list_projects(entries: &Vec<DirEntry>) -> (r: Vec<Vec<u8>>)
    ensures
        r.deep_view().to_multiset() == project_names_of(entries@).to_multiset(),
        forall|x: int, y: int|
            0 <= x < y < r.deep_view().len() ==> lex_le(r.deep_view()[x], r.deep_view()[y]),
        r.deep_view().len() == project_names_of(entries@).len(),
{
    let mut picked: Vec<Vec<u8>> = Vec::new();
    let mut i: usize = 0;
    while i < entries.len()
        invariant
            i <= entries@.len(),
            picked.deep_view() == project_names_of(entries@.take(i as int)),
        decreases entries@.len() - i,
    {
        let e: &DirEntry = &entries[i];
        proof {
            assert(entries@.take(i + 1).drop_last() =~= entries@.take(i as int));
            assert(entries@.take(i + 1).last() == entries@[i as int]);
        }
        if e.is_dir {
            match sanitize_name(&e.name) {
                Some(name) => {
                    picked.push(name);
                    proof {
                        assert(picked.deep_view() =~~= project_names_of(entries@.take(i + 1)));
                    }
                },
                None => {},
            }
        }
        i = i + 1;
    }
    proof {
        assert(entries@.take(entries@.len() as int) =~= entries@);
    }
    sort_names(picked)
}

/// Sort byte strings lexicographically, keeping exactly the same strings.
pub fn sort_names(input: Vec<Vec<u8>>) -> (r: Vec<Vec<u8>>)
    ensures
        r.deep_view().to_multiset() == input.deep_view().to_multiset(),
        forall|x: int, y: int|
            0 <= x < y < r.deep_view().len() ==> lex_le(r.deep_view()[x], r.deep_view()[y]),
        r.deep_view().len() == input.deep_view().len(),
{
    let ghost orig = input.deep_view();
    let mut rem = input;
    let mut out: Vec<Vec<u8>> = Vec::new();
    proof {
        vstd::seq_lib::to_multiset_len(orig);
        assert(out.deep_view() =~= Seq::<Seq<u8>>::empty());
        vstd::seq_lib::to_multiset_len(out.deep_view());
        vstd::multiset::lemma_multiset_empty_len(out.deep_view().to_multiset());
        assert(rem.deep_view() =~~= orig);
        assert(out.deep_view().to_multiset().add(rem.deep_view().to_multiset())
            =~= orig.to_multiset());
    }
    while rem.len() > 0
        invariant
            rem@.len() == rem.deep_view().len(),
            out@.len() == out.deep_view().len(),
            out.deep_view().to_multiset().add(rem.deep_view().to_multiset()) == orig.to_multiset(),
            out.deep_view().len() + rem.deep_view().len() == orig.len(),
            forall|x: int, y: int|
                0 <= x < y < out.deep_view().len() ==> lex_le(
                    out.deep_view()[x],
                    out.deep_view()[y],
                ),
            forall|x: int, y: int|
                0 <= x < out.deep_view().len() && 0 <= y < rem.deep_view().len() ==> lex_le(
                    out.deep_view()[x],
                    rem.deep_view()[y],
                ),
        decreases rem@.len(),
    {
        let mut mi: usize = 0;
        let mut k: usize = 1;
        proof {
            lemma_lex_refl(rem.deep_view()[0]);
        }
        while k < rem.len()
            invariant
                mi < k <= rem@.len(),
                rem@.len() > 0,
                rem@.len() == rem.deep_view().len(),
                forall|t: int|
                    0 <= t < k ==> lex_le(rem.deep_view()[mi as int], rem.deep_view()[t]),
            decreases rem@.len() - k,
        {
            let keep_min: bool = bytes_le(&rem[mi], &rem[k]);
            proof {
                assert(rem@[mi as int]@ =~= rem.deep_view()[mi as int]);
                assert(rem@[k as int]@ =~= rem.deep_view()[k as int]);
                lemma_lex_total(rem.deep_view()[mi as int], rem.deep_view()[k as int]);
                if !keep_min {
                    assert forall|t: int| 0 <= t < k + 1 implies lex_le(
                        rem.deep_view()[k as int],
                        rem.deep_view()[t],
                    ) by {
                        if t < k {
                            lemma_lex_trans(
                                rem.deep_view()[k as int],
                                rem.deep_view()[mi as int],
                                rem.deep_view()[t],
                            );
                        } else {
                            lemma_lex_refl(rem.deep_view()[k as int]);
                        }
                    }
                } else {
                    lemma_lex_refl(rem.deep_view()[mi as int]);
                }
            }
            if !keep_min {
                mi = k;
            }
            k = k + 1;
        }
        let ghost rem_pre = rem.deep_view();
        let ghost out_pre = out.deep_view();
        let v: Vec<u8> = rem.remove(mi);
        let ghost vv = v@;
        out.push(v);
        proof {
            assert(rem.deep_view() =~~= rem_pre.remove(mi as int));
            assert(out.deep_view() =~~= out_pre.push(vv));
            to_multiset_remove(rem_pre, mi as int);
            to_multiset_build(out_pre, vv);
            assert(rem_pre[mi as int] =~= vv);
            assert(rem_pre.contains(vv));
            to_multiset_contains(rem_pre, vv);
            assert(out.deep_view().to_multiset().add(rem.deep_view().to_multiset())
                =~= orig.to_multiset());
            assert forall|y: int| 0 <= y < rem.deep_view().len() implies lex_le(
                vv,
                rem.deep_view()[y],
            ) by {
                assert(rem.deep_view()[y] == if y < mi {
                    rem_pre[y]
                } else {
                    rem_pre[y + 1]
                });
            }
        }
    }
    proof {
        assert(rem.deep_view() =~= Seq::<Seq<u8>>::empty());
        vstd::seq_lib::to_multiset_len(rem.deep_view());
        vstd::multiset::lemma_multiset_empty_len(rem.deep_view().to_multiset());
        assert(rem.deep_view().to_multiset() =~= Multiset::<Seq<u8>>::empty());
        assert(out.deep_view().to_multiset() =~= orig.to_multiset());
        vstd::seq_lib::to_multiset_len(out.deep_view());
        vstd::seq_lib::to_multiset_len(orig);
    }
    out
}

/// What one project looks like in the bulk listing.
#[derive(Debug, Clone, PartialEq, Eq)]
pub struct ProjectSummary {
    pub project: Vec<u8>,
    pub runs_count: usize,
    pub latest_run_id: Option<u64>,
    pub latest_status: Option<Outcome>,
    pub latest_error: Option<Vec<u8>>,
}

/// Aggregate one project's view: its run count, latest pointer, and the
/// latest run's status fields.  An unreadable status degrades to "unknown"
/// (both fields absent), never an error.
pub fn project_summary(
    project: &Vec<u8>,
    run_ids: &Vec<u64>,
    latest: Option<u64>,
    latest_status: &Option<RunStatus>,
) -> (r: ProjectSummary)
    ensures
        r.project@ == project@,
        r.runs_count == run_ids@.len(),
        r.latest_run_id == latest,
        match latest_status {
            Some(st) => r.latest_status == Some(st.status) && err_view(r.latest_error) == err_view(
                st.error,
            ),
            None => r.latest_status is None && r.latest_error is None,
        },
{
    let (st, err): (Option<Outcome>, Option<Vec<u8>>) = match latest_status {
        Some(s) => {
            let e: Option<Vec<u8>> = match &s.error {
                Some(v) => Some(clone_bytes(v)),
                None => None,
            };
            (Some(s.status), e)
        },
        None => (None, None),
    };
    ProjectSummary {
        project: clone_bytes(project),
        runs_count: run_ids.len(),
        latest_run_id: latest,
        latest_status: st,
        latest_error: err,
    }
}


/// Sort project summaries by project name, keeping exactly the same
/// records: the order of the bulk project listing.
pub fn sort_project_summaries(input: Vec<ProjectSummary>) -> (r: Vec<ProjectSummary>)
    ensures
        r@.to_multiset() == input@.to_multiset(),
        forall|x: int, y: int|
            0 <= x < y < r@.len() ==> lex_le(r@[x].project@, r@[y].project@),
        r@.len() == input@.len(),
{
    let ghost orig = input@;
    let mut rem = input;
    let mut out: Vec<ProjectSummary> = Vec::new();
    proof {
        vstd::seq_lib::to_multiset_len(orig);
        vstd::seq_lib::to_multiset_len(out@);
        vstd::multiset::lemma_multiset_empty_len(out@.to_multiset());
        assert(out@.to_multiset().add(rem@.to_multiset()) =~= orig.to_multiset());
    }
    while rem.len() > 0
        invariant
            out@.to_multiset().add(rem@.to_multiset()) == orig.to_multiset(),
            out@.len() + rem@.len() == orig.len(),
            forall|x: int, y: int|
                0 <= x < y < out@.len() ==> lex_le(out@[x].project@, out@[y].project@),
            forall|x: int, y: int|
                0 <= x < out@.len() && 0 <= y < rem@.len() ==> lex_le(
                    out@[x].project@,
                    rem@[y].project@,
                ),
        decreases rem@.len(),
    {
        let mut mi: usize = 0;
        let mut k: usize = 1;
        proof {
            lemma_lex_refl(rem@[0].project@);
        }
        while k < rem.len()
            invariant
                mi < k <= rem@.len(),
                rem@.len() > 0,
                forall|t: int| 0 <= t < k ==> lex_le(rem@[mi as int].project@, rem@[t].project@),
            decreases rem@.len() - k,
        {
            let keep_min: bool = bytes_le(&rem[mi].project, &rem[k].project);
            proof {
                lemma_lex_total(rem@[mi as int].project@, rem@[k as int].project@);
                if !keep_min {
                    assert forall|t: int| 0 <= t < k + 1 implies lex_le(
                        rem@[k as int].project@,
                        rem@[t].project@,
                    ) by {
                        if t < k {
                            lemma_lex_trans(
                                rem@[k as int].project@,
                                rem@[mi as int].project@,
                                rem@[t].project@,
                            );
                        } else {
                            lemma_lex_refl(rem@[k as int].project@);
                        }
                    }
                } else {
                    lemma_lex_refl(rem@[mi as int].project@);
                }
            }
            if !keep_min {
                mi = k;
            }
            k = k + 1;
        }
        let ghost rem_pre = rem@;
        let ghost out_pre = out@;
        let v: ProjectSummary = rem.remove(mi);
        let ghost vv = v;
        out.push(v);
        proof {
            to_multiset_remove(rem_pre, mi as int);
            to_multiset_build(out_pre, vv);
            assert(rem_pre.contains(vv));
            to_multiset_contains(rem_pre, vv);
            assert(out@.to_multiset().add(rem@.to_multiset()) =~= orig.to_multiset());
            assert forall|y: int| 0 <= y < rem@.len() implies lex_le(
                vv.project@,
                rem@[y].project@,
            ) by {
                assert(rem@[y] == if y < mi {
                    rem_pre[y]
                } else {
                    rem_pre[y + 1]
                });
            }
        }
    }
    proof {
        vstd::seq_lib::to_multiset_len(rem@);
        vstd::multiset::lemma_multiset_empty_len(rem@.to_multiset());
        assert(rem@.to_multiset() =~= Multiset::<ProjectSummary>::empty());
        assert(out@.to_multiset() =~= orig.to_multiset());
        vstd::seq_lib::to_multiset_len(out@);
        vstd::seq_lib::to_multiset_len(orig);
    }
    out
}

} // verus!
