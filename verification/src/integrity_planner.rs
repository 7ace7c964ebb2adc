//! Read-only integrity verification and explicit repair planning.
use crate::external::text_lt;
use vstd::prelude::*;

verus! {

/// A problem found in a point-in-time storage inventory.
#[derive(Clone, Debug, PartialEq, Eq, PartialOrd, Ord)]
pub enum IntegrityIssue {
    HotRowWithoutSystem(u128),
    MissingSegment(String),
    SegmentHashMismatch(String),
    OverlayWithoutSegment(String),
    MissingRollup(String),
    StaleSummary(u128),
    OrphanedJob(u128),
}

/// An explicit repair that an operator may apply.
#[derive(Clone, Debug, PartialEq, Eq)]
pub enum RepairAction {
    QuarantineHotRow(u128),
    RestoreOrRecompactSegment(String),
    RebuildRollups(String),
    RebuildSummary(u128),
    DeadLetterJob(u128),
}

/// Issue with its segment key as a character sequence.
pub enum IssueView {
    HotRowWithoutSystem(u128),
    MissingSegment(Seq<char>),
    SegmentHashMismatch(Seq<char>),
    OverlayWithoutSegment(Seq<char>),
    MissingRollup(Seq<char>),
    StaleSummary(u128),
    OrphanedJob(u128),
}

/// Repair with its segment key as a character sequence.
pub enum RepairView {
    QuarantineHotRow(u128),
    RestoreOrRecompactSegment(Seq<char>),
    RebuildRollups(Seq<char>),
    RebuildSummary(u128),
    DeadLetterJob(u128),
}

impl View for IntegrityIssue {
    type V = IssueView;

    open spec fn view(&self) -> IssueView {
        match self {
            IntegrityIssue::HotRowWithoutSystem(id) => IssueView::HotRowWithoutSystem(*id),
            IntegrityIssue::MissingSegment(k) => IssueView::MissingSegment(k@),
            IntegrityIssue::SegmentHashMismatch(k) => IssueView::SegmentHashMismatch(k@),
            IntegrityIssue::OverlayWithoutSegment(k) => IssueView::OverlayWithoutSegment(k@),
            IntegrityIssue::MissingRollup(k) => IssueView::MissingRollup(k@),
            IntegrityIssue::StaleSummary(id) => IssueView::StaleSummary(*id),
            IntegrityIssue::OrphanedJob(id) => IssueView::OrphanedJob(*id),
        }
    }
}

impl View for RepairAction {
    type V = RepairView;

    open spec fn view(&self) -> RepairView {
        match self {
            RepairAction::QuarantineHotRow(id) => RepairView::QuarantineHotRow(*id),
            RepairAction::RestoreOrRecompactSegment(k) => RepairView::RestoreOrRecompactSegment(k@),
            RepairAction::RebuildRollups(k) => RepairView::RebuildRollups(k@),
            RepairAction::RebuildSummary(id) => RepairView::RebuildSummary(*id),
            RepairAction::DeadLetterJob(id) => RepairView::DeadLetterJob(*id),
        }
    }
}

/// A point-in-time inventory. Each field is a set, listed in ascending order without repeats
/// (see `wf`).
#[derive(Clone, Debug, Default, PartialEq, Eq)]
pub struct IntegritySnapshot {
    pub hot_rows_without_system: Vec<u128>,
    pub expected_segments: Vec<String>,
    pub present_segments: Vec<String>,
    pub corrupt_segments: Vec<String>,
    pub overlay_segments: Vec<String>,
    pub rollup_segments: Vec<String>,
    pub stale_summaries: Vec<u128>,
    pub orphaned_jobs: Vec<u128>,
}

/// Identifiers listed in strictly ascending order, so each at most once.
pub open spec fn ids_ascending(v: Seq<u128>) -> bool {
    forall|i: int, j: int| 0 <= i < j < v.len() ==> #[trigger] v[i] < #[trigger] v[j]
}

/// Keys listed in strictly ascending order, so each at most once.
pub open spec fn keys_ascending(v: Seq<String>) -> bool {
    forall|i: int, j: int| 0 <= i < j < v.len() ==> text_lt(#[trigger] v[i]@, #[trigger] v[j]@)
}

impl IntegritySnapshot {
    /// Every field is a set: listed in ascending order without repeats.
    pub open spec fn wf(&self) -> bool {
        &&& ids_ascending(self.hot_rows_without_system@)
        &&& keys_ascending(self.expected_segments@)
        &&& keys_ascending(self.present_segments@)
        &&& keys_ascending(self.corrupt_segments@)
        &&& keys_ascending(self.overlay_segments@)
        &&& keys_ascending(self.rollup_segments@)
        &&& ids_ascending(self.stale_summaries@)
        &&& ids_ascending(self.orphaned_jobs@)
    }
}

/// The issues found and the repairs planned for them, in the order they were found.
#[derive(Clone, Debug, Default, PartialEq, Eq)]
pub struct IntegrityReport {
    pub issues: Vec<IntegrityIssue>,
    pub repair_plan: Vec<RepairAction>,
}

pub open spec fn keys_view(v: Seq<String>) -> Seq<Seq<char>> {
    v.map_values(|s: String| s@)
}

pub open spec fn issues_view(v: Seq<IntegrityIssue>) -> Seq<IssueView> {
    v.map_values(|i: IntegrityIssue| i@)
}

pub open spec fn repairs_view(v: Seq<RepairAction>) -> Seq<RepairView> {
    v.map_values(|r: RepairAction| r@)
}

/// The keys of `a` that `b` does not hold, in the order of `a`.
pub open spec fn difference(a: Seq<Seq<char>>, b: Seq<Seq<char>>) -> Seq<Seq<char>>
    decreases a.len(),
{
    if a.len() == 0 {
        Seq::empty()
    } else if b.contains(a.last()) {
        difference(a.drop_last(), b)
    } else {
        difference(a.drop_last(), b).push(a.last())
    }
}

/// Which per-identifier check a list of identifiers feeds.
enum IdCheck {
    HotRow,
    StaleSummary,
    OrphanedJob,
}

/// Which per-key check a list of segment keys feeds.
enum KeyCheck {
    Missing,
    HashMismatch,
    OverlayOrphan,
    RollupMissing,
}

spec fn id_issue(check: IdCheck, id: u128) -> IssueView {
    match check {
        IdCheck::HotRow => IssueView::HotRowWithoutSystem(id),
        IdCheck::StaleSummary => IssueView::StaleSummary(id),
        IdCheck::OrphanedJob => IssueView::OrphanedJob(id),
    }
}

spec fn id_repair(check: IdCheck, id: u128) -> RepairView {
    match check {
        IdCheck::HotRow => RepairView::QuarantineHotRow(id),
        IdCheck::StaleSummary => RepairView::RebuildSummary(id),
        IdCheck::OrphanedJob => RepairView::DeadLetterJob(id),
    }
}

spec fn key_issue(check: KeyCheck, key: Seq<char>) -> IssueView {
    match check {
        KeyCheck::Missing => IssueView::MissingSegment(key),
        KeyCheck::HashMismatch => IssueView::SegmentHashMismatch(key),
        KeyCheck::OverlayOrphan => IssueView::OverlayWithoutSegment(key),
        KeyCheck::RollupMissing => IssueView::MissingRollup(key),
    }
}

/// The repairs planned for a list of keys; an overlay without its segment is reported only.
spec fn key_repairs(check: KeyCheck, keys: Seq<Seq<char>>) -> Seq<RepairView> {
    match check {
        KeyCheck::Missing => keys.map_values(|k: Seq<char>| RepairView::RestoreOrRecompactSegment(k)),
        KeyCheck::HashMismatch => keys.map_values(|k: Seq<char>| RepairView::RestoreOrRecompactSegment(k)),
        KeyCheck::OverlayOrphan => Seq::empty(),
        KeyCheck::RollupMissing => keys.map_values(|k: Seq<char>| RepairView::RebuildRollups(k)),
    }
}

/// The issues of a snapshot: hot rows without a system, missing segments, corrupt segments,
/// overlays without a segment, segments without rollups, stale summaries, orphaned jobs.
pub open spec fn planned_issues(s: IntegritySnapshot) -> Seq<IssueView> {
    let hot = s.hot_rows_without_system@;
    let present = keys_view(s.present_segments@);
    hot.map_values(|id: u128| IssueView::HotRowWithoutSystem(id))
        + difference(keys_view(s.expected_segments@), present).map_values(
        |k: Seq<char>| IssueView::MissingSegment(k),
    ) + keys_view(s.corrupt_segments@).map_values(|k: Seq<char>| IssueView::SegmentHashMismatch(k))
        + difference(keys_view(s.overlay_segments@), present).map_values(
        |k: Seq<char>| IssueView::OverlayWithoutSegment(k),
    ) + difference(present, keys_view(s.rollup_segments@)).map_values(
        |k: Seq<char>| IssueView::MissingRollup(k),
    ) + s.stale_summaries@.map_values(|id: u128| IssueView::StaleSummary(id))
        + s.orphaned_jobs@.map_values(|id: u128| IssueView::OrphanedJob(id))
}

/// The repairs of a snapshot, in the order of the issues they answer.
pub open spec fn planned_repairs(s: IntegritySnapshot) -> Seq<RepairView> {
    let present = keys_view(s.present_segments@);
    s.hot_rows_without_system@.map_values(|id: u128| RepairView::QuarantineHotRow(id))
        + difference(keys_view(s.expected_segments@), present).map_values(
        |k: Seq<char>| RepairView::RestoreOrRecompactSegment(k),
    ) + keys_view(s.corrupt_segments@).map_values(
        |k: Seq<char>| RepairView::RestoreOrRecompactSegment(k),
    ) + difference(present, keys_view(s.rollup_segments@)).map_values(
        |k: Seq<char>| RepairView::RebuildRollups(k),
    ) + s.stale_summaries@.map_values(|id: u128| RepairView::RebuildSummary(id))
        + s.orphaned_jobs@.map_values(|id: u128| RepairView::DeadLetterJob(id))
}

fn contains_key(set: &Vec<String>, key: &String) -> (r: bool)
    ensures
        r == keys_view(set@).contains(key@),
{
    let mut k: usize = 0;
    while k < set.len()
        invariant
            k <= set.len(),
            forall|j: int| 0 <= j < k ==> (#[trigger] set@[j])@ != key@,
        decreases set.len() - k,
    {
        if set[k] == *key {
            proof {
                assert(keys_view(set@)[k as int] == key@);
            }
            return true;
        }
        k += 1;
    }
    proof {
        if keys_view(set@).contains(key@) {
            let j = choose|j: int| 0 <= j < keys_view(set@).len() && keys_view(set@)[j] == key@;
            assert(set@[j]@ == key@);
        }
    }
    false
}

/// The keys of `a` that `b` does not hold, in the order of `a`.
fn missing_keys(a: &Vec<String>, b: &Vec<String>) -> (r: Vec<String>)
    ensures
        keys_view(r@) == difference(keys_view(a@), keys_view(b@)),
{
    let mut out: Vec<String> = Vec::new();
    let mut k: usize = 0;
    while k < a.len()
        invariant
            k <= a.len(),
            keys_view(out@) == difference(keys_view(a@.take(k as int)), keys_view(b@)),
        decreases a.len() - k,
    {
        proof {
            assert(keys_view(a@.take(k as int + 1)).drop_last() =~= keys_view(a@.take(k as int)));
            assert(keys_view(a@.take(k as int + 1)).last() == a@[k as int]@);
        }
        if !contains_key(b, &a[k]) {
            out.push(a[k].clone());
            proof {
                assert(keys_view(out@) =~= keys_view(out@.drop_last()).push(a@[k as int]@));
            }
        }
        k += 1;
    }
    proof {
        assert(a@.take(k as int) =~= a@);
    }
    out
}

fn push_id_check(report: &mut IntegrityReport, ids: &Vec<u128>, check: IdCheck)
    ensures
        issues_view(final(report).issues@) == issues_view(old(report).issues@) + ids@.map_values(
            |id: u128| id_issue(check, id),
        ),
        repairs_view(final(report).repair_plan@) == repairs_view(old(report).repair_plan@)
            + ids@.map_values(|id: u128| id_repair(check, id)),
{
    let ghost issues0 = issues_view(report.issues@);
    let ghost plan0 = repairs_view(report.repair_plan@);
    let mut k: usize = 0;
    while k < ids.len()
        invariant
            k <= ids.len(),
            issues_view(report.issues@) == issues0 + ids@.take(k as int).map_values(
                |id: u128| id_issue(check, id),
            ),
            repairs_view(report.repair_plan@) == plan0 + ids@.take(k as int).map_values(
                |id: u128| id_repair(check, id),
            ),
        decreases ids.len() - k,
    {
        let id = ids[k];
        let ghost iv = issues_view(report.issues@);
        let ghost rv = repairs_view(report.repair_plan@);
        let (issue, repair) = match check {
            IdCheck::HotRow => (IntegrityIssue::HotRowWithoutSystem(id), RepairAction::QuarantineHotRow(id)),
            IdCheck::StaleSummary => (IntegrityIssue::StaleSummary(id), RepairAction::RebuildSummary(id)),
            IdCheck::OrphanedJob => (IntegrityIssue::OrphanedJob(id), RepairAction::DeadLetterJob(id)),
        };
        report.issues.push(issue);
        report.repair_plan.push(repair);
        proof {
            let t = ids@.take(k as int);
            assert(ids@.take(k as int + 1) =~= t.push(id));
            assert(issues_view(report.issues@) =~= iv.push(id_issue(check, id)));
            assert(repairs_view(report.repair_plan@) =~= rv.push(id_repair(check, id)));
            assert(t.push(id).map_values(|x: u128| id_issue(check, x)) =~= t.map_values(
                |x: u128| id_issue(check, x),
            ).push(id_issue(check, id)));
            assert(t.push(id).map_values(|x: u128| id_repair(check, x)) =~= t.map_values(
                |x: u128| id_repair(check, x),
            ).push(id_repair(check, id)));
            assert(issues0 + t.push(id).map_values(|x: u128| id_issue(check, x)) =~= iv.push(
                id_issue(check, id),
            ));
            assert(plan0 + t.push(id).map_values(|x: u128| id_repair(check, x)) =~= rv.push(
                id_repair(check, id),
            ));
        }
        k += 1;
    }
    proof {
        assert(ids@.take(k as int) =~= ids@);
    }
}

fn push_key_check(report: &mut IntegrityReport, keys: &Vec<String>, check: KeyCheck)
    ensures
        issues_view(final(report).issues@) == issues_view(old(report).issues@) + keys_view(
            keys@,
        ).map_values(|k: Seq<char>| key_issue(check, k)),
        repairs_view(final(report).repair_plan@) == repairs_view(old(report).repair_plan@)
            + key_repairs(check, keys_view(keys@)),
{
    let ghost issues0 = issues_view(report.issues@);
    let ghost plan0 = repairs_view(report.repair_plan@);
    let mut k: usize = 0;
    while k < keys.len()
        invariant
            k <= keys.len(),
            issues_view(report.issues@) == issues0 + keys_view(keys@.take(k as int)).map_values(
                |q: Seq<char>| key_issue(check, q),
            ),
            repairs_view(report.repair_plan@) == plan0 + key_repairs(check, keys_view(keys@.take(k as int))),
        decreases keys.len() - k,
    {
        let key = &keys[k];
        let ghost kv = key@;
        let ghost iv = issues_view(report.issues@);
        let ghost rv = repairs_view(report.repair_plan@);
        proof {
            assert(keys_view(keys@.take(k as int + 1)) =~= keys_view(keys@.take(k as int)).push(kv));
        }
        match check {
            KeyCheck::Missing => {
                report.issues.push(IntegrityIssue::MissingSegment(key.clone()));
                report.repair_plan.push(RepairAction::RestoreOrRecompactSegment(key.clone()));
            },
            KeyCheck::HashMismatch => {
                report.issues.push(IntegrityIssue::SegmentHashMismatch(key.clone()));
                report.repair_plan.push(RepairAction::RestoreOrRecompactSegment(key.clone()));
            },
            KeyCheck::OverlayOrphan => {
                report.issues.push(IntegrityIssue::OverlayWithoutSegment(key.clone()));
            },
            KeyCheck::RollupMissing => {
                report.issues.push(IntegrityIssue::MissingRollup(key.clone()));
                report.repair_plan.push(RepairAction::RebuildRollups(key.clone()));
            },
        }
        proof {
            let t = keys_view(keys@.take(k as int));
            assert(issues_view(report.issues@) =~= iv.push(key_issue(check, kv)));
            assert(t.push(kv).map_values(|q: Seq<char>| key_issue(check, q)) =~= t.map_values(
                |q: Seq<char>| key_issue(check, q),
            ).push(key_issue(check, kv)));
            assert(issues0 + t.push(kv).map_values(|q: Seq<char>| key_issue(check, q)) =~= iv.push(
                key_issue(check, kv),
            ));
            match check {
                KeyCheck::OverlayOrphan => {
                    assert(repairs_view(report.repair_plan@) =~= rv);
                },
                KeyCheck::RollupMissing => {
                    let r = RepairView::RebuildRollups(kv);
                    assert(repairs_view(report.repair_plan@) =~= rv.push(r));
                    assert(t.push(kv).map_values(|q: Seq<char>| RepairView::RebuildRollups(q))
                        =~= t.map_values(|q: Seq<char>| RepairView::RebuildRollups(q)).push(r));
                    assert(plan0 + key_repairs(check, t.push(kv)) =~= rv.push(r));
                },
                _ => {
                    let r = RepairView::RestoreOrRecompactSegment(kv);
                    assert(repairs_view(report.repair_plan@) =~= rv.push(r));
                    assert(t.push(kv).map_values(|q: Seq<char>| RepairView::RestoreOrRecompactSegment(q))
                        =~= t.map_values(|q: Seq<char>| RepairView::RestoreOrRecompactSegment(q)).push(r));
                    assert(plan0 + key_repairs(check, t.push(kv)) =~= rv.push(r));
                },
            }
        }
        k += 1;
    }
    proof {
        assert(keys@.take(k as int) =~= keys@);
    }
}

/// Verifies a point-in-time inventory and produces a plan without mutating data.
pub fn plan_integrity_repairs(snapshot: &IntegritySnapshot) -> (report: IntegrityReport)
    requires
        snapshot.wf(),
    ensures
        issues_view(report.issues@) == planned_issues(*snapshot),
        repairs_view(report.repair_plan@) == planned_repairs(*snapshot),
{
    let mut report = IntegrityReport { issues: Vec::new(), repair_plan: Vec::new() };
    proof {
        assert(issues_view(report.issues@) =~= Seq::empty());
        assert(repairs_view(report.repair_plan@) =~= Seq::empty());
    }
    push_id_check(&mut report, &snapshot.hot_rows_without_system, IdCheck::HotRow);
    let missing = missing_keys(&snapshot.expected_segments, &snapshot.present_segments);
    push_key_check(&mut report, &missing, KeyCheck::Missing);
    push_key_check(&mut report, &snapshot.corrupt_segments, KeyCheck::HashMismatch);
    let orphans = missing_keys(&snapshot.overlay_segments, &snapshot.present_segments);
    push_key_check(&mut report, &orphans, KeyCheck::OverlayOrphan);
    let unrolled = missing_keys(&snapshot.present_segments, &snapshot.rollup_segments);
    push_key_check(&mut report, &unrolled, KeyCheck::RollupMissing);
    push_id_check(&mut report, &snapshot.stale_summaries, IdCheck::StaleSummary);
    push_id_check(&mut report, &snapshot.orphaned_jobs, IdCheck::OrphanedJob);
    proof {
        let s = *snapshot;
        let hot = s.hot_rows_without_system@;
        assert(hot.map_values(|id: u128| id_issue(IdCheck::HotRow, id)) =~= hot.map_values(
            |id: u128| IssueView::HotRowWithoutSystem(id),
        ));
        assert(hot.map_values(|id: u128| id_repair(IdCheck::HotRow, id)) =~= hot.map_values(
            |id: u128| RepairView::QuarantineHotRow(id),
        ));
        let st = s.stale_summaries@;
        assert(st.map_values(|id: u128| id_issue(IdCheck::StaleSummary, id)) =~= st.map_values(
            |id: u128| IssueView::StaleSummary(id),
        ));
        assert(st.map_values(|id: u128| id_repair(IdCheck::StaleSummary, id)) =~= st.map_values(
            |id: u128| RepairView::RebuildSummary(id),
        ));
        let oj = s.orphaned_jobs@;
        assert(oj.map_values(|id: u128| id_issue(IdCheck::OrphanedJob, id)) =~= oj.map_values(
            |id: u128| IssueView::OrphanedJob(id),
        ));
        assert(oj.map_values(|id: u128| id_repair(IdCheck::OrphanedJob, id)) =~= oj.map_values(
            |id: u128| RepairView::DeadLetterJob(id),
        ));
        let m = keys_view(missing@);
        assert(m.map_values(|k: Seq<char>| key_issue(KeyCheck::Missing, k)) =~= m.map_values(
            |k: Seq<char>| IssueView::MissingSegment(k),
        ));
        let c = keys_view(s.corrupt_segments@);
        assert(c.map_values(|k: Seq<char>| key_issue(KeyCheck::HashMismatch, k)) =~= c.map_values(
            |k: Seq<char>| IssueView::SegmentHashMismatch(k),
        ));
        let o = keys_view(orphans@);
        assert(o.map_values(|k: Seq<char>| key_issue(KeyCheck::OverlayOrphan, k)) =~= o.map_values(
            |k: Seq<char>| IssueView::OverlayWithoutSegment(k),
        ));
        let u = keys_view(unrolled@);
        assert(u.map_values(|k: Seq<char>| key_issue(KeyCheck::RollupMissing, k)) =~= u.map_values(
            |k: Seq<char>| IssueView::MissingRollup(k),
        ));
        assert(issues_view(report.issues@) =~= planned_issues(s));
        assert(repairs_view(report.repair_plan@) =~= planned_repairs(s));
    }
    report
}

proof fn lemma_difference_contains(a: Seq<Seq<char>>, b: Seq<Seq<char>>, k: Seq<char>)
    ensures
        difference(a, b).contains(k) <==> a.contains(k) && !b.contains(k),
    decreases a.len(),
{
    if a.len() > 0 {
        let t = a.drop_last();
        lemma_difference_contains(t, b, k);
        if a.contains(k) && !t.contains(k) {
            let i = choose|i: int| 0 <= i < a.len() && a[i] == k;
            if i < t.len() {
                assert(t[i] == k);
            }
            assert(a.last() == k);
        }
        if t.contains(k) {
            let i = choose|i: int| 0 <= i < t.len() && t[i] == k;
            assert(a[i] == k);
        }
        let d = difference(t, b);
        if !b.contains(a.last()) {
            let e = d.push(a.last());
            assert(e[e.len() - 1] == a.last());
            if d.contains(k) {
                let i = choose|i: int| 0 <= i < d.len() && d[i] == k;
                assert(e[i] == k);
            }
            if e.contains(k) && !d.contains(k) {
                let i = choose|i: int| 0 <= i < e.len() && e[i] == k;
                if i < d.len() {
                    assert(d[i] == k);
                }
            }
        }
    }
}

proof fn lemma_concat_contains<A>(a: Seq<A>, b: Seq<A>, x: A)
    ensures
        (a + b).contains(x) <==> a.contains(x) || b.contains(x),
{
    if (a + b).contains(x) {
        let i = choose|i: int| 0 <= i < (a + b).len() && (a + b)[i] == x;
        if i < a.len() {
            assert(a[i] == x);
        } else {
            assert(b[i - a.len()] == x);
        }
    }
    if a.contains(x) {
        let i = choose|i: int| 0 <= i < a.len() && a[i] == x;
        assert((a + b)[i] == x);
    }
    if b.contains(x) {
        let i = choose|i: int| 0 <= i < b.len() && b[i] == x;
        assert((a + b)[a.len() + i] == x);
    }
}

proof fn lemma_map_contains<A, B>(s: Seq<A>, f: spec_fn(A) -> B, x: A)
    requires
        forall|p: A, q: A| #[trigger] f(p) == #[trigger] f(q) ==> p == q,
    ensures
        s.map_values(f).contains(f(x)) <==> s.contains(x),
{
    if s.map_values(f).contains(f(x)) {
        let i = choose|i: int| 0 <= i < s.map_values(f).len() && s.map_values(f)[i] == f(x);
        assert(f(s[i]) == f(x));
        assert(s[i] == x);
    }
    if s.contains(x) {
        let i = choose|i: int| 0 <= i < s.len() && s[i] == x;
        assert(s.map_values(f)[i] == f(x));
    }
}

proof fn lemma_map_excludes<A, B>(s: Seq<A>, f: spec_fn(A) -> B, y: B)
    requires
        forall|p: A| #[trigger] f(p) != y,
    ensures
        !s.map_values(f).contains(y),
{
    if s.map_values(f).contains(y) {
        let i = choose|i: int| 0 <= i < s.map_values(f).len() && s.map_values(f)[i] == y;
        assert(f(s[i]) == y);
    }
}

/// The plan reports exactly the gaps of the inventory: a segment is missing exactly when it is
/// expected and absent, an overlay is orphaned exactly when its segment is absent, a rollup is
/// missing exactly when a present segment has none, and a segment is corrupt exactly when the
/// inventory says so. A segment is scheduled for restoring exactly when it is missing or
/// corrupt, and its rollups for rebuilding exactly when they are missing; overlays are only
/// reported.
pub proof fn plan_reports_exactly_the_gaps(s: IntegritySnapshot, k: Seq<char>)
    ensures
        planned_issues(s).contains(IssueView::MissingSegment(k)) <==> keys_view(s.expected_segments@).contains(k)
            && !keys_view(s.present_segments@).contains(k),
        planned_issues(s).contains(IssueView::OverlayWithoutSegment(k)) <==> keys_view(s.overlay_segments@).contains(
            k,
        ) && !keys_view(s.present_segments@).contains(k),
        planned_issues(s).contains(IssueView::MissingRollup(k)) <==> keys_view(s.present_segments@).contains(k)
            && !keys_view(s.rollup_segments@).contains(k),
        planned_issues(s).contains(IssueView::SegmentHashMismatch(k)) <==> keys_view(s.corrupt_segments@).contains(k),
        planned_repairs(s).contains(RepairView::RestoreOrRecompactSegment(k)) <==> (keys_view(
            s.expected_segments@,
        ).contains(k) && !keys_view(s.present_segments@).contains(k)) || keys_view(s.corrupt_segments@).contains(k),
        planned_repairs(s).contains(RepairView::RebuildRollups(k)) <==> keys_view(s.present_segments@).contains(k)
            && !keys_view(s.rollup_segments@).contains(k),
{
    let present = keys_view(s.present_segments@);
    let hot = s.hot_rows_without_system@;
    let missing = difference(keys_view(s.expected_segments@), present);
    let corrupt = keys_view(s.corrupt_segments@);
    let orphans = difference(keys_view(s.overlay_segments@), present);
    let unrolled = difference(present, keys_view(s.rollup_segments@));
    let stale = s.stale_summaries@;
    let jobs = s.orphaned_jobs@;
    lemma_difference_contains(keys_view(s.expected_segments@), present, k);
    lemma_difference_contains(keys_view(s.overlay_segments@), present, k);
    lemma_difference_contains(present, keys_view(s.rollup_segments@), k);
    let i1 = hot.map_values(|id: u128| IssueView::HotRowWithoutSystem(id));
    let i2 = missing.map_values(|k: Seq<char>| IssueView::MissingSegment(k));
    let i3 = corrupt.map_values(|k: Seq<char>| IssueView::SegmentHashMismatch(k));
    let i4 = orphans.map_values(|k: Seq<char>| IssueView::OverlayWithoutSegment(k));
    let i5 = unrolled.map_values(|k: Seq<char>| IssueView::MissingRollup(k));
    let i6 = stale.map_values(|id: u128| IssueView::StaleSummary(id));
    let i7 = jobs.map_values(|id: u128| IssueView::OrphanedJob(id));
    assert(planned_issues(s) == i1 + i2 + i3 + i4 + i5 + i6 + i7);
    let targets = seq![
        IssueView::MissingSegment(k),
        IssueView::OverlayWithoutSegment(k),
        IssueView::MissingRollup(k),
        IssueView::SegmentHashMismatch(k),
    ];
    lemma_map_contains(missing, |k: Seq<char>| IssueView::MissingSegment(k), k);
    lemma_map_contains(corrupt, |k: Seq<char>| IssueView::SegmentHashMismatch(k), k);
    lemma_map_contains(orphans, |k: Seq<char>| IssueView::OverlayWithoutSegment(k), k);
    lemma_map_contains(unrolled, |k: Seq<char>| IssueView::MissingRollup(k), k);
    assert forall|t: int| 0 <= t < 4 implies {
        let y = #[trigger] targets[t];
        planned_issues(s).contains(y) <==> (i2.contains(y) || i3.contains(y) || i4.contains(y) || i5.contains(y))
    } by {
        let y = targets[t];
        lemma_map_excludes(hot, |id: u128| IssueView::HotRowWithoutSystem(id), y);
        lemma_map_excludes(stale, |id: u128| IssueView::StaleSummary(id), y);
        lemma_map_excludes(jobs, |id: u128| IssueView::OrphanedJob(id), y);
        lemma_concat_contains(i1, i2, y);
        lemma_concat_contains(i1 + i2, i3, y);
        lemma_concat_contains(i1 + i2 + i3, i4, y);
        lemma_concat_contains(i1 + i2 + i3 + i4, i5, y);
        lemma_concat_contains(i1 + i2 + i3 + i4 + i5, i6, y);
        lemma_concat_contains(i1 + i2 + i3 + i4 + i5 + i6, i7, y);
    }
    assert(targets[0] == IssueView::MissingSegment(k));
    assert(targets[1] == IssueView::OverlayWithoutSegment(k));
    assert(targets[2] == IssueView::MissingRollup(k));
    assert(targets[3] == IssueView::SegmentHashMismatch(k));
    lemma_map_excludes(missing, |k: Seq<char>| IssueView::MissingSegment(k), IssueView::OverlayWithoutSegment(k));
    lemma_map_excludes(missing, |k: Seq<char>| IssueView::MissingSegment(k), IssueView::MissingRollup(k));
    lemma_map_excludes(missing, |k: Seq<char>| IssueView::MissingSegment(k), IssueView::SegmentHashMismatch(k));
    lemma_map_excludes(corrupt, |k: Seq<char>| IssueView::SegmentHashMismatch(k), IssueView::MissingSegment(k));
    lemma_map_excludes(corrupt, |k: Seq<char>| IssueView::SegmentHashMismatch(k), IssueView::OverlayWithoutSegment(k));
    lemma_map_excludes(corrupt, |k: Seq<char>| IssueView::SegmentHashMismatch(k), IssueView::MissingRollup(k));
    lemma_map_excludes(orphans, |k: Seq<char>| IssueView::OverlayWithoutSegment(k), IssueView::MissingSegment(k));
    lemma_map_excludes(orphans, |k: Seq<char>| IssueView::OverlayWithoutSegment(k), IssueView::MissingRollup(k));
    lemma_map_excludes(orphans, |k: Seq<char>| IssueView::OverlayWithoutSegment(k), IssueView::SegmentHashMismatch(k));
    lemma_map_excludes(unrolled, |k: Seq<char>| IssueView::MissingRollup(k), IssueView::MissingSegment(k));
    lemma_map_excludes(unrolled, |k: Seq<char>| IssueView::MissingRollup(k), IssueView::OverlayWithoutSegment(k));
    lemma_map_excludes(unrolled, |k: Seq<char>| IssueView::MissingRollup(k), IssueView::SegmentHashMismatch(k));
    // Repairs.
    let r1 = hot.map_values(|id: u128| RepairView::QuarantineHotRow(id));
    let r2 = missing.map_values(|k: Seq<char>| RepairView::RestoreOrRecompactSegment(k));
    let r3 = corrupt.map_values(|k: Seq<char>| RepairView::RestoreOrRecompactSegment(k));
    let r5 = unrolled.map_values(|k: Seq<char>| RepairView::RebuildRollups(k));
    let r6 = stale.map_values(|id: u128| RepairView::RebuildSummary(id));
    let r7 = jobs.map_values(|id: u128| RepairView::DeadLetterJob(id));
    assert(planned_repairs(s) == r1 + r2 + r3 + r5 + r6 + r7);
    lemma_map_contains(missing, |k: Seq<char>| RepairView::RestoreOrRecompactSegment(k), k);
    lemma_map_contains(corrupt, |k: Seq<char>| RepairView::RestoreOrRecompactSegment(k), k);
    lemma_map_contains(unrolled, |k: Seq<char>| RepairView::RebuildRollups(k), k);
    let repair_targets = seq![RepairView::RestoreOrRecompactSegment(k), RepairView::RebuildRollups(k)];
    assert forall|t: int| 0 <= t < 2 implies {
        let y = #[trigger] repair_targets[t];
        planned_repairs(s).contains(y) <==> (r2.contains(y) || r3.contains(y) || r5.contains(y))
    } by {
        let y = repair_targets[t];
        lemma_map_excludes(hot, |id: u128| RepairView::QuarantineHotRow(id), y);
        lemma_map_excludes(stale, |id: u128| RepairView::RebuildSummary(id), y);
        lemma_map_excludes(jobs, |id: u128| RepairView::DeadLetterJob(id), y);
        lemma_concat_contains(r1, r2, y);
        lemma_concat_contains(r1 + r2, r3, y);
        lemma_concat_contains(r1 + r2 + r3, r5, y);
        lemma_concat_contains(r1 + r2 + r3 + r5, r6, y);
        lemma_concat_contains(r1 + r2 + r3 + r5 + r6, r7, y);
    }
    assert(repair_targets[0] == RepairView::RestoreOrRecompactSegment(k));
    assert(repair_targets[1] == RepairView::RebuildRollups(k));
    lemma_map_excludes(missing, |k: Seq<char>| RepairView::RestoreOrRecompactSegment(k), RepairView::RebuildRollups(k));
    lemma_map_excludes(corrupt, |k: Seq<char>| RepairView::RestoreOrRecompactSegment(k), RepairView::RebuildRollups(k));
    lemma_map_excludes(unrolled, |k: Seq<char>| RepairView::RebuildRollups(k), RepairView::RestoreOrRecompactSegment(k));
}

} // verus!
