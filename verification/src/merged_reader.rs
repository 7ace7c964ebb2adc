//! Deterministic merged raw telemetry reads across hot, archived, and correction data.

use vstd::prelude::*;

verus! {

/// Physical source from which a raw observation was read.
#[derive(Clone, Copy, Debug, PartialEq, Eq, Structural)]
pub enum RawObservationOrigin {
    Segment,
    Hot,
    Overlay,
}

/// One logical raw observation candidate before source precedence is applied.
///
/// Identifiers are the 128-bit big-endian values of their UUIDs, so numeric order is UUID order.
#[derive(Clone, Debug, PartialEq, Eq)]
pub struct RawObservation {
    pub observation_id: u128,
    pub timestamp_epoch_millis: i64,
    pub generation_power_watts: Option<i64>,
    /// Extended channel values keyed by channel identifier, in ascending channel order.
    pub extended: Vec<(u128, i64)>,
    pub source_kind: String,
    pub source_reference: String,
    pub received_at_epoch_millis: i64,
    pub quality_flags: u32,
    pub revision: u64,
    pub deleted: bool,
    pub origin: RawObservationOrigin,
    /// Segment schema version, present only for archived candidates.
    pub segment_version: Option<u16>,
}

#[derive(Clone, Copy, Debug, PartialEq, Eq, Structural)]
pub enum MergedReadError {
    /// Raw observation was supplied in the wrong physical source collection.
    OriginMismatch,
    /// Unsupported archived segment version.
    UnsupportedSegmentVersion(Option<u16>),
}

pub open spec fn precedence_spec(origin: RawObservationOrigin) -> int {
    match origin {
        RawObservationOrigin::Segment => 0,
        RawObservationOrigin::Hot => 1,
        RawObservationOrigin::Overlay => 2,
    }
}

/// Source precedence: overlay > hot > segment.
pub fn precedence(origin: RawObservationOrigin) -> (r: u8)
    ensures
        r == precedence_spec(origin),
{
    match origin {
        RawObservationOrigin::Segment => 0,
        RawObservationOrigin::Hot => 1,
        RawObservationOrigin::Overlay => 2,
    }
}

/// Combined precedence: a higher source always wins; within one source the higher revision wins.
pub open spec fn rank(o: RawObservation) -> int {
    precedence_spec(o.origin) * 0x1_0000_0000_0000_0000 + o.revision
}

/// Timestamp-then-identifier ordering key of merged results.
pub open spec fn order_key(o: RawObservation) -> int {
    o.timestamp_epoch_millis * 0x1_0000_0000_0000_0000_0000_0000_0000_0000 + o.observation_id
}

/// The failure, if any, of one candidate supplied in the collection of `expected` origin.
pub open spec fn candidate_error(c: RawObservation, expected: RawObservationOrigin) -> Option<
    MergedReadError,
> {
    if c.origin != expected {
        Some(MergedReadError::OriginMismatch)
    } else if c.origin == RawObservationOrigin::Segment && c.segment_version != Some(1u16) {
        Some(MergedReadError::UnsupportedSegmentVersion(c.segment_version))
    } else {
        None
    }
}

/// The failure of the first invalid candidate of `cs`.
pub open spec fn first_error(cs: Seq<RawObservation>, expected: RawObservationOrigin) -> Option<
    MergedReadError,
>
    decreases cs.len(),
{
    if cs.len() == 0 {
        None
    } else {
        match first_error(cs.drop_last(), expected) {
            Some(e) => Some(e),
            None => candidate_error(cs.last(), expected),
        }
    }
}

pub open spec fn merge_error(
    segments: Seq<RawObservation>,
    hot: Seq<RawObservation>,
    overlays: Seq<RawObservation>,
) -> Option<MergedReadError> {
    match first_error(segments, RawObservationOrigin::Segment) {
        Some(e) => Some(e),
        None => match first_error(hot, RawObservationOrigin::Hot) {
            Some(e) => Some(e),
            None => first_error(overlays, RawObservationOrigin::Overlay),
        },
    }
}

/// `all[i]` is the candidate selected for its identity: it outranks every earlier candidate
/// with the same identity and no later one outranks it.
pub open spec fn is_selected(all: Seq<RawObservation>, i: int) -> bool {
    &&& 0 <= i < all.len()
    &&& forall|j: int|
        0 <= j < all.len() && #[trigger] all[j].observation_id == all[i].observation_id ==> (j < i
            ==> rank(all[j]) < rank(all[i])) && (j > i ==> rank(all[j]) <= rank(all[i]))
}

/// `all[i]` survives the merge: it is selected and not a tombstone.
pub open spec fn survives(all: Seq<RawObservation>, i: int) -> bool {
    is_selected(all, i) && !all[i].deleted
}

pub open spec fn strictly_ordered_by_key(r: Seq<RawObservation>) -> bool {
    forall|a: int, b: int| 0 <= a < b < r.len() ==> order_key(#[trigger] r[a]) < order_key(#[trigger] r[b])
}

/// `r` lists exactly the surviving candidates of `all`, in ascending timestamp/identifier order.
pub open spec fn merged_result(all: Seq<RawObservation>, r: Seq<RawObservation>) -> bool {
    &&& strictly_ordered_by_key(r)
    &&& forall|k: int| 0 <= k < r.len() ==> is_survivor(all, #[trigger] r[k])
    &&& forall|i: int| survives(all, i) ==> appears_in(r, #[trigger] all[i])
}

/// `x` is a surviving candidate of `all`.
pub open spec fn is_survivor(all: Seq<RawObservation>, x: RawObservation) -> bool {
    exists|i: int| survives(all, i) && x == #[trigger] all[i]
}

/// `x` is an element of `r`.
pub open spec fn appears_in(r: Seq<RawObservation>, x: RawObservation) -> bool {
    exists|k: int| 0 <= k < r.len() && x == #[trigger] r[k]
}

proof fn lemma_first_error_push(cs: Seq<RawObservation>, c: RawObservation, e: RawObservationOrigin)
    ensures
        first_error(cs.push(c), e) == (match first_error(cs, e) {
            Some(x) => Some(x),
            None => candidate_error(c, e),
        }),
{
    assert(cs.push(c).drop_last() =~= cs);
}

fn check_candidate(c: &RawObservation, expected: RawObservationOrigin) -> (r: Result<(), MergedReadError>)
    ensures
        match candidate_error(*c, expected) {
            Some(e) => r == Err::<(), MergedReadError>(e),
            None => r is Ok,
        },
{
    if c.origin != expected {
        return Err(MergedReadError::OriginMismatch);
    }
    if c.origin == RawObservationOrigin::Segment {
        match c.segment_version {
            Some(v) => {
                if v != 1 {
                    return Err(MergedReadError::UnsupportedSegmentVersion(c.segment_version));
                }
            },
            None => {
                return Err(MergedReadError::UnsupportedSegmentVersion(None));
            },
        }
    }
    Ok(())
}

/// Finds the selected candidate with the given identity.
fn find_selected(selected: &Vec<RawObservation>, id: u128) -> (r: Option<usize>)
    ensures
        match r {
            Some(k) => k < selected.len() && selected@[k as int].observation_id == id,
            None => forall|k: int| 0 <= k < selected.len() ==> (#[trigger] selected@[k]).observation_id != id,
        },
{
    let mut k: usize = 0;
    while k < selected.len()
        invariant
            k <= selected.len(),
            forall|j: int| 0 <= j < k ==> (#[trigger] selected@[j]).observation_id != id,
        decreases selected.len() - k,
    {
        if selected[k].observation_id == id {
            return Some(k);
        }
        k += 1;
    }
    None
}

fn outranks(a: &RawObservation, b: &RawObservation) -> (r: bool)
    ensures
        r == (rank(*a) > rank(*b)),
{
    let pa = precedence(a.origin);
    let pb = precedence(b.origin);
    pa > pb || (pa == pb && a.revision > b.revision)
}

fn precedes(a: &RawObservation, b: &RawObservation) -> (r: bool)
    ensures
        r == (order_key(*a) < order_key(*b)),
{
    a.timestamp_epoch_millis < b.timestamp_epoch_millis || (a.timestamp_epoch_millis
        == b.timestamp_epoch_millis && a.observation_id < b.observation_id)
}

/// The selection invariant after processing the prefix `p`: `sel[k]` is the candidate
/// `p[idx[k]]`, which is selected, identities in `sel` are unique, and every candidate of the
/// prefix has its identity represented at `sel[pos[i]]`.
pub open spec fn selection_matches(
    p: Seq<RawObservation>,
    sel: Seq<RawObservation>,
    idx: Seq<int>,
    pos: Seq<int>,
) -> bool {
    &&& idx.len() == sel.len()
    &&& pos.len() == p.len()
    &&& forall|k: int|
        0 <= k < sel.len() ==> 0 <= #[trigger] idx[k] < p.len() && is_selected(p, idx[k]) && sel[k]
            == p[idx[k]]
    &&& forall|i: int|
        0 <= i < p.len() ==> 0 <= #[trigger] pos[i] < sel.len() && sel[pos[i]].observation_id
            == p[i].observation_id
    &&& forall|a: int, b: int|
        0 <= a < b < sel.len() ==> (#[trigger] sel[a]).observation_id != (#[trigger] sel[b]).observation_id
}

proof fn lemma_selected_after_push(p: Seq<RawObservation>, c: RawObservation)
    ensures
        forall|i: int|
            #![trigger p.push(c)[i]]
            0 <= i < p.len() ==> p.push(c)[i] == p[i] && (is_selected(p.push(c), i) <==> (
            is_selected(p, i) && (p[i].observation_id == c.observation_id ==> rank(c) <= rank(p[i])))),
        is_selected(p.push(c), p.len() as int) <==> (forall|j: int|
            0 <= j < p.len() && #[trigger] p[j].observation_id == c.observation_id ==> rank(p[j]) < rank(c)),
{
    let q = p.push(c);
    let n = p.len() as int;
    assert(q[n] == c);
    assert forall|i: int| #![trigger q[i]] 0 <= i < p.len() implies q[i] == p[i] && (is_selected(q, i) <==> (
        is_selected(p, i) && (p[i].observation_id == c.observation_id ==> rank(c) <= rank(p[i])))) by {
        if is_selected(q, i) {
            assert forall|j: int| 0 <= j < p.len() && #[trigger] p[j].observation_id == p[i].observation_id implies (j < i
                ==> rank(p[j]) < rank(p[i])) && (j > i ==> rank(p[j]) <= rank(p[i])) by {
                assert(q[j] == p[j]);
            }
            if p[i].observation_id == c.observation_id {
                assert(q[n].observation_id == q[i].observation_id);
            }
        }
        if is_selected(p, i) && (p[i].observation_id == c.observation_id ==> rank(c) <= rank(p[i])) {
            assert forall|j: int| 0 <= j < q.len() && #[trigger] q[j].observation_id == q[i].observation_id implies (j < i
                ==> rank(q[j]) < rank(q[i])) && (j > i ==> rank(q[j]) <= rank(q[i])) by {
                if j < n {
                    assert(q[j] == p[j]);
                }
            }
        }
    }
    if forall|j: int| 0 <= j < p.len() && #[trigger] p[j].observation_id == c.observation_id ==> rank(p[j]) < rank(c) {
        assert forall|j: int| 0 <= j < q.len() && #[trigger] q[j].observation_id == q[n].observation_id implies (j < n
            ==> rank(q[j]) < rank(q[n])) && (j > n ==> rank(q[j]) <= rank(q[n])) by {
            if j < n {
                assert(q[j] == p[j]);
            }
        }
    }
    if is_selected(q, n) {
        assert forall|j: int| 0 <= j < p.len() && #[trigger] p[j].observation_id == c.observation_id implies rank(p[j]) < rank(c) by {
            assert(q[j] == p[j]);
        }
    }
}

proof fn lemma_selection_new(
    p: Seq<RawObservation>,
    sel: Seq<RawObservation>,
    idx: Seq<int>,
    pos: Seq<int>,
    c: RawObservation,
)
    requires
        selection_matches(p, sel, idx, pos),
        forall|k: int| 0 <= k < sel.len() ==> (#[trigger] sel[k]).observation_id != c.observation_id,
    ensures
        selection_matches(p.push(c), sel.push(c), idx.push(p.len() as int), pos.push(sel.len() as int)),
{
    let q = p.push(c);
    let n = p.len() as int;
    let ns = sel.push(c);
    let ni = idx.push(n);
    let np = pos.push(sel.len() as int);
    lemma_selected_after_push(p, c);
    assert(q[n] == c);
    assert forall|j: int| 0 <= j < n implies #[trigger] p[j].observation_id != c.observation_id by {
        assert(sel[pos[j]].observation_id == p[j].observation_id);
    }
    assert(is_selected(q, n));
    assert forall|k: int| 0 <= k < ns.len() implies 0 <= #[trigger] ni[k] < q.len() && is_selected(q, ni[k])
        && ns[k] == q[ni[k]] by {
        if k < sel.len() {
            assert(ni[k] == idx[k] && ns[k] == sel[k]);
            assert(q[idx[k]] == p[idx[k]]);
        }
    }
    assert forall|i: int| 0 <= i < q.len() implies 0 <= #[trigger] np[i] < ns.len() && ns[np[i]].observation_id
        == q[i].observation_id by {
        if i < n {
            assert(np[i] == pos[i] && q[i] == p[i]);
            assert(ns[pos[i]] == sel[pos[i]]);
        }
    }
    assert forall|a: int, b: int| 0 <= a < b < ns.len() implies (#[trigger] ns[a]).observation_id
        != (#[trigger] ns[b]).observation_id by {
        assert(ns[a] == sel[a]);
        if b < sel.len() {
            assert(ns[b] == sel[b]);
        }
    }
}

proof fn lemma_selection_existing(
    p: Seq<RawObservation>,
    sel: Seq<RawObservation>,
    idx: Seq<int>,
    pos: Seq<int>,
    c: RawObservation,
    k: int,
)
    requires
        selection_matches(p, sel, idx, pos),
        0 <= k < sel.len(),
        sel[k].observation_id == c.observation_id,
    ensures
        rank(c) > rank(sel[k]) ==> selection_matches(
            p.push(c),
            sel.update(k, c),
            idx.update(k, p.len() as int),
            pos.push(k),
        ),
        rank(c) <= rank(sel[k]) ==> selection_matches(p.push(c), sel, idx, pos.push(k)),
{
    let q = p.push(c);
    let n = p.len() as int;
    let np = pos.push(k);
    lemma_selected_after_push(p, c);
    assert(q[n] == c);
    let i0 = idx[k];
    assert(is_selected(p, i0) && sel[k] == p[i0]);
    assert forall|i: int| 0 <= i < q.len() implies 0 <= #[trigger] np[i] < sel.len() && sel[np[i]].observation_id
        == q[i].observation_id by {
        if i < n {
            assert(np[i] == pos[i] && q[i] == p[i]);
        }
    }
    if rank(c) > rank(sel[k]) {
        let ns = sel.update(k, c);
        let ni = idx.update(k, n);
        assert forall|j: int| 0 <= j < n && #[trigger] p[j].observation_id == c.observation_id implies rank(p[j])
            < rank(c) by {
            assert(p[j].observation_id == p[i0].observation_id);
        }
        assert(is_selected(q, n));
        assert forall|kk: int| 0 <= kk < ns.len() implies 0 <= #[trigger] ni[kk] < q.len() && is_selected(
            q,
            ni[kk],
        ) && ns[kk] == q[ni[kk]] by {
            if kk != k {
                assert(ni[kk] == idx[kk] && ns[kk] == sel[kk]);
                assert(q[idx[kk]] == p[idx[kk]]);
                assert(sel[kk].observation_id != sel[k].observation_id);
            }
        }
        assert forall|i: int| 0 <= i < q.len() implies 0 <= #[trigger] np[i] < ns.len() && ns[np[i]].observation_id
            == q[i].observation_id by {
            if i < n {
                assert(np[i] == pos[i] && q[i] == p[i]);
            }
        }
        assert forall|a: int, b: int| 0 <= a < b < ns.len() implies (#[trigger] ns[a]).observation_id
            != (#[trigger] ns[b]).observation_id by {
            assert(sel[a].observation_id != sel[b].observation_id);
        }
    } else {
        assert forall|kk: int| 0 <= kk < sel.len() implies 0 <= #[trigger] idx[kk] < q.len() && is_selected(
            q,
            idx[kk],
        ) && sel[kk] == q[idx[kk]] by {
            assert(q[idx[kk]] == p[idx[kk]]);
            if kk != k {
                assert(sel[kk].observation_id != sel[k].observation_id);
            }
        }
    }
}

proof fn lemma_selected_unique(all: Seq<RawObservation>, a: int, b: int)
    requires
        is_selected(all, a),
        is_selected(all, b),
        all[a].observation_id == all[b].observation_id,
    ensures
        a == b,
{
    if a < b {
        assert(rank(all[a]) < rank(all[b]));
        assert(rank(all[a]) <= rank(all[b]));
        assert(all[b].observation_id == all[a].observation_id);
        assert(rank(all[b]) <= rank(all[a]));
    } else if b < a {
        assert(all[a].observation_id == all[b].observation_id);
        assert(rank(all[b]) < rank(all[a]));
        assert(rank(all[a]) <= rank(all[b]));
    }
}

/// Candidates absorbed so far and the selection made among them.
struct Selection {
    items: Vec<RawObservation>,
    seen: Ghost<Seq<RawObservation>>,
    idx: Ghost<Seq<int>>,
    pos: Ghost<Seq<int>>,
}

impl Selection {
    spec fn wf(&self) -> bool {
        selection_matches(self.seen@, self.items@, self.idx@, self.pos@)
    }
}

/// Moves the elements of `v` into a vector in reverse order, so that popping it yields them
/// front to back.
fn reversed(v: Vec<RawObservation>) -> (r: Vec<RawObservation>)
    ensures
        r.len() == v.len(),
        forall|i: int| 0 <= i < v.len() ==> #[trigger] r@[i] == v@[v.len() - 1 - i],
{
    let ghost orig = v@;
    let mut v = v;
    let mut r: Vec<RawObservation> = Vec::new();
    while v.len() > 0
        invariant
            v.len() + r.len() == orig.len(),
            v@ == orig.take(v.len() as int),
            forall|i: int| 0 <= i < r.len() ==> #[trigger] r@[i] == orig[orig.len() - 1 - i],
        decreases v.len(),
    {
        let x = v.pop().unwrap();
        proof {
            assert(x == orig[v.len() as int]);
        }
        r.push(x);
        proof {
            assert(v@ =~= orig.take(v.len() as int));
        }
    }
    r
}

fn absorb(sel: &mut Selection, candidates: Vec<RawObservation>, expected: RawObservationOrigin) -> (r: Result<(), MergedReadError>)
    requires
        old(sel).wf(),
    ensures
        match first_error(candidates@, expected) {
            Some(e) => r == Err::<(), MergedReadError>(e),
            None => r is Ok && final(sel).wf() && final(sel).seen@ == old(sel).seen@ + candidates@,
        },
{
    let ghost cs = candidates@;
    let ghost start = sel.seen@;
    let n = candidates.len();
    let mut rest = reversed(candidates);
    let mut j: usize = 0;
    assert(cs.take(0) =~= Seq::<RawObservation>::empty());
    while rest.len() > 0
        invariant
            j + rest.len() == n,
            n == cs.len(),
            cs == candidates@,
            forall|i: int| 0 <= i < rest.len() ==> #[trigger] rest@[i] == cs[n - 1 - i],
            first_error(cs.take(j as int), expected) is None,
            sel.wf(),
            sel.seen@ == start + cs.take(j as int),
        decreases rest.len(),
    {
        let c = rest.pop().unwrap();
        proof {
            assert(c == cs[j as int]);
            assert(cs.take(j as int + 1) =~= cs.take(j as int).push(c));
            lemma_first_error_push(cs.take(j as int), c, expected);
        }
        match check_candidate(&c, expected) {
            Err(e) => {
                proof {
                    assert(first_error(cs.take(j as int + 1), expected) == Some(e));
                    lemma_first_error_prefix(cs, j as int + 1, expected);
                    assert(first_error(cs, expected) == Some(e));
                }
                return Err(e);
            },
            Ok(()) => {},
        }
        let ghost p = sel.seen@;
        let ghost items = sel.items@;
        let ghost idx = sel.idx@;
        let ghost pos = sel.pos@;
        match find_selected(&sel.items, c.observation_id) {
            None => {
                proof {
                    lemma_selection_new(p, items, idx, pos, c);
                }
                sel.items.push(c);
                sel.idx = Ghost(idx.push(p.len() as int));
                sel.pos = Ghost(pos.push(items.len() as int));
            },
            Some(k) => {
                proof {
                    lemma_selection_existing(p, items, idx, pos, c, k as int);
                }
                if outranks(&c, &sel.items[k]) {
                    sel.items.set(k, c);
                    sel.idx = Ghost(idx.update(k as int, p.len() as int));
                } else {
                }
                sel.pos = Ghost(pos.push(k as int));
            },
        }
        sel.seen = Ghost(p.push(cs[j as int]));
        proof {
            assert(sel.seen@ =~= start + cs.take(j as int + 1));
        }
        j += 1;
    }
    proof {
        assert(cs.take(j as int) =~= cs);
    }
    Ok(())
}

proof fn lemma_first_error_prefix(cs: Seq<RawObservation>, j: int, expected: RawObservationOrigin)
    requires
        0 <= j <= cs.len(),
        first_error(cs.take(j), expected) is Some,
    ensures
        first_error(cs, expected) == first_error(cs.take(j), expected),
    decreases cs.len() - j,
{
    if j < cs.len() {
        assert(cs.take(j + 1).drop_last() =~= cs.take(j));
        lemma_first_error_prefix(cs, j + 1, expected);
    } else {
        assert(cs.take(j) =~= cs);
    }
}

/// The ordering invariant of the survivors gathered from `items[0..j]`: `out[k]` is
/// `items[from[k]]`, and each surviving item `t` sits at `out[at[t]]`.
pub open spec fn survivors_placed(
    out: Seq<RawObservation>,
    items: Seq<RawObservation>,
    j: int,
    from: Seq<int>,
    at: Seq<int>,
) -> bool {
    &&& strictly_ordered_by_key(out)
    &&& from.len() == out.len()
    &&& at.len() == j
    &&& forall|k: int|
        0 <= k < out.len() ==> 0 <= #[trigger] from[k] < j && out[k] == items[from[k]]
            && !items[from[k]].deleted
    &&& forall|t: int| 0 <= t < j && !items[t].deleted ==> 0 <= #[trigger] at[t] < out.len() && out[at[t]] == items[t]
}

proof fn lemma_insert_ordered(
    before: Seq<RawObservation>,
    items: Seq<RawObservation>,
    j: int,
    from: Seq<int>,
    at: Seq<int>,
    p: int,
)
    requires
        0 <= j < items.len(),
        !items[j].deleted,
        0 <= p <= before.len(),
        forall|a: int, b: int|
            0 <= a < b < items.len() ==> (#[trigger] items[a]).observation_id != (#[trigger] items[b]).observation_id,
        survivors_placed(before, items, j, from, at),
        forall|k: int| 0 <= k < p ==> order_key(#[trigger] before[k]) <= order_key(items[j]),
        p < before.len() ==> order_key(items[j]) < order_key(before[p]),
    ensures
        survivors_placed(
            before.insert(p, items[j]),
            items,
            j + 1,
            from.insert(p, j),
            Seq::new((j + 1) as nat, |t: int| if t == j { p } else if at[t] >= p { at[t] + 1 } else { at[t] }),
        ),
{
    let x = items[j];
    let after = before.insert(p, x);
    let nf = from.insert(p, j);
    let na = Seq::new((j + 1) as nat, |t: int| if t == j { p } else if at[t] >= p { at[t] + 1 } else { at[t] });
    assert forall|k: int| 0 <= k < before.len() implies order_key(#[trigger] before[k]) != order_key(x) by {
        assert(items[from[k]].observation_id != items[j].observation_id);
    }
    assert forall|a: int, b: int| 0 <= a < b < after.len() implies order_key(#[trigger] after[a])
        < order_key(#[trigger] after[b]) by {
        if b < p {
            assert(after[a] == before[a] && after[b] == before[b]);
        } else if b == p {
            assert(after[a] == before[a]);
        } else if a < p {
            assert(after[a] == before[a] && after[b] == before[b - 1]);
            assert(order_key(before[a]) < order_key(x));
            if b - 1 > p {
                assert(order_key(before[p]) < order_key(before[b - 1]));
            }
        } else if a == p {
            assert(after[b] == before[b - 1]);
            if b - 1 > p {
                assert(order_key(before[p]) < order_key(before[b - 1]));
            }
        } else {
            assert(after[a] == before[a - 1] && after[b] == before[b - 1]);
        }
    }
    assert forall|k: int| 0 <= k < after.len() implies 0 <= #[trigger] nf[k] < j + 1 && after[k] == items[nf[k]]
        && !items[nf[k]].deleted by {
        if k < p {
            assert(after[k] == before[k] && nf[k] == from[k]);
        } else if k > p {
            assert(after[k] == before[k - 1] && nf[k] == from[k - 1]);
        }
    }
    assert forall|t: int| 0 <= t < j + 1 && !items[t].deleted implies 0 <= #[trigger] na[t] < after.len()
        && after[na[t]] == items[t] by {
        if t < j {
            if at[t] >= p {
                assert(after[at[t] + 1] == before[at[t]]);
            } else {
                assert(after[at[t]] == before[at[t]]);
            }
        }
    }
}

proof fn lemma_survivors_merged(
    all: Seq<RawObservation>,
    items: Seq<RawObservation>,
    idx: Seq<int>,
    pos: Seq<int>,
    out: Seq<RawObservation>,
    from: Seq<int>,
    at: Seq<int>,
)
    requires
        selection_matches(all, items, idx, pos),
        survivors_placed(out, items, items.len() as int, from, at),
    ensures
        merged_result(all, out),
{
    assert forall|k: int| 0 <= k < out.len() implies is_survivor(all, #[trigger] out[k]) by {
        let t = from[k];
        assert(out[k] == items[t]);
        assert(items[t] == all[idx[t]]);
        assert(survives(all, idx[t]));
    }
    assert forall|i: int| survives(all, i) implies appears_in(out, #[trigger] all[i]) by {
        let t = pos[i];
        assert(items[t].observation_id == all[i].observation_id);
        assert(items[t] == all[idx[t]]);
        lemma_selected_unique(all, idx[t], i);
        assert(out[at[t]] == items[t]);
        assert(out[at[t]] == all[i]);
    }
}

/// Merges raw candidates using overlay > hot > segment precedence.
///
/// Candidates are deduplicated by stable observation identity. Within one physical source the
/// highest revision wins. Tombstone overlays suppress the logical observation. Results are
/// ordered by timestamp and observation identifier so pagination does not depend on load order.
/// Fails when a candidate is supplied in the wrong collection or an archived candidate uses an
/// unsupported segment version.
pub fn merge_raw_observations(
    segments: Vec<RawObservation>,
    hot: Vec<RawObservation>,
    overlays: Vec<RawObservation>,
) -> (r: Result<Vec<RawObservation>, MergedReadError>)
    ensures
        match merge_error(segments@, hot@, overlays@) {
            Some(e) => r == Err::<Vec<RawObservation>, MergedReadError>(e),
            None => r matches Ok(v) && merged_result(segments@ + hot@ + overlays@, v@),
        },
{
    let ghost all = segments@ + hot@ + overlays@;
    let ghost (s0, h0, o0) = (segments@, hot@, overlays@);
    let mut sel = Selection {
        items: Vec::new(),
        seen: Ghost(Seq::empty()),
        idx: Ghost(Seq::empty()),
        pos: Ghost(Seq::empty()),
    };
    absorb(&mut sel, segments, RawObservationOrigin::Segment)?;
    absorb(&mut sel, hot, RawObservationOrigin::Hot)?;
    absorb(&mut sel, overlays, RawObservationOrigin::Overlay)?;
    proof {
        assert(sel.seen@ =~= all);
    }
    let ghost items = sel.items@;
    let ghost idx = sel.idx@;
    let ghost pos = sel.pos@;
    let m = sel.items.len();
    let mut rest = reversed(sel.items);
    let mut out: Vec<RawObservation> = Vec::new();
    let mut j: usize = 0;
    let ghost mut from: Seq<int> = Seq::empty();
    let ghost mut at: Seq<int> = Seq::empty();
    while rest.len() > 0
        invariant
            j + rest.len() == m,
            m == items.len(),
            all == segments@ + hot@ + overlays@,
            merge_error(segments@, hot@, overlays@) is None,
            selection_matches(all, items, idx, pos),
            forall|i: int| 0 <= i < rest.len() ==> #[trigger] rest@[i] == items[m - 1 - i],
            survivors_placed(out@, items, j as int, from, at),
        decreases rest.len(),
    {
        let x = rest.pop().unwrap();
        proof {
            assert(x == items[j as int]);
        }
        if !x.deleted {
            let mut p: usize = 0;
            while p < out.len() && !precedes(&x, &out[p])
                invariant
                    p <= out.len(),
                    forall|k: int| 0 <= k < p ==> order_key(#[trigger] out@[k]) <= order_key(x),
                decreases out.len() - p,
            {
                p += 1;
            }
            let ghost before = out@;
            proof {
                lemma_insert_ordered(before, items, j as int, from, at, p as int);
                from = from.insert(p as int, j as int);
                at = Seq::new((j + 1) as nat, |t: int| if t == j { p as int } else if at[t] >= p { at[t] + 1 } else { at[t] });
            }
            out.insert(p, x);
            proof {
                assert(out@ =~= before.insert(p as int, items[j as int]));
            }
        } else {
            proof {
                at = at.push(0);
                assert forall|t: int| 0 <= t < j + 1 && !items[t].deleted implies 0 <= #[trigger] at[t] < out@.len()
                    && out@[at[t]] == items[t] by {}
            }
        }
        j += 1;
    }
    proof {
        lemma_survivors_merged(all, items, idx, pos, out@, from, at);
    }
    Ok(out)
}

/// Two strictly ordered sequences holding the same elements are equal.
proof fn lemma_ordered_same_elements(a: Seq<RawObservation>, b: Seq<RawObservation>)
    requires
        strictly_ordered_by_key(a),
        strictly_ordered_by_key(b),
        forall|k: int| 0 <= k < a.len() ==> appears_in(b, #[trigger] a[k]),
        forall|k: int| 0 <= k < b.len() ==> appears_in(a, #[trigger] b[k]),
    ensures
        a == b,
    decreases a.len(),
{
    if a.len() == 0 {
        if b.len() > 0 {
            assert(appears_in(a, b[0]));
        }
        assert(a =~= b);
    } else {
        assert(appears_in(b, a[0]));
        let j = choose|j: int| 0 <= j < b.len() && a[0] == #[trigger] b[j];
        assert(appears_in(a, b[0]));
        let i = choose|i: int| 0 <= i < a.len() && b[0] == #[trigger] a[i];
        if j > 0 {
            assert(order_key(b[0]) < order_key(b[j]));
            if i > 0 {
                assert(order_key(a[0]) < order_key(a[i]));
            }
            assert(false);
        }
        let ta = a.drop_first();
        let tb = b.drop_first();
        assert forall|x: int, y: int| 0 <= x < y < ta.len() implies order_key(#[trigger] ta[x]) < order_key(
            #[trigger] ta[y],
        ) by {
            assert(ta[x] == a[x + 1] && ta[y] == a[y + 1]);
        }
        assert forall|x: int, y: int| 0 <= x < y < tb.len() implies order_key(#[trigger] tb[x]) < order_key(
            #[trigger] tb[y],
        ) by {
            assert(tb[x] == b[x + 1] && tb[y] == b[y + 1]);
        }
        assert forall|k: int| 0 <= k < ta.len() implies appears_in(tb, #[trigger] ta[k]) by {
            assert(ta[k] == a[k + 1]);
            assert(appears_in(b, a[k + 1]));
            let m = choose|m: int| 0 <= m < b.len() && a[k + 1] == #[trigger] b[m];
            assert(order_key(a[0]) < order_key(a[k + 1]));
            assert(m != 0);
            assert(tb[m - 1] == b[m]);
        }
        assert forall|k: int| 0 <= k < tb.len() implies appears_in(ta, #[trigger] tb[k]) by {
            assert(tb[k] == b[k + 1]);
            assert(appears_in(a, b[k + 1]));
            let m = choose|m: int| 0 <= m < a.len() && b[k + 1] == #[trigger] a[m];
            assert(order_key(b[0]) < order_key(b[k + 1]));
            assert(m != 0);
            assert(ta[m - 1] == a[m]);
        }
        lemma_ordered_same_elements(ta, tb);
        assert(a =~= seq![a[0]] + ta);
        assert(b =~= seq![b[0]] + tb);
    }
}

/// The merged read is fully determined by its candidates: any two results of merging the same
/// candidates are equal, so pagination does not depend on load order.
pub proof fn merged_result_is_unique(all: Seq<RawObservation>, r1: Seq<RawObservation>, r2: Seq<RawObservation>)
    requires
        merged_result(all, r1),
        merged_result(all, r2),
    ensures
        r1 == r2,
{
    assert forall|k: int| 0 <= k < r1.len() implies appears_in(r2, #[trigger] r1[k]) by {
        assert(is_survivor(all, r1[k]));
        let i = choose|i: int| survives(all, i) && r1[k] == #[trigger] all[i];
        assert(appears_in(r2, all[i]));
    }
    assert forall|k: int| 0 <= k < r2.len() implies appears_in(r1, #[trigger] r2[k]) by {
        assert(is_survivor(all, r2[k]));
        let i = choose|i: int| survives(all, i) && r2[k] == #[trigger] all[i];
        assert(appears_in(r1, all[i]));
    }
    lemma_ordered_same_elements(r1, r2);
}

/// Overlay beats hot beats segment, and within one source the higher revision wins: every
/// merged observation outranks every candidate with its identity.
pub proof fn merged_observation_wins(all: Seq<RawObservation>, r: Seq<RawObservation>, k: int, j: int)
    requires
        merged_result(all, r),
        0 <= k < r.len(),
        0 <= j < all.len(),
        all[j].observation_id == r[k].observation_id,
    ensures
        precedence_spec(all[j].origin) <= precedence_spec(r[k].origin),
        all[j].origin == r[k].origin ==> all[j].revision <= r[k].revision,
{
    assert(is_survivor(all, r[k]));
    let i = choose|i: int| survives(all, i) && r[k] == #[trigger] all[i];
    assert(all[j].observation_id == all[i].observation_id);
    assert(rank(all[j]) <= rank(all[i]));
}

/// A tombstone suppresses its observation: when the winning candidate of an identity is
/// deleted, no merged observation has that identity.
pub proof fn tombstone_suppresses(all: Seq<RawObservation>, r: Seq<RawObservation>, i: int, k: int)
    requires
        merged_result(all, r),
        is_selected(all, i),
        all[i].deleted,
        0 <= k < r.len(),
    ensures
        r[k].observation_id != all[i].observation_id,
{
    assert(is_survivor(all, r[k]));
    let m = choose|m: int| survives(all, m) && r[k] == #[trigger] all[m];
    if r[k].observation_id == all[i].observation_id {
        assert(all[m].observation_id == all[i].observation_id);
        if m < i {
            assert(rank(all[m]) < rank(all[i]));
            assert(rank(all[i]) <= rank(all[m]));
        } else if m > i {
            assert(rank(all[i]) < rank(all[m]));
            assert(rank(all[m]) <= rank(all[i]));
        }
    }
}

} // verus!
