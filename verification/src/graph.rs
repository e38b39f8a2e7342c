//! The versioned graph: the authoritative store of computed values.
//!
//! For each key it holds entries `{value, history, deps}`. A lookup at a
//! version serves one of three outcomes: `Match` when a stored history
//! verifies the version, `CheckDeps` when a prior entry borders it and its
//! recorded dependencies can be revalidated, and `Compute` when nothing
//! usable exists. A commit either extends the history of an entry holding
//! an equal value, or inserts a new entry, retaining or replacing the prior
//! one according to the storage policy.

use vstd::prelude::*;
use vstd::pervasive::VecAdditionalExecFns;

use crate::history::CellHistory;
use crate::key::copy_keys;
use crate::key::DiceKey;
use crate::value::DiceComputedValue;
use crate::value::DiceValue;
use crate::value::MaybeValidDiceValue;
use crate::versions::VersionNumber;
use crate::versions::VersionRanges;

verus! {

/// How superseded entries are kept: `Normal` keeps only the latest entry
/// per key; `Retain` keeps older entries for historical queries.
#[derive(Clone, Copy, PartialEq, Eq, Structural, Debug)]
pub enum StorageType {
    Normal,
    Retain,
}

/// A key paired with the version a request is for.
#[derive(Clone, Copy, PartialEq, Eq, Structural, Debug)]
pub struct VersionedGraphKey {
    pub v: VersionNumber,
    pub k: DiceKey,
}

impl VersionedGraphKey {
    pub fn new(v: VersionNumber, k: DiceKey) -> (r: VersionedGraphKey)
        ensures
            r == (VersionedGraphKey { v, k }),
    {
        VersionedGraphKey { v, k }
    }
}

/// One stored entry: a value, the history over which it is known verified,
/// and the keys its evaluation read, in first-read order.
#[derive(Debug)]
pub struct VersionedGraphNode {
    pub value: DiceValue,
    pub history: CellHistory,
    pub deps: Vec<DiceKey>,
}

/// What a `CheckDeps` outcome hands back: the prior value, the versions at
/// which it is verified, and the dependencies to revalidate.
#[derive(Debug)]
pub struct VersionedGraphResultMismatch {
    pub entry: DiceValue,
    pub verified_versions: VersionRanges,
    pub deps_to_validate: Vec<DiceKey>,
}

/// The three outcomes of a lookup.
#[derive(Debug)]
pub enum VersionedGraphResult {
    /// A stored entry's history verifies the requested version.
    Match(DiceComputedValue),
    /// A prior entry borders the requested version; revalidate its deps.
    CheckDeps(VersionedGraphResultMismatch),
    /// Nothing usable: evaluate from scratch.
    Compute,
}

/// Whether `p` is a verified point of `e` at or before `v`.
pub open spec fn entry_point_le(e: VersionedGraphNode, v: int, p: int) -> bool {
    &&& exists|l: int|
        0 <= l < e.history.verified@.len() && (#[trigger] e.history.verified@[l]).0 == p
    &&& p <= v
}

/// Whether entry `j` holds the greatest verified point `p` at or before
/// `v` over all of `es`, and is the first entry to hold it.
pub open spec fn candidate_in(es: Seq<VersionedGraphNode>, v: int, j: int, p: int) -> bool {
    &&& 0 <= j < es.len()
    &&& entry_point_le(es[j], v, p)
    &&& forall|j2: int, p2: int|
        0 <= j2 < es.len() && #[trigger] entry_point_le(es[j2], v, p2) ==> p2 <= p
    &&& forall|j2: int, p2: int|
        0 <= j2 < j && #[trigger] entry_point_le(es[j2], v, p2) ==> p2 < p
}

/// Two candidates over the same entries agree.
pub proof fn lemma_candidate_unique(
    es: Seq<VersionedGraphNode>,
    v: int,
    j1: int,
    p1: int,
    j2: int,
    p2: int,
)
    requires
        candidate_in(es, v, j1, p1),
        candidate_in(es, v, j2, p2),
    ensures
        j1 == j2,
        p1 == p2,
{
    assert(p1 <= p2 && p2 <= p1);
    if j1 < j2 {
        assert(entry_point_le(es[j1], v, p1));
        assert(p1 < p2);
    }
    if j2 < j1 {
        assert(entry_point_le(es[j2], v, p2));
        assert(p2 < p1);
    }
}

/// The store: entries per dense key id.
#[derive(Debug)]
pub struct VersionedGraph {
    pub nodes: Vec<Vec<VersionedGraphNode>>,
}

impl VersionedGraph {
    pub open spec fn wf(self) -> bool {
        forall|i: int, j: int|
            0 <= i < self.nodes@.len() && 0 <= j < self.nodes@[i]@.len() ==> (
            #[trigger] self.nodes@[i]@[j]).history.wf()
    }

    /// The entries stored for key `k` (none when the key was never seen).
    pub open spec fn entries(self, k: DiceKey) -> Seq<VersionedGraphNode> {
        if (k.index as int) < self.nodes@.len() {
            self.nodes@[k.index as int]@
        } else {
            Seq::empty()
        }
    }

    /// Whether some stored entry for `k` is verified at `v`.
    pub open spec fn has_match(self, k: DiceKey, v: int) -> bool {
        exists|j: int|
            0 <= j < self.entries(k).len() && (#[trigger] self.entries(k)[j]).history.verified_at(
                v,
            )
    }

    /// Whether a value equal to `x` is stored for `k` and verified at `w`.
    pub open spec fn value_verified_at(self, k: DiceKey, w: int, x: DiceValue) -> bool {
        exists|j: int|
            0 <= j < self.entries(k).len() && (#[trigger] self.entries(k)[j]).value == x
                && self.entries(k)[j].history.verified_at(w)
    }

    /// Whether any entry for `k` holds a verified point at or before `v`.
    pub open spec fn has_candidate(self, k: DiceKey, v: int) -> bool {
        exists|j: int, p: int| #[trigger] candidate_in(self.entries(k), v, j, p)
    }

    /// Whether the candidate entry for `(k, v)` holds a value equal to `x`
    /// (a commit of `x` at `v` would then extend its history).
    pub open spec fn has_equal_candidate(self, k: DiceKey, v: int, x: DiceValue) -> bool {
        exists|j: int, p: int|
            #[trigger] candidate_in(self.entries(k), v, j, p) && self.entries(k)[j].value == x
    }

    pub fn new() -> (r: VersionedGraph)
        ensures
            r.wf(),
            r.nodes@.len() == 0,
    {
        VersionedGraph { nodes: Vec::new() }
    }

    /// The number of keys holding at least one entry.
    pub fn key_count(&self) -> (r: usize)
        ensures
            r == count_nonempty(self.nodes@, self.nodes@.len() as int),
    {
        let n = self.nodes.len();
        let mut cnt: usize = 0;
        let mut i: usize = 0;
        while i < n
            invariant
                n == self.nodes@.len(),
                0 <= i <= n,
                cnt <= i,
                cnt == count_nonempty(self.nodes@, i as int),
            decreases n - i,
        {
            if self.nodes[i].len() > 0 {
                cnt += 1;
            }
            i += 1;
        }
        cnt
    }
}

/// How many of the first `n` entry lists are nonempty.
pub open spec fn count_nonempty(s: Seq<Vec<VersionedGraphNode>>, n: int) -> int
    decreases n,
{
    if n <= 0 {
        0
    } else {
        count_nonempty(s, n - 1) + if s[n - 1]@.len() > 0 {
            1int
        } else {
            0int
        }
    }
}

/// A candidate found among a key's entries: the entry index and its
/// greatest verified point at or before the requested version.
#[derive(Clone, Copy, Debug)]
struct CandidateAt {
    idx: usize,
    point: VersionNumber,
}

/// Scans a key's entries for the candidate: the entry with the greatest
/// verified point at or before `v`, earliest entry first on ties.
fn find_candidate(list: &Vec<VersionedGraphNode>, v: VersionNumber) -> (r: Option<CandidateAt>)
    requires
        forall|j: int| 0 <= j < list@.len() ==> (#[trigger] list@[j]).history.wf(),
    ensures
        match r {
            Some(c) => candidate_in(list@, v.0 as int, c.idx as int, c.point.0 as int),
            None => forall|j2: int, p2: int|
                0 <= j2 < list@.len() ==> !#[trigger] entry_point_le(list@[j2], v.0 as int, p2),
        },
{
    let n = list.len();
    let mut best: Option<CandidateAt> = None;
    let mut i: usize = 0;
    while i < n
        invariant
            forall|j: int| 0 <= j < list@.len() ==> (#[trigger] list@[j]).history.wf(),
            n == list@.len(),
            0 <= i <= n,
            match best {
                Some(c) => {
                    &&& 0 <= c.idx < i
                    &&& entry_point_le(list@[c.idx as int], v.0 as int, c.point.0 as int)
                    &&& forall|j2: int, p2: int|
                        0 <= j2 < i && #[trigger] entry_point_le(list@[j2], v.0 as int, p2)
                            ==> p2 <= c.point.0
                    &&& forall|j2: int, p2: int|
                        0 <= j2 < c.idx && #[trigger] entry_point_le(list@[j2], v.0 as int, p2)
                            ==> p2 < c.point.0
                },
                None => forall|j2: int, p2: int|
                    0 <= j2 < i ==> !#[trigger] entry_point_le(list@[j2], v.0 as int, p2),
            },
        decreases n - i,
    {
        let e = &list[i];
        let latest = e.history.latest_verified_at_or_before(v);
        proof {
            match latest {
                Some(p) => {
                    let l = choose|l: int|
                        0 <= l < e.history.verified@.len() && #[trigger] e.history.verified@[l]
                            == p;
                    assert(entry_point_le(list@[i as int], v.0 as int, p.0 as int));
                    assert forall|p2: int| #[trigger]
                        entry_point_le(list@[i as int], v.0 as int, p2) implies p2 <= p.0 by {
                        let l2 = choose|l2: int|
                            0 <= l2 < e.history.verified@.len() && (
                            #[trigger] e.history.verified@[l2]).0 == p2;
                    }
                },
                None => {
                    assert forall|p2: int| !#[trigger] entry_point_le(
                        list@[i as int],
                        v.0 as int,
                        p2,
                    ) by {
                        if entry_point_le(list@[i as int], v.0 as int, p2) {
                            let l2 = choose|l2: int|
                                0 <= l2 < e.history.verified@.len() && (
                                #[trigger] e.history.verified@[l2]).0 == p2;
                        }
                    }
                },
            }
        }
        match latest {
            Some(p) => {
                let replace = match &best {
                    None => true,
                    Some(c) => p.0 > c.point.0,
                };
                if replace {
                    best = Some(CandidateAt { idx: i, point: p });
                }
            },
            None => {},
        }
        i += 1;
    }
    best
}

impl VersionedGraph {
    /// Serves a request for `key`: `Match` when a stored entry's history
    /// verifies the version; otherwise `CheckDeps` around the candidate
    /// entry, unless a forced dirtying after its last verified point (or
    /// the absence of any candidate) demands a fresh `Compute`.
    pub fn lookup(&self, key: VersionedGraphKey) -> (r: VersionedGraphResult)
        requires
            self.wf(),
        ensures
            lookup_post(*self, key, r),
    {
        let v = key.v;
        let ki = key.k.index as usize;
        if ki >= self.nodes.len() {
            proof {
                assert(self.entries(key.k) =~= Seq::<VersionedGraphNode>::empty());
            }
            return VersionedGraphResult::Compute;
        }
        let list = &self.nodes[ki];
        let n = list.len();
        proof {
            assert(self.entries(key.k) == list@);
        }
        let mut j: usize = 0;
        while j < n
            invariant
                self.wf(),
                v == key.v,
                ki == key.k.index as int,
                ki < self.nodes@.len(),
                self.entries(key.k) == list@,
                n == list@.len(),
                0 <= j <= n,
                forall|j2: int|
                    0 <= j2 < j ==> !(#[trigger] list@[j2]).history.verified_at(key.v.0 as int),
            decreases n - j,
        {
            let e = &list[j];
            proof {
                assert(e.history.wf());
            }
            if e.history.is_verified_at(v) {
                let cv = DiceComputedValue::new(
                    MaybeValidDiceValue::valid(e.value),
                    e.history.dupe(),
                );
                proof {
                    let es = self.entries(key.k);
                    assert(es[j as int].history.verified_at(key.v.0 as int));
                    assert(self.has_match(key.k, key.v.0 as int));
                    assert(cv.value == (MaybeValidDiceValue {
                        value: es[j as int].value,
                        valid: true,
                    }));
                    assert(cv.history.verified@ == es[j as int].history.verified@);
                    assert(cv.history.dirtied@ == es[j as int].history.dirtied@);
                }
                return VersionedGraphResult::Match(cv);
            }
            proof {
                assert(!list@[j as int].history.verified_at(key.v.0 as int));
            }
            j += 1;
        }
        proof {
            assert(!self.has_match(key.k, v.0 as int));
        }
        match find_candidate(list, v) {
            None => {
                proof {
                    assert forall|jj: int, pp: int| !#[trigger] candidate_in(
                        self.entries(key.k),
                        v.0 as int,
                        jj,
                        pp,
                    ) by {
                        if candidate_in(self.entries(key.k), v.0 as int, jj, pp) {
                            assert(entry_point_le(list@[jj], v.0 as int, pp));
                        }
                    }
                }
                VersionedGraphResult::Compute
            },
            Some(c) => {
                let e = &list[c.idx];
                proof {
                    assert(e.history.wf());
                }
                if e.history.has_force_dirty_in(c.point, v) {
                    proof {
                        assert(candidate_in(
                            self.entries(key.k),
                            v.0 as int,
                            c.idx as int,
                            c.point.0 as int,
                        ) && self.entries(key.k)[c.idx as int].history.has_force_dirty_between(
                            c.point.0 as int,
                            v.0 as int,
                        ));
                    }
                    VersionedGraphResult::Compute
                } else {
                    let m = VersionedGraphResultMismatch {
                        entry: e.value,
                        verified_versions: e.history.get_verified_ranges(),
                        deps_to_validate: copy_keys(&e.deps),
                    };
                    VersionedGraphResult::CheckDeps(m)
                }
            },
        }
    }
}

/// A placeholder entry, used only to swap a real entry out for mutation.
fn empty_node() -> (r: VersionedGraphNode)
    ensures
        r.history.wf(),
{
    VersionedGraphNode {
        value: DiceValue { data: 0 },
        history: CellHistory { verified: Vec::new(), dirtied: Vec::new() },
        deps: Vec::new(),
    }
}

/// How one entry changes under a dirtying at `v`: same value, deps and
/// verified points; the dirtied set gains `v`.
pub open spec fn dirtied_entry(
    e0: VersionedGraphNode,
    e1: VersionedGraphNode,
    v: int,
    force: bool,
) -> bool {
    &&& e1.value == e0.value
    &&& e1.deps@ == e0.deps@
    &&& e1.history.verified@ == e0.history.verified@
    &&& e1.history.wf()
    &&& forall|lo: int, hi: int|
        #[trigger] e1.history.has_dirty_between(lo, hi) <==> e0.history.has_dirty_between(lo, hi)
            || (lo < v <= hi)
    &&& forall|lo: int, hi: int|
        #[trigger] e1.history.has_force_dirty_between(lo, hi)
            <==> e0.history.has_force_dirty_between(lo, hi) || (force && lo < v <= hi)
}

/// What `update_computed` promises: `g0` the store before, `g1` after,
/// `r` the canonical committed value it returns.
pub open spec fn update_post(
    g0: VersionedGraph,
    g1: VersionedGraph,
    key: VersionedGraphKey,
    value: DiceValue,
    deps: Seq<DiceKey>,
    storage: StorageType,
    r: DiceComputedValue,
) -> bool {
    &&& g1.wf()
    &&& r.value == (MaybeValidDiceValue { value, valid: true })
    &&& r.history.wf()
    &&& r.history.verified_at(key.v.0 as int)
    // the committed entry is stored, carrying the returned history
    &&& exists|j: int|
        0 <= j < g1.entries(key.k).len() && (#[trigger] g1.entries(key.k)[j]).value == value
            && g1.entries(key.k)[j].deps@ == deps && g1.entries(key.k)[j].history.verified@
            == r.history.verified@ && g1.entries(key.k)[j].history.dirtied@ == r.history.dirtied@
    &&& forall|w: int|
        #[trigger] r.history.verified_at(w) ==> g1.value_verified_at(key.k, w, value)
    // other keys untouched
    &&& forall|k2: DiceKey| k2.index != key.k.index ==> g1.entries(k2) == g0.entries(k2)
    // an equal commit extends: nothing verified is lost, no entry added
    &&& g0.has_equal_candidate(key.k, key.v.0 as int, value) ==> forall|w: int, x: DiceValue|
        #[trigger] g0.value_verified_at(key.k, w, x) ==> g1.value_verified_at(key.k, w, x)
    &&& g0.has_equal_candidate(key.k, key.v.0 as int, value) ==> g1.entries(key.k).len()
        == g0.entries(key.k).len()
    &&& !g0.has_equal_candidate(key.k, key.v.0 as int, value) ==> g1.entries(key.k).len() == (
    if storage is Normal {
        1int
    } else {
        g0.entries(key.k).len() as int + 1
    })
    // a fresh entry is verified from the commit on, never before it
    &&& !g0.has_equal_candidate(key.k, key.v.0 as int, value) ==> forall|w: int|
        #[trigger] r.history.verified_at(w) ==> key.v.0 <= w
    // retained storage keeps every value verified before the commit
    &&& storage is Retain ==> forall|w: int, x: DiceValue|
        w < key.v.0 && #[trigger] g0.value_verified_at(key.k, w, x) ==> g1.value_verified_at(
            key.k,
            w,
            x,
        )
}

/// What `mark_dirty` promises of the store before (`g0`) and after (`g1`).
pub open spec fn dirty_post(
    g0: VersionedGraph,
    g1: VersionedGraph,
    k: DiceKey,
    v: VersionNumber,
    force: bool,
) -> bool {
    &&& g1.wf()
    &&& forall|k2: DiceKey| k2.index != k.index ==> g1.entries(k2) == g0.entries(k2)
    &&& g1.entries(k).len() == g0.entries(k).len()
    &&& forall|j: int|
        0 <= j < g1.entries(k).len() ==> #[trigger] dirtied_entry(
            g0.entries(k)[j],
            g1.entries(k)[j],
            v.0 as int,
            force,
        )
}

impl VersionedGraph {
    /// Commits `value` for `key.k` at `key.v`: extends the candidate
    /// entry's history when it holds an equal value, else inserts a new
    /// entry, capping the candidate at `key.v` and keeping or replacing the
    /// old entries per the storage policy. Returns the canonical committed
    /// value, carrying the stored history.
    pub fn update_computed(
        &mut self,
        key: VersionedGraphKey,
        value: DiceValue,
        deps: Vec<DiceKey>,
        storage: StorageType,
    ) -> (r: DiceComputedValue)
        requires
            old(self).wf(),
        ensures
            update_post(*old(self), *final(self), key, value, deps@, storage, r),
    {
        let v = key.v;
        let ki = key.k.index as usize;
        while self.nodes.len() <= ki
            invariant
                old(self).wf(),
                ki == key.k.index as int,
                self.nodes@.len() >= old(self).nodes@.len(),
                forall|i: int|
                    0 <= i < old(self).nodes@.len() ==> self.nodes@[i] == old(self).nodes@[i],
                forall|i: int|
                    old(self).nodes@.len() <= i < self.nodes@.len() ==> (
                    #[trigger] self.nodes@[i])@.len() == 0,
            decreases ki + 1 - self.nodes@.len(),
        {
            self.nodes.push(Vec::new());
        }
        proof {
            assert(self.wf());
            assert(self.entries(key.k) =~= old(self).entries(key.k));
        }
        let ghost grown = *self;
        let mut list: Vec<VersionedGraphNode> = Vec::new();
        self.nodes.set_and_swap(ki, &mut list);
        proof {
            assert(list@ == old(self).entries(key.k));
            assert(forall|j: int|
                0 <= j < list@.len() ==> (#[trigger] list@[j]).history.wf());
        }
        let ghost es0 = list@;
        let cand = find_candidate(&list, v);
        match cand {
            Some(c) => {
                let equal = list[c.idx].value.data == value.data;
                if equal {
                    proof {
                        assert(es0[c.idx as int].value == value);
                        assert(old(self).has_equal_candidate(key.k, key.v.0 as int, value));
                    }
                    let mut node = empty_node();
                    list.set_and_swap(c.idx, &mut node);
                    let ghost node0 = node;
                    node.history.mark_verified(v);
                    node.deps = deps;
                    let r = DiceComputedValue::new(
                        MaybeValidDiceValue::valid(node.value),
                        node.history.dupe(),
                    );
                    proof {
                        crate::history::lemma_history_same(r.history, node.history);
                        assert(!node0.history.has_dirty_between(v.0 as int, v.0 as int));
                        assert(node.history.verified_at(v.0 as int));
                    }
                    let ghost node1 = node;
                    list.set(c.idx, node);
                    self.nodes.set(ki, list);
                    proof {
                        let esf = final(self).entries(key.k);
                        assert(esf == es0.update(c.idx as int, node1));
                        assert(forall|j: int|
                            0 <= j < esf.len() && j != c.idx ==> esf[j] == es0[j]);
                        assert(esf[c.idx as int] == node1);
                        assert(final(self).wf());
                        assert forall|k2: DiceKey| k2.index != key.k.index implies final(self).entries(k2) == old(self).entries(k2) by {
                            assert(final(self).entries(k2) =~= old(self).entries(k2));
                        }
                        assert forall|w: int, x: DiceValue| #[trigger]
                            old(self).value_verified_at(key.k, w, x) implies final(self).value_verified_at(key.k, w, x) by {
                            let j2 = choose|j2: int|
                                0 <= j2 < es0.len() && (#[trigger] es0[j2]).value == x
                                    && es0[j2].history.verified_at(w);
                            if j2 == c.idx {
                                assert(esf[j2].value == x && esf[j2].history.verified_at(w));
                            } else {
                                assert(esf[j2].value == x && esf[j2].history.verified_at(w));
                            }
                        }
                        assert forall|w: int| #[trigger] r.history.verified_at(w) implies final(self).value_verified_at(key.k, w, value) by {
                            assert(esf[c.idx as int].value == value
                                && esf[c.idx as int].history.verified_at(w));
                        }
                    }
                    r
                } else {
                    proof {
                        assert forall|j2: int, p2: int| !(#[trigger] candidate_in(
                            es0,
                            key.v.0 as int,
                            j2,
                            p2,
                        ) && es0[j2].value == value) by {
                            if candidate_in(es0, key.v.0 as int, j2, p2) {
                                lemma_candidate_unique(
                                    es0,
                                    key.v.0 as int,
                                    j2,
                                    p2,
                                    c.idx as int,
                                    c.point.0 as int,
                                );
                            }
                        }
                        assert(!old(self).has_equal_candidate(key.k, key.v.0 as int, value));
                    }
                    let new_history = CellHistory::make_new_verified_history(
                        v,
                        Some(&list[c.idx].history),
                    );
                    let ghost cand_hist = list@[c.idx as int].history;
                    let mut node = empty_node();
                    list.set_and_swap(c.idx, &mut node);
                    let ghost node0 = node;
                    node.history.mark_dirty(v, false);
                    let ghost node1 = node;
                    list.set(c.idx, node);
                    let r = DiceComputedValue::new(
                        MaybeValidDiceValue::valid(value),
                        new_history.dupe(),
                    );
                    proof {
                        crate::history::lemma_history_same(r.history, new_history);
                        assert(!cand_hist.has_dirty_between(v.0 as int, v.0 as int));
                        assert(new_history.verified_at(v.0 as int));
                    }
                    let new_node = VersionedGraphNode { value, history: new_history, deps };
                    let ghost capped = list@;
                    match storage {
                        StorageType::Normal => {
                            let mut fresh: Vec<VersionedGraphNode> = Vec::new();
                            fresh.push(new_node);
                            self.nodes.set(ki, fresh);
                        },
                        StorageType::Retain => {
                            list.push(new_node);
                            self.nodes.set(ki, list);
                        },
                    }
                    proof {
                        let esf = final(self).entries(key.k);
                        if storage is Normal {
                            assert(esf.len() == 1);
                            assert(esf[0].value == value && esf[0].history == new_history
                                && esf[0].deps@ == deps@);
                        } else {
                            assert(esf == capped.push(new_node));
                            assert(esf.len() == es0.len() + 1);
                            assert(esf[es0.len() as int].value == value
                                && esf[es0.len() as int].history == new_history);
                            assert(forall|j: int|
                                0 <= j < es0.len() && j != c.idx ==> esf[j] == es0[j]);
                            assert(esf[c.idx as int] == node1);
                        }
                        assert(final(self).wf());
                        assert forall|k2: DiceKey| k2.index != key.k.index implies final(self).entries(k2) == old(self).entries(k2) by {
                            assert(final(self).entries(k2) =~= old(self).entries(k2));
                        }
                        assert forall|w: int| #[trigger] r.history.verified_at(w) implies final(self).value_verified_at(key.k, w, value) by {
                            let jn: int = if storage is Normal {
                                0
                            } else {
                                es0.len() as int
                            };
                            assert(esf[jn].value == value && esf[jn].history.verified_at(w));
                        }
                        if storage is Retain {
                            assert forall|w: int, x: DiceValue|
                                w < key.v.0 && #[trigger] old(self).value_verified_at(
                                    key.k,
                                    w,
                                    x,
                                ) implies final(self).value_verified_at(key.k, w, x) by {
                                let j2 = choose|j2: int|
                                    0 <= j2 < es0.len() && (#[trigger] es0[j2]).value == x
                                        && es0[j2].history.verified_at(w);
                                if j2 == c.idx {
                                    // the cap dirties only at `key.v`, after `w`
                                    let kk = choose|kk: int|
                                        0 <= kk < node0.history.verified@.len() && (
                                        #[trigger] node0.history.verified@[kk]).0 <= w
                                            && !node0.history.has_dirty_between(
                                            node0.history.verified@[kk].0 as int,
                                            w,
                                        );
                                    assert(!node1.history.has_dirty_between(
                                        node1.history.verified@[kk].0 as int,
                                        w,
                                    ));
                                    assert(node1.history.verified_at(w));
                                    assert(esf[j2].value == x && esf[j2].history.verified_at(w));
                                } else {
                                    assert(esf[j2].value == x && esf[j2].history.verified_at(w));
                                }
                            }
                        }
                    }
                    r
                }
            },
            None => {
                proof {
                    assert forall|j2: int, p2: int| !#[trigger] candidate_in(
                        es0,
                        key.v.0 as int,
                        j2,
                        p2,
                    ) by {
                        if candidate_in(es0, key.v.0 as int, j2, p2) {
                            assert(entry_point_le(es0[j2], key.v.0 as int, p2));
                        }
                    }
                    assert(!old(self).has_equal_candidate(key.k, key.v.0 as int, value));
                }
                let new_history = CellHistory::make_new_verified_history(v, None);
                let r = DiceComputedValue::new(
                    MaybeValidDiceValue::valid(value),
                    new_history.dupe(),
                );
                proof {
                    crate::history::lemma_history_same(r.history, new_history);
                    assert(new_history.verified_at(v.0 as int));
                }
                let new_node = VersionedGraphNode { value, history: new_history, deps };
                match storage {
                    StorageType::Normal => {
                        let mut fresh: Vec<VersionedGraphNode> = Vec::new();
                        fresh.push(new_node);
                        self.nodes.set(ki, fresh);
                    },
                    StorageType::Retain => {
                        list.push(new_node);
                        self.nodes.set(ki, list);
                    },
                }
                proof {
                    let esf = final(self).entries(key.k);
                    if storage is Normal {
                        assert(esf.len() == 1);
                        assert(esf[0].value == value && esf[0].history == new_history && esf[0].deps@
                            == deps@);
                    } else {
                        assert(esf == es0.push(new_node));
                        assert(forall|j: int| 0 <= j < es0.len() ==> esf[j] == es0[j]);
                        assert(esf[es0.len() as int] == new_node);
                    }
                    assert(final(self).wf());
                    assert forall|k2: DiceKey| k2.index != key.k.index implies final(self).entries(
                        k2,
                    ) == old(self).entries(k2) by {
                        assert(final(self).entries(k2) =~= old(self).entries(k2));
                    }
                    assert forall|w: int| #[trigger] r.history.verified_at(w) implies final(self).value_verified_at(key.k, w, value) by {
                        let jn: int = if storage is Normal {
                            0
                        } else {
                            es0.len() as int
                        };
                        assert(esf[jn].value == value && esf[jn].history.verified_at(w));
                    }
                    if storage is Retain {
                        assert forall|w: int, x: DiceValue|
                            w < key.v.0 && #[trigger] old(self).value_verified_at(
                                key.k,
                                w,
                                x,
                            ) implies final(self).value_verified_at(key.k, w, x) by {
                            let j2 = choose|j2: int|
                                0 <= j2 < es0.len() && (#[trigger] es0[j2]).value == x
                                    && es0[j2].history.verified_at(w);
                            assert(esf[j2].value == x && esf[j2].history.verified_at(w));
                        }
                    }
                }
                r
            },
        }
    }

    /// Dirties key `k` at version `v`: every entry of `k` gains the dirtied
    /// point, so verified ranges stop extending past `v`. A forced dirtying
    /// additionally makes a later lookup compute afresh rather than check
    /// dependencies. Dirtying a key never seen changes nothing.
    pub fn mark_dirty(&mut self, k: DiceKey, v: VersionNumber, force: bool)
        requires
            old(self).wf(),
        ensures
            dirty_post(*old(self), *final(self), k, v, force),
    {
        let ki = k.index as usize;
        if ki >= self.nodes.len() {
            return ;
        }
        let mut list: Vec<VersionedGraphNode> = Vec::new();
        self.nodes.set_and_swap(ki, &mut list);
        let ghost es0 = list@;
        let n = list.len();
        let mut j: usize = 0;
        while j < n
            invariant
                n == list@.len(),
                n == es0.len(),
                0 <= j <= n,
                forall|l: int| 0 <= l < es0.len() ==> (#[trigger] es0[l]).history.wf(),
                forall|l: int| j <= l < n ==> list@[l] == es0[l],
                forall|l: int|
                    0 <= l < j ==> #[trigger] dirtied_entry(
                        es0[l],
                        list@[l],
                        v.0 as int,
                        force,
                    ),
            decreases n - j,
        {
            let mut node = empty_node();
            list.set_and_swap(j, &mut node);
            proof {
                assert(node == es0[j as int]);
                assert(node.history.wf());
            }
            node.history.mark_dirty(v, force);
            list.set(j, node);
            proof {
                assert(list@[j as int] == node);
                assert(dirtied_entry(es0[j as int], list@[j as int], v.0 as int, force));
            }
            j += 1;
        }
        self.nodes.set(ki, list);
        proof {
            assert(final(self).entries(k) == list@);
            assert forall|l: int| 0 <= l < list@.len() implies (
            #[trigger] list@[l]).history.wf() by {
                assert(dirtied_entry(es0[l], list@[l], v.0 as int, force));
            }
            assert(final(self).wf());
            assert forall|k2: DiceKey| k2.index != k.index implies final(self).entries(k2) == old(self).entries(k2) by {
                assert(final(self).entries(k2) =~= old(self).entries(k2));
            }
        }
    }
}

/// What `lookup` promises of its result.
pub open spec fn lookup_post(g: VersionedGraph, key: VersionedGraphKey, r: VersionedGraphResult) -> bool {
    let v = key.v.0 as int;
    let es = g.entries(key.k);
    match r {
        VersionedGraphResult::Match(cv) => {
            &&& g.has_match(key.k, v)
            &&& exists|j: int|
                0 <= j < es.len() && (#[trigger] es[j]).history.verified_at(v) && cv.value == (
                MaybeValidDiceValue { value: es[j].value, valid: true })
                    && cv.history.verified@ == es[j].history.verified@ && cv.history.dirtied@
                    == es[j].history.dirtied@
        },
        VersionedGraphResult::CheckDeps(m) => {
            &&& !g.has_match(key.k, v)
            &&& exists|j: int, p: int|
                #[trigger] candidate_in(es, v, j, p) && !es[j].history.has_force_dirty_between(
                    p,
                    v,
                ) && m.entry == es[j].value && m.deps_to_validate@ == es[j].deps@
                    && m.verified_versions.wf() && (forall|w: int|
                    #[trigger] m.verified_versions.contains(w) <==> es[j].history.verified_at(w))
        },
        VersionedGraphResult::Compute => {
            &&& !g.has_match(key.k, v)
            &&& (!g.has_candidate(key.k, v) || exists|j: int, p: int|
                #[trigger] candidate_in(es, v, j, p)
                    && es[j].history.has_force_dirty_between(p, v))
        },
    }
}

} // verus!
