//! Cell histories: the versions at which a stored value is known to hold.
//!
//! A history records the versions at which a value was verified, and the
//! versions at which something it may depend on was dirtied. A verification
//! at `p` stays good until the first dirtying after `p`: the value is
//! verified at `w` exactly when some verified point `p <= w` has no dirtied
//! point in `(p, w]`.

use vstd::prelude::*;

use crate::versions::ranges_wf;
use crate::versions::seq_contains;
use crate::versions::VersionNumber;
use crate::versions::VersionRange;
use crate::versions::VersionRanges;

verus! {

/// A dirtying: from this version on the value needs revalidation. A forced
/// dirtying additionally demands a fresh compute (the input itself changed,
/// revalidating dependencies cannot help).
#[derive(Clone, Copy, PartialEq, Eq, Structural, Debug)]
pub struct DirtyPoint {
    pub version: VersionNumber,
    pub force: bool,
}

/// The set of versions over which one stored value is known verified.
#[derive(Debug)]
pub struct CellHistory {
    /// Versions at which the value was verified, strictly increasing.
    pub verified: Vec<VersionNumber>,
    /// Versions at which the value was dirtied, strictly increasing.
    pub dirtied: Vec<DirtyPoint>,
}

impl CellHistory {
    pub open spec fn wf(self) -> bool {
        &&& forall|k: int, l: int|
            0 <= k < l < self.verified@.len() ==> (#[trigger] self.verified@[k]).0 < (
            #[trigger] self.verified@[l]).0
        &&& forall|k: int, l: int|
            0 <= k < l < self.dirtied@.len() ==> (#[trigger] self.dirtied@[k]).version.0 < (
            #[trigger] self.dirtied@[l]).version.0
    }

    /// Whether some dirtied point lies in the half-open interval `(lo, hi]`.
    pub open spec fn has_dirty_between(self, lo: int, hi: int) -> bool {
        exists|k: int|
            0 <= k < self.dirtied@.len() && lo < (#[trigger] self.dirtied@[k]).version.0 <= hi
    }

    /// Whether some forced dirtied point lies in `(lo, hi]`.
    pub open spec fn has_force_dirty_between(self, lo: int, hi: int) -> bool {
        exists|k: int|
            0 <= k < self.dirtied@.len() && lo < (#[trigger] self.dirtied@[k]).version.0 <= hi
                && self.dirtied@[k].force
    }

    /// Whether one of the first `n` verified points makes `w` verified.
    pub open spec fn verified_at_upto(self, n: int, w: int) -> bool {
        exists|k: int|
            0 <= k < n && (#[trigger] self.verified@[k]).0 <= w && !self.has_dirty_between(
                self.verified@[k].0 as int,
                w,
            )
    }

    /// Whether the value is known verified at version `w`.
    pub open spec fn verified_at(self, w: int) -> bool {
        self.verified_at_upto(self.verified@.len() as int, w)
    }

    /// A history verified at `v` alone, with nothing dirtied.
    pub fn verified(v: VersionNumber) -> (r: CellHistory)
        ensures
            r.wf(),
            r.verified@ == seq![v],
            r.dirtied@ == Seq::<DirtyPoint>::empty(),
            forall|w: int| #[trigger] r.verified_at(w) <==> v.0 <= w,
    {
        let mut verified: Vec<VersionNumber> = Vec::new();
        verified.push(v);
        let r = CellHistory { verified, dirtied: Vec::new() };
        proof {
            assert(r.verified@ =~= seq![v]);
            assert(r.dirtied@ =~= Seq::<DirtyPoint>::empty());
            assert(forall|w: int| v.0 <= w ==> (#[trigger] r.verified_at(w)) == true) by {
                assert forall|w: int| v.0 <= w implies #[trigger] r.verified_at(w) by {
                    assert(r.verified@[0].0 <= w);
                }
            }
        }
        r
    }

    /// Records that the value was verified at `v` as well.
    pub fn mark_verified(&mut self, v: VersionNumber)
        requires
            old(self).wf(),
        ensures
            final(self).wf(),
            final(self).dirtied@ == old(self).dirtied@,
            forall|w: int|
                #[trigger] final(self).verified_at(w) <==> old(self).verified_at(w) || (v.0 <= w
                    && !old(self).has_dirty_between(v.0 as int, w)),
    {
        let n = self.verified.len();
        let mut i: usize = 0;
        while i < n && self.verified[i].0 < v.0
            invariant
                n == self.verified@.len(),
                0 <= i <= n,
                forall|k: int| 0 <= k < i ==> (#[trigger] self.verified@[k]).0 < v.0,
            decreases n - i,
        {
            i += 1;
        }
        if i < n && self.verified[i].0 == v.0 {
            proof {
                assert forall|w: int|
                    old(self).verified_at(w) || (v.0 <= w && !old(self).has_dirty_between(
                        v.0 as int,
                        w,
                    )) implies #[trigger] final(self).verified_at(w) by {
                    if !old(self).verified_at(w) {
                        assert(self.verified@[i as int].0 <= w);
                    }
                }
            }
            return ;
        }
        let ghost prev = *self;
        self.verified.insert(i, v);
        proof {
            let s = self.verified@;
            let p = prev.verified@;
            assert(s == p.insert(i as int, v));
            assert(forall|k: int| 0 <= k < i ==> s[k] == p[k]);
            assert(s[i as int] == v);
            assert(forall|k: int| i < k < s.len() ==> s[k] == p[k - 1]);
            assert(i < p.len() ==> p[i as int].0 > v.0);
            assert(final(self).wf());
            assert forall|w: int| #[trigger]
                final(self).verified_at(w) implies prev.verified_at(w) || (v.0 <= w
                && !prev.has_dirty_between(v.0 as int, w)) by {
                let k = choose|k: int|
                    0 <= k < s.len() && (#[trigger] s[k]).0 <= w && !self.has_dirty_between(
                        s[k].0 as int,
                        w,
                    );
                if k < i {
                    assert(p[k].0 <= w && !prev.has_dirty_between(p[k].0 as int, w));
                } else if k > i {
                    assert(p[k - 1].0 <= w && !prev.has_dirty_between(p[k - 1].0 as int, w));
                }
            }
            assert forall|w: int|
                prev.verified_at(w) || (v.0 <= w && !prev.has_dirty_between(
                    v.0 as int,
                    w,
                )) implies #[trigger] final(self).verified_at(w) by {
                if prev.verified_at(w) {
                    let k = choose|k: int|
                        0 <= k < p.len() && (#[trigger] p[k]).0 <= w && !prev.has_dirty_between(
                            p[k].0 as int,
                            w,
                        );
                    if k < i {
                        assert(s[k].0 <= w && !self.has_dirty_between(s[k].0 as int, w));
                    } else {
                        assert(s[k + 1].0 <= w && !self.has_dirty_between(s[k + 1].0 as int, w));
                    }
                } else {
                    assert(s[i as int].0 <= w && !self.has_dirty_between(s[i as int].0 as int, w));
                }
            }
        }
    }

    /// Records a dirtying at `v`; a forced dirtying stays forced.
    pub fn mark_dirty(&mut self, v: VersionNumber, force: bool)
        requires
            old(self).wf(),
        ensures
            final(self).wf(),
            final(self).verified@ == old(self).verified@,
            forall|lo: int, hi: int|
                #[trigger] final(self).has_dirty_between(lo, hi) <==> old(self).has_dirty_between(
                    lo,
                    hi,
                ) || (lo < v.0 <= hi),
            forall|lo: int, hi: int|
                #[trigger] final(self).has_force_dirty_between(lo, hi) <==> old(
                    self,
                ).has_force_dirty_between(lo, hi) || (force && lo < v.0 <= hi),
    {
        let n = self.dirtied.len();
        let mut i: usize = 0;
        while i < n && self.dirtied[i].version.0 < v.0
            invariant
                n == self.dirtied@.len(),
                0 <= i <= n,
                forall|k: int| 0 <= k < i ==> (#[trigger] self.dirtied@[k]).version.0 < v.0,
            decreases n - i,
        {
            i += 1;
        }
        let ghost prev = *self;
        if i < n && self.dirtied[i].version.0 == v.0 {
            let joined = DirtyPoint { version: v, force: force || self.dirtied[i].force };
            self.dirtied.set(i, joined);
            proof {
                let s = self.dirtied@;
                let p = prev.dirtied@;
                assert(s == p.update(i as int, joined));
                assert(forall|k: int| 0 <= k < s.len() && k != i ==> s[k] == p[k]);
                lemma_dirty_update_equiv(prev, *self, v, force, i as int);
            }
        } else {
            let point = DirtyPoint { version: v, force };
            self.dirtied.insert(i, point);
            proof {
                let s = self.dirtied@;
                let p = prev.dirtied@;
                assert(s == p.insert(i as int, point));
                assert(forall|k: int| 0 <= k < i ==> s[k] == p[k]);
                assert(s[i as int] == point);
                assert(forall|k: int| i < k < s.len() ==> s[k] == p[k - 1]);
                assert(i < p.len() ==> p[i as int].version.0 > v.0);
                assert(final(self).wf());
                lemma_dirty_insert_equiv(prev, *self, v, force, i as int);
            }
        }
    }

    /// The smallest dirtied version strictly after `p`, if any.
    pub fn first_dirty_after(&self, p: VersionNumber) -> (r: Option<VersionNumber>)
        requires
            self.wf(),
        ensures
            match r {
                Some(d) => {
                    &&& d.0 > p.0
                    &&& exists|k: int|
                        0 <= k < self.dirtied@.len() && (#[trigger] self.dirtied@[k]).version == d
                    &&& forall|k: int|
                        0 <= k < self.dirtied@.len() && (#[trigger] self.dirtied@[k]).version.0
                            > p.0 ==> self.dirtied@[k].version.0 >= d.0
                },
                None => forall|k: int|
                    0 <= k < self.dirtied@.len() ==> (#[trigger] self.dirtied@[k]).version.0
                        <= p.0,
            },
    {
        let n = self.dirtied.len();
        let mut i: usize = 0;
        while i < n
            invariant
                self.wf(),
                n == self.dirtied@.len(),
                0 <= i <= n,
                forall|k: int| 0 <= k < i ==> (#[trigger] self.dirtied@[k]).version.0 <= p.0,
            decreases n - i,
        {
            let d = self.dirtied[i];
            if d.version.0 > p.0 {
                proof {
                    assert(forall|k: int|
                        i < k < self.dirtied@.len() ==> (#[trigger] self.dirtied@[k]).version.0
                            >= d.version.0);
                }
                return Some(d.version);
            }
            i += 1;
        }
        None
    }

    /// The greatest verified point at or before `v`, if any.
    pub fn latest_verified_at_or_before(&self, v: VersionNumber) -> (r: Option<VersionNumber>)
        requires
            self.wf(),
        ensures
            match r {
                Some(p) => {
                    &&& p.0 <= v.0
                    &&& exists|k: int|
                        0 <= k < self.verified@.len() && #[trigger] self.verified@[k] == p
                    &&& forall|k: int|
                        0 <= k < self.verified@.len() && (#[trigger] self.verified@[k]).0 <= v.0
                            ==> self.verified@[k].0 <= p.0
                },
                None => forall|k: int|
                    0 <= k < self.verified@.len() ==> (#[trigger] self.verified@[k]).0 > v.0,
            },
    {
        let n = self.verified.len();
        let mut best: Option<VersionNumber> = None;
        let mut i: usize = 0;
        while i < n
            invariant
                self.wf(),
                n == self.verified@.len(),
                0 <= i <= n,
                match best {
                    Some(p) => {
                        &&& p.0 <= v.0
                        &&& exists|k: int|
                            0 <= k < i && #[trigger] self.verified@[k] == p
                        &&& forall|k: int|
                            0 <= k < i && (#[trigger] self.verified@[k]).0 <= v.0
                                ==> self.verified@[k].0 <= p.0
                    },
                    None => forall|k: int|
                        0 <= k < i ==> (#[trigger] self.verified@[k]).0 > v.0,
                },
            decreases n - i,
        {
            let p = self.verified[i];
            if p.0 <= v.0 {
                proof {
                    assert(self.verified@[i as int] == p);
                }
                best = Some(p);
            }
            i += 1;
        }
        best
    }

    /// Whether the value is known verified at `v`.
    pub fn is_verified_at(&self, v: VersionNumber) -> (r: bool)
        requires
            self.wf(),
        ensures
            r <==> self.verified_at(v.0 as int),
    {
        match self.latest_verified_at_or_before(v) {
            None => {
                proof {
                    assert(!self.verified_at(v.0 as int));
                }
                false
            },
            Some(p) => {
                let r = match self.first_dirty_after(p) {
                    None => true,
                    Some(d) => d.0 > v.0,
                };
                proof {
                    if r {
                        let k = choose|k: int|
                            0 <= k < self.verified@.len() && #[trigger] self.verified@[k] == p;
                        assert(self.verified@[k].0 <= v.0 && !self.has_dirty_between(
                            self.verified@[k].0 as int,
                            v.0 as int,
                        ));
                    } else {
                        assert forall|k: int|
                            0 <= k < self.verified@.len() && (#[trigger] self.verified@[k]).0
                                <= v.0 implies self.has_dirty_between(
                            self.verified@[k].0 as int,
                            v.0 as int,
                        ) by {
                            let d = choose|l: int|
                                0 <= l < self.dirtied@.len() && (
                                #[trigger] self.dirtied@[l]).version.0 > p.0
                                    && self.dirtied@[l].version.0 <= v.0;
                        }
                    }
                }
                r
            },
        }
    }

    /// Whether a forced dirtying lies in `(lo, hi]`.
    pub fn has_force_dirty_in(&self, lo: VersionNumber, hi: VersionNumber) -> (r: bool)
        ensures
            r <==> self.has_force_dirty_between(lo.0 as int, hi.0 as int),
    {
        let n = self.dirtied.len();
        let mut i: usize = 0;
        while i < n
            invariant
                n == self.dirtied@.len(),
                0 <= i <= n,
                forall|k: int|
                    0 <= k < i ==> !(lo.0 < (#[trigger] self.dirtied@[k]).version.0 <= hi.0
                        && self.dirtied@[k].force),
            decreases n - i,
        {
            let d = self.dirtied[i];
            if lo.0 < d.version.0 && d.version.0 <= hi.0 && d.force {
                proof {
                    assert(lo.0 < (self.dirtied@[i as int]).version.0 <= hi.0
                        && self.dirtied@[i as int].force);
                }
                return true;
            }
            i += 1;
        }
        false
    }

    /// An identical copy of the history.
    pub fn dupe(&self) -> (r: CellHistory)
        ensures
            r.verified@ == self.verified@,
            r.dirtied@ == self.dirtied@,
    {
        let mut verified: Vec<VersionNumber> = Vec::new();
        let mut i: usize = 0;
        let n = self.verified.len();
        while i < n
            invariant
                n == self.verified@.len(),
                0 <= i <= n,
                verified@ == self.verified@.subrange(0, i as int),
            decreases n - i,
        {
            verified.push(self.verified[i]);
            proof {
                assert(verified@ =~= self.verified@.subrange(0, i + 1));
            }
            i += 1;
        }
        let mut dirtied: Vec<DirtyPoint> = Vec::new();
        let mut j: usize = 0;
        let m = self.dirtied.len();
        while j < m
            invariant
                m == self.dirtied@.len(),
                0 <= j <= m,
                dirtied@ == self.dirtied@.subrange(0, j as int),
            decreases m - j,
        {
            dirtied.push(self.dirtied[j]);
            proof {
                assert(dirtied@ =~= self.dirtied@.subrange(0, j + 1));
            }
            j += 1;
        }
        proof {
            assert(verified@ =~= self.verified@);
            assert(dirtied@ =~= self.dirtied@);
        }
        CellHistory { verified, dirtied }
    }

    /// A fresh history for a value computed at `v`, carrying over the
    /// prior entry's dirtied points: dirtyings after `v` still demand
    /// revalidation of the new value when those versions are reached, and
    /// dirtyings at or before `v` can never land after the sole verified
    /// point, so they change nothing.
    pub fn make_new_verified_history(v: VersionNumber, prior: Option<&CellHistory>) -> (r:
        CellHistory)
        requires
            match prior {
                Some(h) => h.wf(),
                None => true,
            },
        ensures
            r.wf(),
            forall|w: int|
                #[trigger] r.verified_at(w) <==> v.0 <= w && match prior {
                    Some(h) => !h.has_dirty_between(v.0 as int, w),
                    None => true,
                },
    {
        let dirtied: Vec<DirtyPoint> = match prior {
            Some(h) => h.dupe().dirtied,
            None => Vec::new(),
        };
        let mut verified: Vec<VersionNumber> = Vec::new();
        verified.push(v);
        let r = CellHistory { verified, dirtied };
        proof {
            assert(r.verified@ =~= seq![v]);
            match prior {
                Some(h) => {
                    assert(r.dirtied@ == h.dirtied@);
                    assert(forall|lo: int, hi: int|
                        #[trigger] r.has_dirty_between(lo, hi) == h.has_dirty_between(lo, hi));
                },
                None => {
                    assert(r.dirtied@ =~= Seq::<DirtyPoint>::empty());
                },
            }
            assert forall|w: int| #[trigger]
                r.verified_at(w) implies v.0 <= w && match prior {
                Some(h) => !h.has_dirty_between(v.0 as int, w),
                None => true,
            } by {
                assert(r.verified@[0] == v);
            }
            assert forall|w: int|
                v.0 <= w && match prior {
                    Some(h) => !h.has_dirty_between(v.0 as int, w),
                    None => true,
                } implies #[trigger] r.verified_at(w) by {
                assert(r.verified@[0].0 <= w && !r.has_dirty_between(r.verified@[0].0 as int, w));
            }
        }
        r
    }

    /// The verified versions, as ordered disjoint half-open ranges: each
    /// verified point opens a range that runs to the first dirtying after
    /// it, or without bound if there is none.
    pub fn get_verified_ranges(&self) -> (r: VersionRanges)
        requires
            self.wf(),
        ensures
            r.wf(),
            forall|w: int| #[trigger] r.contains(w) <==> self.verified_at(w),
    {
        let n = self.verified.len();
        let mut out: Vec<VersionRange> = Vec::new();
        let mut i: usize = 0;
        while i < n
            invariant
                self.wf(),
                n == self.verified@.len(),
                0 <= i <= n,
                ranges_wf(out@),
                forall|w: int|
                    #[trigger] seq_contains(out@, w) <==> self.verified_at_upto(i as int, w),
                out@.len() > 0 ==> exists|k: int|
                    0 <= k < i && (#[trigger] self.verified@[k])
                        == out@[out@.len() - 1].begin && is_first_dirty_after(
                        *self,
                        self.verified@[k].0 as int,
                        out@[out@.len() - 1].end,
                    ),
            decreases n - i,
        {
            let p = self.verified[i];
            let covered = if out.len() > 0 {
                let last = out[out.len() - 1];
                match last.end {
                    None => true,
                    Some(e) => p.0 < e.0,
                }
            } else {
                false
            };
            if covered {
                proof {
                    lemma_covered_point(*self, out@, i as int);
                }
            } else {
                let e = self.first_dirty_after(p);
                let piece = VersionRange { begin: p, end: e };
                let ghost before = out@;
                out.push(piece);
                proof {
                    assert(out@ == before.push(piece));
                    lemma_pushed_point(*self, before, piece, i as int);
                }
            }
            i += 1;
        }
        let r = VersionRanges::from_vec(out);
        r
    }
}

/// Whether `e` is the first dirtied version strictly after `p` (`None` when
/// nothing after `p` is dirtied).
pub open spec fn is_first_dirty_after(h: CellHistory, p: int, e: Option<VersionNumber>) -> bool {
    match e {
        Some(d) => {
            &&& d.0 > p
            &&& exists|k: int| 0 <= k < h.dirtied@.len() && (#[trigger] h.dirtied@[k]).version == d
            &&& forall|k: int|
                0 <= k < h.dirtied@.len() && (#[trigger] h.dirtied@[k]).version.0 > p
                    ==> h.dirtied@[k].version.0 >= d.0
        },
        None => forall|k: int|
            0 <= k < h.dirtied@.len() ==> (#[trigger] h.dirtied@[k]).version.0 <= p,
    }
}

proof fn lemma_dirty_update_equiv(
    prev: CellHistory,
    cur: CellHistory,
    v: VersionNumber,
    force: bool,
    i: int,
)
    requires
        prev.wf(),
        0 <= i < prev.dirtied@.len(),
        prev.dirtied@[i].version == v,
        cur.verified@ == prev.verified@,
        cur.dirtied@ == prev.dirtied@.update(
            i,
            DirtyPoint { version: v, force: force || prev.dirtied@[i].force },
        ),
    ensures
        cur.wf(),
        forall|lo: int, hi: int|
            #[trigger] cur.has_dirty_between(lo, hi) <==> prev.has_dirty_between(lo, hi) || (lo
                < v.0 <= hi),
        forall|lo: int, hi: int|
            #[trigger] cur.has_force_dirty_between(lo, hi) <==> prev.has_force_dirty_between(
                lo,
                hi,
            ) || (force && lo < v.0 <= hi),
{
    assert(forall|k: int|
        0 <= k < cur.dirtied@.len() ==> (#[trigger] cur.dirtied@[k]).version
            == prev.dirtied@[k].version);
    assert forall|lo: int, hi: int| #[trigger]
        cur.has_dirty_between(lo, hi) implies prev.has_dirty_between(lo, hi) || (lo < v.0
        <= hi) by {
        let k = choose|k: int|
            0 <= k < cur.dirtied@.len() && lo < (#[trigger] cur.dirtied@[k]).version.0 <= hi;
        assert(lo < prev.dirtied@[k].version.0 <= hi);
    }
    assert forall|lo: int, hi: int|
        prev.has_dirty_between(lo, hi) || (lo < v.0 <= hi) implies #[trigger] cur.has_dirty_between(
        lo,
        hi,
    ) by {
        if prev.has_dirty_between(lo, hi) {
            let k = choose|k: int|
                0 <= k < prev.dirtied@.len() && lo < (#[trigger] prev.dirtied@[k]).version.0 <= hi;
            assert(lo < cur.dirtied@[k].version.0 <= hi);
        } else {
            assert(lo < cur.dirtied@[i].version.0 <= hi);
        }
    }
    assert forall|lo: int, hi: int| #[trigger]
        cur.has_force_dirty_between(lo, hi) implies prev.has_force_dirty_between(lo, hi) || (force
        && lo < v.0 <= hi) by {
        let k = choose|k: int|
            0 <= k < cur.dirtied@.len() && lo < (#[trigger] cur.dirtied@[k]).version.0 <= hi
                && cur.dirtied@[k].force;
        if k != i {
            assert(lo < prev.dirtied@[k].version.0 <= hi && prev.dirtied@[k].force);
        } else {
            if !force {
                assert(prev.dirtied@[i].force);
                assert(lo < prev.dirtied@[i].version.0 <= hi && prev.dirtied@[i].force);
            }
        }
    }
    assert forall|lo: int, hi: int|
        prev.has_force_dirty_between(lo, hi) || (force && lo < v.0
            <= hi) implies #[trigger] cur.has_force_dirty_between(lo, hi) by {
        if prev.has_force_dirty_between(lo, hi) {
            let k = choose|k: int|
                0 <= k < prev.dirtied@.len() && lo < (#[trigger] prev.dirtied@[k]).version.0 <= hi
                    && prev.dirtied@[k].force;
            assert(lo < cur.dirtied@[k].version.0 <= hi && cur.dirtied@[k].force);
        } else {
            assert(lo < cur.dirtied@[i].version.0 <= hi && cur.dirtied@[i].force);
        }
    }
}

proof fn lemma_dirty_insert_equiv(
    prev: CellHistory,
    cur: CellHistory,
    v: VersionNumber,
    force: bool,
    i: int,
)
    requires
        prev.wf(),
        0 <= i <= prev.dirtied@.len(),
        cur.verified@ == prev.verified@,
        cur.dirtied@ == prev.dirtied@.insert(i, DirtyPoint { version: v, force }),
        forall|k: int| 0 <= k < prev.dirtied@.len() ==> (#[trigger] prev.dirtied@[k]).version.0 != v.0,
    ensures
        forall|lo: int, hi: int|
            #[trigger] cur.has_dirty_between(lo, hi) <==> prev.has_dirty_between(lo, hi) || (lo
                < v.0 <= hi),
        forall|lo: int, hi: int|
            #[trigger] cur.has_force_dirty_between(lo, hi) <==> prev.has_force_dirty_between(
                lo,
                hi,
            ) || (force && lo < v.0 <= hi),
{
    assert(forall|k: int| 0 <= k < i ==> cur.dirtied@[k] == prev.dirtied@[k]);
    assert(cur.dirtied@[i] == DirtyPoint { version: v, force });
    assert(forall|k: int| i < k < cur.dirtied@.len() ==> cur.dirtied@[k] == prev.dirtied@[k - 1]);
    assert forall|lo: int, hi: int| #[trigger]
        cur.has_dirty_between(lo, hi) implies prev.has_dirty_between(lo, hi) || (lo < v.0
        <= hi) by {
        let k = choose|k: int|
            0 <= k < cur.dirtied@.len() && lo < (#[trigger] cur.dirtied@[k]).version.0 <= hi;
        if k < i {
            assert(lo < prev.dirtied@[k].version.0 <= hi);
        } else if k > i {
            assert(lo < prev.dirtied@[k - 1].version.0 <= hi);
        }
    }
    assert forall|lo: int, hi: int|
        prev.has_dirty_between(lo, hi) || (lo < v.0 <= hi) implies #[trigger] cur.has_dirty_between(
        lo,
        hi,
    ) by {
        if prev.has_dirty_between(lo, hi) {
            let k = choose|k: int|
                0 <= k < prev.dirtied@.len() && lo < (#[trigger] prev.dirtied@[k]).version.0 <= hi;
            if k < i {
                assert(lo < cur.dirtied@[k].version.0 <= hi);
            } else {
                assert(lo < cur.dirtied@[k + 1].version.0 <= hi);
            }
        } else {
            assert(lo < cur.dirtied@[i].version.0 <= hi);
        }
    }
    assert forall|lo: int, hi: int| #[trigger]
        cur.has_force_dirty_between(lo, hi) implies prev.has_force_dirty_between(lo, hi) || (force
        && lo < v.0 <= hi) by {
        let k = choose|k: int|
            0 <= k < cur.dirtied@.len() && lo < (#[trigger] cur.dirtied@[k]).version.0 <= hi
                && cur.dirtied@[k].force;
        if k < i {
            assert(lo < prev.dirtied@[k].version.0 <= hi && prev.dirtied@[k].force);
        } else if k > i {
            assert(lo < prev.dirtied@[k - 1].version.0 <= hi && prev.dirtied@[k - 1].force);
        }
    }
    assert forall|lo: int, hi: int|
        prev.has_force_dirty_between(lo, hi) || (force && lo < v.0
            <= hi) implies #[trigger] cur.has_force_dirty_between(lo, hi) by {
        if prev.has_force_dirty_between(lo, hi) {
            let k = choose|k: int|
                0 <= k < prev.dirtied@.len() && lo < (#[trigger] prev.dirtied@[k]).version.0 <= hi
                    && prev.dirtied@[k].force;
            if k < i {
                assert(lo < cur.dirtied@[k].version.0 <= hi && cur.dirtied@[k].force);
            } else {
                assert(lo < cur.dirtied@[k + 1].version.0 <= hi && cur.dirtied@[k + 1].force);
            }
        } else {
            assert(lo < cur.dirtied@[i].version.0 <= hi && cur.dirtied@[i].force);
        }
    }
}

proof fn lemma_covered_point(h: CellHistory, out: Seq<VersionRange>, i: int)
    requires
        h.wf(),
        0 <= i < h.verified@.len(),
        ranges_wf(out),
        out.len() > 0,
        forall|w: int| #[trigger] seq_contains(out, w) <==> h.verified_at_upto(i, w),
        exists|k: int|
            0 <= k < i && (#[trigger] h.verified@[k]) == out[out.len() - 1].begin
                && is_first_dirty_after(h, h.verified@[k].0 as int, out[out.len() - 1].end),
        match out[out.len() - 1].end {
            None => true,
            Some(e) => h.verified@[i].0 < e.0,
        },
    ensures
        forall|w: int| #[trigger] seq_contains(out, w) <==> h.verified_at_upto(i + 1, w),
{
    let last = out[out.len() - 1];
    let k = choose|k: int|
        0 <= k < i && (#[trigger] h.verified@[k]) == last.begin && is_first_dirty_after(
            h,
            h.verified@[k].0 as int,
            last.end,
        );
    let p = h.verified@[i];
    assert forall|w: int| h.verified_at_upto(i + 1, w) implies #[trigger] seq_contains(out, w) by {
        let m = choose|m: int|
            0 <= m < i + 1 && (#[trigger] h.verified@[m]).0 <= w && !h.has_dirty_between(
                h.verified@[m].0 as int,
                w,
            );
        if m < i {
            assert(h.verified_at_upto(i, w));
        } else {
            // the witness is the new point `p`; show the last range holds `w`
            assert(h.verified@[k].0 <= p.0);
            assert(last.begin.0 <= w);
            match last.end {
                None => {},
                Some(e) => {
                    if w >= e.0 {
                        // `e` is a dirtied point in `(p, w]`: contradiction
                        let l = choose|l: int|
                            0 <= l < h.dirtied@.len() && (#[trigger] h.dirtied@[l]).version == e;
                        assert(p.0 < e.0 <= w);
                        assert(h.has_dirty_between(p.0 as int, w));
                    }
                },
            }
            assert(last.contains(w));
            assert(seq_contains_trigger(out, out.len() - 1, w));
        }
    }
    assert forall|w: int| #[trigger] seq_contains(out, w) implies h.verified_at_upto(i + 1, w) by {
        assert(h.verified_at_upto(i, w));
        let m = choose|m: int|
            0 <= m < i && (#[trigger] h.verified@[m]).0 <= w && !h.has_dirty_between(
                h.verified@[m].0 as int,
                w,
            );
        assert(0 <= m < i + 1 && h.verified@[m].0 <= w && !h.has_dirty_between(
            h.verified@[m].0 as int,
            w,
        ));
    }
}

/// Helper: membership of `w` in `s[k]` stated so the quantifier in
/// `seq_contains` finds its witness.
pub open spec fn seq_contains_trigger(s: Seq<VersionRange>, k: int, w: int) -> bool {
    0 <= k < s.len() && s[k].contains(w)
}

proof fn lemma_pushed_point(h: CellHistory, before: Seq<VersionRange>, piece: VersionRange, i: int)
    requires
        h.wf(),
        0 <= i < h.verified@.len(),
        ranges_wf(before),
        piece.begin == h.verified@[i],
        is_first_dirty_after(h, h.verified@[i].0 as int, piece.end),
        forall|w: int| #[trigger] seq_contains(before, w) <==> h.verified_at_upto(i, w),
        before.len() > 0 ==> exists|k: int|
            0 <= k < i && (#[trigger] h.verified@[k]) == before[before.len() - 1].begin
                && is_first_dirty_after(h, h.verified@[k].0 as int, before[before.len() - 1].end),
        before.len() > 0 ==> match before[before.len() - 1].end {
            None => false,
            Some(e) => h.verified@[i].0 >= e.0,
        },
    ensures
        ranges_wf(before.push(piece)),
        forall|w: int|
            #[trigger] seq_contains(before.push(piece), w) <==> h.verified_at_upto(i + 1, w),
{
    let out = before.push(piece);
    let p = h.verified@[i];
    // piece is nonempty and begins at or after the previous end
    match piece.end {
        Some(e) => {
            assert(e.0 > p.0);
        },
        None => {},
    }
    assert(piece.wf());
    assert(forall|k: int| 0 <= k < before.len() ==> out[k] == before[k]);
    assert(out[out.len() - 1] == piece);
    assert(ranges_wf(out));
    // membership: piece holds w exactly when p <= w and nothing dirtied in (p, w]
    assert forall|w: int| #[trigger] piece.contains(w) implies p.0 <= w && !h.has_dirty_between(
        p.0 as int,
        w,
    ) by {
        if h.has_dirty_between(p.0 as int, w) {
            let l = choose|l: int|
                0 <= l < h.dirtied@.len() && p.0 < (#[trigger] h.dirtied@[l]).version.0 <= w;
            match piece.end {
                Some(e) => {
                    assert(h.dirtied@[l].version.0 >= e.0);
                },
                None => {
                    assert(h.dirtied@[l].version.0 <= p.0);
                },
            }
        }
    }
    assert forall|w: int|
        p.0 <= w && !h.has_dirty_between(p.0 as int, w) implies #[trigger] piece.contains(w) by {
        match piece.end {
            Some(e) => {
                if w >= e.0 {
                    let l = choose|l: int|
                        0 <= l < h.dirtied@.len() && (#[trigger] h.dirtied@[l]).version == e;
                    assert(p.0 < h.dirtied@[l].version.0 <= w);
                    assert(h.has_dirty_between(p.0 as int, w));
                }
            },
            None => {},
        }
    }
    assert forall|w: int| #[trigger] seq_contains(out, w) implies h.verified_at_upto(i + 1, w) by {
        let k = choose|k: int| 0 <= k < out.len() && #[trigger] out[k].contains(w);
        if k < before.len() {
            assert(seq_contains_trigger(before, k, w));
            assert(seq_contains(before, w));
            let m = choose|m: int|
                0 <= m < i && (#[trigger] h.verified@[m]).0 <= w && !h.has_dirty_between(
                    h.verified@[m].0 as int,
                    w,
                );
        } else {
            assert(piece.contains(w));
            assert(0 <= i < i + 1 && h.verified@[i].0 <= w && !h.has_dirty_between(
                h.verified@[i].0 as int,
                w,
            ));
        }
    }
    assert forall|w: int| h.verified_at_upto(i + 1, w) implies #[trigger] seq_contains(out, w) by {
        let m = choose|m: int|
            0 <= m < i + 1 && (#[trigger] h.verified@[m]).0 <= w && !h.has_dirty_between(
                h.verified@[m].0 as int,
                w,
            );
        if m < i {
            assert(h.verified_at_upto(i, w));
            assert(seq_contains(before, w));
            let k = choose|k: int| 0 <= k < before.len() && #[trigger] before[k].contains(w);
            assert(seq_contains_trigger(out, k, w));
        } else {
            assert(piece.contains(w));
            assert(seq_contains_trigger(out, out.len() - 1, w));
        }
    }
}

/// Histories recording the same points agree on every judgement.
pub proof fn lemma_history_same(a: CellHistory, b: CellHistory)
    requires
        a.verified@ == b.verified@,
        a.dirtied@ == b.dirtied@,
    ensures
        forall|w: int| #[trigger] a.verified_at(w) <==> b.verified_at(w),
        forall|lo: int, hi: int|
            #[trigger] a.has_dirty_between(lo, hi) <==> b.has_dirty_between(lo, hi),
        forall|lo: int, hi: int|
            #[trigger] a.has_force_dirty_between(lo, hi) <==> b.has_force_dirty_between(lo, hi),
        a.wf() <==> b.wf(),
{
    assert forall|lo: int, hi: int| #[trigger]
        a.has_dirty_between(lo, hi) == b.has_dirty_between(lo, hi) by {
        if a.has_dirty_between(lo, hi) {
            let k = choose|k: int|
                0 <= k < a.dirtied@.len() && lo < (#[trigger] a.dirtied@[k]).version.0 <= hi;
            assert(lo < b.dirtied@[k].version.0 <= hi);
        }
        if b.has_dirty_between(lo, hi) {
            let k = choose|k: int|
                0 <= k < b.dirtied@.len() && lo < (#[trigger] b.dirtied@[k]).version.0 <= hi;
            assert(lo < a.dirtied@[k].version.0 <= hi);
        }
    }
    assert forall|lo: int, hi: int| #[trigger]
        a.has_force_dirty_between(lo, hi) == b.has_force_dirty_between(lo, hi) by {
        if a.has_force_dirty_between(lo, hi) {
            let k = choose|k: int|
                0 <= k < a.dirtied@.len() && lo < (#[trigger] a.dirtied@[k]).version.0 <= hi
                    && a.dirtied@[k].force;
            assert(lo < b.dirtied@[k].version.0 <= hi && b.dirtied@[k].force);
        }
        if b.has_force_dirty_between(lo, hi) {
            let k = choose|k: int|
                0 <= k < b.dirtied@.len() && lo < (#[trigger] b.dirtied@[k]).version.0 <= hi
                    && b.dirtied@[k].force;
            assert(lo < a.dirtied@[k].version.0 <= hi && a.dirtied@[k].force);
        }
    }
    assert forall|w: int| #[trigger] a.verified_at(w) == b.verified_at(w) by {
        if a.verified_at(w) {
            let k = choose|k: int|
                0 <= k < a.verified@.len() && (#[trigger] a.verified@[k]).0 <= w
                    && !a.has_dirty_between(a.verified@[k].0 as int, w);
            assert(b.verified@[k].0 <= w && !b.has_dirty_between(b.verified@[k].0 as int, w));
        }
        if b.verified_at(w) {
            let k = choose|k: int|
                0 <= k < b.verified@.len() && (#[trigger] b.verified@[k]).0 <= w
                    && !b.has_dirty_between(b.verified@[k].0 as int, w);
            assert(a.verified@[k].0 <= w && !a.has_dirty_between(a.verified@[k].0 as int, w));
        }
    }
}

/// If a value is verified at `v1` and nothing was dirtied in `(v1, v2]`,
/// it is verified over the whole closed interval `[v1, v2]`: histories are
/// closed under extension to later untouched versions.
pub proof fn lemma_history_extension(h: CellHistory, v1: int, v2: int)
    requires
        h.wf(),
        h.verified_at(v1),
        v1 <= v2,
        !h.has_dirty_between(v1, v2),
    ensures
        h.verified_at(v2),
{
    let k = choose|k: int|
        0 <= k < h.verified@.len() && (#[trigger] h.verified@[k]).0 <= v1 && !h.has_dirty_between(
            h.verified@[k].0 as int,
            v1,
        );
    if h.has_dirty_between(h.verified@[k].0 as int, v2) {
        let l = choose|l: int|
            0 <= l < h.dirtied@.len() && h.verified@[k].0 < (#[trigger] h.dirtied@[l]).version.0
                <= v2;
        if h.dirtied@[l].version.0 <= v1 {
            assert(h.has_dirty_between(h.verified@[k].0 as int, v1));
        } else {
            assert(h.has_dirty_between(v1, v2));
        }
    }
    assert(h.verified@[k].0 <= v2 && !h.has_dirty_between(h.verified@[k].0 as int, v2));
}

} // verus!
