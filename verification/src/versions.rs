//! Versions and sets of version ranges.
//!
//! A version is a monotone counter standing for an externally visible state
//! of the world. A `VersionRanges` is an ordered set of disjoint, half-open
//! ranges of versions; histories report the versions at which a value is
//! known verified as such a set, and dependency revalidation intersects
//! them.

use vstd::prelude::*;

verus! {

/// A version of the world: bumped on any externally visible input change.
#[derive(Clone, Copy, PartialEq, Eq, Structural, Debug)]
pub struct VersionNumber(pub u64);

impl VersionNumber {
    pub fn new(v: u64) -> (r: VersionNumber)
        ensures
            r.0 == v,
    {
        VersionNumber(v)
    }
}

/// Distinguishes two openings of the same version after a reset: a commit
/// carrying a stale epoch is dropped, because its task was cancelled.
#[derive(Clone, Copy, PartialEq, Eq, Structural, Debug)]
pub struct VersionEpoch(pub u64);

impl VersionEpoch {
    pub fn new(e: u64) -> (r: VersionEpoch)
        ensures
            r.0 == e,
    {
        VersionEpoch(e)
    }
}

/// A half-open range of versions `[begin, end)`; `end == None` means the
/// range extends without bound.
#[derive(Clone, Copy, PartialEq, Eq, Structural, Debug)]
pub struct VersionRange {
    pub begin: VersionNumber,
    pub end: Option<VersionNumber>,
}

impl VersionRange {
    /// Whether version `v` lies in this range.
    pub open spec fn contains(self, v: int) -> bool {
        self.begin.0 <= v && match self.end {
            Some(e) => v < e.0,
            None => true,
        }
    }

    /// A stored range is never empty.
    pub open spec fn wf(self) -> bool {
        match self.end {
            Some(e) => self.begin.0 < e.0,
            None => true,
        }
    }
}

/// Whether some range among the first `n` of `s` contains `v`.
pub open spec fn seq_contains_upto(s: Seq<VersionRange>, n: int, v: int) -> bool {
    exists|k: int| 0 <= k < n && #[trigger] s[k].contains(v)
}

/// Whether some range of `s` contains `v`.
pub open spec fn seq_contains(s: Seq<VersionRange>, v: int) -> bool {
    seq_contains_upto(s, s.len() as int, v)
}

/// The ranges are each nonempty, ordered, and disjoint; only the last may
/// be unbounded.
pub open spec fn ranges_wf(s: Seq<VersionRange>) -> bool {
    &&& forall|k: int| 0 <= k < s.len() ==> (#[trigger] s[k]).wf()
    &&& forall|k: int|
        0 <= k < s.len() - 1 ==> (#[trigger] s[k]).end is Some && s[k].end.unwrap().0
            <= s[k + 1].begin.0
}

/// An ordered set of disjoint, half-open version ranges.
#[derive(Debug)]
pub struct VersionRanges {
    pub ranges: Vec<VersionRange>,
}

impl VersionRanges {
    /// The ranges as a sequence, for specifications.
    pub open spec fn seq(self) -> Seq<VersionRange> {
        self.ranges@
    }

    pub open spec fn wf(self) -> bool {
        ranges_wf(self.ranges@)
    }

    /// Whether version `v` belongs to the set.
    pub open spec fn contains(self, v: int) -> bool {
        seq_contains(self.ranges@, v)
    }

    /// The empty set of versions.
    pub fn new() -> (r: VersionRanges)
        ensures
            r.wf(),
            forall|v: int| !r.contains(v),
    {
        VersionRanges { ranges: Vec::new() }
    }

    /// Wraps an already ordered vector of ranges.
    pub fn from_vec(ranges: Vec<VersionRange>) -> (r: VersionRanges)
        requires
            ranges_wf(ranges@),
        ensures
            r.wf(),
            r.seq() == ranges@,
    {
        VersionRanges { ranges }
    }

    /// Whether the set holds no version at all.
    pub fn is_empty(&self) -> (r: bool)
        requires
            self.wf(),
        ensures
            r <==> forall|v: int| !self.contains(v),
    {
        let r = self.ranges.len() == 0;
        proof {
            if !r {
                let w = self.ranges@[0].begin.0 as int;
                assert(self.ranges@[0].contains(w));
                assert(self.contains(w));
            }
        }
        r
    }

    /// Whether version `v` belongs to the set.
    pub fn contains_version(&self, v: VersionNumber) -> (r: bool)
        ensures
            r <==> self.contains(v.0 as int),
    {
        let n = self.ranges.len();
        let mut i: usize = 0;
        while i < n
            invariant
                n == self.ranges@.len(),
                0 <= i <= n,
                !seq_contains_upto(self.ranges@, i as int, v.0 as int),
            decreases n - i,
        {
            let rg = self.ranges[i];
            let hit = rg.begin.0 <= v.0 && match rg.end {
                Some(e) => v.0 < e.0,
                None => true,
            };
            if hit {
                assert(self.ranges@[i as int].contains(v.0 as int));
                return true;
            }
            proof {
                assert(forall|k: int|
                    0 <= k < i + 1 && #[trigger] self.ranges@[k].contains(v.0 as int) ==> k
                        == i);
            }
            i += 1;
        }
        false
    }

    /// An identical copy of the set.
    pub fn dupe(&self) -> (r: VersionRanges)
        ensures
            r.seq() == self.seq(),
            r.wf() <==> self.wf(),
            forall|v: int| #[trigger] r.contains(v) <==> self.contains(v),
    {
        let n = self.ranges.len();
        let mut out: Vec<VersionRange> = Vec::new();
        let mut i: usize = 0;
        while i < n
            invariant
                n == self.ranges@.len(),
                0 <= i <= n,
                out@ == self.ranges@.subrange(0, i as int),
            decreases n - i,
        {
            out.push(self.ranges[i]);
            proof {
                assert(out@ =~= self.ranges@.subrange(0, i + 1));
            }
            i += 1;
        }
        proof {
            assert(out@ =~= self.ranges@);
        }
        VersionRanges { ranges: out }
    }

    /// The set of versions in both `self` and `other`.
    pub fn intersect(&self, other: &VersionRanges) -> (r: VersionRanges)
        requires
            self.wf(),
            other.wf(),
        ensures
            r.wf(),
            forall|v: int| #[trigger] r.contains(v) <==> self.contains(v) && other.contains(v),
    {
        let a_len = self.ranges.len();
        let b_len = other.ranges.len();
        let mut out: Vec<VersionRange> = Vec::new();
        let mut i: usize = 0;
        while i < a_len
            invariant
                self.wf(),
                other.wf(),
                a_len == self.ranges@.len(),
                b_len == other.ranges@.len(),
                0 <= i <= a_len,
                ranges_wf(out@),
                forall|k: int|
                    0 <= k < out@.len() && (#[trigger] out@[k]).end is None ==> i == a_len,
                i < a_len ==> forall|k: int|
                    0 <= k < out@.len() ==> (#[trigger] out@[k]).end.unwrap().0
                        <= self.ranges@[i as int].begin.0,
                forall|v: int|
                    #[trigger] seq_contains(out@, v) <==> seq_contains_upto(
                        self.ranges@,
                        i as int,
                        v,
                    ) && seq_contains(other.ranges@, v),
            decreases a_len - i,
        {
            let a = self.ranges[i];
            let mut j: usize = 0;
            while j < b_len
                invariant
                    self.wf(),
                    other.wf(),
                    a_len == self.ranges@.len(),
                    b_len == other.ranges@.len(),
                    0 <= i < a_len,
                    0 <= j <= b_len,
                    a == self.ranges@[i as int],
                    ranges_wf(out@),
                    forall|k: int|
                        0 <= k < out@.len() && (#[trigger] out@[k]).end is None ==> a.end is None
                            && j == b_len,
                    j < b_len ==> forall|k: int|
                        0 <= k < out@.len() ==> (#[trigger] out@[k]).end.unwrap().0 <= (
                        if a.begin.0 >= other.ranges@[j as int].begin.0 {
                            a.begin.0
                        } else {
                            other.ranges@[j as int].begin.0
                        }),
                    a.end is Some ==> forall|k: int|
                        0 <= k < out@.len() ==> (#[trigger] out@[k]).end.unwrap().0
                            <= a.end.unwrap().0,
                    forall|v: int|
                        #[trigger] seq_contains(out@, v) <==> (seq_contains_upto(
                            self.ranges@,
                            i as int,
                            v,
                        ) && seq_contains(other.ranges@, v)) || (a.contains(v)
                            && seq_contains_upto(other.ranges@, j as int, v)),
                decreases b_len - j,
            {
                let b = other.ranges[j];
                let begin = if a.begin.0 >= b.begin.0 {
                    a.begin
                } else {
                    b.begin
                };
                let end: Option<VersionNumber> = match (a.end, b.end) {
                    (Some(ae), Some(be)) => if ae.0 <= be.0 {
                        Some(ae)
                    } else {
                        Some(be)
                    },
                    (Some(ae), None) => Some(ae),
                    (None, Some(be)) => Some(be),
                    (None, None) => None,
                };
                let nonempty = match end {
                    Some(e) => begin.0 < e.0,
                    None => true,
                };
                let piece = VersionRange { begin, end };
                proof {
                    assert(forall|v: int| piece.contains(v) <==> a.contains(v) && b.contains(v));
                }
                if nonempty {
                    let ghost old_out = out@;
                    out.push(piece);
                    proof {
                        assert(out@ == old_out.push(piece));
                        assert(forall|v: int|
                            #[trigger] seq_contains(out@, v) <==> seq_contains(old_out, v)
                                || piece.contains(v)) by {
                            assert forall|v: int| seq_contains(old_out, v) || piece.contains(v)
                                implies #[trigger] seq_contains(out@, v) by {
                                if piece.contains(v) {
                                    assert(out@[out@.len() - 1].contains(v));
                                } else {
                                    let k = choose|k: int|
                                        0 <= k < old_out.len() && #[trigger] old_out[k].contains(
                                            v,
                                        );
                                    assert(out@[k].contains(v));
                                }
                            }
                            assert forall|v: int| #[trigger] seq_contains(out@, v)
                                implies seq_contains(old_out, v) || piece.contains(v) by {
                                let k = choose|k: int|
                                    0 <= k < out@.len() && #[trigger] out@[k].contains(v);
                                if k < old_out.len() {
                                    assert(old_out[k].contains(v));
                                }
                            }
                        }
                        assert(forall|v: int|
                            #[trigger] b.contains(v) ==> seq_contains_upto(
                                other.ranges@,
                                j + 1,
                                v,
                            ));
                    }
                } else {
                    proof {
                        assert(forall|v: int| !(a.contains(v) && b.contains(v)));
                    }
                }
                proof {
                    assert(forall|v: int|
                        seq_contains_upto(other.ranges@, j + 1, v) <==> seq_contains_upto(
                            other.ranges@,
                            j as int,
                            v,
                        ) || other.ranges@[j as int].contains(v)) by {
                        assert(forall|v: int, k: int|
                            0 <= k < j + 1 && #[trigger] other.ranges@[k].contains(v) ==> k < j
                                || k == j);
                    }
                }
                j += 1;
            }
            proof {
                assert(forall|v: int|
                    seq_contains_upto(other.ranges@, b_len as int, v) == seq_contains(
                        other.ranges@,
                        v,
                    ));
                assert(forall|v: int|
                    seq_contains_upto(self.ranges@, i + 1, v) <==> seq_contains_upto(
                        self.ranges@,
                        i as int,
                        v,
                    ) || self.ranges@[i as int].contains(v)) by {
                    assert(forall|v: int, k: int|
                        0 <= k < i + 1 && #[trigger] self.ranges@[k].contains(v) ==> k < i || k
                            == i);
                }
            }
            i += 1;
        }
        let r = VersionRanges { ranges: out };
        proof {
            assert(forall|v: int|
                seq_contains_upto(self.ranges@, a_len as int, v) == seq_contains(
                    self.ranges@,
                    v,
                ));
        }
        r
    }
}

} // verus!
