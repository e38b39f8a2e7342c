//! Keys: user keys, their dense interned ids, and the intern table.

use vstd::prelude::*;

verus! {

/// A dense interned id for a user key: compact to store in dependency
/// lists and cheap to compare.
#[derive(Clone, Copy, PartialEq, Eq, Structural, Debug)]
pub struct DiceKey {
    pub index: u32,
}

/// The key whose evaluation requested a computation, or the root request.
#[derive(Clone, Copy, PartialEq, Eq, Structural, Debug)]
pub enum ParentKey {
    Root,
    Of(DiceKey),
}

/// A user key: a `kind` stands for the key's type, a `payload` for its
/// value within that type. Cross-kind keys never compare equal.
#[derive(Clone, Copy, PartialEq, Eq, Structural, Debug)]
pub struct UserKey {
    pub kind: u64,
    pub payload: u64,
}

/// Interns heterogeneous user keys into dense ids: the first intern of a
/// key assigns the next free index, later interns return the same index.
#[derive(Debug)]
pub struct DiceKeyIndex {
    pub keys: Vec<UserKey>,
}

impl DiceKeyIndex {
    /// No user key is stored twice.
    pub open spec fn wf(self) -> bool {
        forall|k: int, l: int|
            0 <= k < l < self.keys@.len() ==> #[trigger] self.keys@[k] != #[trigger] self.keys@[l]
    }

    /// Whether `id` is an id this table has assigned.
    pub open spec fn valid_key(self, id: DiceKey) -> bool {
        id.index < self.keys@.len()
    }

    pub fn new() -> (r: DiceKeyIndex)
        ensures
            r.wf(),
            r.keys@.len() == 0,
    {
        DiceKeyIndex { keys: Vec::new() }
    }

    /// The number of keys interned so far.
    pub fn key_count(&self) -> (r: usize)
        ensures
            r == self.keys@.len(),
    {
        self.keys.len()
    }

    /// Interns `key`: returns its existing id if it was seen before, else
    /// assigns the next free index.
    pub fn index(&mut self, key: UserKey) -> (r: DiceKey)
        requires
            old(self).wf(),
            old(self).keys@.len() < u32::MAX,
        ensures
            final(self).wf(),
            final(self).valid_key(r),
            final(self).keys@[r.index as int] == key,
            old(self).keys@.contains(key) ==> final(self).keys@ == old(self).keys@,
            !old(self).keys@.contains(key) ==> final(self).keys@ == old(self).keys@.push(key)
                && r.index == old(self).keys@.len(),
    {
        let n = self.keys.len();
        let mut i: usize = 0;
        while i < n
            invariant
                self.keys@ == old(self).keys@,
                self.wf(),
                n == self.keys@.len(),
                n < u32::MAX,
                0 <= i <= n,
                forall|k: int| 0 <= k < i ==> #[trigger] self.keys@[k] != key,
            decreases n - i,
        {
            if self.keys[i].kind == key.kind && self.keys[i].payload == key.payload {
                proof {
                    assert(self.keys@[i as int] == key);
                    assert(self.keys@.contains(key));
                }
                return DiceKey { index: i as u32 };
            }
            i += 1;
        }
        proof {
            assert(forall|k: int| 0 <= k < n ==> #[trigger] self.keys@[k] != key);
            if self.keys@.contains(key) {
                let k = choose|k: int| 0 <= k < self.keys@.len() && self.keys@[k] == key;
            }
        }
        self.keys.push(key);
        proof {
            assert(final(self).wf());
        }
        DiceKey { index: n as u32 }
    }

    /// The user key an id stands for.
    pub fn get(&self, id: DiceKey) -> (r: UserKey)
        requires
            self.valid_key(id),
        ensures
            r == self.keys@[id.index as int],
    {
        self.keys[id.index as usize]
    }
}

/// An identical copy of a dependency list.
pub fn copy_keys(xs: &Vec<DiceKey>) -> (r: Vec<DiceKey>)
    ensures
        r@ == xs@,
{
    let n = xs.len();
    let mut r: Vec<DiceKey> = Vec::new();
    let mut i: usize = 0;
    while i < n
        invariant
            n == xs@.len(),
            0 <= i <= n,
            r@ == xs@.subrange(0, i as int),
        decreases n - i,
    {
        r.push(xs[i]);
        proof {
            assert(r@ =~= xs@.subrange(0, i + 1));
        }
        i += 1;
    }
    proof {
        assert(r@ =~= xs@);
    }
    r
}

} // verus!
