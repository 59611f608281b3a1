use crate::block::BlockId;
use vstd::prelude::*;

verus! {

/// A small map keyed by blocks: an association list with distinct keys.
pub struct BlockMap<V> {
    entries: Vec<(BlockId, V)>,
    contents: Ghost<Map<(Seq<char>, u64), V>>,
}

impl<V: Copy> View for BlockMap<V> {
    type V = Map<(Seq<char>, u64), V>;

    closed spec fn view(&self) -> Map<(Seq<char>, u64), V> {
        self.contents@
    }
}

impl<V: Copy> BlockMap<V> {
    /// The keys in the order in which they are stored.
    pub closed spec fn keys(&self) -> Seq<(Seq<char>, u64)> {
        self.entries@.map_values(|e: (BlockId, V)| e.0@)
    }

    pub closed spec fn wf(&self) -> bool {
        &&& forall|i: int|
            0 <= i < self.entries@.len() ==> #[trigger] self.contents@.contains_key(self.entries@[i].0@)
                && self.contents@[self.entries@[i].0@] == self.entries@[i].1
        &&& forall|k: (Seq<char>, u64)|
            #[trigger] self.contents@.contains_key(k) ==> exists|i: int|
                0 <= i < self.entries@.len() && #[trigger] self.entries@[i].0@ == k
        &&& forall|i: int, j: int|
            0 <= i < self.entries@.len() && 0 <= j < self.entries@.len() && i != j
                ==> #[trigger] self.entries@[i].0@ != #[trigger] self.entries@[j].0@
    }

    /// The stored keys are exactly the map's keys, each once.
    pub proof fn lemma_keys(&self)
        requires
            self.wf(),
        ensures
            self.keys().no_duplicates(),
            forall|k| self@.contains_key(k) <==> self.keys().contains(k),
    {
        assert forall|k| self@.contains_key(k) implies self.keys().contains(k) by {
            let i = choose|i: int| 0 <= i < self.entries@.len() && #[trigger] self.entries@[i].0@ == k;
            assert(self.keys()[i] == k);
        }
    }

    pub fn new() -> (r: BlockMap<V>)
        ensures
            r.wf(),
            r@ == Map::<(Seq<char>, u64), V>::empty(),
    {
        BlockMap { entries: Vec::new(), contents: Ghost(Map::empty()) }
    }

    pub fn len(&self) -> (r: usize)
        requires
            self.wf(),
        ensures
            r == self.keys().len(),
    {
        self.entries.len()
    }

    /// The key stored at position `i`.
    pub fn key_at(&self, i: usize) -> (r: &BlockId)
        requires
            self.wf(),
            i < self.keys().len(),
        ensures
            r@ == self.keys()[i as int],
    {
        &self.entries[i].0
    }

    fn find(&self, blk: &BlockId) -> (r: Option<usize>)
        requires
            self.wf(),
        ensures
            r is Some ==> r->Some_0 < self.entries@.len() && self.entries@[r->Some_0 as int].0@ == blk@,
            r is None ==> !self@.contains_key(blk@),
    {
        let mut i: usize = 0;
        while i < self.entries.len()
            invariant
                self.wf(),
                i <= self.entries@.len(),
                forall|j: int| 0 <= j < i ==> self.entries@[j].0@ != blk@,
            decreases self.entries@.len() - i,
        {
            if self.entries[i].0 == *blk {
                return Some(i);
            }
            i += 1;
        }
        None
    }

    pub fn get(&self, blk: &BlockId) -> (r: Option<V>)
        requires
            self.wf(),
        ensures
            r == self@.get(blk@),
    {
        match self.find(blk) {
            Some(i) => Some(self.entries[i].1),
            None => None,
        }
    }

    pub fn insert(&mut self, blk: BlockId, v: V)
        requires
            old(self).wf(),
        ensures
            final(self).wf(),
            final(self)@ == old(self)@.insert(blk@, v),
            old(self)@.contains_key(blk@) ==> final(self).keys() == old(self).keys(),
            !old(self)@.contains_key(blk@) ==> final(self).keys() == old(self).keys().push(blk@),
    {
        let ghost k = blk@;
        match self.find(&blk) {
            Some(i) => {
                self.entries.set(i, (blk, v));
                self.contents = Ghost(self.contents@.insert(k, v));
                assert forall|k2| #[trigger] self.contents@.contains_key(k2) implies exists|j: int|
                    0 <= j < self.entries@.len() && #[trigger] self.entries@[j].0@ == k2 by {
                    if k2 != k {
                        assert(old(self).contents@.contains_key(k2));
                        let j = choose|j: int|
                            0 <= j < old(self).entries@.len() && #[trigger] old(self).entries@[j].0@ == k2;
                        assert(self.entries@[j].0@ == k2);
                    } else {
                        assert(self.entries@[i as int].0@ == k2);
                    }
                }
                assert forall|a: int| 0 <= a < self.entries@.len() implies #[trigger] self.contents@.contains_key(
                    self.entries@[a].0@,
                ) && self.contents@[self.entries@[a].0@] == self.entries@[a].1 by {
                    if a != i {
                        assert(old(self).entries@[a] == self.entries@[a]);
                        assert(old(self).entries@[a].0@ != k);
                    }
                }
                assert forall|a: int, b: int|
                    0 <= a < self.entries@.len() && 0 <= b < self.entries@.len() && a != b
                        implies #[trigger] self.entries@[a].0@ != #[trigger] self.entries@[b].0@ by {
                    assert(self.entries@[a].0@ == old(self).entries@[a].0@);
                    assert(self.entries@[b].0@ == old(self).entries@[b].0@);
                }
                assert(self.keys() =~= old(self).keys());
            },
            None => {
                self.entries.push((blk, v));
                self.contents = Ghost(self.contents@.insert(k, v));
                let ghost n = self.entries@.len() - 1;
                assert forall|k2| #[trigger] self.contents@.contains_key(k2) implies exists|j: int|
                    0 <= j < self.entries@.len() && #[trigger] self.entries@[j].0@ == k2 by {
                    if k2 != k {
                        assert(old(self).contents@.contains_key(k2));
                        let j = choose|j: int|
                            0 <= j < old(self).entries@.len() && #[trigger] old(self).entries@[j].0@ == k2;
                        assert(self.entries@[j].0@ == k2);
                    } else {
                        assert(self.entries@[n].0@ == k2);
                    }
                }
                assert forall|i: int| 0 <= i < self.entries@.len() implies #[trigger] self.contents@.contains_key(
                    self.entries@[i].0@,
                ) && self.contents@[self.entries@[i].0@] == self.entries@[i].1 by {
                    if i < n {
                        assert(old(self).entries@[i] == self.entries@[i]);
                    }
                }
                assert forall|a: int, b: int|
                    0 <= a < self.entries@.len() && 0 <= b < self.entries@.len() && a != b
                        implies #[trigger] self.entries@[a].0@ != #[trigger] self.entries@[b].0@ by {
                    if a < n && b < n {
                        assert(self.entries@[a] == old(self).entries@[a]);
                        assert(self.entries@[b] == old(self).entries@[b]);
                    } else if a < n {
                        assert(self.entries@[a] == old(self).entries@[a]);
                        assert(old(self).contents@.contains_key(old(self).entries@[a].0@));
                    } else {
                        assert(self.entries@[b] == old(self).entries@[b]);
                        assert(old(self).contents@.contains_key(old(self).entries@[b].0@));
                    }
                }
                assert(self.keys() =~= old(self).keys().push(k));
            },
        }
    }

    pub fn remove(&mut self, blk: &BlockId)
        requires
            old(self).wf(),
        ensures
            final(self).wf(),
            final(self)@ == old(self)@.remove(blk@),
    {
        let ghost k = blk@;
        match self.find(blk) {
            Some(i) => {
                let ghost last = self.entries@.len() - 1;
                self.entries.swap_remove(i);
                self.contents = Ghost(self.contents@.remove(k));
                assert forall|k2| #[trigger] self.contents@.contains_key(k2) implies exists|j: int|
                    0 <= j < self.entries@.len() && #[trigger] self.entries@[j].0@ == k2 by {
                    assert(old(self).contents@.contains_key(k2));
                    let j = choose|j: int|
                        0 <= j < old(self).entries@.len() && #[trigger] old(self).entries@[j].0@ == k2;
                    if j == last {
                        assert(self.entries@[i as int].0@ == k2);
                    } else {
                        assert(self.entries@[j].0@ == k2);
                    }
                }
                assert forall|a: int| 0 <= a < self.entries@.len() implies #[trigger] self.contents@.contains_key(
                    self.entries@[a].0@,
                ) && self.contents@[self.entries@[a].0@] == self.entries@[a].1 by {
                    if a == i {
                        assert(self.entries@[a] == old(self).entries@[last]);
                    } else {
                        assert(self.entries@[a] == old(self).entries@[a]);
                    }
                }
                assert forall|a: int, b: int|
                    0 <= a < self.entries@.len() && 0 <= b < self.entries@.len() && a != b
                        implies #[trigger] self.entries@[a].0@ != #[trigger] self.entries@[b].0@ by {
                    let oa = if a == i { last } else { a };
                    let ob = if b == i { last } else { b };
                    assert(self.entries@[a] == old(self).entries@[oa]);
                    assert(self.entries@[b] == old(self).entries@[ob]);
                }
            },
            None => {
                assert(self.contents@ =~= old(self).contents@.remove(k));
            },
        }
    }

    pub fn clear(&mut self)
        ensures
            final(self).wf(),
            final(self)@ == Map::<(Seq<char>, u64), V>::empty(),
    {
        self.entries.clear();
        self.contents = Ghost(Map::empty());
    }
}

} // verus!
