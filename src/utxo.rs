use crate::sha256;
use crate::types::TransactionOutput;
use vstd::prelude::*;

verus! {

/// The unspent outputs, each under the digest that identifies it. Keys are
/// kept unique and in the order they were first inserted.
pub struct UtxoSet {
    keys: Vec<sha256::Hash>,
    outputs: Vec<TransactionOutput>,
    contents: Ghost<Map<sha256::Hash, TransactionOutput>>,
}

impl View for UtxoSet {
    type V = Map<sha256::Hash, TransactionOutput>;

    closed spec fn view(&self) -> Map<sha256::Hash, TransactionOutput> {
        self.contents@
    }
}

impl UtxoSet {
    /// The keys are unique, and the two vectors hold exactly the map.
    pub closed spec fn wf(&self) -> bool {
        &&& self.keys@.len() == self.outputs@.len()
        &&& self.keys@.no_duplicates()
        &&& forall|i: int|
            0 <= i < self.keys@.len() ==> #[trigger] self.contents@.contains_key(self.keys@[i])
                && self.contents@[self.keys@[i]] == self.outputs@[i]
        &&& forall|k: sha256::Hash| #[trigger]
            self.contents@.contains_key(k) ==> self.keys@.contains(k)
    }

    pub fn new() -> (r: UtxoSet)
        ensures
            r.wf(),
            r@ == Map::<sha256::Hash, TransactionOutput>::empty(),
    {
        UtxoSet { keys: Vec::new(), outputs: Vec::new(), contents: Ghost(Map::empty()) }
    }

    /// A second set with the same entries.
    pub fn copy(&self) -> (r: UtxoSet)
        requires
            self.wf(),
        ensures
            r.wf(),
            r@ == self@,
    {
        let mut keys: Vec<sha256::Hash> = Vec::new();
        let mut outputs: Vec<TransactionOutput> = Vec::new();
        let mut i: usize = 0;
        while i < self.keys.len()
            invariant
                self.wf(),
                i <= self.keys@.len(),
                keys@ == self.keys@.subrange(0, i as int),
                outputs@ == self.outputs@.subrange(0, i as int),
            decreases self.keys@.len() - i,
        {
            keys.push(self.keys[i]);
            outputs.push(self.outputs[i]);
            i = i + 1;
            assert(keys@ =~= self.keys@.subrange(0, i as int));
            assert(outputs@ =~= self.outputs@.subrange(0, i as int));
        }
        assert(keys@ =~= self.keys@);
        assert(outputs@ =~= self.outputs@);
        let r = UtxoSet { keys, outputs, contents: Ghost(self.contents@) };
        assert(r.keys@ == self.keys@ && r.outputs@ == self.outputs@ && r.contents@ == self.contents@);
        r
    }

    fn find(&self, key: &sha256::Hash) -> (r: Option<usize>)
        requires
            self.wf(),
        ensures
            match r {
                Some(i) => i < self.keys@.len() && self.keys@[i as int] == *key,
                None => !self@.contains_key(*key),
            },
    {
        let mut i: usize = 0;
        while i < self.keys.len()
            invariant
                self.wf(),
                i <= self.keys@.len(),
                forall|j: int| 0 <= j < i ==> self.keys@[j] != *key,
            decreases self.keys@.len() - i,
        {
            if self.keys[i] == *key {
                return Some(i);
            }
            i = i + 1;
        }
        None
    }

    /// The output stored under `key`, if any.
    pub fn get(&self, key: &sha256::Hash) -> (r: Option<TransactionOutput>)
        requires
            self.wf(),
        ensures
            r == (if self@.contains_key(*key) {
                Some(self@[*key])
            } else {
                None
            }),
    {
        match self.find(key) {
            Some(i) => Some(self.outputs[i]),
            None => None,
        }
    }

    pub fn contains_key(&self, key: &sha256::Hash) -> (r: bool)
        requires
            self.wf(),
        ensures
            r == self@.contains_key(*key),
    {
        self.find(key).is_some()
    }

    /// The number of entries.
    pub fn len(&self) -> (r: usize)
        requires
            self.wf(),
        ensures
            r == self@.dom().len(),
    {
        proof {
            assert(self@.dom() =~= self.keys@.to_set());
            self.keys@.unique_seq_to_set();
        }
        self.keys.len()
    }

    /// Stores `output` under `key`, replacing what was there.
    pub fn insert(&mut self, key: sha256::Hash, output: TransactionOutput)
        requires
            old(self).wf(),
        ensures
            final(self).wf(),
            final(self)@ == old(self)@.insert(key, output),
    {
        match self.find(&key) {
            Some(i) => {
                self.outputs.set(i, output);
                self.contents = Ghost(self.contents@.insert(key, output));
                assert(self.keys@[i as int] == key);
                assert forall|m: int| 0 <= m < self.keys@.len() implies #[trigger] self.contents@.contains_key(self.keys@[m])
                    && self.contents@[self.keys@[m]] == self.outputs@[m] by {
                    if m != i {
                        assert(old(self).keys@[m] != old(self).keys@[i as int]);
                    }
                }
            },
            None => {
                self.keys.push(key);
                self.outputs.push(output);
                self.contents = Ghost(self.contents@.insert(key, output));
                assert(self.keys@[self.keys@.len() - 1] == key);
                assert forall|m: int| 0 <= m < self.keys@.len() implies #[trigger] self.contents@.contains_key(self.keys@[m])
                    && self.contents@[self.keys@[m]] == self.outputs@[m] by {
                    if m < old(self).keys@.len() {
                        assert(old(self).keys@.contains(old(self).keys@[m]));
                        assert(old(self).keys@[m] != key);
                    }
                }
                assert forall|a: int, b: int| 0 <= a < self.keys@.len() && 0 <= b < self.keys@.len() && a != b implies self.keys@[a] != self.keys@[b] by {
                    if a < old(self).keys@.len() && b < old(self).keys@.len() {
                    } else if a < old(self).keys@.len() {
                        assert(old(self).keys@[a] != key);
                    } else if b < old(self).keys@.len() {
                        assert(old(self).keys@[b] != key);
                    }
                }
            },
        }
        assert forall|k: sha256::Hash| #[trigger] self.contents@.contains_key(k) implies self.keys@.contains(k) by {
            if k != key {
                assert(old(self).keys@.contains(k));
                let j = choose|j: int| 0 <= j < old(self).keys@.len() && old(self).keys@[j] == k;
                assert(self.keys@[j] == k);
            }
        }
    }

    /// Takes out the entry under `key`, if there is one.
    pub fn remove(&mut self, key: &sha256::Hash)
        requires
            old(self).wf(),
        ensures
            final(self).wf(),
            final(self)@ == old(self)@.remove(*key),
    {
        match self.find(key) {
            Some(i) => {
                self.keys.remove(i);
                self.outputs.remove(i);
                assert forall|j: int| 0 <= j < self.keys@.len() implies self.keys@[j] != *key by {
                    if j < i {
                        assert(old(self).keys@[j] != old(self).keys@[i as int]);
                    } else {
                        assert(old(self).keys@[j + 1] != old(self).keys@[i as int]);
                    }
                }
            },
            None => {},
        }
        self.contents = Ghost(self.contents@.remove(*key));
        assert forall|k: sha256::Hash| #[trigger] self.contents@.contains_key(k) implies self.keys@.contains(k) by {
            assert(old(self).keys@.contains(k));
            let j = choose|j: int| 0 <= j < old(self).keys@.len() && old(self).keys@[j] == k;
            if old(self).keys@.len() == self.keys@.len() {
                assert(self.keys@[j] == k);
            } else {
                let i = choose|i: int| 0 <= i < old(self).keys@.len() && old(self).keys@[i] == *key;
                if j < i {
                    assert(self.keys@[j] == k);
                } else {
                    assert(j != i);
                    assert(self.keys@[j - 1] == k);
                }
            }
        }
    }
}

} // verus!
