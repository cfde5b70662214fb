//! The set of item keys that currently have a worker. It never holds more
//! keys than the engine may run at once, and it keeps them in insertion order
//! so that the engine can walk it.

use vstd::prelude::*;

verus! {

/// How many downloads may run at the same time.
pub const MAX_CONCURRENT: usize = 2;

/// A set of at most [`MAX_CONCURRENT`] keys (remote paths). No key is stored twice.
pub struct ActiveSet {
    keys: Vec<String>,
}

impl View for ActiveSet {
    type V = Set<Seq<char>>;

    closed spec fn view(&self) -> Set<Seq<char>> {
        self.keys.deep_view().to_set()
    }
}

impl ActiveSet {
    /// What every value of the type keeps: no key twice, and no more keys
    /// than may run at once.
    #[verifier::type_invariant]
    pub closed spec fn inv(self) -> bool {
        &&& self.keys.deep_view().no_duplicates()
        &&& self.keys@.len() <= MAX_CONCURRENT
    }

    /// What the invariant means for the set and its order.
    pub proof fn lemma_inv(self)
        requires
            self.inv(),
        ensures
            self@.finite(),
            self@.len() <= MAX_CONCURRENT,
            self.order().len() == self@.len(),
            self.order().no_duplicates(),
            self.order().to_set() == self@,
    {
        self.keys.deep_view().unique_seq_to_set();
    }

    /// The keys in the order in which they were inserted.
    pub closed spec fn order(&self) -> Seq<Seq<char>> {
        self.keys.deep_view()
    }

    pub fn new() -> (set: ActiveSet)
        ensures
            set@ == Set::<Seq<char>>::empty(),
    {
        let set = ActiveSet { keys: Vec::new() };
        assert(set.keys.deep_view() =~= Seq::<Seq<char>>::empty());
        assert(set@ =~= Set::<Seq<char>>::empty());
        set
    }

    pub fn len(&self) -> (count: usize)
        ensures
            count == self@.len(),
            count == self.order().len(),
            self.order().no_duplicates(),
            self.order().to_set() == self@,
            self@.finite(),
            count <= MAX_CONCURRENT,
    {
        proof {
            use_type_invariant(self);
            self.keys.deep_view().unique_seq_to_set();
        }
        self.keys.len()
    }

    /// The key at a position of the insertion order.
    pub fn key_at(&self, index: usize) -> (key: &String)
        requires
            index < self.order().len(),
        ensures
            key@ == self.order()[index as int],
            self@.contains(key@),
    {
        assert(self.keys.deep_view()[index as int] == self.keys@[index as int]@);
        assert(self.keys.deep_view().contains(self.keys.deep_view()[index as int]));
        &self.keys[index]
    }

    fn position(&self, key: &String) -> (found: Option<usize>)
        ensures
            match found {
                Some(index) => index < self.keys@.len() && self.keys@[index as int]@ == key@,
                None => !self@.contains(key@),
            },
    {
        let mut index: usize = 0;
        while index < self.keys.len()
            invariant
                index <= self.keys@.len(),
                forall|j: int| 0 <= j < index ==> self.keys@[j]@ != key@,
            decreases self.keys@.len() - index,
        {
            if self.keys[index] == *key {
                return Some(index);
            }
            index += 1;
        }
        proof {
            if self@.contains(key@) {
                let j = choose|j: int|
                    0 <= j < self.keys.deep_view().len() && self.keys.deep_view()[j] == key@;
                assert(self.keys@[j]@ == key@);
            }
        }
        None
    }

    pub fn contains(&self, key: &String) -> (found: bool)
        ensures
            found == self@.contains(key@),
    {
        match self.position(key) {
            Some(index) => {
                assert(self.keys.deep_view()[index as int] == key@);
                assert(self.keys.deep_view().contains(key@));
                true
            },
            None => false,
        }
    }

    /// Adds a key; tells whether it was new. There must be room for a new key.
    pub fn insert(&mut self, key: String) -> (added: bool)
        requires
            old(self)@.len() < MAX_CONCURRENT || old(self)@.contains(key@),
        ensures
            final(self)@ == old(self)@.insert(key@),
            added == !old(self)@.contains(key@),
            added ==> final(self).order() == old(self).order().push(key@),
            !added ==> final(self).order() == old(self).order(),
    {
        proof {
            use_type_invariant(&*self);
        }
        if self.contains(&key) {
            assert(self@.insert(key@) =~= self@);
            false
        } else {
            let ghost before = self.keys.deep_view();
            proof {
                before.unique_seq_to_set();
            }
            let mut keys: Vec<String> = Vec::new();
            std::mem::swap(&mut keys, &mut self.keys);
            keys.push(key);
            proof {
                assert(keys.deep_view() =~= before.push(key@));
                before.lemma_push_to_set_commute(key@);
                assert(!before.contains(key@));
            }
            self.keys = keys;
            true
        }
    }

    /// Takes a key out; tells whether it was there.
    pub fn remove(&mut self, key: &String) -> (removed: bool)
        ensures
            final(self)@ == old(self)@.remove(key@),
            removed == old(self)@.contains(key@),
    {
        proof {
            use_type_invariant(&*self);
        }
        match self.position(key) {
            Some(index) => {
                let ghost before = self.keys.deep_view();
                assert(before[index as int] == key@);
                let mut keys: Vec<String> = Vec::new();
                std::mem::swap(&mut keys, &mut self.keys);
                keys.remove(index);
                self.keys = keys;
                proof {
                    let after = self.keys.deep_view();
                    assert(after =~= before.remove(index as int));
                    assert forall|k: Seq<char>| after.to_set().contains(k) <==> before.to_set().remove(
                        key@,
                    ).contains(k) by {
                        if after.contains(k) {
                            let j = choose|j: int| 0 <= j < after.len() && after[j] == k;
                            if j < index {
                                assert(before[j] == k);
                            } else {
                                assert(before[j + 1] == k);
                            }
                        }
                        if before.contains(k) && k != key@ {
                            let j = choose|j: int| 0 <= j < before.len() && before[j] == k;
                            if j < index {
                                assert(after[j] == k);
                            } else {
                                assert(after[j - 1] == k);
                            }
                        }
                    }
                    assert(after.to_set() =~= before.to_set().remove(key@));
                    assert(before.contains(key@));
                }
                true
            },
            None => {
                assert(self@.remove(key@) =~= self@);
                false
            },
        }
    }
}

} // verus!
