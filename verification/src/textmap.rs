//! A map from text to text, kept as a list in which no key occurs twice.

use vstd::prelude::*;

verus! {

/// One entry of a [`TextMap`].
pub struct TextEntry {
    pub key: String,
    pub value: String,
}

/// A map from text to text.
pub struct TextMap {
    pub entries: Vec<TextEntry>,
}

impl View for TextMap {
    type V = Map<Seq<char>, Seq<char>>;

    open spec fn view(&self) -> Map<Seq<char>, Seq<char>> {
        Map::new(
            |k: Seq<char>| self.slot_of(k).is_some(),
            |k: Seq<char>| self.entries@[self.slot_of(k).unwrap()].value@,
        )
    }
}

/// A value of the map is `value`.
pub open spec fn has_value(m: Map<Seq<char>, Seq<char>>, value: Seq<char>) -> bool {
    exists|k: Seq<char>| m.dom().contains(k) && #[trigger] m[k] == value
}

impl TextMap {
    /// The index of the entry for `key`, if there is one.
    pub open spec fn slot_of(&self, key: Seq<char>) -> Option<int> {
        if exists|i: int| 0 <= i < self.entries@.len() && #[trigger] self.entries@[i].key@ == key {
            Some(choose|i: int| 0 <= i < self.entries@.len() && #[trigger] self.entries@[i].key@ == key)
        } else {
            None
        }
    }

    /// No key occurs twice.
    pub open spec fn wf(&self) -> bool {
        forall|i: int, j: int|
            0 <= i < j < self.entries@.len() ==> #[trigger] self.entries@[i].key@
                != #[trigger] self.entries@[j].key@
    }

    /// In a well-formed map the entry for a key is the one that holds it.
    pub proof fn lemma_slot(&self, i: int)
        requires
            self.wf(),
            0 <= i < self.entries@.len(),
        ensures
            self.slot_of(self.entries@[i].key@) == Some(i),
            self@.dom().contains(self.entries@[i].key@),
            self@[self.entries@[i].key@] == self.entries@[i].value@,
    {
        let key = self.entries@[i].key@;
        let j = choose|j: int| 0 <= j < self.entries@.len() && #[trigger] self.entries@[j].key@ == key;
        if j < i {
            assert(self.entries@[j].key@ != self.entries@[i].key@);
        } else if i < j {
            assert(self.entries@[i].key@ != self.entries@[j].key@);
        }
    }

    /// The empty map.
    pub fn new() -> (r: TextMap)
        ensures
            r.wf(),
            r@ == Map::<Seq<char>, Seq<char>>::empty(),
    {
        let r = TextMap { entries: Vec::new() };
        assert(r@ =~= Map::<Seq<char>, Seq<char>>::empty());
        r
    }

    /// The keys of the first `i` entries.
    pub open spec fn keys_upto(&self, i: int) -> Set<Seq<char>>
        decreases i,
    {
        if i <= 0 {
            Set::empty()
        } else {
            self.keys_upto(i - 1).insert(self.entries@[i - 1].key@)
        }
    }

    /// The keys of the first `i` entries are `i` keys of the map.
    pub proof fn lemma_keys_upto(&self, i: int)
        requires
            self.wf(),
            0 <= i <= self.entries@.len(),
        ensures
            self.keys_upto(i).finite(),
            self.keys_upto(i).len() == i,
            forall|k: Seq<char>|
                #[trigger] self.keys_upto(i).contains(k) <==> exists|j: int|
                    0 <= j < i && #[trigger] self.entries@[j].key@ == k,
        decreases i,
    {
        if i > 0 {
            self.lemma_keys_upto(i - 1);
            let before = self.keys_upto(i - 1);
            let key = self.entries@[i - 1].key@;
            if before.contains(key) {
                let j = choose|j: int| 0 <= j < i - 1 && #[trigger] self.entries@[j].key@ == key;
                assert(self.entries@[j].key@ != self.entries@[i - 1].key@);
            }
            assert forall|k: Seq<char>| #[trigger] self.keys_upto(i).contains(k) <==> exists|j: int|
                0 <= j < i && #[trigger] self.entries@[j].key@ == k by {
                if self.keys_upto(i).contains(k) {
                    if k == key {
                        assert(self.entries@[i - 1].key@ == k);
                    } else {
                        assert(before.contains(k));
                        let j = choose|j: int| 0 <= j < i - 1 && #[trigger] self.entries@[j].key@ == k;
                        assert(0 <= j < i && self.entries@[j].key@ == k);
                    }
                }
                if exists|j: int| 0 <= j < i && #[trigger] self.entries@[j].key@ == k {
                    let j = choose|j: int| 0 <= j < i && #[trigger] self.entries@[j].key@ == k;
                    if j < i - 1 {
                        assert(before.contains(k));
                    }
                }
            }
        }
    }

    /// A well-formed map has as many keys as entries.
    pub proof fn lemma_len(&self)
        requires
            self.wf(),
        ensures
            self@.dom().finite(),
            self@.dom().len() == self.entries@.len(),
    {
        let n = self.entries@.len() as int;
        self.lemma_keys_upto(n);
        assert forall|k: Seq<char>| self@.dom().contains(k) <==> self.keys_upto(n).contains(k) by {
            if self@.dom().contains(k) {
                let j = self.slot_of(k).unwrap();
                assert(0 <= j < n && self.entries@[j].key@ == k);
            }
        }
        assert(self@.dom() =~= self.keys_upto(n));
    }

    /// The number of keys.
    pub fn len(&self) -> (n: usize)
        requires
            self.wf(),
        ensures
            self@.dom().finite(),
            n == self@.dom().len(),
            n == self.entries@.len(),
    {
        proof {
            self.lemma_len();
        }
        self.entries.len()
    }

    fn find(&self, key: &String) -> (r: Option<usize>)
        requires
            self.wf(),
        ensures
            match r {
                Some(i) => i < self.entries@.len() && self.entries@[i as int].key@ == key@
                    && self.slot_of(key@) == Some(i as int),
                None => self.slot_of(key@).is_none(),
            },
    {
        let mut i: usize = 0;
        while i < self.entries.len()
            invariant
                self.wf(),
                i <= self.entries@.len(),
                forall|k: int| 0 <= k < i ==> self.entries@[k].key@ != key@,
            decreases self.entries@.len() - i,
        {
            if self.entries[i].key == *key {
                proof {
                    self.lemma_slot(i as int);
                }
                return Some(i);
            }
            i += 1;
        }
        None
    }

    /// The value for `key`, if the map has one.
    pub fn get(&self, key: &String) -> (r: Option<&String>)
        requires
            self.wf(),
        ensures
            match r {
                Some(value) => self@.dom().contains(key@) && self@[key@] == value@,
                None => !self@.dom().contains(key@),
            },
    {
        match self.find(key) {
            Some(i) => Some(&self.entries[i].value),
            None => None,
        }
    }

    /// Whether some key has the value `value`.
    pub fn contains_value(&self, value: &String) -> (r: bool)
        requires
            self.wf(),
        ensures
            r == has_value(self@, value@),
    {
        let mut i: usize = 0;
        while i < self.entries.len()
            invariant
                self.wf(),
                i <= self.entries@.len(),
                forall|k: int| 0 <= k < i ==> self.entries@[k].value@ != value@,
            decreases self.entries@.len() - i,
        {
            if self.entries[i].value == *value {
                proof {
                    self.lemma_slot(i as int);
                    assert(self@[self.entries@[i as int].key@] == value@);
                }
                return true;
            }
            i += 1;
        }
        proof {
            assert forall|k: Seq<char>| self@.dom().contains(k) implies #[trigger] self@[k]
                != value@ by {
                let j = self.slot_of(k).unwrap();
                assert(self.entries@[j].value@ != value@);
            }
        }
        false
    }

    /// Sets the value for `key`, replacing the one it had.
    pub fn insert(&mut self, key: String, value: String)
        requires
            old(self).wf(),
        ensures
            final(self).wf(),
            final(self)@ == old(self)@.insert(key@, value@),
    {
        let ghost before = *self;
        match self.find(&key) {
            Some(i) => {
                self.entries.set(i, TextEntry { key, value });
                proof {
                    assert forall|k: Seq<char>| self.slot_of(k) == before.slot_of(k) by {
                        if before.slot_of(k).is_some() {
                            let j = before.slot_of(k).unwrap();
                            assert(self.entries@[j].key@ == k);
                            let j2 = self.slot_of(k).unwrap();
                            assert(before.entries@[j2].key@ == k);
                            before.lemma_slot(j2);
                        } else if self.slot_of(k).is_some() {
                            let j2 = self.slot_of(k).unwrap();
                            assert(before.entries@[j2].key@ == k);
                        }
                    }
                    assert forall|a: int, b: int| 0 <= a < b < self.entries@.len() implies
                        #[trigger] self.entries@[a].key@ != #[trigger] self.entries@[b].key@ by {
                        assert(self.entries@[a].key@ == before.entries@[a].key@);
                        assert(self.entries@[b].key@ == before.entries@[b].key@);
                    }
                    assert(self@ =~= before@.insert(key@, value@));
                }
            },
            None => {
                self.entries.push(TextEntry { key, value });
                proof {
                    let n = before.entries@.len() as int;
                    assert(self.entries@[n].key@ == key@);
                    assert forall|a: int, b: int| 0 <= a < b < self.entries@.len() implies
                        #[trigger] self.entries@[a].key@ != #[trigger] self.entries@[b].key@ by {
                        if b == n {
                            assert(before.entries@[a].key@ != key@);
                        } else {
                            assert(self.entries@[a].key@ == before.entries@[a].key@);
                            assert(self.entries@[b].key@ == before.entries@[b].key@);
                        }
                    }
                    self.lemma_slot(n);
                    assert forall|k: Seq<char>| k != key@ implies self.slot_of(k)
                        == before.slot_of(k) by {
                        if before.slot_of(k).is_some() {
                            let j = before.slot_of(k).unwrap();
                            assert(self.entries@[j].key@ == k);
                            self.lemma_slot(j);
                        } else if self.slot_of(k).is_some() {
                            let j2 = self.slot_of(k).unwrap();
                            assert(before.entries@[j2].key@ == k);
                        }
                    }
                    assert(self@ =~= before@.insert(key@, value@));
                }
            },
        }
    }
}

} // verus!
