//! The key-value map: text keys, byte values, last write wins.
use vstd::prelude::*;

verus! {

/// An exact-match associative store from text keys to byte values.
pub struct KeyValueStore {
    entries: Vec<(String, Vec<u8>)>,
    contents: Ghost<Map<Seq<char>, Seq<u8>>>,
}

impl View for KeyValueStore {
    type V = Map<Seq<char>, Seq<u8>>;

    closed spec fn view(&self) -> Map<Seq<char>, Seq<u8>> {
        self.contents@
    }
}

impl KeyValueStore {
    /// Each key is held once, and the entries hold exactly the map's contents.
    pub closed spec fn wf(&self) -> bool {
        &&& forall|i: int, j: int|
            0 <= i < j < self.entries.len() ==> #[trigger] self.entries[i].0@
                != #[trigger] self.entries[j].0@
        &&& forall|i: int|
            0 <= i < self.entries.len() ==> #[trigger] self.contents@.contains_key(
                self.entries[i].0@,
            ) && self.contents@[self.entries[i].0@] == self.entries[i].1@
        &&& forall|k: Seq<char>|
            #[trigger] self.contents@.contains_key(k) ==> exists|i: int|
                0 <= i < self.entries.len() && #[trigger] self.entries[i].0@ == k
    }

    /// An empty store.
    pub fn new() -> (r: Self)
        ensures
            r.wf(),
            r@ == Map::<Seq<char>, Seq<u8>>::empty(),
    {
        KeyValueStore { entries: Vec::new(), contents: Ghost(Map::empty()) }
    }

    fn position(&self, key: &String) -> (r: Option<usize>)
        requires
            self.wf(),
        ensures
            match r {
                Some(i) => i < self.entries.len() && self.entries[i as int].0@ == key@,
                None => !self@.contains_key(key@),
            },
    {
        let mut i: usize = 0;
        while i < self.entries.len()
            invariant
                i <= self.entries.len(),
                forall|j: int| 0 <= j < i ==> #[trigger] self.entries[j].0@ != key@,
            decreases self.entries.len() - i,
        {
            if self.entries[i].0 == *key {
                return Some(i);
            }
            i = i + 1;
        }
        None
    }

    /// Stores a value under a key, replacing any earlier value.
    pub fn set(&mut self, key: String, value: Vec<u8>)
        requires
            old(self).wf(),
        ensures
            final(self).wf(),
            final(self)@ == old(self)@.insert(key@, value@),
    {
        let ghost k = key@;
        let ghost v = value@;
        let ghost at: int;
        match self.position(&key) {
            Some(i) => {
                self.entries.set(i, (key, value));
                proof {
                    at = i as int;
                }
            },
            None => {
                self.entries.push((key, value));
                proof {
                    at = self.entries.len() - 1;
                }
            },
        }
        self.contents = Ghost(self.contents@.insert(k, v));
        assert(self.entries[at].0@ == k);
        assert forall|kk: Seq<char>| #[trigger] self.contents@.contains_key(kk) implies exists|i: int|
            0 <= i < self.entries.len() && #[trigger] self.entries[i].0@ == kk by {
            if kk != k {
                let i = choose|i: int|
                    0 <= i < old(self).entries.len() && #[trigger] old(self).entries[i].0@ == kk;
                assert(self.entries[i].0@ == kk);
            } else {
                assert(self.entries[at].0@ == kk);
            }
        }
    }

    /// The value stored under a key, if any.
    pub fn get(&self, key: &str) -> (r: Option<&Vec<u8>>)
        requires
            self.wf(),
        ensures
            r is Some <==> self@.contains_key(key@),
            r matches Some(v) ==> v@ == self@[key@],
    {
        let owned = key.to_owned();
        match self.position(&owned) {
            Some(i) => {
                assert(self.contents@.contains_key(self.entries[i as int].0@));
                Some(&self.entries[i].1)
            },
            None => None,
        }
    }
}

} // verus!
