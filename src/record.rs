use vstd::prelude::*;
use linked_hash_map::LinkedHashMap;
use crate::linked::{
    has_key, map_contains, map_entries, map_get, map_insert_new, map_keys, map_len, map_new, Entries,
};

verus! {

/// No key occurs twice.
pub open spec fn unique_keys(e: Entries) -> bool {
    forall|i: int, j: int|
        0 <= i < e.len() && 0 <= j < e.len() && i != j ==> (#[trigger] e[i]).0 != (#[trigger] e[j]).0
}

/// `e` with `(k, v)` added at the end, unless `k` is already a key.
pub open spec fn noted(e: Entries, k: Seq<char>, v: Seq<char>) -> Entries {
    if has_key(e, k) {
        e
    } else {
        e.push((k, v))
    }
}

/// The questions answered wrong at least once, each with its option text, in
/// the order they were first found wrong. Entries are only ever added.
pub struct WrongRecord {
    map: LinkedHashMap<String, String>,
}

impl WrongRecord {
    pub closed spec fn view(&self) -> Entries {
        map_entries(self.map)
    }

    /// No question is recorded twice.
    pub open spec fn wf(&self) -> bool {
        unique_keys(self@)
    }

    #[verifier::type_invariant]
    spec fn inv(&self) -> bool {
        self.wf()
    }

    /// An empty record.
    pub fn new() -> (w: WrongRecord)
        ensures
            w.wf(),
            w@ == Seq::<(Seq<char>, Seq<char>)>::empty(),
    {
        WrongRecord { map: map_new() }
    }

    /// Whether the question keyed `id` is in the record.
    pub fn contains(&self, id: &str) -> (r: bool)
        ensures
            r == has_key(self@, id@),
    {
        map_contains(&self.map, id)
    }

    /// Number of questions in the record.
    pub fn len(&self) -> (n: usize)
        ensures
            n == self@.len(),
    {
        map_len(&self.map)
    }

    /// The recorded question ids, oldest first.
    pub fn ids(&self) -> (r: Vec<String>)
        ensures
            r@.len() == self@.len(),
            forall|i: int| 0 <= i < r@.len() ==> (#[trigger] r@[i])@ == self@[i].0,
    {
        map_keys(&self.map)
    }

    /// The option text recorded for the question keyed `id`.
    pub fn get<'a>(&'a self, id: &str) -> (r: Option<&'a String>)
        ensures
            match r {
                Some(v) => exists|i: int| 0 <= i < self@.len() && #[trigger] self@[i] == (id@, v@),
                None => !has_key(self@, id@),
            },
    {
        proof {
            use_type_invariant(self);
        }
        map_get(&self.map, id)
    }

    /// Adds `(id, text)` unless `id` is already recorded; an existing entry is
    /// never changed.
    pub fn note(&mut self, id: String, text: String)
        ensures
            final(self).wf(),
            final(self)@ == noted(old(self)@, id@, text@),
    {
        proof {
            use_type_invariant(&*self);
        }
        if !map_contains(&self.map, id.as_str()) {
            let ghost e = self@;
            let ghost k = id@;
            let ghost v = text@;
            let mut m = map_new();
            std::mem::swap(&mut self.map, &mut m);
            map_insert_new(&mut m, id, text);
            assert(map_entries(m) == e.push((k, v)));
            let ghost f = map_entries(m);
            assert forall|i: int, j: int|
                0 <= i < f.len() && 0 <= j < f.len() && i != j implies (#[trigger] f[i]).0 != (
                #[trigger] f[j]).0 by {
                if i < e.len() && j < e.len() {
                    assert(e[i].0 != e[j].0);
                } else if i == e.len() {
                    assert(f[j] == e[j]);
                } else {
                    assert(f[i] == e[i]);
                }
            }
            std::mem::swap(&mut self.map, &mut m);
        }
    }
}

} // verus!
