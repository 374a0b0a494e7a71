use crate::alum::ast::{Binding, SpecBinding};
use vstd::prelude::*;

verus! {

/// The bindings that a parser knows, by name. Binding a name again replaces
/// its earlier binding.
pub struct SymbolTable {
    entries: Vec<(String, Binding)>,
}

impl SymbolTable {
    /// No name occurs twice among the entries.
    pub closed spec fn wf(&self) -> bool {
        forall|i: int, j: int|
            0 <= i < j < self.entries@.len() ==> #[trigger] self.entries@[i].0@
                != #[trigger] self.entries@[j].0@
    }

    closed spec fn has_key_at(&self, k: Seq<char>, i: int) -> bool {
        0 <= i < self.entries@.len() && self.entries@[i].0@ == k
    }

    /// The bindings by name.
    pub closed spec fn bindings(&self) -> Map<Seq<char>, SpecBinding> {
        Map::new(
            |k: Seq<char>| exists|i: int| self.has_key_at(k, i),
            |k: Seq<char>| self.entries@[choose|i: int| self.has_key_at(k, i)].1@,
        )
    }

    proof fn lemma_at(&self, k: Seq<char>, i: int)
        requires
            self.wf(),
            self.has_key_at(k, i),
        ensures
            self.bindings().contains_key(k),
            self.bindings()[k] == self.entries@[i].1@,
    {
        let j = choose|j: int| self.has_key_at(k, j);
        assert(self.has_key_at(k, j));
        if i < j {
            assert(self.entries@[i].0@ != self.entries@[j].0@);
        } else if j < i {
            assert(self.entries@[j].0@ != self.entries@[i].0@);
        }
    }

    /// An empty table.
    pub fn new() -> (t: Self)
        ensures
            t.wf(),
            t@ == Map::<Seq<char>, SpecBinding>::empty(),
    {
        let t = SymbolTable { entries: Vec::new() };
        assert(t.bindings() =~= Map::<Seq<char>, SpecBinding>::empty());
        t
    }

    fn find(&self, name: &String) -> (r: Option<usize>)
        ensures
            match r {
                Some(i) => self.has_key_at(name@, i as int),
                None => forall|i: int| !self.has_key_at(name@, i),
            },
    {
        let mut i: usize = 0;
        while i < self.entries.len()
            invariant
                i <= self.entries@.len(),
                forall|j: int| 0 <= j < i ==> !self.has_key_at(name@, j),
            decreases self.entries@.len() - i,
        {
            if self.entries[i].0.eq(name) {
                return Some(i);
            }
            i = i + 1;
        }
        None
    }

    /// The binding of `name`, if it has one.
    pub fn get(&self, name: &String) -> (r: Option<&Binding>)
        requires
            self.wf(),
        ensures
            match r {
                Some(b) => self@.contains_key(name@) && b@ == self@[name@],
                None => !self@.contains_key(name@),
            },
    {
        match self.find(name) {
            Some(i) => {
                proof {
                    self.lemma_at(name@, i as int);
                }
                Some(&self.entries[i].1)
            },
            None => None,
        }
    }

    /// Binds `name` to `b`, in place of any binding that it had.
    pub fn insert(&mut self, name: String, b: Binding)
        requires
            old(self).wf(),
        ensures
            final(self).wf(),
            final(self)@ == old(self)@.insert(name@, b@),
    {
        let ghost k = name@;
        let ghost v = b@;
        let ghost old_t = *self;
        match self.find(&name) {
            Some(i) => {
                self.entries.set(i, (name, b));
                proof {
                    assert forall|x: int, y: int|
                        0 <= x < y < self.entries@.len() implies #[trigger] self.entries@[x].0@
                        != #[trigger] self.entries@[y].0@ by {
                        assert(old_t.entries@[x].0@ != old_t.entries@[y].0@);
                    }
                    self.lemma_at(k, i as int);
                    assert forall|key: Seq<char>|
                        key != k implies (#[trigger] self.bindings().dom().contains(key)
                        == old_t.bindings().dom().contains(key)) && (self.bindings().dom().contains(key)
                        ==> self.bindings()[key] == old_t.bindings()[key]) by {
                        if old_t.bindings().dom().contains(key) {
                            let j = choose|j: int| old_t.has_key_at(key, j);
                            old_t.lemma_at(key, j);
                            assert(self.has_key_at(key, j));
                            self.lemma_at(key, j);
                        }
                        if self.bindings().dom().contains(key) {
                            let j = choose|j: int| self.has_key_at(key, j);
                            assert(old_t.has_key_at(key, j));
                        }
                    }
                    assert(self.bindings().contains_key(k));
                    assert(self.bindings()[k] == v);
                    assert(self.bindings().dom() =~= old_t.bindings().dom().insert(k));
                    assert(self.bindings() =~= old_t.bindings().insert(k, v));
                }
            },
            None => {
                self.entries.push((name, b));
                proof {
                    let n = old_t.entries@.len() as int;
                    assert forall|x: int, y: int|
                        0 <= x < y < self.entries@.len() implies #[trigger] self.entries@[x].0@
                        != #[trigger] self.entries@[y].0@ by {
                        if y < n {
                            assert(old_t.entries@[x].0@ != old_t.entries@[y].0@);
                        } else {
                            assert(!old_t.has_key_at(k, x));
                        }
                    }
                    self.lemma_at(k, n);
                    assert forall|key: Seq<char>|
                        key != k implies (#[trigger] self.bindings().dom().contains(key)
                        == old_t.bindings().dom().contains(key)) && (self.bindings().dom().contains(key)
                        ==> self.bindings()[key] == old_t.bindings()[key]) by {
                        if old_t.bindings().dom().contains(key) {
                            let j = choose|j: int| old_t.has_key_at(key, j);
                            old_t.lemma_at(key, j);
                            assert(self.has_key_at(key, j));
                            self.lemma_at(key, j);
                        }
                        if self.bindings().dom().contains(key) {
                            let j = choose|j: int| self.has_key_at(key, j);
                                assert(j < n);
                            assert(old_t.has_key_at(key, j));
                        }
                    }
                    assert(self.bindings().contains_key(k));
                    assert(self.bindings()[k] == v);
                    assert(self.bindings().dom() =~= old_t.bindings().dom().insert(k));
                    assert(self.bindings() =~= old_t.bindings().insert(k, v));
                }
            },
        }
    }
}

impl View for SymbolTable {
    type V = Map<Seq<char>, SpecBinding>;

    closed spec fn view(&self) -> Map<Seq<char>, SpecBinding> {
        self.bindings()
    }
}

} // verus!
