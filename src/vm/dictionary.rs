//! Dictionary: word names mapped to the operations that they expand to.

use crate::compiler::parser::Operation;
use vstd::prelude::*;

verus! {

/// One definition: a word name and the operations it stands for.
pub struct Entry {
    pub name: String,
    pub operations: Vec<Operation>,
}

/// Mapping from word name (case-sensitive) to an ordered sequence of
/// operations. Names are unique; inserting a name again replaces its
/// definition.
pub struct Dictionary {
    entries: Vec<Entry>,
}

impl Dictionary {
    /// Well-formedness: no two entries share a name.
    pub closed spec fn wf(&self) -> bool {
        forall|i: int, j: int|
            0 <= i < self.entries@.len() && 0 <= j < self.entries@.len() && i != j
                ==> #[trigger] self.entries@[i].name@ != #[trigger] self.entries@[j].name@
    }

    spec fn holds_name(self, name: Seq<char>) -> bool {
        exists|i: int| 0 <= i < self.entries@.len() && #[trigger] self.entries@[i].name@ == name
    }

    spec fn index_of(self, name: Seq<char>) -> int {
        choose|i: int| 0 <= i < self.entries@.len() && #[trigger] self.entries@[i].name@ == name
    }

    /// An empty dictionary.
    pub fn new() -> (d: Dictionary)
        ensures
            d.wf(),
            d@ == Map::<Seq<char>, Seq<Operation>>::empty(),
    {
        let d = Dictionary { entries: Vec::new() };
        assert(d@ =~= Map::<Seq<char>, Seq<Operation>>::empty());
        d
    }

    /// Position of the entry named `name`, if there is one.
    fn find(&self, name: &String) -> (r: Option<usize>)
        ensures
            match r {
                Some(i) => i < self.entries@.len() && self.entries@[i as int].name@ == name@,
                None => !self.holds_name(name@),
            },
    {
        let mut i: usize = 0;
        while i < self.entries.len()
            invariant
                i <= self.entries@.len(),
                forall|k: int| 0 <= k < i ==> #[trigger] self.entries@[k].name@ != name@,
            decreases self.entries@.len() - i,
        {
            if self.entries[i].name == *name {
                return Some(i);
            }
            i = i + 1;
        }
        None
    }

    /// Does the dictionary define `name`?
    pub fn contains_key(&self, name: &str) -> (r: bool)
        requires
            self.wf(),
        ensures
            r == self@.contains_key(name@),
    {
        let key = name.to_owned();
        self.find(&key).is_some()
    }

    /// The operations that `name` stands for, if it is defined.
    pub fn get(&self, name: &str) -> (r: Option<&Vec<Operation>>)
        requires
            self.wf(),
        ensures
            match r {
                Some(ops) => self@.contains_key(name@) && ops@ == self@[name@],
                None => !self@.contains_key(name@),
            },
    {
        let key = name.to_owned();
        match self.find(&key) {
            Some(i) => Some(&self.entries[i].operations),
            None => None,
        }
    }

    /// Define `name` as `operations`, replacing any earlier definition.
    pub fn insert(&mut self, name: &str, operations: Vec<Operation>)
        requires
            old(self).wf(),
        ensures
            final(self).wf(),
            final(self)@ == old(self)@.insert(name@, operations@),
    {
        let key = name.to_owned();
        let ghost before = *self;
        let ghost ops = operations@;
        let ghost mut at: int = 0;
        match self.find(&key) {
            Some(i) => {
                let entry = Entry { name: key, operations };
                self.entries.set(i, entry);
                proof {
                    at = i as int;
                }
            },
            None => {
                let entry = Entry { name: key, operations };
                self.entries.push(entry);
                proof {
                    at = before.entries@.len() as int;
                }
            },
        }
        proof {
            let m = before@.insert(name@, ops);
            assert(self.entries@[at].name@ == name@);
            assert(self.entries@[at].operations@ == ops);
            assert(forall|j: int|
                0 <= j < self.entries@.len() && j != at ==> #[trigger] self.entries@[j]
                    == before.entries@[j]);
            assert forall|a: int, b: int|
                0 <= a < self.entries@.len() && 0 <= b < self.entries@.len() && a != b
                    implies #[trigger] self.entries@[a].name@ != #[trigger] self.entries@[b].name@ by {
                if a != at && b != at {
                    assert(before.entries@[a].name@ != before.entries@[b].name@);
                } else if a == at {
                    assert(self.entries@[b] == before.entries@[b]);
                } else {
                    assert(self.entries@[a] == before.entries@[a]);
                }
            }
            assert forall|k: Seq<char>| #[trigger] self@.contains_key(k) == m.contains_key(k) by {
                if k == name@ {
                    assert(self.holds_name(k));
                } else if before.holds_name(k) {
                    let j = before.index_of(k);
                    assert(self.entries@[j] == before.entries@[j]);
                    assert(self.holds_name(k));
                } else if self.holds_name(k) {
                    let j = self.index_of(k);
                    assert(self.entries@[j] == before.entries@[j]);
                    assert(before.holds_name(k));
                }
            }
            assert forall|k: Seq<char>| self@.contains_key(k) implies #[trigger] self@[k] == m[k] by {
                let j = self.index_of(k);
                if k == name@ {
                    assert(j == at);
                } else {
                    let j0 = before.index_of(k);
                    assert(self.entries@[j0] == before.entries@[j0]);
                    assert(self.entries@[j0].name@ == k);
                    assert(j == j0);
                }
            }
            assert(self@ =~= m);
        }
    }
}

impl View for Dictionary {
    type V = Map<Seq<char>, Seq<Operation>>;

    closed spec fn view(&self) -> Map<Seq<char>, Seq<Operation>> {
        Map::new(
            |k: Seq<char>| self.holds_name(k),
            |k: Seq<char>| self.entries@[self.index_of(k)].operations@,
        )
    }
}

} // verus!
