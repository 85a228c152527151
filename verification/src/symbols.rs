//! The symbol table: a mapping from identifier name to the operand that
//! currently holds the identifier's value. One table persists across all
//! statements of a compilation; entries are inserted or overwritten, never
//! removed.

use vstd::prelude::*;

use crate::ast::Data;

verus! {

/// The symbol table, viewed as a `Map` from identifier name to operand.
pub struct SymbolTable {
    entries: Vec<(String, Data)>,
}

impl SymbolTable {
    /// Well-formedness: the table holds each name at most once, so the map
    /// view below is faithful to a linear search. `new` establishes it and
    /// `save` preserves it.
    pub closed spec fn wf(self) -> bool {
        forall|i: int, j: int|
            0 <= i < j < self.entries.len() ==> self.entries[i].0@ != self.entries[j].0@
    }

    /// An empty table.
    pub fn new() -> (r: Self)
        ensures
            r.wf(),
            r@ == Map::<Seq<char>, Data>::empty(),
    {
        let r = SymbolTable { entries: Vec::new() };
        proof {
            assert(r@ =~= Map::<Seq<char>, Data>::empty());
        }
        r
    }

    /// Insert `data` under `id`, overwriting any earlier entry for `id`.
    pub fn save(&mut self, id: &String, data: Data)
        requires
            old(self).wf(),
        ensures
            final(self).wf(),
            final(self)@ == old(self)@.insert(id@, data),
    {
        let n = self.entries.len();
        let mut i: usize = 0;
        while i < n
            invariant
                i <= n,
                n == self.entries.len(),
                self == old(self),
                old(self).wf(),
                forall|k: int| 0 <= k < i ==> self.entries[k].0@ != id@,
            decreases n - i,
        {
            if self.entries[i].0 == *id {
                self.entries[i] = (id.clone(), data);
                proof {
                    assert(forall|k: int|
                        0 <= k < self.entries.len() && k != i ==> self.entries[k] == old(
                            self,
                        ).entries[k]);
                    self.lemma_view_after_update(*old(self), i as int, id@, data);
                }
                return ;
            }
            i = i + 1;
        }
        self.entries.push((id.clone(), data));
        proof {
            let es = self.entries@;
            assert(forall|k: int| 0 <= k < es.len() - 1 ==> es[k] == old(self).entries[k]);
            assert forall|name: Seq<char>| #[trigger] self@.contains_key(name) == old(
                self,
            )@.insert(id@, data).contains_key(name) by {
                if name == id@ {
                    assert(es[es.len() - 1].0@ == name);
                } else {
                    if old(self)@.contains_key(name) {
                        let k = choose|k: int|
                            0 <= k < old(self).entries.len() && old(self).entries[k].0@ == name;
                        assert(es[k].0@ == name);
                    }
                    if self@.contains_key(name) {
                        let k = choose|k: int| 0 <= k < es.len() && es[k].0@ == name;
                        assert(k < es.len() - 1);
                        assert(old(self).entries[k].0@ == name);
                    }
                }
            }
            assert forall|name: Seq<char>| self@.contains_key(name) implies #[trigger] self@[name]
                == old(self)@.insert(id@, data)[name] by {
                let k = choose|k: int| 0 <= k < es.len() && es[k].0@ == name;
                if name == id@ {
                    assert(k == es.len() - 1);
                } else {
                    let k0 = choose|k0: int|
                        0 <= k0 < old(self).entries.len() && old(self).entries[k0].0@ == name;
                    assert(old(self).entries[k].0@ == name);
                    assert(k0 == k);
                }
            }
            assert(self@ =~= old(self)@.insert(id@, data));
        }
    }

    /// The map view after one entry is overwritten in place with the same
    /// name: the same as inserting that name anew.
    proof fn lemma_view_after_update(self, prev: Self, i: int, name: Seq<char>, data: Data)
        requires
            prev.wf(),
            0 <= i < prev.entries.len(),
            prev.entries[i].0@ == name,
            self.entries.len() == prev.entries.len(),
            self.entries[i].0@ == name,
            self.entries[i].1 == data,
            forall|k: int| 0 <= k < prev.entries.len() && k != i ==> self.entries[k] == prev.entries[k],
        ensures
            self.wf(),
            self@ == prev@.insert(name, data),
    {
        assert forall|a: int, b: int|
            0 <= a < b < self.entries.len() implies self.entries[a].0@ != self.entries[b].0@ by {
            assert(prev.entries[a].0@ != prev.entries[b].0@);
        }
        assert forall|n2: Seq<char>| #[trigger] self@.contains_key(n2) == prev@.insert(
            name,
            data,
        ).contains_key(n2) by {
            if n2 == name {
                assert(self.entries[i].0@ == n2);
            } else {
                if prev@.contains_key(n2) {
                    let k = choose|k: int|
                        0 <= k < prev.entries.len() && prev.entries[k].0@ == n2;
                    assert(self.entries[k].0@ == n2);
                }
                if self@.contains_key(n2) {
                    let k = choose|k: int|
                        0 <= k < self.entries.len() && self.entries[k].0@ == n2;
                    assert(prev.entries[k].0@ == n2);
                }
            }
        }
        assert forall|n2: Seq<char>| self@.contains_key(n2) implies #[trigger] self@[n2]
            == prev@.insert(name, data)[n2] by {
            let k = choose|k: int| 0 <= k < self.entries.len() && self.entries[k].0@ == n2;
            if n2 == name {
                assert(k == i);
            } else {
                let k0 = choose|k0: int|
                    0 <= k0 < prev.entries.len() && prev.entries[k0].0@ == n2;
                assert(prev.entries[k].0@ == n2);
                assert(k0 == k);
            }
        }
        assert(self@ =~= prev@.insert(name, data));
    }

    /// Look up the operand recorded for `id`, if any.
    pub fn lookup(&self, id: &String) -> (r: Option<Data>)
        requires
            self.wf(),
        ensures
            match r {
                Some(d) => self@.contains_key(id@) && self@[id@] == d,
                None => !self@.contains_key(id@),
            },
    {
        let n = self.entries.len();
        let mut i: usize = 0;
        while i < n
            invariant
                i <= n,
                self.wf(),
                n == self.entries.len(),
                forall|k: int| 0 <= k < i ==> self.entries[k].0@ != id@,
            decreases n - i,
        {
            if self.entries[i].0 == *id {
                proof {
                    assert(self@.contains_key(id@));
                    let k = choose|k: int|
                        0 <= k < self.entries.len() && self.entries[k].0@ == id@;
                    assert(k == i);
                }
                return Some(self.entries[i].1);
            }
            i = i + 1;
        }
        None
    }
}

impl View for SymbolTable {
    type V = Map<Seq<char>, Data>;

    /// The mapping the entry list denotes.
    closed spec fn view(&self) -> Map<Seq<char>, Data> {
        Map::new(
            |name: Seq<char>|
                exists|i: int| 0 <= i < self.entries.len() && self.entries[i].0@ == name,
            |name: Seq<char>|
                self.entries[choose|i: int|
                    0 <= i < self.entries.len() && self.entries[i].0@ == name].1,
        )
    }
}

} // verus!
