//! A map from unit names, kept in the order of the names.

use vstd::prelude::*;

use crate::text::{lemma_lex_asymmetric, lemma_lex_transitive, lex_less, order, Order};

verus! {

/// One value per name. The entries stand in strictly increasing name order.
#[derive(Debug)]
pub struct NameMap<V> {
    pub entries: Vec<(String, V)>,
}

impl<V> NameMap<V> {
    /// The names increase strictly.
    pub open spec fn wf(&self) -> bool {
        forall|i: int, j: int|
            0 <= i < j < self.entries@.len() ==> lex_less(
                #[trigger] self.entries@[i].0@,
                #[trigger] self.entries@[j].0@,
            )
    }

    /// The entries in order.
    pub open spec fn pairs(&self) -> Seq<(Seq<char>, V)> {
        Seq::new(self.entries@.len(), |i: int| (self.entries@[i].0@, self.entries@[i].1))
    }

    /// `name` stands at `i`.
    pub open spec fn at(&self, i: int, name: Seq<char>) -> bool {
        0 <= i < self.entries@.len() && self.entries@[i].0@ == name
    }
}

impl<V> View for NameMap<V> {
    type V = Map<Seq<char>, V>;

    open spec fn view(&self) -> Map<Seq<char>, V> {
        Map::new(
            |name: Seq<char>| exists|i: int| self.at(i, name),
            |name: Seq<char>| self.entries@[choose|i: int| self.at(i, name)].1,
        )
    }
}

impl<V: Copy> NameMap<V> {
    /// The position of a name decides its value.
    pub proof fn lemma_at(&self, i: int, name: Seq<char>)
        requires
            self.wf(),
            self.at(i, name),
        ensures
            self@.dom().contains(name),
            self@[name] == self.entries@[i].1,
    {
        let k = choose|k: int| self.at(k, name);
        assert(self.at(k, name));
        if k < i {
            lemma_lex_asymmetric(self.entries@[k].0@, self.entries@[i].0@);
        } else if i < k {
            lemma_lex_asymmetric(self.entries@[i].0@, self.entries@[k].0@);
        }
    }

    /// The map without entries.
    pub fn new() -> (m: NameMap<V>)
        ensures
            m.wf(),
            m@ == Map::<Seq<char>, V>::empty(),
            m.pairs() == Seq::<(Seq<char>, V)>::empty(),
    {
        let m = NameMap { entries: Vec::new() };
        proof {
            assert(m@ =~= Map::<Seq<char>, V>::empty()) by {
                assert forall|name: Seq<char>| !m@.dom().contains(name) by {
                    if exists|i: int| m.at(i, name) {
                        let i = choose|i: int| m.at(i, name);
                        assert(m.at(i, name));
                    }
                }
            }
            assert(m.pairs() =~= Seq::<(Seq<char>, V)>::empty());
        }
        m
    }

    /// The first position whose name is not before `name`.
    fn lower(&self, name: &str) -> (r: usize)
        requires
            self.wf(),
        ensures
            r <= self.entries@.len(),
            forall|j: int| 0 <= j < r ==> lex_less(#[trigger] self.entries@[j].0@, name@),
            r < self.entries@.len() ==> !lex_less(self.entries@[r as int].0@, name@),
    {
        let mut i: usize = 0;
        while i < self.entries.len()
            invariant
                i <= self.entries@.len(),
                forall|j: int| 0 <= j < i ==> lex_less(#[trigger] self.entries@[j].0@, name@),
            decreases self.entries@.len() - i,
        {
            match order(self.entries[i].0.as_str(), name) {
                Order::Before => {},
                Order::Same => {
                    proof {
                        if lex_less(self.entries@[i as int].0@, name@) {
                            lemma_lex_asymmetric(self.entries@[i as int].0@, name@);
                        }
                    }
                    return i;
                },
                Order::After => {
                    proof {
                        if lex_less(self.entries@[i as int].0@, name@) {
                            lemma_lex_asymmetric(self.entries@[i as int].0@, name@);
                        }
                    }
                    return i;
                },
            }
            i = i + 1;
        }
        i
    }

    /// The value of `name`.
    pub fn get(&self, name: &str) -> (r: Option<V>)
        requires
            self.wf(),
        ensures
            r == (if self@.dom().contains(name@) {
                Some(self@[name@])
            } else {
                None
            }),
    {
        let i = self.lower(name);
        if i < self.entries.len() && crate::text::same(self.entries[i].0.as_str(), name) {
            proof {
                self.lemma_at(i as int, name@);
            }
            return Some(self.entries[i].1);
        }
        proof {
            if self@.dom().contains(name@) {
                let k = choose|k: int| self.at(k, name@);
                assert(self.at(k, name@));
                if k < i {
                    lemma_lex_asymmetric(self.entries@[k].0@, name@);
                } else if k > i {
                    lemma_lex_asymmetric(self.entries@[i as int].0@, self.entries@[k].0@);
                }
            }
        }
        None
    }

    /// Give `name` the value `v`, whether or not it had one.
    pub fn set(&mut self, name: &str, v: V)
        requires
            old(self).wf(),
        ensures
            final(self).wf(),
            final(self)@ == old(self)@.insert(name@, v),
    {
        let i = self.lower(name);
        let ghost before = *self;
        if i < self.entries.len() && crate::text::same(self.entries[i].0.as_str(), name) {
            let key = self.entries[i].0.clone();
            self.entries.set(i, (key, v));
            proof {
                let after = *self;
                assert(after.entries@ == before.entries@.update(i as int, (key, v)));
                assert forall|a: int, b: int| 0 <= a < b < after.entries@.len() implies lex_less(
                    #[trigger] after.entries@[a].0@,
                    #[trigger] after.entries@[b].0@,
                ) by {
                    assert(lex_less(before.entries@[a].0@, before.entries@[b].0@));
                }
                assert forall|n: Seq<char>| #[trigger]
                    after@.dom().contains(n) == before@.insert(name@, v).dom().contains(n) by {
                    if exists|k: int| before.at(k, n) {
                        let k = choose|k: int| before.at(k, n);
                        assert(before.at(k, n));
                        assert(after.at(k, n));
                    }
                    if exists|k: int| after.at(k, n) {
                        let k = choose|k: int| after.at(k, n);
                        assert(after.at(k, n));
                        assert(before.at(k, n));
                    }
                    assert(after.at(i as int, name@));
                }
                assert forall|n: Seq<char>| #[trigger]
                    after@.dom().contains(n) implies after@[n] == before@.insert(name@, v)[n] by {
                    let k = choose|k: int| after.at(k, n);
                    assert(after.at(k, n));
                    after.lemma_at(k, n);
                    if n == name@ {
                        assert(after.at(i as int, n));
                        after.lemma_at(i as int, n);
                    } else {
                        assert(before.at(k, n));
                        before.lemma_at(k, n);
                    }
                }
                assert(after@ =~= before@.insert(name@, v));
            }
        } else {
            self.entries.insert(i, (name.to_owned(), v));
            proof {
                let after = *self;
                if i < before.entries@.len() {
                    crate::text::lemma_lex_total(before.entries@[i as int].0@, name@);
                }
                assert forall|a: int, b: int| 0 <= a < b < after.entries@.len() implies lex_less(
                    #[trigger] after.entries@[a].0@,
                    #[trigger] after.entries@[b].0@,
                ) by {
                    if a < i && b < i {
                        assert(lex_less(before.entries@[a].0@, before.entries@[b].0@));
                    } else if a < i && b == i {
                        assert(lex_less(before.entries@[a].0@, name@));
                    } else if a < i {
                        assert(lex_less(before.entries@[a].0@, before.entries@[b - 1].0@));
                    } else if a == i {
                        if b - 1 > i {
                            assert(lex_less(before.entries@[i as int].0@, before.entries@[b - 1].0@));
                            lemma_lex_transitive(
                                name@,
                                before.entries@[i as int].0@,
                                before.entries@[b - 1].0@,
                            );
                        }
                    } else {
                        assert(lex_less(before.entries@[a - 1].0@, before.entries@[b - 1].0@));
                    }
                }
                assert(after.at(i as int, name@));
                assert forall|n: Seq<char>| #[trigger]
                    after@.dom().contains(n) == before@.insert(name@, v).dom().contains(n) by {
                    if exists|k: int| before.at(k, n) {
                        let k = choose|k: int| before.at(k, n);
                        assert(before.at(k, n));
                        if k < i {
                            assert(after.at(k, n));
                        } else {
                            assert(after.at(k + 1, n));
                        }
                    }
                    if exists|k: int| after.at(k, n) {
                        let k = choose|k: int| after.at(k, n);
                        assert(after.at(k, n));
                        if k < i {
                            assert(before.at(k, n));
                        } else if k > i {
                            assert(before.at(k - 1, n));
                        }
                    }
                }
                assert forall|n: Seq<char>| #[trigger]
                    after@.dom().contains(n) implies after@[n] == before@.insert(name@, v)[n] by {
                    let k = choose|k: int| after.at(k, n);
                    assert(after.at(k, n));
                    after.lemma_at(k, n);
                    if n == name@ {
                        assert(after.at(i as int, n));
                        after.lemma_at(i as int, n);
                    } else if k < i {
                        assert(before.at(k, n));
                        before.lemma_at(k, n);
                    } else {
                        assert(before.at(k - 1, n));
                        before.lemma_at(k - 1, n);
                    }
                }
                assert(after@ =~= before@.insert(name@, v));
            }
        }
    }

    /// Take `name` out, where it is in.
    pub fn remove(&mut self, name: &str)
        requires
            old(self).wf(),
        ensures
            final(self).wf(),
            final(self)@ == old(self)@.remove(name@),
    {
        let i = self.lower(name);
        let ghost before = *self;
        if i < self.entries.len() && crate::text::same(self.entries[i].0.as_str(), name) {
            let _ = self.entries.remove(i);
            proof {
                let after = *self;
                assert(after.entries@ =~= before.entries@.remove(i as int));
                assert forall|a: int, b: int| 0 <= a < b < after.entries@.len() implies lex_less(
                    #[trigger] after.entries@[a].0@,
                    #[trigger] after.entries@[b].0@,
                ) by {
                    let a0 = if a < i { a } else { a + 1 };
                    let b0 = if b < i { b } else { b + 1 };
                    assert(lex_less(before.entries@[a0].0@, before.entries@[b0].0@));
                }
                assert forall|n: Seq<char>| #[trigger]
                    after@.dom().contains(n) == before@.remove(name@).dom().contains(n) by {
                    if exists|k: int| before.at(k, n) {
                        let k = choose|k: int| before.at(k, n);
                        assert(before.at(k, n));
                        if n != name@ {
                            if k < i {
                                assert(after.at(k, n));
                            } else {
                                assert(after.at(k - 1, n));
                            }
                        }
                    }
                    if exists|k: int| after.at(k, n) {
                        let k = choose|k: int| after.at(k, n);
                        assert(after.at(k, n));
                        let k0 = if k < i { k } else { k + 1 };
                        assert(before.at(k0, n));
                        if k0 < i {
                            lemma_lex_asymmetric(before.entries@[k0].0@, before.entries@[i as int].0@);
                        } else {
                            lemma_lex_asymmetric(before.entries@[i as int].0@, before.entries@[k0].0@);
                        }
                    }
                }
                assert forall|n: Seq<char>| #[trigger]
                    after@.dom().contains(n) implies after@[n] == before@.remove(name@)[n] by {
                    let k = choose|k: int| after.at(k, n);
                    assert(after.at(k, n));
                    after.lemma_at(k, n);
                    let k0 = if k < i { k } else { k + 1 };
                    assert(before.at(k0, n));
                    before.lemma_at(k0, n);
                    assert(n != name@) by {
                        assert(before@.remove(name@).dom().contains(n));
                    }
                }
                assert(after@ =~= before@.remove(name@));
            }
        } else {
            proof {
                assert(!before@.dom().contains(name@)) by {
                    if before@.dom().contains(name@) {
                        let k = choose|k: int| before.at(k, name@);
                        assert(before.at(k, name@));
                        if k < i {
                            lemma_lex_asymmetric(before.entries@[k].0@, name@);
                        } else if k > i {
                            lemma_lex_asymmetric(before.entries@[i as int].0@, before.entries@[k].0@);
                        }
                    }
                }
                assert(before@.remove(name@) =~= before@);
            }
        }
    }
}

// ── laws ───────────────────────────────────────────────────────────────────

/// The pairs of a map are its names with their values, each name once, in the order of the
/// names.
pub proof fn pairs_are_the_map<V: Copy>(m: NameMap<V>, name: Seq<char>, i: int)
    requires
        m.wf(),
    ensures
        m@.dom().contains(name) <==> exists|k: int|
            0 <= k < m.pairs().len() && (#[trigger] m.pairs()[k]).0 == name,
        0 <= i < m.pairs().len() ==> m@.dom().contains(m.pairs()[i].0) && m@[m.pairs()[i].0]
            == m.pairs()[i].1,
        forall|a: int, b: int|
            0 <= a < b < m.pairs().len() ==> lex_less(
                (#[trigger] m.pairs()[a]).0,
                (#[trigger] m.pairs()[b]).0,
            ),
{
    if m@.dom().contains(name) {
        let k = choose|k: int| m.at(k, name);
        assert(m.pairs()[k].0 == name);
    }
    if exists|k: int| 0 <= k < m.pairs().len() && (#[trigger] m.pairs()[k]).0 == name {
        let k = choose|k: int| 0 <= k < m.pairs().len() && (#[trigger] m.pairs()[k]).0 == name;
        assert(m.at(k, name));
    }
    if 0 <= i < m.pairs().len() {
        m.lemma_at(i, m.pairs()[i].0);
    }
    assert forall|a: int, b: int| 0 <= a < b < m.pairs().len() implies lex_less(
        (#[trigger] m.pairs()[a]).0,
        (#[trigger] m.pairs()[b]).0,
    ) by {
        assert(lex_less(m.entries@[a].0@, m.entries@[b].0@));
    }
}

} // verus!
