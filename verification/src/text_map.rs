//! A small map with text keys.
use crate::text;
use vstd::prelude::*;

verus! {

/// Values by name, each name at most once.
pub struct TextMap<V> {
    entries: Vec<(String, V)>,
}

/// No name occurs twice.
pub open spec fn names_distinct<V>(s: Seq<(String, V)>) -> bool {
    forall|i: int, j: int| 0 <= i < j < s.len() ==> (#[trigger] s[i]).0@ != (#[trigger] s[j]).0@
}

/// The values of a list by name.
pub open spec fn by_name<V>(s: Seq<(String, V)>) -> Map<Seq<char>, V> {
    Map::new(
        |k: Seq<char>| exists|i: int| 0 <= i < s.len() && (#[trigger] s[i]).0@ == k,
        |k: Seq<char>| s[choose|i: int| 0 <= i < s.len() && (#[trigger] s[i]).0@ == k].1,
    )
}

pub proof fn lemma_by_name<V>(s: Seq<(String, V)>, i: int)
    requires
        names_distinct(s),
        0 <= i < s.len(),
    ensures
        by_name(s).contains_key(s[i].0@),
        by_name(s)[s[i].0@] == s[i].1,
{
    let k = s[i].0@;
    let j = choose|j: int| 0 <= j < s.len() && (#[trigger] s[j]).0@ == k;
    assert(s[j].0@ == k);
    if j < i {
        assert(s[j].0@ != s[i].0@);
    } else if i < j {
        assert(s[i].0@ != s[j].0@);
    }
}

/// Two lists with the same names and values hold the same.
pub proof fn lemma_alike<V>(s: Seq<(String, V)>, other: Seq<(String, V)>)
    requires
        names_distinct(s),
        s.len() == other.len(),
        forall|i: int|
            0 <= i < s.len() ==> (#[trigger] other[i]).0@ == s[i].0@ && other[i].1 == s[i].1,
    ensures
        names_distinct(other),
        by_name(other) == by_name(s),
{
    assert forall|i: int, j: int| 0 <= i < j < other.len() implies (#[trigger] other[i]).0@ != (
    #[trigger] other[j]).0@ by {
        assert(s[i].0@ != s[j].0@);
    }
    assert forall|k: Seq<char>| by_name(other).contains_key(k) <==> by_name(s).contains_key(k) by {
        if by_name(other).contains_key(k) {
            let i = choose|i: int| 0 <= i < other.len() && (#[trigger] other[i]).0@ == k;
            lemma_by_name(s, i);
        }
        if by_name(s).contains_key(k) {
            let i = choose|i: int| 0 <= i < s.len() && (#[trigger] s[i]).0@ == k;
            lemma_by_name(other, i);
        }
    }
    assert forall|k: Seq<char>| #[trigger] by_name(s).contains_key(k) implies by_name(other)[k]
        == by_name(s)[k] by {
        let i = choose|i: int| 0 <= i < s.len() && (#[trigger] s[i]).0@ == k;
        lemma_by_name(s, i);
        lemma_by_name(other, i);
    }
    assert(by_name(other) =~= by_name(s));
}

/// Taking one entry out of a list takes it out of the map.
pub proof fn lemma_without<V>(s: Seq<(String, V)>, at: int)
    requires
        names_distinct(s),
        0 <= at < s.len(),
    ensures
        names_distinct(s.remove(at)),
        by_name(s.remove(at)) == by_name(s).remove(s[at].0@),
{
    let after = s.remove(at);
    lemma_by_name(s, at);
    assert(names_distinct(after)) by {
        assert forall|i: int, j: int| 0 <= i < j < after.len() implies (
        #[trigger] after[i]).0@ != (#[trigger] after[j]).0@ by {
            let bi = if i < at {
                i
            } else {
                i + 1
            };
            let bj = if j < at {
                j
            } else {
                j + 1
            };
            assert(s[bi].0@ != s[bj].0@);
        }
    }
    let goal = by_name(s).remove(s[at].0@);
    assert forall|k: Seq<char>| by_name(after).contains_key(k) <==> goal.contains_key(
        k,
    ) by {
        if by_name(after).contains_key(k) {
            let i = choose|i: int|
                0 <= i < after.len() && (#[trigger] after[i]).0@ == k;
            let bi = if i < at {
                i
            } else {
                i + 1
            };
            lemma_by_name(s, bi);
            if bi < at {
                assert(s[bi].0@ != s[at].0@);
            } else {
                assert(s[at].0@ != s[bi].0@);
            }
        }
        if goal.contains_key(k) {
            let i = choose|i: int|
                0 <= i < s.len() && (#[trigger] s[i]).0@ == k;
            lemma_by_name(
                after,
                if i < at {
                    i
                } else {
                    i - 1
                },
            );
        }
    }
    assert forall|k: Seq<char>| #[trigger] goal.contains_key(k) implies by_name(
        after,
    )[k] == goal[k] by {
        let i = choose|i: int| 0 <= i < s.len() && (#[trigger] s[i]).0@ == k;
        lemma_by_name(s, i);
        lemma_by_name(
            after,
            if i < at {
                i
            } else {
                i - 1
            },
        );
    }
    assert(by_name(after) =~= goal);
}

/// Changing one value of a list changes it in the map.
pub proof fn lemma_with_value<V>(s: Seq<(String, V)>, at: int, value: V)
    requires
        names_distinct(s),
        0 <= at < s.len(),
    ensures
        names_distinct(s.update(at, (s[at].0, value))),
        by_name(s.update(at, (s[at].0, value))) == by_name(s).insert(s[at].0@, value),
{
    let after = s.update(at, (s[at].0, value));
    assert forall|i: int, j: int| 0 <= i < j < after.len() implies (#[trigger] after[i]).0@ != (
    #[trigger] after[j]).0@ by {
        assert(s[i].0@ != s[j].0@);
    }
    let goal = by_name(s).insert(s[at].0@, value);
    assert forall|k: Seq<char>| by_name(after).contains_key(k) <==> goal.contains_key(k) by {
        if by_name(after).contains_key(k) {
            let i = choose|i: int| 0 <= i < after.len() && (#[trigger] after[i]).0@ == k;
            lemma_by_name(s, i);
        }
        if goal.contains_key(k) {
            if k == s[at].0@ {
                lemma_by_name(after, at);
            } else {
                let i = choose|i: int| 0 <= i < s.len() && (#[trigger] s[i]).0@ == k;
                lemma_by_name(after, i);
            }
        }
    }
    assert forall|k: Seq<char>| #[trigger] goal.contains_key(k) implies by_name(after)[k]
        == goal[k] by {
        if k == s[at].0@ {
            lemma_by_name(after, at);
        } else {
            let i = choose|i: int| 0 <= i < s.len() && (#[trigger] s[i]).0@ == k;
            lemma_by_name(s, i);
            lemma_by_name(after, i);
        }
    }
    assert(by_name(after) =~= goal);
}

impl<V: Copy> TextMap<V> {
    /// The entries in the order in which their names first came.
    pub closed spec fn list(&self) -> Seq<(String, V)> {
        self.entries@
    }

    pub open spec fn view(&self) -> Map<Seq<char>, V> {
        by_name(self.list())
    }

    pub open spec fn wf(&self) -> bool {
        names_distinct(self.list())
    }

    pub fn new() -> (r: TextMap<V>)
        ensures
            r.wf(),
            r.list().len() == 0,
            (r.view() == Map::<Seq<char>, V>::empty()),
    {
        let r = TextMap { entries: Vec::new() };
        proof {
            assert(r.view() =~= Map::<Seq<char>, V>::empty());
        }
        r
    }

    fn find(&self, name: &str) -> (r: usize)
        requires
            self.wf(),
        ensures
            r <= self.list().len(),
            r < self.list().len() ==> self.list()[r as int].0@ == name@,
            r == self.list().len() ==> !self.view().contains_key(name@),
            r < self.list().len() <==> self.view().contains_key(name@),
    {
        let mut i: usize = 0;
        while i < self.entries.len()
            invariant
                0 <= i <= self.entries@.len(),
                self.wf(),
                forall|j: int| 0 <= j < i ==> (#[trigger] self.entries@[j]).0@ != name@,
            decreases self.entries@.len() - i,
        {
            if text::str_eq(self.entries[i].0.as_str(), name) {
                proof {
                    lemma_by_name(self.list(), i as int);
                }
                return i;
            }
            i = i + 1;
        }
        i
    }

    pub fn get(&self, name: &str) -> (r: Option<V>)
        requires
            self.wf(),
        ensures
            r == (if self.view().contains_key(name@) {
                Some(self.view()[name@])
            } else {
                None
            }),
    {
        let at = self.find(name);
        if at < self.entries.len() {
            proof {
                lemma_by_name(self.list(), at as int);
            }
            Some(self.entries[at].1)
        } else {
            None
        }
    }

    /// Stores a value under a name: in place where the name is known, else at
    /// the end.
    pub fn insert(&mut self, name: &str, value: V)
        requires
            old(self).wf(),
        ensures
            final(self).wf(),
            final(self).view() == old(self).view().insert(name@, value),
            final(self).list().len() == old(self).list().len() + (if old(
                self,
            ).view().contains_key(name@) {
                0int
            } else {
                1int
            }),
    {
        let at = self.find(name);
        let ghost before = self.list();
        if at < self.entries.len() {
            self.entries.set(at, (text::owned(name), value));
        } else {
            self.entries.push((text::owned(name), value));
        }
        proof {
            let after = self.list();
            assert(names_distinct(after)) by {
                assert forall|i: int, j: int| 0 <= i < j < after.len() implies (
                #[trigger] after[i]).0@ != (#[trigger] after[j]).0@ by {
                    if j < before.len() {
                        assert(before[i].0@ != before[j].0@);
                    } else {
                        if before[i].0@ == name@ {
                            lemma_by_name(before, i);
                        }
                    }
                }
            }
            let goal = by_name(before).insert(name@, value);
            assert forall|k: Seq<char>| by_name(after).contains_key(k) <==> goal.contains_key(
                k,
            ) by {
                if by_name(after).contains_key(k) {
                    let i = choose|i: int| 0 <= i < after.len() && (#[trigger] after[i]).0@ == k;
                    if i < before.len() {
                        lemma_by_name(before, i);
                    }
                }
                if goal.contains_key(k) {
                    if k == name@ {
                        lemma_by_name(after, at as int);
                    } else {
                        let i = choose|i: int|
                            0 <= i < before.len() && (#[trigger] before[i]).0@ == k;
                        lemma_by_name(after, i);
                    }
                }
            }
            assert forall|k: Seq<char>| #[trigger] goal.contains_key(k) implies by_name(after)[k]
                == goal[k] by {
                if k == name@ {
                    lemma_by_name(after, at as int);
                } else {
                    let i = choose|i: int| 0 <= i < before.len() && (#[trigger] before[i]).0@ == k;
                    lemma_by_name(before, i);
                    lemma_by_name(after, i);
                }
            }
            assert(by_name(after) =~= goal);
        }
    }

    /// The value of a name, which starts as `fresh`.
    pub fn entry(&mut self, name: &str, fresh: V) -> (r: &mut V)
        requires
            old(self).wf(),
        ensures
            final(self).wf(),
            *r == (if old(self).view().contains_key(name@) {
                old(self).view()[name@]
            } else {
                fresh
            }),
            final(self).view() == old(self).view().insert(name@, *final(r)),
    {
        let ghost start = self.view();
        if self.get(name).is_none() {
            self.insert(name, fresh);
        }
        let at = self.find(name);
        let ghost list = self.list();
        let r = &mut self.entries[at].1;
        proof {
            lemma_by_name(list, at as int);
            lemma_with_value(list, at as int, *final(r));
            assert(by_name(list).insert(name@, *final(r)) =~= start.insert(name@, *final(r)));
        }
        r
    }

    /// Takes a name out, where it is known.
    pub fn remove(&mut self, name: &str)
        requires
            old(self).wf(),
        ensures
            final(self).wf(),
            final(self).view() == old(self).view().remove(name@),
    {
        let at = self.find(name);
        let ghost before = self.list();
        if at < self.entries.len() {
            let _gone = self.entries.remove(at);
            proof {
                lemma_without(before, at as int);
                assert(self.list() =~= before.remove(at as int));
            }
        } else {
            proof {
                assert(self.view() =~= by_name(before).remove(name@));
            }
        }
    }

    pub fn clear(&mut self)
        ensures
            final(self).wf(),
            final(self).list().len() == 0,
            (final(self).view() == Map::<Seq<char>, V>::empty()),
    {
        self.entries.clear();
        proof {
            assert(self.view() =~= Map::<Seq<char>, V>::empty());
        }
    }

    pub fn len(&self) -> (r: usize)
        ensures
            r == self.list().len(),
    {
        self.entries.len()
    }

    /// Whether no name is known.
    pub fn is_empty(&self) -> (r: bool)
        requires
            self.wf(),
        ensures
            r == (self.view() == Map::<Seq<char>, V>::empty()),
    {
        proof {
            if self.list().len() == 0 {
                assert(self.view() =~= Map::<Seq<char>, V>::empty());
            } else {
                lemma_by_name(self.list(), 0);
            }
        }
        self.entries.len() == 0
    }

    /// All entries, in the order in which their names were first added.
    pub fn to_vec(&self) -> (r: Vec<(String, V)>)
        requires
            self.wf(),
        ensures
            names_distinct(r@),
            by_name(r@) == self.view(),
    {
        let mut out: Vec<(String, V)> = Vec::new();
        let mut i: usize = 0;
        while i < self.entries.len()
            invariant
                i <= self.entries@.len(),
                out@.len() == i,
                forall|j: int|
                    0 <= j < i ==> (#[trigger] out@[j]).0@ == self.entries@[j].0@ && out@[j].1
                        == self.entries@[j].1,
            decreases self.entries@.len() - i,
        {
            out.push((text::owned(self.entries[i].0.as_str()), self.entries[i].1));
            i = i + 1;
        }
        proof {
            lemma_alike(self.list(), out@);
        }
        out
    }

    /// The name and value of one entry.
    pub fn entry_at(&self, i: usize) -> (r: (&str, V))
        requires
            i < self.list().len(),
        ensures
            r.0@ == self.list()[i as int].0@,
            r.1 == self.list()[i as int].1,
    {
        (self.entries[i].0.as_str(), self.entries[i].1)
    }
}

} // verus!
