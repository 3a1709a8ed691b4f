//! Nested name scopes: a stack of levels, each binding names to values at
//! most once. Lookup goes from the innermost level outwards.

use vstd::prelude::*;
use crate::ir::value::ValuePtr;

verus! {

/// The bindings of one level, as a map from names.
pub open spec fn level_map(l: Seq<(String, ValuePtr)>) -> Map<Seq<char>, ValuePtr>
    decreases l.len(),
{
    if l.len() == 0 {
        Map::empty()
    } else {
        level_map(l.drop_last()).insert(l.last().0@, l.last().1)
    }
}

/// No name is bound twice in the level.
pub open spec fn level_distinct(l: Seq<(String, ValuePtr)>) -> bool {
    forall|i: int, j: int| 0 <= i < l.len() && 0 <= j < l.len() && i != j ==> (#[trigger] l[i]).0@ != (#[trigger] l[j]).0@
}

/// The value `name` is bound to in the innermost of `levels` that binds it.
pub open spec fn lookup(levels: Seq<Map<Seq<char>, ValuePtr>>, name: Seq<char>) -> Option<ValuePtr>
    decreases levels.len(),
{
    if levels.len() == 0 {
        None
    } else if levels.last().contains_key(name) {
        Some(levels.last()[name])
    } else {
        lookup(levels.drop_last(), name)
    }
}

pub proof fn lemma_level_map_keys(l: Seq<(String, ValuePtr)>, name: Seq<char>)
    requires
        level_distinct(l),
    ensures
        level_map(l).contains_key(name) <==> exists|k: int| 0 <= k < l.len() && (#[trigger] l[k]).0@ == name,
        forall|k: int| 0 <= k < l.len() && (#[trigger] l[k]).0@ == name ==> level_map(l)[name] == l[k].1,
    decreases l.len(),
{
    if l.len() > 0 {
        let p = l.drop_last();
        assert(level_distinct(p)) by {
            assert forall|i: int, j: int| 0 <= i < p.len() && 0 <= j < p.len() && i != j implies (#[trigger] p[i]).0@
                != (#[trigger] p[j]).0@ by {
                assert(p[i] == l[i] && p[j] == l[j]);
            }
        }
        lemma_level_map_keys(p, name);
        if exists|k: int| 0 <= k < l.len() && (#[trigger] l[k]).0@ == name {
            let k = choose|k: int| 0 <= k < l.len() && (#[trigger] l[k]).0@ == name;
            if k < l.len() - 1 {
                assert(p[k] == l[k]);
            }
        }
        if level_map(l).contains_key(name) && l.last().0@ != name {
            let k = choose|k: int| 0 <= k < p.len() && (#[trigger] p[k]).0@ == name;
            assert(l[k] == p[k]);
        }
        assert forall|k: int| 0 <= k < l.len() && (#[trigger] l[k]).0@ == name implies level_map(l)[name] == l[k].1 by {
            if k < l.len() - 1 {
                assert(p[k] == l[k]);
                assert(l[k].0@ != l[l.len() - 1].0@);
            }
        }
    }
}

/// The scope stack.
pub struct Scope {
    pub container: Vec<Vec<(String, ValuePtr)>>,
}

impl Scope {
    /// The levels, outermost first.
    pub open spec fn levels(&self) -> Seq<Map<Seq<char>, ValuePtr>> {
        self.container@.map_values(|l: Vec<(String, ValuePtr)>| level_map(l@))
    }

    /// Every level binds each name at most once.
    pub open spec fn wf(&self) -> bool {
        forall|k: int| 0 <= k < self.container@.len() ==> level_distinct(#[trigger] self.container@[k]@)
    }

    /// A scope with one empty level.
    pub fn new() -> (r: Self)
        ensures
            r.wf(),
            r.levels() == seq![Map::<Seq<char>, ValuePtr>::empty()],
    {
        let mut res = Scope { container: Vec::new() };
        res.enter();
        assert(res.levels() =~= seq![Map::<Seq<char>, ValuePtr>::empty()]);
        res
    }

    /// Opens an empty innermost level.
    pub fn enter(&mut self)
        requires
            old(self).wf(),
        ensures
            final(self).wf(),
            final(self).levels() == old(self).levels().push(Map::empty()),
    {
        let ghost c0 = self.container@;
        self.container.push(Vec::new());
        assert(self.levels() =~= old(self).levels().push(Map::empty())) by {
            assert(level_map(Seq::<(String, ValuePtr)>::empty()) =~= Map::empty());
        }
        assert forall|k: int| 0 <= k < self.container@.len() implies level_distinct(#[trigger] self.container@[k]@) by {
            if k < c0.len() {
                assert(self.container@[k] == c0[k]);
            }
        }
    }

    /// Drops the innermost level (if there is one).
    pub fn exit(&mut self)
        requires
            old(self).wf(),
        ensures
            final(self).wf(),
            final(self).levels() == if old(self).levels().len() == 0 {
                old(self).levels()
            } else {
                old(self).levels().drop_last()
            },
    {
        let _ = self.container.pop();
        assert(self.levels() =~= if old(self).levels().len() == 0 {
            old(self).levels()
        } else {
            old(self).levels().drop_last()
        });
    }

    /// The number of levels.
    pub fn depth(&self) -> (r: usize)
        ensures
            r == self.levels().len(),
    {
        self.container.len()
    }

    /// The value `name` is bound to, innermost level first.
    pub fn find(&self, name: &String) -> (r: Option<ValuePtr>)
        requires
            self.wf(),
        ensures
            r == lookup(self.levels(), name@),
    {
        let n = self.container.len();
        let mut i: usize = n;
        assert(self.levels().take(n as int) =~= self.levels());
        while i > 0
            invariant
                self.wf(),
                n == self.container@.len(),
                n == self.levels().len(),
                0 <= i <= n,
                lookup(self.levels(), name@) == lookup(self.levels().take(i as int), name@),
            decreases i,
        {
            let level = &self.container[i - 1];
            proof {
                assert(self.levels().take(i as int).drop_last() =~= self.levels().take(i - 1));
                assert(self.levels().take(i as int).last() == level_map(level@));
                assert(level_distinct(self.container@[i - 1]@));
                lemma_level_map_keys(level@, name@);
            }
            let m = level.len();
            let mut j: usize = 0;
            while j < m
                invariant
                    m == level@.len(),
                    0 <= j <= m,
                    0 < i <= n,
                    level_distinct(level@),
                    lookup(self.levels(), name@) == lookup(self.levels().take(i as int), name@),
                    self.levels().take(i as int).last() == level_map(level@),
                    self.levels().take(i as int).len() == i,
                    forall|k: int| 0 <= k < j ==> (#[trigger] level@[k]).0@ != name@,
                decreases m - j,
            {
                if level[j].0 == *name {
                    proof {
                        lemma_level_map_keys(level@, name@);
                        assert(level@[j as int].0@ == name@);
                    }
                    return Some(level[j].1);
                }
                j = j + 1;
            }
            assert(!level_map(level@).contains_key(name@));
            i = i - 1;
        }
        assert(self.levels().take(0) =~= Seq::<Map<Seq<char>, ValuePtr>>::empty());
        None
    }

    /// Binds `name` to `val` in the innermost level, unless that level binds
    /// it already; tells whether it did.
    pub fn add(&mut self, name: &String, val: ValuePtr) -> (r: bool)
        requires
            old(self).wf(),
            old(self).levels().len() >= 1,
        ensures
            final(self).wf(),
            r == !old(self).levels().last().contains_key(name@),
            final(self).levels() == if r {
                old(self).levels().update(
                    old(self).levels().len() - 1,
                    old(self).levels().last().insert(name@, val),
                )
            } else {
                old(self).levels()
            },
    {
        let ghost c0 = self.container@;
        let last = self.container.len() - 1;
        let ghost l0 = c0[last as int]@;
        proof {
            assert(level_distinct(c0[last as int]@));
            lemma_level_map_keys(l0, name@);
            assert(old(self).levels().last() == level_map(l0));
        }
        let m = self.container[last].len();
        let mut j: usize = 0;
        while j < m
            invariant
                self.container@ == c0,
                self.wf(),
                old(self).levels().last() == level_map(l0),
                level_distinct(l0),
                last == c0.len() - 1,
                l0 == c0[last as int]@,
                m == l0.len(),
                0 <= j <= m,
                forall|k: int| 0 <= k < j ==> (#[trigger] l0[k]).0@ != name@,
            decreases m - j,
        {
            if self.container[last][j].0 == *name {
                proof {
                    assert(l0[j as int].0@ == name@);
                    lemma_level_map_keys(l0, name@);
                }
                return false;
            }
            j = j + 1;
        }
        let mut level = self.container.pop().unwrap();
        let key = name.clone();
        level.push((key, val));
        self.container.push(level);
        proof {
            let l1 = self.container@[last as int]@;
            assert(l1 == l0.push((key, val)));
            assert(l1.drop_last() =~= l0);
            assert(level_distinct(l1)) by {
                assert forall|a: int, b: int| 0 <= a < l1.len() && 0 <= b < l1.len() && a != b implies (#[trigger] l1[a]).0@
                    != (#[trigger] l1[b]).0@ by {
                    if a < l0.len() && b < l0.len() {
                        assert(l1[a] == l0[a] && l1[b] == l0[b]);
                    } else if a < l0.len() {
                        assert(l1[a] == l0[a]);
                    } else {
                        assert(l1[b] == l0[b]);
                    }
                }
            }
            assert forall|k: int| 0 <= k < self.container@.len() implies level_distinct(#[trigger] self.container@[k]@) by {
                if k < last {
                    assert(self.container@[k] == c0[k]);
                }
            }
            assert(self.levels() =~= old(self).levels().update(
                old(self).levels().len() - 1,
                old(self).levels().last().insert(name@, val),
            ));
        }
        true
    }
}

/// A binding made by `add` is what `find` then gives, and other names are
/// looked up as before.
pub proof fn lemma_find_after_add(levels: Seq<Map<Seq<char>, ValuePtr>>, name: Seq<char>, val: ValuePtr, other: Seq<char>)
    requires
        levels.len() >= 1,
    ensures
        lookup(levels.update(levels.len() - 1, levels.last().insert(name, val)), name) == Some(val),
        other != name ==> lookup(levels.update(levels.len() - 1, levels.last().insert(name, val)), other) == lookup(
            levels,
            other,
        ),
{
    let l2 = levels.update(levels.len() - 1, levels.last().insert(name, val));
    assert(l2.drop_last() =~= levels.drop_last());
}

/// A binding in a freshly entered level hides the outer bindings of the
/// name, and leaving the level brings them back.
pub proof fn lemma_shadow_and_exit(levels: Seq<Map<Seq<char>, ValuePtr>>, name: Seq<char>, val: ValuePtr)
    ensures
        ({
            let inner = levels.push(Map::empty());
            let bound = inner.update(inner.len() - 1, inner.last().insert(name, val));
            &&& lookup(bound, name) == Some(val)
            &&& bound.drop_last() == levels
        }),
{
    let inner = levels.push(Map::empty());
    let bound = inner.update(inner.len() - 1, inner.last().insert(name, val));
    assert(bound.drop_last() =~= levels);
}

} // verus!
