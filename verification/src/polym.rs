//! The polymorphic map: for each pattern variable (by canonical id),
//! the set of concrete field types it was unified against, both in
//! insertion order.

use vstd::prelude::*;

use crate::text::text_eq;

verus! {

broadcast use crate::text::lemma_text_deep_view;

/// One entry: a key and its values, in insertion order, without
/// duplicates among the values.
pub struct PolyEntry {
    pub key: Vec<char>,
    pub values: Vec<Vec<char>>,
}

/// Mapping from canonical ids of pattern variables to the canonical
/// ids of the concrete types they were unified with.
pub struct PolymorphicMap {
    pub entries: Vec<PolyEntry>,
}

pub open spec fn entry_view(e: PolyEntry) -> (Seq<char>, Seq<Seq<char>>) {
    (e.key@, e.values.deep_view())
}

pub open spec fn poly_view(m: PolymorphicMap) -> Seq<(Seq<char>, Seq<Seq<char>>)> {
    m.entries@.map(|i: int, e: PolyEntry| entry_view(e))
}

/// The index of the first entry with key `k`, or `-1`.
pub open spec fn find_key(m: Seq<(Seq<char>, Seq<Seq<char>>)>, k: Seq<char>) -> int
    decreases m.len(),
{
    if m.len() == 0 {
        -1
    } else if m[0].0 == k {
        0
    } else {
        let r = find_key(m.drop_first(), k);
        if r < 0 {
            -1
        } else {
            r + 1
        }
    }
}

pub proof fn lemma_find_key_props(m: Seq<(Seq<char>, Seq<Seq<char>>)>, k: Seq<char>)
    ensures
        find_key(m, k) >= 0 ==> find_key(m, k) < m.len() && m[find_key(m, k)].0 == k && forall|
            j: int,
        | 0 <= j < find_key(m, k) ==> m[j].0 != k,
        find_key(m, k) < 0 ==> forall|j: int| 0 <= j < m.len() ==> m[j].0 != k,
    decreases m.len(),
{
    if m.len() > 0 && m[0].0 != k {
        let mt = m.drop_first();
        lemma_find_key_props(mt, k);
        let r = find_key(mt, k);
        if r < 0 {
            assert forall|j: int| 0 <= j < m.len() implies m[j].0 != k by {
                if j > 0 {
                    assert(mt[j - 1] == m[j]);
                }
            }
        } else {
            assert(mt[r] == m[r + 1]);
            assert forall|j: int| 0 <= j < r + 1 implies m[j].0 != k by {
                if j > 0 {
                    assert(mt[j - 1] == m[j]);
                }
            }
        }
    }
}

pub proof fn lemma_find_key_at(m: Seq<(Seq<char>, Seq<Seq<char>>)>, k: Seq<char>, i: int)
    requires
        0 <= i < m.len(),
        m[i].0 == k,
        forall|j: int| 0 <= j < i ==> m[j].0 != k,
    ensures
        find_key(m, k) == i,
{
    lemma_find_key_props(m, k);
    let f = find_key(m, k);
    if f < 0 {
    } else if f < i {
    } else if f > i {
    }
}

/// What one insertion does: a fresh key gains a one-value entry; an
/// existing key gains the value at the end of its set, unless the
/// value is already present.
pub open spec fn poly_insert(
    m: Seq<(Seq<char>, Seq<Seq<char>>)>,
    k: Seq<char>,
    v: Seq<char>,
) -> Seq<(Seq<char>, Seq<Seq<char>>)> {
    let i = find_key(m, k);
    if i < 0 {
        m.push((k, seq![v]))
    } else if m[i].1.contains(v) {
        m
    } else {
        m.update(i, (m[i].0, m[i].1.push(v)))
    }
}

/// The value set of key `k`, if present.
pub open spec fn poly_get(m: Seq<(Seq<char>, Seq<Seq<char>>)>, k: Seq<char>) -> Option<
    Seq<Seq<char>>,
> {
    let i = find_key(m, k);
    if i < 0 {
        None
    } else {
        Some(m[i].1)
    }
}

impl PolymorphicMap {
    /// The empty map.
    pub fn new() -> (r: PolymorphicMap)
        ensures
            poly_view(r) == Seq::<(Seq<char>, Seq<Seq<char>>)>::empty(),
    {
        let r = PolymorphicMap { entries: Vec::new() };
        proof {
            assert(poly_view(r) =~= Seq::<(Seq<char>, Seq<Seq<char>>)>::empty());
        }
        r
    }

    /// The index of the entry whose key is `k`, if any.
    fn find(&self, k: &Vec<char>) -> (r: Option<usize>)
        ensures
            match r {
                Some(i) => find_key(poly_view(*self), k@) == i as int && i < self.entries@.len(),
                None => find_key(poly_view(*self), k@) < 0,
            },
    {
        let mut i: usize = 0;
        let n = self.entries.len();
        while i < n
            invariant
                i <= n,
                n == self.entries@.len(),
                forall|j: int| 0 <= j < i ==> poly_view(*self)[j].0 != k@,
            decreases n - i,
        {
            if text_eq(&self.entries[i].key, k) {
                proof {
                    lemma_find_key_at(poly_view(*self), k@, i as int);
                }
                return Some(i);
            }
            i = i + 1;
        }
        proof {
            lemma_find_key_props(poly_view(*self), k@);
        }
        None
    }

    /// Inserts the pair `k -> v`, as `poly_insert` says.
    pub fn insert(&mut self, k: Vec<char>, v: Vec<char>)
        ensures
            poly_view(*final(self)) == poly_insert(poly_view(*old(self)), k@, v@),
    {
        let ghost m0 = poly_view(*self);
        match self.find(&k) {
            None => {
                let mut values: Vec<Vec<char>> = Vec::new();
                values.push(v);
                proof {
                    assert(values.deep_view() =~= seq![v@]);
                }
                self.entries.push(PolyEntry { key: k, values });
                proof {
                    assert(poly_view(*self) =~= m0.push((k@, seq![v@])));
                }
            },
            Some(i) => {
                let ghost vs0 = poly_view(*self)[i as int].1;
                let mut present = false;
                let n = self.entries[i].values.len();
                let mut j: usize = 0;
                while j < n
                    invariant
                        j <= n,
                        i < self.entries@.len(),
                        n == self.entries@[i as int].values@.len(),
                        vs0 == self.entries@[i as int].values.deep_view(),
                        present ==> vs0.contains(v@),
                        !present ==> forall|q: int| 0 <= q < j ==> vs0[q] != v@,
                    decreases n - j,
                {
                    if !present && text_eq(&self.entries[i].values[j], &v) {
                        present = true;
                        proof {
                            assert(vs0[j as int] == v@);
                        }
                    }
                    j = j + 1;
                }
                if !present {
                    proof {
                        assert(!vs0.contains(v@));
                    }
                    let ghost e0 = self.entries@[i as int];
                    self.entries[i].values.push(v);
                    proof {
                        assert(self.entries@[i as int].values.deep_view() =~= vs0.push(v@));
                        let ghost old_pair = m0[i as int];
                        assert(poly_view(*self) =~= m0.update(
                            i as int,
                            (old_pair.0, old_pair.1.push(v@)),
                        ));
                    }
                }
                proof {
                    if present {
                        assert(poly_view(*self) =~= m0);
                    }
                }
            },
        }
    }

    /// The values recorded under `k`, if any.
    pub fn get<'a>(&'a self, k: &Vec<char>) -> (r: Option<&'a Vec<Vec<char>>>)
        ensures
            match r {
                Some(vs) => poly_get(poly_view(*self), k@) == Some(vs.deep_view()),
                None => poly_get(poly_view(*self), k@) is None,
            },
    {
        match self.find(k) {
            Some(i) => Some(&self.entries[i].values),
            None => None,
        }
    }
}

} // verus!
