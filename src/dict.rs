//! A dictionary from string keys to values, kept as the list of its
//! insertions: a later insertion of a key overrides an earlier one.
use vstd::prelude::*;

verus! {

/// The map that a list of insertions builds, the later ones overriding.
pub open spec fn map_of<V>(ps: Seq<(Seq<char>, V)>) -> Map<Seq<char>, V>
    decreases ps.len(),
{
    if ps.len() == 0 {
        Map::empty()
    } else {
        map_of(ps.drop_last()).insert(ps.last().0, ps.last().1)
    }
}

/// The insertions of `ps` with key other than `k`.
pub open spec fn without_key<V>(ps: Seq<(Seq<char>, V)>, k: Seq<char>) -> Seq<(Seq<char>, V)>
    decreases ps.len(),
{
    if ps.len() == 0 {
        ps
    } else if ps.last().0 == k {
        without_key(ps.drop_last(), k)
    } else {
        without_key(ps.drop_last(), k).push(ps.last())
    }
}

pub proof fn lemma_map_of_absent<V>(ps: Seq<(Seq<char>, V)>, k: Seq<char>)
    requires
        forall|j: int| 0 <= j < ps.len() ==> (#[trigger] ps[j]).0 != k,
    ensures
        !map_of(ps).contains_key(k),
    decreases ps.len(),
{
    if ps.len() > 0 {
        lemma_map_of_absent(ps.drop_last(), k);
    }
}

pub proof fn lemma_map_of_last<V>(ps: Seq<(Seq<char>, V)>, i: int)
    requires
        0 <= i < ps.len(),
        forall|j: int| i < j < ps.len() ==> (#[trigger] ps[j]).0 != ps[i].0,
    ensures
        map_of(ps).contains_key(ps[i].0),
        map_of(ps)[ps[i].0] == ps[i].1,
    decreases ps.len(),
{
    if i < ps.len() - 1 {
        lemma_map_of_last(ps.drop_last(), i);
    }
}

pub proof fn lemma_without_key<V>(ps: Seq<(Seq<char>, V)>, k: Seq<char>)
    ensures
        map_of(without_key(ps, k)) == map_of(ps).remove(k),
    decreases ps.len(),
{
    if ps.len() > 0 {
        lemma_without_key(ps.drop_last(), k);
        let x = ps.last();
        if x.0 == k {
            assert(map_of(ps).remove(k) =~= map_of(ps.drop_last()).remove(k));
        } else {
            let q = without_key(ps.drop_last(), k);
            assert(q.push(x).drop_last() =~= q);
            assert(map_of(without_key(ps, k)) =~= map_of(ps).remove(k));
        }
    }
}

/// A dictionary from string keys to values.
#[derive(Clone, Debug)]
pub struct Dict<V> {
    entries: Vec<(String, V)>,
}

impl<V> View for Dict<V> {
    type V = Map<Seq<char>, V>;

    open spec fn view(&self) -> Map<Seq<char>, V> {
        map_of(self.insertions())
    }
}

impl<V> Dict<V> {
    /// The insertions that built the dictionary, in order.
    pub closed spec fn insertions(&self) -> Seq<(Seq<char>, V)> {
        self.entries@.map_values(|e: (String, V)| (e.0@, e.1))
    }

    /// An empty dictionary.
    pub fn new() -> (r: Self)
        ensures
            r.insertions() == Seq::<(Seq<char>, V)>::empty(),
            r@ == Map::<Seq<char>, V>::empty(),
    {
        let r = Dict { entries: Vec::new() };
        assert(r.insertions() =~= Seq::<(Seq<char>, V)>::empty());
        r
    }

    /// Sets `key` to `value`, overriding what it had.
    pub fn insert(&mut self, key: String, value: V)
        ensures
            final(self).insertions() == old(self).insertions().push((key@, value)),
            final(self)@ == old(self)@.insert(key@, value),
    {
        let ghost k = key@;
        self.entries.push((key, value));
        assert(self.insertions() =~= old(self).insertions().push((k, value)));
        assert(self.insertions().drop_last() =~= old(self).insertions());
    }

    /// The entries, each key with the value of one insertion, in the order
    /// of insertion.
    pub fn entries(&self) -> (r: &Vec<(String, V)>)
        ensures
            r@.map_values(|e: (String, V)| (e.0@, e.1)) == self.insertions(),
    {
        &self.entries
    }

    /// The value of `key`, if it has one.
    pub fn get(&self, key: &str) -> (r: Option<&V>)
        ensures
            match r {
                Some(v) => self@.contains_key(key@) && self@[key@] == *v,
                None => !self@.contains_key(key@),
            },
    {
        let k = key.to_owned();
        let ghost ps = self.insertions();
        let mut i = self.entries.len();
        while i > 0
            invariant
                i <= self.entries.len(),
                ps == self.insertions(),
                k@ == key@,
                forall|j: int| i <= j < ps.len() ==> (#[trigger] ps[j]).0 != key@,
            decreases i,
        {
            i = i - 1;
            if self.entries[i].0 == k {
                proof {
                    assert(ps[i as int].0 == key@);
                    lemma_map_of_last(ps, i as int);
                }
                return Some(&self.entries[i].1);
            }
            assert(ps[i as int].0 != key@);
        }
        proof {
            lemma_map_of_absent(ps, key@);
        }
        None
    }

    /// Removes `key` and gives the value it had, if it had one.
    pub fn remove(&mut self, key: &str) -> (r: Option<V>)
        ensures
            final(self)@ == old(self)@.remove(key@),
            match r {
                Some(v) => old(self)@.contains_key(key@) && old(self)@[key@] == v,
                None => !old(self)@.contains_key(key@),
            },
    {
        let k = key.to_owned();
        let ghost orig = self.insertions();
        let mut found: Option<V> = None;
        let mut i: usize = 0;
        let ghost mut j: int = 0;
        while i < self.entries.len()
            invariant
                0 <= j <= orig.len(),
                k@ == key@,
                orig == old(self).insertions(),
                i == without_key(orig.take(j), key@).len(),
                self.insertions() == without_key(orig.take(j), key@) + orig.skip(j),
                match found {
                    Some(v) => map_of(orig.take(j)).contains_key(key@) && map_of(orig.take(j))[key@]
                        == v,
                    None => !map_of(orig.take(j)).contains_key(key@),
                },
            decreases self.entries.len() - i,
        {
            let ghost cur = self.insertions();
            assert(cur[i as int] == orig[j]);
            assert(orig.take(j + 1).drop_last() =~= orig.take(j));
            assert(orig.take(j + 1).last() == orig[j]);
            if self.entries[i].0 == k {
                let (_, v) = self.entries.remove(i);
                found = Some(v);
                proof {
                    assert(self.insertions() =~= cur.remove(i as int));
                    assert(without_key(orig.take(j + 1), key@) == without_key(orig.take(j), key@));
                    assert(orig.skip(j).subrange(1, orig.skip(j).len() as int) =~= orig.skip(j + 1));
                    j = j + 1;
                    assert(self.insertions() =~= without_key(orig.take(j), key@) + orig.skip(j));
                }
            } else {
                i = i + 1;
                proof {
                    assert(without_key(orig.take(j + 1), key@) == without_key(orig.take(j), key@).push(
                        orig[j],
                    ));
                    assert(orig.skip(j).subrange(1, orig.skip(j).len() as int) =~= orig.skip(j + 1));
                    j = j + 1;
                    assert(self.insertions() =~= without_key(orig.take(j), key@) + orig.skip(j));
                }
            }
        }
        proof {
            assert(orig.take(j) =~= orig) by {
                assert(self.insertions().len() == i);
            }
            lemma_without_key(orig, key@);
            assert(self.insertions() =~= without_key(orig, key@));
        }
        found
    }
}

} // verus!
