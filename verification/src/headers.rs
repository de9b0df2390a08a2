//! A map from header names to header values, keyed by the full text of the name.
//!
//! Entries are kept in a vector in which no name occurs twice; the map seen by
//! the specifications is the fold of the entries in insertion order.
use vstd::prelude::*;

use crate::text::str_eq;

verus! {

/// The map formed by inserting the pairs of `s` in order (a later pair wins).
pub open spec fn pairs_map(s: Seq<(String, String)>) -> Map<Seq<char>, Seq<char>>
    decreases s.len(),
{
    if s.len() == 0 {
        Map::empty()
    } else {
        pairs_map(s.drop_last()).insert(s.last().0@, s.last().1@)
    }
}

/// No name occurs twice among the pairs of `s`.
pub open spec fn distinct_names(s: Seq<(String, String)>) -> bool {
    forall|i: int, j: int| 0 <= i < s.len() && 0 <= j < s.len() && i != j ==> s[i].0@ != s[j].0@
}

/// A name occurs in the map exactly when some pair holds it.
pub proof fn lemma_pairs_map_dom(s: Seq<(String, String)>, k: Seq<char>)
    ensures
        pairs_map(s).dom().contains(k) <==> exists|i: int| 0 <= i < s.len() && s[i].0@ == k,
    decreases s.len(),
{
    if s.len() > 0 {
        lemma_pairs_map_dom(s.drop_last(), k);
        if pairs_map(s).dom().contains(k) && s.last().0@ != k {
            let i = choose|i: int| 0 <= i < s.len() - 1 && s.drop_last()[i].0@ == k;
            assert(s[i].0@ == k);
        }
        if exists|i: int| 0 <= i < s.len() && s[i].0@ == k {
            let i = choose|i: int| 0 <= i < s.len() && s[i].0@ == k;
            if i < s.len() - 1 {
                assert(s.drop_last()[i].0@ == k);
            }
        }
    }
}

/// With distinct names, the value stored under the name of pair `i` is its value.
pub proof fn lemma_pairs_map_at(s: Seq<(String, String)>, i: int)
    requires
        distinct_names(s),
        0 <= i < s.len(),
    ensures
        pairs_map(s).dom().contains(s[i].0@),
        pairs_map(s)[s[i].0@] == s[i].1@,
    decreases s.len(),
{
    if i < s.len() - 1 {
        assert(distinct_names(s.drop_last()));
        lemma_pairs_map_at(s.drop_last(), i);
        assert(s.last().0@ != s[i].0@);
    }
}

/// With distinct names, replacing the value of pair `i` is a map insertion.
pub proof fn lemma_pairs_map_update(s: Seq<(String, String)>, i: int, p: (String, String))
    requires
        distinct_names(s),
        0 <= i < s.len(),
        p.0@ == s[i].0@,
    ensures
        pairs_map(s.update(i, p)) == pairs_map(s).insert(p.0@, p.1@),
        distinct_names(s.update(i, p)),
    decreases s.len(),
{
    let t = s.update(i, p);
    if i == s.len() - 1 {
        assert(t.drop_last() == s.drop_last());
        assert(pairs_map(t) =~= pairs_map(s).insert(p.0@, p.1@));
    } else {
        assert(distinct_names(s.drop_last()));
        lemma_pairs_map_update(s.drop_last(), i, p);
        assert(t.drop_last() == s.drop_last().update(i, p));
        assert(s.last().0@ != p.0@);
        assert(pairs_map(t) =~= pairs_map(s).insert(p.0@, p.1@));
    }
}

/// A map from header names to values.
#[derive(Debug)]
pub struct Headers {
    entries: Vec<(String, String)>,
}

impl View for Headers {
    type V = Map<Seq<char>, Seq<char>>;

    /// The name-to-value map.
    closed spec fn view(&self) -> Map<Seq<char>, Seq<char>> {
        pairs_map(self.entries@)
    }
}

impl Headers {
    #[verifier::type_invariant]
    spec fn names_distinct(self) -> bool {
        distinct_names(self.entries@)
    }

    /// An empty map.
    pub fn new() -> (h: Headers)
        ensures
            h.view() == Map::<Seq<char>, Seq<char>>::empty(),
    {
        Headers { entries: Vec::new() }
    }

    /// Position of `name` among the entries.
    fn position(&self, name: &str) -> (r: Option<usize>)
        ensures
            match r {
                Some(i) => i < self.entries.len() && self.entries@[i as int].0@ == name@,
                None => forall|i: int|
                    0 <= i < self.entries.len() ==> self.entries@[i].0@ != name@,
            },
    {
        let mut i: usize = 0;
        while i < self.entries.len()
            invariant
                0 <= i <= self.entries.len(),
                forall|j: int| 0 <= j < i ==> self.entries@[j].0@ != name@,
            decreases self.entries.len() - i,
        {
            if str_eq(self.entries[i].0.as_str(), name) {
                return Some(i);
            }
            i = i + 1;
        }
        None
    }

    /// Sets the value of `name` to `value` (`HashMap::insert`).
    pub fn insert(&mut self, name: String, value: String)
        ensures
            final(self).view() == old(self).view().insert(name@, value@),
    {
        proof {
            use_type_invariant(&*self);
        }
        match self.position(name.as_str()) {
            Some(i) => {
                let ghost old_entries = self.entries@;
                let mut entries = Vec::new();
                std::mem::swap(&mut entries, &mut self.entries);
                proof {
                    lemma_pairs_map_update(old_entries, i as int, (name, value));
                }
                entries.set(i, (name, value));
                assert(entries@ == old_entries.update(i as int, (name, value)));
                self.entries = entries;
            },
            None => {
                let ghost old_entries = self.entries@;
                let mut entries = Vec::new();
                std::mem::swap(&mut entries, &mut self.entries);
                entries.push((name, value));
                assert(entries@.drop_last() == old_entries);
                assert(distinct_names(entries@));
                self.entries = entries;
            },
        }
    }

    /// The value stored under `name`, if any.
    pub fn get(&self, name: &str) -> (r: Option<String>)
        ensures
            match r {
                Some(v) => self.view().dom().contains(name@) && self.view()[name@] == v@,
                None => !self.view().dom().contains(name@),
            },
    {
        proof {
            use_type_invariant(self);
        }
        match self.position(name) {
            Some(i) => {
                proof {
                    lemma_pairs_map_at(self.entries@, i as int);
                }
                Some(self.entries[i].1.clone())
            },
            None => {
                proof {
                    lemma_pairs_map_dom(self.entries@, name@);
                }
                None
            },
        }
    }

    /// The number of names in the map.
    pub fn len(&self) -> (n: usize)
        ensures
            n == self.view().dom().len(),
    {
        proof {
            use_type_invariant(self);
            lemma_pairs_map_len(self.entries@);
        }
        self.entries.len()
    }

    /// The pairs of the map, each name once, in insertion order.
    pub fn pairs(&self) -> (r: Vec<(String, String)>)
        ensures
            pairs_map(r@) == self.view(),
            distinct_names(r@),
            r.len() == self.view().dom().len(),
    {
        proof {
            use_type_invariant(self);
            lemma_pairs_map_len(self.entries@);
        }
        let mut r: Vec<(String, String)> = Vec::new();
        let mut i: usize = 0;
        while i < self.entries.len()
            invariant
                0 <= i <= self.entries.len(),
                r@ == self.entries@.take(i as int),
            decreases self.entries.len() - i,
        {
            let p = (self.entries[i].0.clone(), self.entries[i].1.clone());
            r.push(p);
            assert(r@ =~= self.entries@.take(i + 1));
            i = i + 1;
        }
        assert(self.entries@.take(self.entries.len() as int) =~= self.entries@);
        r
    }

    /// Inserts every pair of `other`, its values winning over this map's
    /// (`for (k, v) in other { self.insert(k, v) }`).
    pub fn extend_from(&mut self, other: &Headers)
        ensures
            final(self).view() == old(self).view().union_prefer_right(other.view()),
    {
        let ps = other.pairs();
        let mut i: usize = 0;
        while i < ps.len()
            invariant
                0 <= i <= ps.len(),
                pairs_map(ps@) == other.view(),
                self.view() == old(self).view().union_prefer_right(pairs_map(ps@.take(i as int))),
            decreases ps.len() - i,
        {
            let (k, v) = (ps[i].0.clone(), ps[i].1.clone());
            let ghost before = self.view();
            self.insert(k, v);
            proof {
                let t = ps@.take(i + 1);
                assert(t.drop_last() == ps@.take(i as int));
                assert(self.view() =~= old(self).view().union_prefer_right(pairs_map(t)));
            }
            i = i + 1;
        }
        assert(ps@.take(ps.len() as int) =~= ps@);
    }
}

impl Clone for Headers {
    /// A copy with the same names and values.
    fn clone(&self) -> (r: Self)
        ensures
            r@ == self@,
    {
        proof {
            use_type_invariant(self);
        }
        Headers { entries: self.pairs() }
    }
}

/// Reading a name after setting it gives the value set, and the other names
/// keep their values.
pub proof fn lemma_get_after_insert(
    m: Map<Seq<char>, Seq<char>>,
    name: Seq<char>,
    value: Seq<char>,
    other: Seq<char>,
)
    requires
        other != name,
    ensures
        m.insert(name, value).dom().contains(name),
        m.insert(name, value)[name] == value,
        m.insert(name, value).dom().contains(other) == m.dom().contains(other),
        m.dom().contains(other) ==> m.insert(name, value)[other] == m[other],
{
}

/// The map of a finite sequence of pairs is finite.
pub proof fn lemma_pairs_map_finite(s: Seq<(String, String)>)
    ensures
        pairs_map(s).dom().finite(),
    decreases s.len(),
{
    if s.len() > 0 {
        lemma_pairs_map_finite(s.drop_last());
    }
}

/// With distinct names, the map has one name per pair.
pub proof fn lemma_pairs_map_len(s: Seq<(String, String)>)
    requires
        distinct_names(s),
    ensures
        pairs_map(s).dom().len() == s.len(),
        pairs_map(s).dom().finite(),
    decreases s.len(),
{
    lemma_pairs_map_finite(s);
    if s.len() > 0 {
        assert(distinct_names(s.drop_last()));
        lemma_pairs_map_len(s.drop_last());
        lemma_pairs_map_dom(s.drop_last(), s.last().0@);
        if pairs_map(s.drop_last()).dom().contains(s.last().0@) {
            let i = choose|i: int|
                0 <= i < s.drop_last().len() && s.drop_last()[i].0@ == s.last().0@;
            assert(s[i].0@ == s[s.len() - 1].0@);
        }
    }
}

} // verus!
