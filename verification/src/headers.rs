//! HTTP headers by name.
use vstd::prelude::*;

use crate::assoc::{
    assoc_map, distinct_keys, lemma_assoc_absent, lemma_assoc_at, lemma_assoc_push,
    lemma_assoc_update,
};
use crate::text::str_eq;

verus! {

/// The contents of pairs of strings.
pub open spec fn pair_views(s: Seq<(String, String)>) -> Seq<(Seq<char>, Seq<char>)> {
    s.map_values(|p: (String, String)| (p.0@, p.1@))
}

/// Headers, each name at most once.
#[derive(Debug)]
pub struct HeaderMap {
    entries: Vec<(String, String)>,
}

impl View for HeaderMap {
    type V = Map<Seq<char>, Seq<char>>;

    closed spec fn view(&self) -> Map<Seq<char>, Seq<char>> {
        assoc_map(pair_views(self.entries@))
    }
}

impl HeaderMap {
    #[verifier::type_invariant]
    spec fn distinct(self) -> bool {
        distinct_keys(pair_views(self.entries@))
    }

    /// No headers.
    pub fn new() -> (r: HeaderMap)
        ensures
            r@ == Map::<Seq<char>, Seq<char>>::empty(),
    {
        let entries: Vec<(String, String)> = Vec::new();
        assert(assoc_map(pair_views(entries@)) =~= Map::<Seq<char>, Seq<char>>::empty());
        HeaderMap { entries }
    }

    /// Where a name stands, or the number of headers.
    fn find(&self, name: &str) -> (r: usize)
        ensures
            r <= self.entries@.len(),
            r < self.entries@.len() ==> self.entries@[r as int].0@ == name@,
            r == self.entries@.len() ==> forall|i: int|
                0 <= i < self.entries@.len() ==> (#[trigger] self.entries@[i]).0@ != name@,
    {
        let mut i: usize = 0;
        while i < self.entries.len()
            invariant
                i <= self.entries@.len(),
                forall|k: int| 0 <= k < i ==> (#[trigger] self.entries@[k]).0@ != name@,
            decreases self.entries@.len() - i,
        {
            if str_eq(self.entries[i].0.as_str(), name) {
                return i;
            }
            i += 1;
        }
        i
    }

    /// The value of a header.
    pub fn get(&self, name: &str) -> (r: Option<&String>)
        ensures
            r is Some <==> self@.contains_key(name@),
            r matches Some(v) ==> v@ == self@[name@],
    {
        proof {
            use_type_invariant(self);
        }
        let i = self.find(name);
        let ghost v = pair_views(self.entries@);
        if i < self.entries.len() {
            proof {
                lemma_assoc_at(v, i as int);
            }
            Some(&self.entries[i].1)
        } else {
            proof {
                assert forall|k: int| 0 <= k < v.len() implies (#[trigger] v[k]).0 != name@ by {
                    assert(v[k].0 == self.entries@[k].0@);
                }
                lemma_assoc_absent(v, name@);
            }
            None
        }
    }

    /// Sets a header.
    pub fn insert(&mut self, name: String, value: String)
        ensures
            final(self)@ == old(self)@.insert(name@, value@),
    {
        proof {
            use_type_invariant(&*self);
        }
        let i = self.find(name.as_str());
        let mut entries: Vec<(String, String)> = Vec::new();
        std::mem::swap(&mut entries, &mut self.entries);
        let ghost before = entries@;
        let ghost v = pair_views(entries@);
        if i < entries.len() {
            proof {
                lemma_assoc_update(v, i as int, value@);
            }
            entries.set(i, (name, value));
            assert(pair_views(entries@) =~= v.update(i as int, (v[i as int].0, value@)));
        } else {
            proof {
                assert forall|k: int| 0 <= k < v.len() implies (#[trigger] v[k]).0 != name@ by {
                    assert(v[k].0 == before[k].0@);
                }
                lemma_assoc_push(v, name@, value@);
            }
            entries.push((name, value));
            assert(pair_views(entries@) =~= v.push((name@, value@)));
        }
        self.entries = entries;
    }

    /// Sets a header that is not set.
    pub fn insert_if_absent(&mut self, name: &str, value: &str)
        ensures
            final(self)@ == if old(self)@.contains_key(name@) {
                old(self)@
            } else {
                old(self)@.insert(name@, value@)
            },
    {
        if self.get(name).is_none() {
            self.insert(name.to_owned(), value.to_owned());
        }
    }

    /// The headers as pairs of names and values, each name once.
    pub fn pairs(&self) -> (r: &Vec<(String, String)>)
        ensures
            distinct_keys(pair_views(r@)),
            assoc_map(pair_views(r@)) == self@,
    {
        proof {
            use_type_invariant(self);
        }
        &self.entries
    }

    /// A copy.
    pub fn copy(&self) -> (r: HeaderMap)
        ensures
            r@ == self@,
    {
        proof {
            use_type_invariant(self);
        }
        let mut entries: Vec<(String, String)> = Vec::new();
        let mut i: usize = 0;
        while i < self.entries.len()
            invariant
                i <= self.entries@.len(),
                entries@.len() == i,
                forall|k: int|
                    0 <= k < i ==> (#[trigger] entries@[k]).0@ == self.entries@[k].0@
                        && entries@[k].1@ == self.entries@[k].1@,
            decreases self.entries@.len() - i,
        {
            entries.push((self.entries[i].0.clone(), self.entries[i].1.clone()));
            i += 1;
        }
        assert(pair_views(entries@) =~= pair_views(self.entries@));
        HeaderMap { entries }
    }

    /// Sets the headers of another map that are not set.
    pub fn extend_absent(&mut self, other: &HeaderMap)
        ensures
            final(self)@ == other@.union_prefer_right(old(self)@),
    {
        let pairs = other.pairs();
        let ghost v = pair_views(pairs@);
        let mut i: usize = 0;
        assert(assoc_map(v.take(0)) =~= Map::<Seq<char>, Seq<char>>::empty());
        assert(self@ =~= assoc_map(v.take(0)).union_prefer_right(old(self)@));
        while i < pairs.len()
            invariant
                i <= pairs@.len(),
                v == pair_views(pairs@),
                distinct_keys(v),
                self@ == assoc_map(v.take(i as int)).union_prefer_right(old(self)@),
            decreases pairs@.len() - i,
        {
            let ghost t = v.take(i as int);
            let ghost before = self@;
            let name = pairs[i].0.as_str();
            let value = pairs[i].1.as_str();
            self.insert_if_absent(name, value);
            proof {
                assert(v.take(i + 1) =~= t.push((name@, value@)));
                assert forall|k: int| 0 <= k < t.len() implies (#[trigger] t[k]).0 != name@ by {
                    assert(v[k] == t[k] && v[i as int].0 == name@);
                }
                assert forall|a: int, b: int|
                    #![trigger t[a], t[b]]
                    0 <= a < t.len() && 0 <= b < t.len() && t[a].0 == t[b].0 implies a == b by {
                    assert(v[a] == t[a] && v[b] == t[b]);
                }
                lemma_assoc_push(t, name@, value@);
                lemma_assoc_absent(t, name@);
                assert(self@ =~= assoc_map(v.take(i + 1)).union_prefer_right(old(self)@));
            }
            i += 1;
        }
        assert(v.take(i as int) =~= v);
    }
}

/// A header that was set is found with its value; the others are as they were.
pub proof fn law_headers_are_found(
    h: &mut HeaderMap,
    name: String,
    value: String,
    r: (),
    other: &str,
    found: Option<&String>,
)
    requires
        call_ensures(HeaderMap::insert, (h, name, value), r),
        call_ensures(HeaderMap::get, (final(h), other), found),
    ensures
        other@ == name@ ==> (found matches Some(v) && v@ == value@),
        other@ != name@ ==> (found is Some <==> old(h)@.contains_key(other@)),
        other@ != name@ ==> (found matches Some(v) ==> v@ == old(h)@[other@]),
{
}

/// A header that is there keeps its value; one that is absent is added.
pub proof fn law_headers_are_kept(h: &mut HeaderMap, name: &str, value: &str, r: ())
    requires
        call_ensures(HeaderMap::insert_if_absent, (h, name, value), r),
    ensures
        final(h)@.contains_key(name@),
        old(h)@.contains_key(name@) ==> final(h)@ == old(h)@,
        !old(h)@.contains_key(name@) ==> final(h)@[name@] == value@ && final(h)@.remove(name@)
            == old(h)@,
{
    if !old(h)@.contains_key(name@) {
        assert(final(h)@.remove(name@) =~= old(h)@);
    }
}

/// The headers of another list are added where they are absent, and no others.
pub proof fn law_absent_headers_are_added(
    h: &mut HeaderMap,
    other: HeaderMap,
    r: (),
    name: Seq<char>,
)
    requires
        call_ensures(HeaderMap::extend_absent, (h, &other), r),
    ensures
        final(h)@.contains_key(name) <==> old(h)@.contains_key(name) || other@.contains_key(name),
        old(h)@.contains_key(name) ==> final(h)@[name] == old(h)@[name],
        !old(h)@.contains_key(name) && other@.contains_key(name) ==> final(h)@[name]
            == other@[name],
{
}

} // verus!
