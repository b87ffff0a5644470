//! The header mapping: lowercased names to values, last occurrence winning,
//! looked up without regard to the casing of the queried name.

use vstd::prelude::*;

use crate::ascii::{bytes_eq, lower, to_lower};

verus! {

/// A header set. Names are stored lowercased; a later insertion under the
/// same name replaces the earlier value.
#[derive(Debug)]
pub struct Headers {
    entries: Vec<(Vec<u8>, Vec<u8>)>,
}

/// The mapping an entry list denotes: each name bound to the value of its
/// last entry.
pub open spec fn map_of(entries: Seq<(Vec<u8>, Vec<u8>)>) -> Map<Seq<u8>, Seq<u8>>
    decreases entries.len(),
{
    if entries.len() == 0 {
        Map::empty()
    } else {
        map_of(entries.drop_last()).insert(entries.last().0@, entries.last().1@)
    }
}

/// The mapping holds a name exactly when some entry carries it.
pub proof fn lemma_map_of_contains(entries: Seq<(Vec<u8>, Vec<u8>)>, k: Seq<u8>)
    ensures
        map_of(entries).contains_key(k) <==> exists|i: int|
            0 <= i < entries.len() && #[trigger] entries[i].0@ == k,
    decreases entries.len(),
{
    if entries.len() > 0 {
        lemma_map_of_contains(entries.drop_last(), k);
        if exists|i: int| 0 <= i < entries.len() - 1 && #[trigger] entries[i].0@ == k {
            let i = choose|i: int| 0 <= i < entries.len() - 1 && #[trigger] entries[i].0@ == k;
            assert(entries.drop_last()[i].0@ == k);
        }
        if map_of(entries).contains_key(k) {
            if entries.last().0@ != k {
                let i = choose|i: int|
                    0 <= i < entries.len() - 1 && #[trigger] entries.drop_last()[i].0@ == k;
                assert(entries[i].0@ == k);
            } else {
                assert(entries[entries.len() - 1].0@ == k);
            }
        }
    }
}

/// The mapping gives a name the value of its last entry.
pub proof fn lemma_map_of_value(entries: Seq<(Vec<u8>, Vec<u8>)>, i: int)
    requires
        0 <= i < entries.len(),
        forall|j: int| i < j < entries.len() ==> (#[trigger] entries[j].0@) != entries[i].0@,
    ensures
        map_of(entries).contains_key(entries[i].0@),
        map_of(entries)[entries[i].0@] == entries[i].1@,
    decreases entries.len(),
{
    if i == entries.len() - 1 {
    } else {
        assert(forall|j: int| i < j < entries.len() - 1 ==> (#[trigger] entries.drop_last()[j].0@)
            != entries.drop_last()[i].0@);
        lemma_map_of_value(entries.drop_last(), i);
    }
}

impl View for Headers {
    type V = Map<Seq<u8>, Seq<u8>>;

    closed spec fn view(&self) -> Map<Seq<u8>, Seq<u8>> {
        map_of(self.entries@)
    }
}

impl Headers {
    /// An empty header set.
    pub fn new() -> (r: Headers)
        ensures
            r@ == Map::<Seq<u8>, Seq<u8>>::empty(),
    {
        Headers { entries: Vec::new() }
    }

    /// Record a header: the name is lowercased, and a value recorded earlier
    /// under the same name is replaced.
    pub fn insert(&mut self, name: &[u8], value: Vec<u8>)
        ensures
            final(self)@ == old(self)@.insert(lower(name@), value@),
    {
        let key = to_lower(name);
        self.entries.push((key, value));
        proof {
            assert(self.entries@.drop_last() =~= old(self).entries@);
        }
    }

    /// Look a name up without regard to its casing: the value stored under
    /// the lowercased form, if any.
    pub fn get(&self, name: &[u8]) -> (r: Option<&Vec<u8>>)
        ensures
            match r {
                Some(v) => self@.contains_key(lower(name@)) && v@ == self@[lower(name@)],
                None => !self@.contains_key(lower(name@)),
            },
    {
        let key = to_lower(name);
        let mut i: usize = self.entries.len();
        while i > 0
            invariant
                i <= self.entries@.len(),
                key@ == lower(name@),
                forall|j: int| i <= j < self.entries@.len() ==> (#[trigger] self.entries@[j].0@)
                    != key@,
            decreases i,
        {
            i = i - 1;
            let e = &self.entries[i];
            if bytes_eq(e.0.as_slice(), key.as_slice()) {
                proof {
                    lemma_map_of_value(self.entries@, i as int);
                }
                return Some(&e.1);
            }
        }
        proof {
            lemma_map_of_contains(self.entries@, key@);
        }
        None
    }

    /// The declared lookup, written over the mapping itself: any casing of a
    /// name finds the value stored under its lowercased form.
    pub open spec fn spec_lookup(m: Map<Seq<u8>, Seq<u8>>, name: Seq<u8>) -> Option<Seq<u8>> {
        if m.contains_key(lower(name)) {
            Some(m[lower(name)])
        } else {
            None
        }
    }

    /// Law: lookup is case-insensitive both ways. Any two casings of the same
    /// name find the same value, and a name is found exactly as its
    /// lowercased form is.
    pub proof fn lemma_lookup_case_insensitive(m: Map<Seq<u8>, Seq<u8>>, a: Seq<u8>, b: Seq<u8>)
        requires
            lower(a) == lower(b),
        ensures
            Self::spec_lookup(m, a) == Self::spec_lookup(m, b),
            Self::spec_lookup(m, a) == Self::spec_lookup(m, lower(a)),
    {
        crate::ascii::lemma_lower_idempotent(a);
    }
}

} // verus!
