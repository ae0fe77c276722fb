//! Association lists keyed by byte-vector names, viewed as maps.
//!
//! Both the runtime environment and the resolver's scope stack keep
//! their bindings as vectors of `(name, value)` pairs with distinct
//! keys; the lemmas here relate the vector operations to the map the
//! list denotes.

use vstd::prelude::*;

use crate::token::bytes_eq;

verus! {

/// Keys of an association list are distinct (as byte sequences).
pub open spec fn assoc_unique<T>(s: Seq<(Vec<u8>, T)>) -> bool {
    forall|i: int, j: int| 0 <= i < j < s.len() ==> s[i].0@ != s[j].0@
}

/// The map an association list denotes.
pub open spec fn assoc_view<T: View>(s: Seq<(Vec<u8>, T)>) -> Map<Seq<u8>, T::V>
    decreases s.len(),
{
    if s.len() == 0 {
        Map::empty()
    } else {
        assoc_view(s.drop_last()).insert(s.last().0@, s.last().1@)
    }
}

pub proof fn lemma_assoc_absent<T: View>(s: Seq<(Vec<u8>, T)>, k: Seq<u8>)
    requires
        forall|i: int| 0 <= i < s.len() ==> s[i].0@ != k,
    ensures
        !assoc_view(s).contains_key(k),
    decreases s.len(),
{
    if s.len() > 0 {
        lemma_assoc_absent(s.drop_last(), k);
    }
}

pub proof fn lemma_assoc_found<T: View>(s: Seq<(Vec<u8>, T)>, i: int)
    requires
        assoc_unique(s),
        0 <= i < s.len(),
    ensures
        assoc_view(s).contains_key(s[i].0@),
        assoc_view(s)[s[i].0@] == s[i].1@,
    decreases s.len(),
{
    if i < s.len() - 1 {
        assert(s.drop_last()[i] == s[i]);
        lemma_assoc_found(s.drop_last(), i);
    }
}

pub proof fn lemma_assoc_update<T: View>(s: Seq<(Vec<u8>, T)>, i: int, p: (Vec<u8>, T))
    requires
        assoc_unique(s),
        0 <= i < s.len(),
        p.0@ == s[i].0@,
    ensures
        assoc_view(s.update(i, p)) == assoc_view(s).insert(p.0@, p.1@),
        assoc_unique(s.update(i, p)),
    decreases s.len(),
{
    let t = s.update(i, p);
    if i == s.len() - 1 {
        assert(t.drop_last() =~= s.drop_last());
        assert(assoc_view(t) =~= assoc_view(s).insert(p.0@, p.1@));
    } else {
        assert(t.drop_last() =~= s.drop_last().update(i, p));
        assert(s.drop_last()[i] == s[i]);
        lemma_assoc_update(s.drop_last(), i, p);
        assert(t.last() == s.last());
        assert(assoc_view(t) == assoc_view(s.drop_last()).insert(p.0@, p.1@).insert(
            s.last().0@,
            s.last().1@,
        ));
        assert(s.last().0@ != p.0@);
        assert(assoc_view(t) =~= assoc_view(s).insert(p.0@, p.1@));
    }
}

/// Finds the index of `name` in an association list.
pub fn assoc_find<T>(s: &Vec<(Vec<u8>, T)>, name: &Vec<u8>) -> (r: Option<usize>)
    ensures
        match r {
            Some(i) => i < s@.len() && s@[i as int].0@ == name@,
            None => forall|i: int| 0 <= i < s@.len() ==> s@[i].0@ != name@,
        },
{
    let mut i: usize = 0;
    while i < s.len()
        invariant
            0 <= i <= s@.len(),
            forall|j: int| 0 <= j < i ==> s@[j].0@ != name@,
        decreases s@.len() - i,
    {
        if bytes_eq(&s[i].0, name) {
            return Some(i);
        }
        i = i + 1;
    }
    None
}

} // verus!
