//! Records kept in a list by their textual identifier, with no identifier
//! twice: the list stands for the map from identifiers to records.
use vstd::prelude::*;
use crate::text::{chars_of, seq_eq};

verus! {

/// A record that carries its own identifier.
pub trait Keyed: View + Sized {
    spec fn key(&self) -> Seq<char>;

    fn key_str(&self) -> (res: &str)
        ensures
            res@ == self.key();
}

/// The map that list `s` stands for (a later record wins).
pub open spec fn keyed_map<T: Keyed>(s: Seq<T>) -> Map<Seq<char>, T::V>
    decreases s.len(),
{
    if s.len() == 0 {
        Map::empty()
    } else {
        keyed_map(s.drop_last()).insert(s.last().key(), s.last()@)
    }
}

/// No identifier occurs twice.
pub open spec fn keys_unique<T: Keyed>(s: Seq<T>) -> bool {
    forall|i: int, j: int| 0 <= i < j < s.len() ==> (#[trigger] s[i]).key() != (#[trigger] s[j]).key()
}

pub proof fn lemma_keyed_lookup<T: Keyed>(s: Seq<T>, k: Seq<char>)
    requires
        keys_unique(s),
    ensures
        keyed_map(s).contains_key(k) <==> exists|i: int| 0 <= i < s.len() && (#[trigger] s[i]).key() == k,
        forall|i: int| 0 <= i < s.len() && (#[trigger] s[i]).key() == k ==> keyed_map(s)[k] == s[i]@,
    decreases s.len(),
{
    if s.len() > 0 {
        let t = s.drop_last();
        assert(keys_unique(t)) by {
            assert forall|a: int, b: int| 0 <= a < b < t.len() implies (#[trigger] t[a]).key() != (#[trigger] t[b]).key() by {
                assert(t[a] == s[a] && t[b] == s[b]);
            }
        }
        lemma_keyed_lookup(t, k);
        if keyed_map(s).contains_key(k) {
            if s.last().key() != k {
                let i = choose|i: int| 0 <= i < t.len() && (#[trigger] t[i]).key() == k;
                assert(s[i] == t[i]);
            } else {
                assert(s[s.len() - 1] == s.last());
            }
        }
        assert forall|i: int| 0 <= i < s.len() && (#[trigger] s[i]).key() == k implies keyed_map(s)[k] == s[i]@ by {
            if i < s.len() - 1 {
                assert(t[i] == s[i]);
                assert(s[i].key() != s[s.len() - 1].key());
            }
        }
        assert((exists|i: int| 0 <= i < s.len() && (#[trigger] s[i]).key() == k) ==> keyed_map(s).contains_key(k)) by {
            if exists|i: int| 0 <= i < s.len() && (#[trigger] s[i]).key() == k {
                let i = choose|i: int| 0 <= i < s.len() && (#[trigger] s[i]).key() == k;
                if i < s.len() - 1 {
                    assert(t[i] == s[i]);
                }
            }
        }
    }
}

pub proof fn lemma_keyed_update<T: Keyed>(s: Seq<T>, i: int, x: T)
    requires
        keys_unique(s),
        0 <= i < s.len(),
        x.key() == s[i].key(),
    ensures
        keys_unique(s.update(i, x)),
        keyed_map(s.update(i, x)) == keyed_map(s).insert(x.key(), x@),
    decreases s.len(),
{
    let u = s.update(i, x);
    assert(keys_unique(u)) by {
        assert forall|a: int, b: int| 0 <= a < b < u.len() implies (#[trigger] u[a]).key() != (#[trigger] u[b]).key() by {
            assert(u[a].key() == s[a].key());
            assert(u[b].key() == s[b].key());
        }
    }
    let t = s.drop_last();
    assert(keys_unique(t)) by {
        assert forall|a: int, b: int| 0 <= a < b < t.len() implies (#[trigger] t[a]).key() != (#[trigger] t[b]).key() by {
            assert(t[a] == s[a] && t[b] == s[b]);
        }
    }
    if i == s.len() - 1 {
        assert(u.drop_last() =~= t);
        assert forall|k| #[trigger] keyed_map(t).contains_key(k) implies k != x.key() by {
            lemma_keyed_lookup(t, k);
            let j = choose|j: int| 0 <= j < t.len() && (#[trigger] t[j]).key() == k;
            assert(s[j] == t[j]);
        }
        assert(keyed_map(u) =~= keyed_map(s).insert(x.key(), x@));
    } else {
        lemma_keyed_update(t, i, x);
        assert(u.drop_last() =~= t.update(i, x));
        assert(s.last() == s[s.len() - 1]);
        assert(s.last().key() != s[i].key());
        assert(keyed_map(u) =~= keyed_map(s).insert(x.key(), x@));
    }
}

pub proof fn lemma_keyed_push<T: Keyed>(s: Seq<T>, x: T)
    requires
        keys_unique(s),
        !keyed_map(s).contains_key(x.key()),
    ensures
        keys_unique(s.push(x)),
        keyed_map(s.push(x)) == keyed_map(s).insert(x.key(), x@),
{
    let u = s.push(x);
    assert(u.drop_last() =~= s);
    assert forall|a: int, b: int| 0 <= a < b < u.len() implies (#[trigger] u[a]).key() != (#[trigger] u[b]).key() by {
        if b == u.len() - 1 {
            lemma_keyed_lookup(s, x.key());
            assert(u[a] == s[a]);
        } else {
            assert(u[a] == s[a] && u[b] == s[b]);
        }
    }
}

pub proof fn lemma_keyed_remove<T: Keyed>(s: Seq<T>, i: int)
    requires
        keys_unique(s),
        0 <= i < s.len(),
    ensures
        keys_unique(s.remove(i)),
        keyed_map(s.remove(i)) == keyed_map(s).remove(s[i].key()),
    decreases s.len(),
{
    let u = s.remove(i);
    assert(keys_unique(u)) by {
        assert forall|a: int, b: int| 0 <= a < b < u.len() implies (#[trigger] u[a]).key() != (#[trigger] u[b]).key() by {
            let a2 = if a < i { a } else { a + 1 };
            let b2 = if b < i { b } else { b + 1 };
            assert(u[a] == s[a2] && u[b] == s[b2]);
        }
    }
    let t = s.drop_last();
    assert(keys_unique(t)) by {
        assert forall|a: int, b: int| 0 <= a < b < t.len() implies (#[trigger] t[a]).key() != (#[trigger] t[b]).key() by {
            assert(t[a] == s[a] && t[b] == s[b]);
        }
    }
    if i == s.len() - 1 {
        assert(u =~= t);
        assert(!keyed_map(t).contains_key(s[i].key())) by {
            lemma_keyed_lookup(t, s[i].key());
            if keyed_map(t).contains_key(s[i].key()) {
                let j = choose|j: int| 0 <= j < t.len() && (#[trigger] t[j]).key() == s[i].key();
                assert(s[j] == t[j]);
            }
        }
        assert(keyed_map(u) =~= keyed_map(s).remove(s[i].key()));
    } else {
        lemma_keyed_remove(t, i);
        assert(u.drop_last() =~= t.remove(i));
        assert(u.last() == s.last());
        assert(s.last() == s[s.len() - 1]);
        assert(s.last().key() != s[i].key());
        assert(keyed_map(u) =~= keyed_map(s).remove(s[i].key()));
    }
}

pub proof fn lemma_keyed_len<T: Keyed>(s: Seq<T>)
    requires
        keys_unique(s),
    ensures
        keyed_map(s).dom().finite(),
        keyed_map(s).dom().len() == s.len(),
    decreases s.len(),
{
    if s.len() > 0 {
        let t = s.drop_last();
        assert(keys_unique(t)) by {
            assert forall|a: int, b: int| 0 <= a < b < t.len() implies (#[trigger] t[a]).key() != (#[trigger] t[b]).key() by {
                assert(t[a] == s[a] && t[b] == s[b]);
            }
        }
        lemma_keyed_len(t);
        lemma_keyed_lookup(t, s.last().key());
        if keyed_map(t).contains_key(s.last().key()) {
            let j = choose|j: int| 0 <= j < t.len() && (#[trigger] t[j]).key() == s.last().key();
            assert(s[j] == t[j]);
            assert(s.last() == s[s.len() - 1]);
        }
        assert(keyed_map(s).dom() =~= keyed_map(t).dom().insert(s.last().key()));
    } else {
        assert(keyed_map(s).dom() =~= Set::<Seq<char>>::empty());
    }
}

/// The position of the record with identifier `key`.
pub fn find_keyed<T: Keyed>(v: &Vec<T>, key: &str) -> (r: Option<usize>)
    ensures
        r matches Some(i) ==> i < v@.len() && v@[i as int].key() == key@,
        r is None ==> forall|i: int| 0 <= i < v@.len() ==> (#[trigger] v@[i]).key() != key@,
{
    let kc = chars_of(key);
    let mut i: usize = 0;
    while i < v.len()
        invariant
            kc@ == key@,
            i <= v@.len(),
            forall|j: int| 0 <= j < i ==> (#[trigger] v@[j]).key() != key@,
        decreases v@.len() - i,
    {
        let c = chars_of(v[i].key_str());
        if seq_eq(&c, &kc) {
            return Some(i);
        }
        i = i + 1;
    }
    None
}

/// Whether a record with identifier `key` is there.
pub fn contains_keyed<T: Keyed>(v: &Vec<T>, key: &str) -> (r: bool)
    requires
        keys_unique(v@),
    ensures
        r == keyed_map(v@).contains_key(key@),
{
    proof {
        lemma_keyed_lookup(v@, key@);
    }
    find_keyed(v, key).is_some()
}

/// Puts `item` in, in place of the record with the same identifier if there
/// is one (which is returned), else at the end.
pub fn upsert<T: Keyed>(v: &mut Vec<T>, item: T) -> (replaced: Option<T>)
    requires
        keys_unique(old(v)@),
    ensures
        keys_unique(final(v)@),
        keyed_map(final(v)@) == keyed_map(old(v)@).insert(item.key(), item@),
        replaced matches Some(r) ==> keyed_map(old(v)@).contains_key(item.key()) && keyed_map(old(v)@)[item.key()] == r@,
        replaced is None ==> !keyed_map(old(v)@).contains_key(item.key()),
        replaced is None ==> final(v)@ == old(v)@.push(item),
        replaced is Some ==> exists|i: int| 0 <= i < old(v)@.len() && (#[trigger] old(v)@[i]).key() == item.key() && final(v)@ == old(v)@.update(i, item),
{
    proof {
        lemma_keyed_lookup(v@, item.key());
    }
    match find_keyed(v, item.key_str()) {
        Some(i) => {
            let ghost before = v@;
            proof {
                lemma_keyed_update(before, i as int, item);
            }
            v.push(item);
            let r = v.swap_remove(i);
            assert(v@ =~= before.update(i as int, item));
            assert(before[i as int].key() == item.key());
            Some(r)
        },
        None => {
            proof {
                lemma_keyed_push(v@, item);
            }
            v.push(item);
            None
        },
    }
}

/// Takes out the record with identifier `key`, if there is one.
pub fn remove_keyed<T: Keyed>(v: &mut Vec<T>, key: &str) -> (removed: Option<T>)
    requires
        keys_unique(old(v)@),
    ensures
        keys_unique(final(v)@),
        keyed_map(final(v)@) == keyed_map(old(v)@).remove(key@),
        removed matches Some(r) ==> keyed_map(old(v)@).contains_key(key@) && keyed_map(old(v)@)[key@] == r@ && r.key() == key@,
        removed is None ==> !keyed_map(old(v)@).contains_key(key@),
        removed is None ==> final(v)@ == old(v)@,
        removed is Some ==> exists|i: int| 0 <= i < old(v)@.len() && (#[trigger] old(v)@[i]).key() == key@ && final(v)@ == old(v)@.remove(i),
{
    proof {
        lemma_keyed_lookup(v@, key@);
    }
    match find_keyed(v, key) {
        Some(i) => {
            proof {
                lemma_keyed_remove(v@, i as int);
            }
            let r = v.remove(i);
            Some(r)
        },
        None => {
            assert(keyed_map(v@).remove(key@) =~= keyed_map(v@));
            None
        },
    }
}

} // verus!
