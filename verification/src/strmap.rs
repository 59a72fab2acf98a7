//! A small map from strings to strings, kept as a list of pairs with distinct
//! keys. It stands where a `HashMap<String, String>` would.
use vstd::prelude::*;
use crate::text::seq_eq;
use crate::text::chars_of;

verus! {

pub open spec fn pairs_map(s: Seq<(String, String)>) -> Map<Seq<char>, Seq<char>>
    decreases s.len(),
{
    if s.len() == 0 {
        Map::empty()
    } else {
        pairs_map(s.drop_last()).insert(s.last().0@, s.last().1@)
    }
}

pub open spec fn keys_distinct(s: Seq<(String, String)>) -> bool {
    forall|i: int, j: int| 0 <= i < j < s.len() ==> #[trigger] s[i].0@ != #[trigger] s[j].0@
}

pub proof fn lemma_pairs_map_lookup(s: Seq<(String, String)>, k: Seq<char>)
    requires
        keys_distinct(s),
    ensures
        pairs_map(s).contains_key(k) <==> exists|i: int| 0 <= i < s.len() && #[trigger] s[i].0@ == k,
        forall|i: int| 0 <= i < s.len() && #[trigger] s[i].0@ == k ==> pairs_map(s)[k] == s[i].1@,
    decreases s.len(),
{
    if s.len() > 0 {
        let t = s.drop_last();
        assert(keys_distinct(t));
        lemma_pairs_map_lookup(t, k);
        if pairs_map(s).contains_key(k) {
            if s.last().0@ != k {
                let i = choose|i: int| 0 <= i < t.len() && #[trigger] t[i].0@ == k;
                assert(s[i].0@ == k);
            } else {
                assert(s[s.len() - 1].0@ == k);
            }
        }
        assert forall|i: int| 0 <= i < s.len() && #[trigger] s[i].0@ == k implies pairs_map(s)[k] == s[i].1@ by {
            if i < s.len() - 1 {
                assert(t[i].0@ == k);
                assert(s[i].0@ != s[s.len() - 1].0@);
            }
        }
        assert((exists|i: int| 0 <= i < s.len() && #[trigger] s[i].0@ == k) ==> pairs_map(s).contains_key(k)) by {
            if exists|i: int| 0 <= i < s.len() && #[trigger] s[i].0@ == k {
                let i = choose|i: int| 0 <= i < s.len() && #[trigger] s[i].0@ == k;
                if i < s.len() - 1 {
                    assert(t[i].0@ == k);
                }
            }
        }
    }
}

pub proof fn lemma_pairs_map_update(s: Seq<(String, String)>, i: int, v: String)
    requires
        keys_distinct(s),
        0 <= i < s.len(),
    ensures
        keys_distinct(s.update(i, (s[i].0, v))),
        pairs_map(s.update(i, (s[i].0, v))) == pairs_map(s).insert(s[i].0@, v@),
    decreases s.len(),
{
    let u = s.update(i, (s[i].0, v));
    assert(keys_distinct(u)) by {
        assert forall|a: int, b: int| 0 <= a < b < u.len() implies #[trigger] u[a].0@ != #[trigger] u[b].0@ by {
            assert(u[a].0@ == s[a].0@);
            assert(u[b].0@ == s[b].0@);
        }
    }
    let t = s.drop_last();
    if i == s.len() - 1 {
        assert(u.drop_last() =~= t);
        assert forall|k| #[trigger] pairs_map(t).contains_key(k) ==> k != s[i].0@ by {
            if pairs_map(t).contains_key(k) {
                assert(keys_distinct(t));
                lemma_pairs_map_lookup(t, k);
                let j = choose|j: int| 0 <= j < t.len() && #[trigger] t[j].0@ == k;
                assert(s[j].0@ == k);
            }
        }
        assert(pairs_map(u) =~= pairs_map(s).insert(s[i].0@, v@));
    } else {
        assert(keys_distinct(t));
        lemma_pairs_map_update(t, i, v);
        assert(u.drop_last() =~= t.update(i, (t[i].0, v)));
        assert(s.last().0@ != s[i].0@);
        assert(pairs_map(u) =~= pairs_map(s).insert(s[i].0@, v@));
    }
}

pub proof fn lemma_pairs_map_push(s: Seq<(String, String)>, k: String, v: String)
    requires
        keys_distinct(s),
        !pairs_map(s).contains_key(k@),
    ensures
        keys_distinct(s.push((k, v))),
        pairs_map(s.push((k, v))) == pairs_map(s).insert(k@, v@),
{
    let u = s.push((k, v));
    assert(u.drop_last() =~= s);
    assert forall|a: int, b: int| 0 <= a < b < u.len() implies #[trigger] u[a].0@ != #[trigger] u[b].0@ by {
        if b == u.len() - 1 {
            lemma_pairs_map_lookup(s, k@);
            if u[a].0@ == k@ {
                assert(s[a].0@ == k@);
            }
        }
    }
}

/// The position of `key` among the pairs.
pub fn find_key(s: &Vec<(String, String)>, key: &Vec<char>) -> (r: Option<usize>)
    ensures
        r matches Some(i) ==> i < s@.len() && s@[i as int].0@ == key@,
        r is None ==> forall|i: int| 0 <= i < s@.len() ==> #[trigger] s@[i].0@ != key@,
{
    let mut i: usize = 0;
    while i < s.len()
        invariant
            i <= s@.len(),
            forall|j: int| 0 <= j < i ==> #[trigger] s@[j].0@ != key@,
        decreases s@.len() - i,
    {
        let k = chars_of(s[i].0.as_str());
        if seq_eq(&k, key) {
            return Some(i);
        }
        i = i + 1;
    }
    None
}

/// `HashMap::insert`: sets `key` to `value` and returns the value it replaced.
pub fn insert_pair(s: &mut Vec<(String, String)>, key: String, value: String) -> (replaced: Option<String>)
    requires
        keys_distinct(old(s)@),
    ensures
        keys_distinct(final(s)@),
        pairs_map(final(s)@) == pairs_map(old(s)@).insert(key@, value@),
        replaced matches Some(r) ==> pairs_map(old(s)@).contains_key(key@) && pairs_map(old(s)@)[key@] == r@,
        replaced is None ==> !pairs_map(old(s)@).contains_key(key@),
{
    let kc = chars_of(key.as_str());
    proof {
        lemma_pairs_map_lookup(s@, key@);
    }
    match find_key(s, &kc) {
        Some(i) => {
            let ghost before = s@;
            let old_value = s[i].1.clone();
            let k = s[i].0.clone();
            s.set(i, (k, value));
            proof {
                lemma_pairs_map_update(before, i as int, value);
                assert(s@ == before.update(i as int, (before[i as int].0, value)));
            }
            Some(old_value)
        },
        None => {
            proof {
                lemma_pairs_map_push(s@, key, value);
            }
            s.push((key, value));
            None
        },
    }
}

/// `HashMap::get`
pub fn get_value<'a>(s: &'a Vec<(String, String)>, key: &Vec<char>) -> (r: Option<&'a String>)
    requires
        keys_distinct(s@),
    ensures
        r matches Some(v) ==> pairs_map(s@).contains_key(key@) && pairs_map(s@)[key@] == v@,
        r is None ==> !pairs_map(s@).contains_key(key@),
{
    proof {
        lemma_pairs_map_lookup(s@, key@);
    }
    match find_key(s, key) {
        Some(i) => Some(&s[i].1),
        None => None,
    }
}

} // verus!
