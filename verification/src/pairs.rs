//! String-keyed string tables with one value per key, kept in the order in
//! which each key was first set.
use vstd::prelude::*;
use crate::text::string_from_str;

verus! {

pub open spec fn pair_views(v: Seq<(String, String)>) -> Seq<(Seq<char>, Seq<char>)> {
    v.map_values(|p: (String, String)| (p.0@, p.1@))
}

/// Index of the last entry under `key`, or -1.
pub open spec fn find_pair(s: Seq<(Seq<char>, Seq<char>)>, key: Seq<char>) -> int
    decreases s.len(),
{
    if s.len() == 0 {
        -1
    } else if s.last().0 == key {
        s.len() - 1
    } else {
        find_pair(s.drop_last(), key)
    }
}

/// The table with `key` set to `value`.
pub open spec fn pairs_set(s: Seq<(Seq<char>, Seq<char>)>, key: Seq<char>, value: Seq<char>) -> Seq<(Seq<char>, Seq<char>)> {
    let i = find_pair(s, key);
    if i >= 0 {
        s.update(i, (key, value))
    } else {
        s.push((key, value))
    }
}

/// The value under `key`, if any.
pub open spec fn pairs_get(s: Seq<(Seq<char>, Seq<char>)>, key: Seq<char>) -> Option<Seq<char>> {
    let i = find_pair(s, key);
    if i >= 0 {
        Some(s[i].1)
    } else {
        None
    }
}

pub proof fn lemma_find_pair(s: Seq<(Seq<char>, Seq<char>)>, key: Seq<char>)
    ensures
        -1 <= find_pair(s, key) < s.len(),
        find_pair(s, key) >= 0 ==> s[find_pair(s, key)].0 == key,
        find_pair(s, key) == -1 ==> forall|i: int| 0 <= i < s.len() ==> (#[trigger] s[i]).0 != key,
    decreases s.len(),
{
    if s.len() > 0 {
        lemma_find_pair(s.drop_last(), key);
        assert forall|i: int| 0 <= i < s.len() - 1 implies s.drop_last()[i] == s[i] by {}
    }
}

/// Where the entry under `key` stands, if any.
pub fn pair_position(v: &Vec<(String, String)>, key: &str) -> (r: Option<usize>)
    ensures
        match r {
            Some(i) => find_pair(pair_views(v@), key@) == i as int && i < v@.len(),
            None => find_pair(pair_views(v@), key@) == -1,
        },
{
    let ghost s = pair_views(v@);
    let k = string_from_str(key);
    let n = v.len();
    let mut i: usize = n;
    assert(s.subrange(0, n as int) == s);
    while i > 0
        invariant
            i <= n,
            n == v@.len(),
            s == pair_views(v@),
            k@ == key@,
            find_pair(s, key@) == find_pair(s.subrange(0, i as int), key@),
        decreases i,
    {
        let ghost u = s.subrange(0, i as int);
        assert(u.last() == s[i - 1]);
        assert(u.drop_last() == s.subrange(0, i - 1));
        if v[i - 1].0 == k {
            return Some(i - 1);
        }
        i = i - 1;
    }
    assert(s.subrange(0, 0).len() == 0);
    None
}

/// Set `key` to `value`, replacing the value it had.
pub fn pairs_insert(v: &mut Vec<(String, String)>, key: &str, value: &str)
    ensures
        pair_views(final(v)@) == pairs_set(pair_views(old(v)@), key@, value@),
{
    let ghost s = pair_views(v@);
    proof {
        lemma_find_pair(s, key@);
    }
    match pair_position(v, key) {
        Some(i) => {
            v.set(i, (string_from_str(key), string_from_str(value)));
            assert(pair_views(v@) =~= s.update(i as int, (key@, value@)));
        },
        None => {
            v.push((string_from_str(key), string_from_str(value)));
            assert(pair_views(v@) =~= s.push((key@, value@)));
        },
    }
}

/// A copy of the value under `key`, if any.
pub fn pairs_lookup(v: &Vec<(String, String)>, key: &str) -> (r: Option<String>)
    ensures
        match r {
            Some(x) => pairs_get(pair_views(v@), key@) == Some(x@),
            None => pairs_get(pair_views(v@), key@) is None,
        },
{
    proof {
        lemma_find_pair(pair_views(v@), key@);
    }
    match pair_position(v, key) {
        Some(i) => Some(v[i].1.clone()),
        None => None,
    }
}

/// A copy of a table.
pub fn clone_pairs(v: &Vec<(String, String)>) -> (r: Vec<(String, String)>)
    ensures
        pair_views(r@) == pair_views(v@),
{
    let mut r: Vec<(String, String)> = Vec::new();
    let mut i: usize = 0;
    while i < v.len()
        invariant
            i <= v@.len(),
            r@.len() == i,
            forall|k: int|
                0 <= k < i ==> (#[trigger] r@[k]).0@ == v@[k].0@ && r@[k].1@ == v@[k].1@,
        decreases v@.len() - i,
    {
        r.push((v[i].0.clone(), v[i].1.clone()));
        i = i + 1;
    }
    assert(pair_views(r@) =~= pair_views(v@));
    r
}

} // verus!
