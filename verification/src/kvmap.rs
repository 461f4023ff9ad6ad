//! The mathematical model of the session table: an association list of
//! (user, token) pairs read as a finite map.

use vstd::prelude::*;

verus! {

/// The association list `s`, read left to right, as a finite map; a later
/// pair for a key overrides an earlier one.
pub open spec fn kv_map(s: Seq<(Seq<char>, Seq<char>)>) -> Map<Seq<char>, Seq<char>>
    decreases s.len(),
{
    if s.len() == 0 {
        Map::empty()
    } else {
        kv_map(s.drop_last()).insert(s.last().0, s.last().1)
    }
}

/// No two pairs of `s` share a key.
pub open spec fn distinct_keys(s: Seq<(Seq<char>, Seq<char>)>) -> bool {
    forall|i: int, j: int| 0 <= i < j < s.len() ==> s[i].0 != s[j].0
}

/// A key is in the map exactly when some pair of the list carries it.
pub proof fn lemma_kv_map_contains_key(s: Seq<(Seq<char>, Seq<char>)>, k: Seq<char>)
    ensures
        kv_map(s).contains_key(k) <==> exists|i: int| 0 <= i < s.len() && s[i].0 == k,
    decreases s.len(),
{
    if s.len() == 0 {
    } else {
        lemma_kv_map_contains_key(s.drop_last(), k);
        if s.last().0 == k {
            assert(s[s.len() - 1].0 == k);
        } else {
            if exists|i: int| 0 <= i < s.len() && s[i].0 == k {
                let i = choose|i: int| 0 <= i < s.len() && s[i].0 == k;
                assert(i < s.len() - 1);
                assert(s.drop_last()[i].0 == k);
            }
        }
    }
}

/// With distinct keys, the map takes each pair's key to that pair's token.
pub proof fn lemma_kv_map_index(s: Seq<(Seq<char>, Seq<char>)>, i: int)
    requires
        distinct_keys(s),
        0 <= i < s.len(),
    ensures
        kv_map(s).contains_key(s[i].0),
        kv_map(s)[s[i].0] == s[i].1,
    decreases s.len(),
{
    if i == s.len() - 1 {
    } else {
        assert(distinct_keys(s.drop_last()));
        assert(s.drop_last()[i] == s[i]);
        lemma_kv_map_index(s.drop_last(), i);
        assert(s.last().0 != s[i].0);
    }
}

/// With distinct keys, the map holds exactly one entry per pair.
pub proof fn lemma_kv_map_len(s: Seq<(Seq<char>, Seq<char>)>)
    requires
        distinct_keys(s),
    ensures
        kv_map(s).dom().finite(),
        kv_map(s).len() == s.len(),
    decreases s.len(),
{
    if s.len() == 0 {
        assert(kv_map(s).dom() =~= Set::<Seq<char>>::empty());
    } else {
        assert(distinct_keys(s.drop_last()));
        lemma_kv_map_len(s.drop_last());
        lemma_kv_map_contains_key(s.drop_last(), s.last().0);
        assert(forall|i: int|
            0 <= i < s.len() - 1 ==> s.drop_last()[i] == s[i]);
        assert(!kv_map(s.drop_last()).contains_key(s.last().0));
        vstd::set::axiom_set_insert_len(kv_map(s.drop_last()).dom(), s.last().0);
        assert(kv_map(s).dom() =~= kv_map(s.drop_last()).dom().insert(s.last().0));
    }
}

/// Appending a pair inserts it into the map.
pub proof fn lemma_kv_map_push(s: Seq<(Seq<char>, Seq<char>)>, p: (Seq<char>, Seq<char>))
    ensures
        kv_map(s.push(p)) == kv_map(s).insert(p.0, p.1),
{
    assert(s.push(p).drop_last() =~= s);
    assert(s.push(p).last() == p);
}

/// With distinct keys, dropping the pair at `i` removes exactly its key.
pub proof fn lemma_kv_map_remove(s: Seq<(Seq<char>, Seq<char>)>, i: int)
    requires
        distinct_keys(s),
        0 <= i < s.len(),
    ensures
        kv_map(s.remove(i)) == kv_map(s).remove(s[i].0),
    decreases s.len(),
{
    if i == s.len() - 1 {
        assert(s.remove(i) =~= s.drop_last());
        assert(distinct_keys(s.drop_last()));
        lemma_kv_map_contains_key(s.drop_last(), s.last().0);
        assert(forall|j: int|
            0 <= j < s.len() - 1 ==> s.drop_last()[j] == s[j]);
        assert(!kv_map(s.drop_last()).contains_key(s.last().0));
        assert(kv_map(s.drop_last()).insert(s.last().0, s.last().1).remove(s.last().0)
            =~= kv_map(s.drop_last()));
    } else {
        assert(distinct_keys(s.drop_last()));
        assert(s.remove(i).drop_last() =~= s.drop_last().remove(i));
        assert(s.remove(i).last() == s.last());
        lemma_kv_map_remove(s.drop_last(), i);
        assert(s.drop_last()[i] == s[i]);
        assert(s.last().0 != s[i].0);
        assert(kv_map(s.drop_last()).remove(s[i].0).insert(s.last().0, s.last().1)
            =~= kv_map(s.drop_last()).insert(s.last().0, s.last().1).remove(s[i].0));
        assert(s.remove(i).len() == s.len() - 1);
        assert(kv_map(s.remove(i))
            == kv_map(s.remove(i).drop_last()).insert(s.remove(i).last().0, s.remove(i).last().1));
    }
}

} // verus!
