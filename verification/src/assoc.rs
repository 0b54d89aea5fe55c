//! Tables keyed by names, kept as lists of entries with distinct keys.
use vstd::prelude::*;

verus! {

/// The map that a list of entries denotes; a later entry wins over an earlier one.
pub open spec fn keyed_map<V>(s: Seq<(Seq<char>, V)>) -> Map<Seq<char>, V>
    decreases s.len(),
{
    if s.len() == 0 {
        Map::empty()
    } else {
        keyed_map(s.drop_last()).insert(s.last().0, s.last().1)
    }
}

/// No key occurs twice.
pub open spec fn unique_keys<V>(s: Seq<(Seq<char>, V)>) -> bool {
    forall|i: int, j: int| 0 <= i < j < s.len() ==> #[trigger] s[i].0 != #[trigger] s[j].0
}

/// An entry with no later entry of the same key gives the map's value for that key.
pub proof fn lemma_keyed_get<V>(s: Seq<(Seq<char>, V)>, j: int)
    requires
        0 <= j < s.len(),
        forall|m: int| j < m < s.len() ==> (#[trigger] s[m]).0 != s[j].0,
    ensures
        keyed_map(s).contains_key(s[j].0),
        keyed_map(s)[s[j].0] == s[j].1,
    decreases s.len(),
{
    if j < s.len() - 1 {
        let p = s.drop_last();
        assert forall|m: int| j < m < p.len() implies (#[trigger] p[m]).0 != p[j].0 by {
            assert(p[m] == s[m]);
        }
        lemma_keyed_get(p, j);
        assert(s.last() == s[s.len() - 1]);
    }
}

/// A key that no entry has is not in the map.
pub proof fn lemma_keyed_absent<V>(s: Seq<(Seq<char>, V)>, k: Seq<char>)
    requires
        forall|m: int| 0 <= m < s.len() ==> (#[trigger] s[m]).0 != k,
    ensures
        !keyed_map(s).contains_key(k),
    decreases s.len(),
{
    if s.len() > 0 {
        let p = s.drop_last();
        assert forall|m: int| 0 <= m < p.len() implies (#[trigger] p[m]).0 != k by {
            assert(p[m] == s[m]);
        }
        lemma_keyed_absent(p, k);
        assert(s.last() == s[s.len() - 1]);
    }
}

/// Replacing the value of an entry replaces the map's value for its key.
pub proof fn lemma_keyed_update<V>(s: Seq<(Seq<char>, V)>, i: int, v: V)
    requires
        unique_keys(s),
        0 <= i < s.len(),
    ensures
        keyed_map(s.update(i, (s[i].0, v))) == keyed_map(s).insert(s[i].0, v),
    decreases s.len(),
{
    let u = s.update(i, (s[i].0, v));
    if i == s.len() - 1 {
        assert(u.drop_last() =~= s.drop_last());
        assert(keyed_map(u) =~= keyed_map(s).insert(s[i].0, v));
    } else {
        let p = s.drop_last();
        assert(u.drop_last() =~= p.update(i, (p[i].0, v)));
        assert forall|a: int, b: int| 0 <= a < b < p.len() implies #[trigger] p[a].0 != #[trigger] p[b].0 by {
            assert(p[a] == s[a] && p[b] == s[b]);
        }
        lemma_keyed_update(p, i, v);
        assert(s[i].0 != s[s.len() - 1].0);
        assert(keyed_map(u) =~= keyed_map(s).insert(s[i].0, v));
    }
}

/// Replacing the value of the last entry of a key replaces the map's value for the key.
pub proof fn lemma_keyed_set_last<V>(s: Seq<(Seq<char>, V)>, i: int, v: V)
    requires
        0 <= i < s.len(),
        forall|j: int| i < j < s.len() ==> (#[trigger] s[j]).0 != s[i].0,
    ensures
        keyed_map(s.update(i, (s[i].0, v))) == keyed_map(s).insert(s[i].0, v),
    decreases s.len(),
{
    let u = s.update(i, (s[i].0, v));
    if i == s.len() - 1 {
        assert(u.drop_last() =~= s.drop_last());
        assert(keyed_map(u) =~= keyed_map(s).insert(s[i].0, v));
    } else {
        let p = s.drop_last();
        assert(u.drop_last() =~= p.update(i, (p[i].0, v)));
        assert forall|j: int| i < j < p.len() implies (#[trigger] p[j]).0 != p[i].0 by {
            assert(p[j] == s[j]);
        }
        lemma_keyed_set_last(p, i, v);
        assert(s[s.len() - 1].0 != s[i].0);
        assert(keyed_map(u) =~= keyed_map(s).insert(s[i].0, v));
    }
}

} // verus!
