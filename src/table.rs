use vstd::prelude::*;

verus! {

/// Entries keyed by identifier, as character sequences.
pub open spec fn keyed_view<V>(s: Seq<(String, V)>) -> Seq<(Seq<char>, V)> {
    s.map_values(|e: (String, V)| (e.0@, e.1))
}

/// The value of the last entry under key `k`: a later entry overrides an
/// earlier one.
pub open spec fn last_match<V>(s: Seq<(Seq<char>, V)>, k: Seq<char>) -> Option<V>
    decreases s.len(),
{
    if s.len() == 0 {
        None
    } else if s.last().0 == k {
        Some(s.last().1)
    } else {
        last_match(s.drop_last(), k)
    }
}

/// Finds the value of the last entry under `key`.
pub fn find_last<V: Copy>(entries: &Vec<(String, V)>, key: &String) -> (r: Option<V>)
    ensures
        r == last_match(keyed_view(entries@), key@),
{
    let ghost all = keyed_view(entries@);
    let mut i: usize = entries.len();
    assert(all.take(i as int) =~= all);
    while i > 0
        invariant
            i <= entries@.len(),
            all == keyed_view(entries@),
            last_match(all, key@) == last_match(all.take(i as int), key@),
        decreases i,
    {
        proof {
            assert(all.take(i as int).drop_last() =~= all.take(i - 1));
        }
        assert(all[i - 1] == (entries@[i - 1].0@, entries@[i - 1].1));
        if entries[i - 1].0 == *key {
            return Some(entries[i - 1].1);
        }
        i = i - 1;
    }
    proof {
        assert(all.take(0) =~= Seq::<(Seq<char>, V)>::empty());
    }
    None
}

} // verus!
