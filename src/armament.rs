use vstd::prelude::*;

use crate::fixed::Fixed;
use crate::table::{find_last, keyed_view, last_match};

verus! {

/// Effective range by weapon identifier. A later record replaces an earlier
/// one; an identifier never recorded has range zero.
pub struct RangeTable {
    pub entries: Vec<(String, Fixed)>,
}

impl RangeTable {
    pub open spec fn view_entries(&self) -> Seq<(Seq<char>, Fixed)> {
        keyed_view(self.entries@)
    }

    pub open spec fn range_of(&self, id: Seq<char>) -> Fixed {
        resolved_range(self.view_entries(), id)
    }

    pub fn new() -> (r: RangeTable)
        ensures
            r.view_entries() == Seq::<(Seq<char>, Fixed)>::empty(),
    {
        let r = RangeTable { entries: Vec::new() };
        assert(r.view_entries() =~= Seq::<(Seq<char>, Fixed)>::empty());
        r
    }

    /// Records the range of weapon `id`.
    pub fn record(&mut self, id: String, range: Fixed)
        ensures
            final(self).view_entries() == old(self).view_entries().push((id@, range)),
    {
        let ghost before = self.entries@;
        let ghost key = id@;
        self.entries.push((id, range));
        assert(keyed_view(self.entries@) =~= keyed_view(before).push((key, range)));
    }

    /// The range of weapon `id`; zero where none was recorded.
    pub fn lookup(&self, id: &String) -> (r: Fixed)
        ensures
            r == self.range_of(id@),
    {
        match find_last(&self.entries, id) {
            Some(v) => v,
            None => Fixed { micros: 0 },
        }
    }
}

/// The last range recorded for `id` in `entries`, or zero.
pub open spec fn resolved_range(entries: Seq<(Seq<char>, Fixed)>, id: Seq<char>) -> Fixed {
    match last_match(entries, id) {
        Some(v) => v,
        None => Fixed { micros: 0 },
    }
}

/// One group of a ship's mounts: a weapon, how many mounts carry it, and its
/// range.
#[derive(Clone, Debug, PartialEq)]
pub struct ArmOut {
    pub weapon_id: String,
    pub count: u8,
    pub range: Fixed,
    pub notes: Option<String>,
}

/// The distinct identifiers of `refs`, in order of first occurrence.
pub open spec fn first_occurrences(refs: Seq<Seq<char>>) -> Seq<Seq<char>>
    decreases refs.len(),
{
    if refs.len() == 0 {
        Seq::empty()
    } else {
        let d = first_occurrences(refs.drop_last());
        if d.contains(refs.last()) {
            d
        } else {
            d.push(refs.last())
        }
    }
}

/// How many times `id` occurs in `refs`.
pub open spec fn occurrences(refs: Seq<Seq<char>>, id: Seq<char>) -> nat
    decreases refs.len(),
{
    if refs.len() == 0 {
        0
    } else {
        occurrences(refs.drop_last(), id) + if refs.last() == id {
            1nat
        } else {
            0nat
        }
    }
}

/// A count held in a `u8`: it stops at 255.
pub open spec fn saturated(n: nat) -> u8 {
    if n > 255 {
        255
    } else {
        n as u8
    }
}

pub open spec fn views(s: Seq<String>) -> Seq<Seq<char>> {
    s.map_values(|x: String| x@)
}

proof fn lemma_first_occurrences_distinct(refs: Seq<Seq<char>>)
    ensures
        first_occurrences(refs).no_duplicates(),
    decreases refs.len(),
{
    if refs.len() > 0 {
        lemma_first_occurrences_distinct(refs.drop_last());
    }
}

proof fn lemma_absent_none(refs: Seq<Seq<char>>, id: Seq<char>)
    requires
        !first_occurrences(refs).contains(id),
    ensures
        occurrences(refs, id) == 0,
    decreases refs.len(),
{
    if refs.len() > 0 {
        let d = first_occurrences(refs.drop_last());
        if d.contains(id) {
            let j = choose|j: int| 0 <= j < d.len() && d[j] == id;
            if !d.contains(refs.last()) {
                assert(d.push(refs.last())[j] == id);
            }
        }
        if refs.last() == id {
            if d.contains(refs.last()) {
            } else {
                assert(d.push(refs.last())[d.len() as int] == id);
            }
        }
        lemma_absent_none(refs.drop_last(), id);
    }
}

/// What `aggregate` returns on `refs` with ranges from `table`.
pub open spec fn groups_match(
    groups: Seq<ArmOut>,
    refs: Seq<Seq<char>>,
    table: Seq<(Seq<char>, Fixed)>,
) -> bool {
    let ids = first_occurrences(refs);
    &&& groups.len() == ids.len()
    &&& forall|k: int|
        0 <= k < groups.len() ==> {
            &&& (#[trigger] groups[k]).weapon_id@ == ids[k]
            &&& groups[k].count == saturated(occurrences(refs, ids[k]))
            &&& groups[k].range == resolved_range(table, ids[k])
            &&& groups[k].notes is None
        }
}

/// Groups mount references by weapon: one group per distinct identifier, in
/// order of first occurrence, counting its occurrences (up to 255) and keeping
/// the largest range that the table gives for them.
pub fn aggregate(refs: &Vec<String>, table: &RangeTable) -> (r: Vec<ArmOut>)
    ensures
        groups_match(r@, views(refs@), table.view_entries()),
{
    let ghost all = views(refs@);
    let mut groups: Vec<ArmOut> = Vec::new();
    let mut i: usize = 0;
    while i < refs.len()
        invariant
            i <= refs@.len(),
            all == views(refs@),
            groups_match(groups@, all.take(i as int), table.view_entries()),
        decreases refs@.len() - i,
    {
        let ghost seen = all.take(i as int);
        let ghost next = all.take(i + 1);
        proof {
            assert(next.drop_last() =~= seen);
            assert(next.last() == refs@[i as int]@);
            lemma_first_occurrences_distinct(seen);
        }
        let key = &refs[i];
        let r = table.lookup(key);
        let mut j: usize = 0;
        while j < groups.len() && groups[j].weapon_id != *key
            invariant
                j <= groups@.len(),
                forall|m: int| 0 <= m < j ==> (#[trigger] groups@[m]).weapon_id@ != key@,
            decreases groups@.len() - j,
        {
            j = j + 1;
        }
        if j < groups.len() {
            let ghost old_groups = groups@;
            proof {
                assert(first_occurrences(seen)[j as int] == key@);
                assert(first_occurrences(seen).contains(key@));
                assert(first_occurrences(next) == first_occurrences(seen));
            }
            let g = ArmOut {
                weapon_id: groups[j].weapon_id.clone(),
                count: groups[j].count.saturating_add(1),
                range: groups[j].range.max(r),
                notes: None,
            };
            groups.set(j, g);
            proof {
                assert forall|k: int| 0 <= k < groups@.len() implies {
                    &&& (#[trigger] groups@[k]).weapon_id@ == first_occurrences(next)[k]
                    &&& groups@[k].count == saturated(
                        occurrences(next, first_occurrences(next)[k]),
                    )
                    &&& groups@[k].range == resolved_range(
                        table.view_entries(),
                        first_occurrences(next)[k],
                    )
                    &&& groups@[k].notes is None
                } by {
                    if k != j {
                        assert(old_groups[k] == groups@[k]);
                        assert(first_occurrences(seen)[k] != first_occurrences(seen)[j as int]);
                    }
                }
            }
        } else {
            proof {
                if first_occurrences(seen).contains(key@) {
                    let m = choose|m: int|
                        0 <= m < first_occurrences(seen).len() && first_occurrences(seen)[m]
                            == key@;
                    assert(groups@[m].weapon_id@ == key@);
                }
                lemma_absent_none(seen, key@);
            }
            let g = ArmOut { weapon_id: key.clone(), count: 1, range: r, notes: None };
            groups.push(g);
            proof {
                let ids = first_occurrences(next);
                assert(ids == first_occurrences(seen).push(key@));
                assert forall|k: int| 0 <= k < groups@.len() implies {
                    &&& (#[trigger] groups@[k]).weapon_id@ == ids[k]
                    &&& groups@[k].count == saturated(occurrences(next, ids[k]))
                    &&& groups@[k].range == resolved_range(table.view_entries(), ids[k])
                    &&& groups@[k].notes is None
                } by {
                    if k < groups@.len() - 1 {
                        assert(ids[k] != key@);
                    }
                }
            }
        }
        i = i + 1;
    }
    assert(all.take(i as int) =~= all);
    groups
}

/// Every identifier that occurs in `refs` is among its first occurrences.
pub proof fn lemma_present_grouped(refs: Seq<Seq<char>>, id: Seq<char>)
    requires
        occurrences(refs, id) > 0,
    ensures
        first_occurrences(refs).contains(id),
{
    if !first_occurrences(refs).contains(id) {
        lemma_absent_none(refs, id);
    }
}

} // verus!
