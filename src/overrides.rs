use vstd::prelude::*;

use crate::fixed::{parse_fixed, parse_spec, Fixed};
use crate::table::{find_last, keyed_view, last_match};
use crate::text::{
    chars_of, ends_with_char, has_prefix, has_suffix, is_upper, is_uppercase, split_on,
    split_spec, starts_with, string_of, trim, trimmed,
};

verus! {

/// Corrections to a weapon's figures; an absent field keeps the registry's value.
#[derive(Clone, Copy, Debug, PartialEq)]
pub struct PropsPatch {
    pub range: Option<Fixed>,
    pub speed: Option<Fixed>,
    pub reload: Option<Fixed>,
    pub damage: Option<Fixed>,
}

impl PropsPatch {
    pub open spec fn none() -> PropsPatch {
        PropsPatch { range: None, speed: None, reload: None, damage: None }
    }

    pub open spec fn has_value_spec(self) -> bool {
        self.range is Some || self.speed is Some || self.reload is Some || self.damage is Some
    }

    /// The patch that changes nothing.
    pub fn empty() -> (r: PropsPatch)
        ensures
            r == PropsPatch::none(),
    {
        PropsPatch { range: None, speed: None, reload: None, damage: None }
    }

    /// Whether the patch sets at least one field.
    pub fn has_value(&self) -> (r: bool)
        ensures
            r == self.has_value_spec(),
    {
        self.range.is_some() || self.speed.is_some() || self.reload.is_some()
            || self.damage.is_some()
    }
}

/// Patches by weapon identifier. A later entry for an identifier replaces an
/// earlier one, and no stored patch is empty.
pub struct Overrides {
    pub entries: Vec<(String, PropsPatch)>,
}

impl Overrides {
    pub open spec fn view_entries(&self) -> Seq<(Seq<char>, PropsPatch)> {
        keyed_view(self.entries@)
    }

    /// The patch in force for `id`.
    pub open spec fn lookup(&self, id: Seq<char>) -> Option<PropsPatch> {
        last_match(self.view_entries(), id)
    }

    pub open spec fn wf(&self) -> bool {
        forall|i: int| 0 <= i < self.entries@.len() ==> (#[trigger] self.entries@[i]).1.has_value_spec()
    }

    pub fn new() -> (r: Overrides)
        ensures
            r.wf(),
            r.view_entries() == Seq::<(Seq<char>, PropsPatch)>::empty(),
            forall|id: Seq<char>| r.lookup(id) is None,
    {
        let r = Overrides { entries: Vec::new() };
        assert(r.view_entries() =~= Seq::<(Seq<char>, PropsPatch)>::empty());
        r
    }

    /// Records `patch` for `id`, replacing what was there.
    pub fn insert(&mut self, id: String, patch: PropsPatch)
        requires
            old(self).wf(),
            patch.has_value_spec(),
        ensures
            final(self).wf(),
            final(self).view_entries() == old(self).view_entries().push((id@, patch)),
            forall|q: Seq<char>| #[trigger]
                final(self).lookup(q) == if q == id@ {
                    Some(patch)
                } else {
                    old(self).lookup(q)
                },
    {
        let ghost before = self.entries@;
        let ghost key = id@;
        self.entries.push((id, patch));
        proof {
            assert(keyed_view(self.entries@) =~= keyed_view(before).push((key, patch)));
            assert forall|q: Seq<char>| #[trigger]
                self.lookup(q) == if q == key {
                    Some(patch)
                } else {
                    last_match(keyed_view(before), q)
                } by {
                assert(keyed_view(self.entries@).drop_last() =~= keyed_view(before));
            }
        }
    }

    /// The patch in force for `id`, if any.
    pub fn get(&self, id: &String) -> (r: Option<PropsPatch>)
        ensures
            r == self.lookup(id@),
    {
        find_last(&self.entries, id)
    }
}


/// `s` without the copies of `c` at its end.
pub open spec fn strip_trailing(s: Seq<char>, c: char) -> Seq<char>
    decreases s.len(),
{
    if s.len() > 0 && s.last() == c {
        strip_trailing(s.drop_last(), c)
    } else {
        s
    }
}

pub open spec fn weapon_marker() -> Seq<char> {
    "#[entity(Weapon"@
}

pub open spec fn entity_marker() -> Seq<char> {
    "#[entity("@
}

pub open spec fn props_marker() -> Seq<char> {
    "#[props("@
}

/// The `key = value` list of a trimmed properties line: what follows the
/// marker, without the closing `]` and `)` characters.
pub open spec fn props_payload(l: Seq<char>) -> Seq<char> {
    strip_trailing(strip_trailing(l.skip(props_marker().len() as int), ']'), ')')
}

/// One `key = value` item, trimmed, applied to `p`: a recognised key whose
/// value reads as a literal sets that field; anything else changes nothing.
pub open spec fn apply_item(p: PropsPatch, t: Seq<char>) -> PropsPatch {
    if has_prefix(t, "range = "@) {
        match parse_spec(t.skip(8)) {
            Some(v) => PropsPatch { range: Some(v), ..p },
            None => p,
        }
    } else if has_prefix(t, "speed = "@) {
        match parse_spec(t.skip(8)) {
            Some(v) => PropsPatch { speed: Some(v), ..p },
            None => p,
        }
    } else if has_prefix(t, "reload = "@) {
        match parse_spec(t.skip(9)) {
            Some(v) => PropsPatch { reload: Some(v), ..p },
            None => p,
        }
    } else if has_prefix(t, "damage = "@) {
        match parse_spec(t.skip(9)) {
            Some(v) => PropsPatch { damage: Some(v), ..p },
            None => p,
        }
    } else {
        p
    }
}

/// The items applied in order, each trimmed.
pub open spec fn apply_items(p: PropsPatch, items: Seq<Seq<char>>) -> PropsPatch
    decreases items.len(),
{
    if items.len() == 0 {
        p
    } else {
        apply_item(apply_items(p, items.drop_last()), trimmed(items.last()))
    }
}

/// The identifier that a trimmed line ending in `,` names.
pub open spec fn line_name(l: Seq<char>) -> Seq<char> {
    trimmed(strip_trailing(l, ','))
}

/// Where the scanner stands after some lines.
pub struct ScanModel {
    pub in_weapon: bool,
    pub pending: PropsPatch,
    pub found: Seq<(Seq<char>, PropsPatch)>,
}

pub open spec fn scan_start() -> ScanModel {
    ScanModel { in_weapon: false, pending: PropsPatch::none(), found: Seq::empty() }
}

/// One line read by the scanner. A block marker starts a block and clears
/// the pending patch; a properties line inside a weapon block adds to the
/// pending patch; an identifier line takes the pending patch, when the block
/// is a weapon block and the patch is not empty, and clears it.
pub open spec fn scan_step(st: ScanModel, line: Seq<char>) -> ScanModel {
    let l = trimmed(line);
    if has_prefix(l, weapon_marker()) {
        ScanModel { in_weapon: true, pending: PropsPatch::none(), found: st.found }
    } else if has_prefix(l, entity_marker()) {
        ScanModel { in_weapon: false, pending: PropsPatch::none(), found: st.found }
    } else if has_prefix(l, props_marker()) && st.in_weapon {
        ScanModel {
            pending: apply_items(st.pending, split_spec(props_payload(l), ',')),
            ..st
        }
    } else if has_suffix(l, seq![',']) && line_name(l).len() > 0 {
        after_name(st, line_name(l), is_upper(line_name(l)[0]))
    } else {
        st
    }
}

/// The state after a line that names `name`, where `upper` tells whether its
/// first character is uppercase: only then is it an identifier line.
pub open spec fn after_name(st: ScanModel, name: Seq<char>, upper: bool) -> ScanModel {
    if upper {
        ScanModel {
            in_weapon: st.in_weapon,
            pending: PropsPatch::none(),
            found: if st.in_weapon && st.pending.has_value_spec() {
                st.found.push((name, st.pending))
            } else {
                st.found
            },
        }
    } else {
        st
    }
}

pub open spec fn scan_lines(lines: Seq<Seq<char>>) -> ScanModel
    decreases lines.len(),
{
    if lines.len() == 0 {
        scan_start()
    } else {
        scan_step(scan_lines(lines.drop_last()), lines.last())
    }
}

/// What the scanner finds in a text: its lines, split at `\n`, read in order.
pub open spec fn scan_text(text: Seq<char>) -> ScanModel {
    scan_lines(split_spec(text, '\n'))
}

/// Removes the copies of `c` at the end of `s`.
fn strip_trailing_exec(s: &Vec<char>, c: char) -> (r: Vec<char>)
    ensures
        r@ == strip_trailing(s@, c),
{
    let mut n = s.len();
    assert(s@.take(n as int) =~= s@);
    while n > 0 && s[n - 1] == c
        invariant
            n <= s@.len(),
            strip_trailing(s@, c) == strip_trailing(s@.take(n as int), c),
        decreases n,
    {
        assert(s@.take(n as int).drop_last() =~= s@.take(n - 1));
        n = n - 1;
    }
    let mut r: Vec<char> = Vec::new();
    let mut i: usize = 0;
    while i < n
        invariant
            i <= n <= s@.len(),
            r@ == s@.take(i as int),
        decreases n - i,
    {
        r.push(s[i]);
        i = i + 1;
        assert(r@ =~= s@.take(i as int));
    }
    proof {
        assert(s@.take(s@.len() as int) =~= s@);
        if n > 0 {
            assert(s@.take(n as int).last() == s@[n - 1]);
        }
    }
    r
}

/// `s` from index `k` on.
fn suffix_from(s: &Vec<char>, k: usize) -> (r: Vec<char>)
    requires
        k <= s@.len(),
    ensures
        r@ == s@.skip(k as int),
{
    let mut r: Vec<char> = Vec::new();
    let mut i: usize = k;
    while i < s.len()
        invariant
            k <= i <= s@.len(),
            r@ == s@.subrange(k as int, i as int),
        decreases s@.len() - i,
    {
        r.push(s[i]);
        i = i + 1;
        assert(r@ =~= s@.subrange(k as int, i as int));
    }
    assert(r@ =~= s@.skip(k as int));
    r
}

/// Applies one trimmed `key = value` item to `p`.
pub fn apply_item_exec(p: PropsPatch, t: &Vec<char>) -> (r: PropsPatch)
    ensures
        r == apply_item(p, t@),
{
    let range_key = chars_of("range = ");
    let speed_key = chars_of("speed = ");
    let reload_key = chars_of("reload = ");
    let damage_key = chars_of("damage = ");
    proof {
        reveal_strlit("range = ");
        reveal_strlit("speed = ");
        reveal_strlit("reload = ");
        reveal_strlit("damage = ");
    }
    let mut r = p;
    if starts_with(t.as_slice(), range_key.as_slice()) {
        if let Some(v) = parse_fixed(suffix_from(t, 8).as_slice()) {
            r.range = Some(v);
        }
    } else if starts_with(t.as_slice(), speed_key.as_slice()) {
        if let Some(v) = parse_fixed(suffix_from(t, 8).as_slice()) {
            r.speed = Some(v);
        }
    } else if starts_with(t.as_slice(), reload_key.as_slice()) {
        if let Some(v) = parse_fixed(suffix_from(t, 9).as_slice()) {
            r.reload = Some(v);
        }
    } else if starts_with(t.as_slice(), damage_key.as_slice()) {
        if let Some(v) = parse_fixed(suffix_from(t, 9).as_slice()) {
            r.damage = Some(v);
        }
    }
    r
}

/// Applies the `key = value` list of a properties line to `p`.
pub fn apply_props(p: PropsPatch, payload: &Vec<char>) -> (r: PropsPatch)
    ensures
        r == apply_items(p, split_spec(payload@, ',')),
{
    let items = split_on(payload.as_slice(), ',');
    let ghost all = split_spec(payload@, ',');
    let mut r = p;
    let mut i: usize = 0;
    while i < items.len()
        invariant
            i <= items@.len(),
            items@.len() == all.len(),
            forall|k: int| 0 <= k < items@.len() ==> #[trigger] items@[k]@ == all[k],
            r == apply_items(p, all.take(i as int)),
        decreases items@.len() - i,
    {
        assert(all.take(i + 1).drop_last() =~= all.take(i as int));
        let t = trim(items[i].as_slice());
        r = apply_item_exec(r, &t);
        i = i + 1;
    }
    assert(all.take(i as int) =~= all);
    r
}

/// The scanner's state while it reads.
pub struct Scanner {
    pub in_weapon: bool,
    pub pending: PropsPatch,
    pub found: Overrides,
}

impl Scanner {
    pub open spec fn model(&self) -> ScanModel {
        ScanModel {
            in_weapon: self.in_weapon,
            pending: self.pending,
            found: self.found.view_entries(),
        }
    }

    pub fn new() -> (r: Scanner)
        ensures
            r.model() == scan_start(),
            r.found.wf(),
    {
        Scanner { in_weapon: false, pending: PropsPatch::empty(), found: Overrides::new() }
    }

    /// Reads one line.
    pub fn step(&mut self, line: &Vec<char>)
        requires
            old(self).found.wf(),
        ensures
            final(self).found.wf(),
            final(self).model() == scan_step(old(self).model(), line@),
    {
        let l = trim(line.as_slice());
        let weapon = chars_of("#[entity(Weapon");
        let entity = chars_of("#[entity(");
        let props = chars_of("#[props(");
        if starts_with(l.as_slice(), weapon.as_slice()) {
            self.in_weapon = true;
            self.pending = PropsPatch::empty();
        } else if starts_with(l.as_slice(), entity.as_slice()) {
            self.in_weapon = false;
            self.pending = PropsPatch::empty();
        } else if starts_with(l.as_slice(), props.as_slice()) && self.in_weapon {
            let rest = suffix_from(&l, props.len());
            let payload = strip_trailing_exec(&strip_trailing_exec(&rest, ']'), ')');
            self.pending = apply_props(self.pending, &payload);
        } else if ends_with_char(l.as_slice(), ',') {
            let name = trim(strip_trailing_exec(&l, ',').as_slice());
            if name.len() > 0 {
                let upper = is_uppercase(name[0]);
                self.take_name(&name, upper);
            }
        }
    }

    /// Reads a line naming `name`; `upper` tells whether the name's first
    /// character is uppercase.
    pub fn take_name(&mut self, name: &Vec<char>, upper: bool)
        requires
            old(self).found.wf(),
        ensures
            final(self).found.wf(),
            final(self).model() == after_name(old(self).model(), name@, upper),
    {
        if upper {
            if self.in_weapon && self.pending.has_value() {
                self.found.insert(string_of(name.as_slice()), self.pending);
            }
            self.pending = PropsPatch::empty();
        }
    }
}

/// Reads the override patches that an annotated text declares: one for each
/// identifier line that closes a weapon block after a properties line. When
/// several identifier lines follow one properties line, only the first takes
/// the patch.
pub fn scan_overrides(text: &str) -> (r: Overrides)
    ensures
        r.wf(),
        r.view_entries() == scan_text(text@).found,
{
    let chars = chars_of(text);
    let lines = split_on(chars.as_slice(), '\n');
    let ghost all = split_spec(text@, '\n');
    let mut sc = Scanner::new();
    let mut i: usize = 0;
    while i < lines.len()
        invariant
            i <= lines@.len(),
            lines@.len() == all.len(),
            forall|k: int| 0 <= k < lines@.len() ==> #[trigger] lines@[k]@ == all[k],
            sc.found.wf(),
            sc.model() == scan_lines(all.take(i as int)),
        decreases lines@.len() - i,
    {
        assert(all.take(i + 1).drop_last() =~= all.take(i as int));
        sc.step(&lines[i]);
        i = i + 1;
    }
    assert(all.take(i as int) =~= all);
    sc.found
}

} // verus!
