use vstd::prelude::*;

use crate::armament::{
    aggregate, first_occurrences, groups_match, lemma_present_grouped, occurrences, resolved_range,
    saturated, views, ArmOut, RangeTable,
};
use crate::fixed::{max_fixed, Fixed};
use crate::overrides::{Overrides, PropsPatch};

verus! {

#[derive(Clone, Copy, Debug, PartialEq, Eq, Structural)]
pub enum EntityKind {
    Weapon,
    Boat,
    Other,
}

/// One entity of the registry, as the pipeline reads it.
#[derive(Clone, Debug)]
pub struct EntityRecord {
    pub id: String,
    pub label: String,
    pub kind: EntityKind,
    /// The name of the sub-kind, such as `Torpedo` or `Destroyer`.
    pub sub_kind: String,
    pub level: u8,
    pub speed: Fixed,
    pub damage: Fixed,
    pub length: Fixed,
    pub draft: Fixed,
    pub range: Fixed,
    pub depth: Fixed,
    pub reload: Fixed,
    pub anti_aircraft: Fixed,
    pub torpedo_resistance: Fixed,
    pub stealth: Fixed,
    pub visual_range: Fixed,
    pub npc: bool,
    /// One entry per mounted unit.
    pub armaments: Vec<String>,
    /// `None` for an empty mount.
    pub turrets: Vec<Option<String>>,
}

#[derive(Clone, Debug, PartialEq)]
pub struct WeaponOut {
    pub id: String,
    pub label: String,
    pub kind: String,
    pub damage: Fixed,
    pub reload: Fixed,
    pub speed: Fixed,
    pub range: Fixed,
}

#[derive(Clone, Debug, PartialEq)]
pub struct ShipOut {
    pub id: String,
    pub label: String,
    pub level: u8,
    pub kind: String,
    pub sub_kind: String,
    pub speed: Fixed,
    pub health: Fixed,
    pub length: Fixed,
    pub draft: Fixed,
    pub range: Fixed,
    pub depth: Fixed,
    pub reload: Fixed,
    pub anti_aircraft: Fixed,
    pub torpedo_resistance: Fixed,
    pub stealth: Fixed,
    pub npc: bool,
    pub armaments: Vec<ArmOut>,
}

#[derive(Clone, Debug, PartialEq)]
pub struct CatalogDocument {
    pub weapons: Vec<WeaponOut>,
    pub ships: Vec<ShipOut>,
}

/// The identifiers of the occupied turret mounts, in order.
pub open spec fn turret_refs(turrets: Seq<Option<String>>) -> Seq<Seq<char>>
    decreases turrets.len(),
{
    if turrets.len() == 0 {
        Seq::empty()
    } else {
        let rest = turret_refs(turrets.drop_last());
        match turrets.last() {
            Some(id) => rest.push(id@),
            None => rest,
        }
    }
}

/// Every weapon reference of a ship: its armaments, then its occupied turrets.
pub open spec fn mount_refs(rec: EntityRecord) -> Seq<Seq<char>> {
    views(rec.armaments@) + turret_refs(rec.turrets@)
}

/// The largest range among the groups, or zero.
pub open spec fn max_group_range(groups: Seq<ArmOut>) -> Fixed
    decreases groups.len(),
{
    if groups.len() == 0 {
        Fixed { micros: 0 }
    } else {
        max_fixed(max_group_range(groups.drop_last()), groups.last().range)
    }
}

/// A ship's range: its declared range where positive, else the largest range
/// of its armaments where positive, else its visual range.
pub open spec fn effective_range_spec(declared: Fixed, armament_max: Fixed, visual: Fixed) -> Fixed {
    if declared.micros > 0 {
        declared
    } else if armament_max.micros > 0 {
        armament_max
    } else {
        visual
    }
}

/// `base`, or the patch's value where it has one.
pub open spec fn patched(base: Fixed, patch: Option<Fixed>) -> Fixed {
    match patch {
        Some(v) => v,
        None => base,
    }
}

/// The patch in force for `id`; the empty patch where there is none.
pub open spec fn patch_for(overrides: Overrides, id: Seq<char>) -> PropsPatch {
    match overrides.lookup(id) {
        Some(p) => p,
        None => PropsPatch::none(),
    }
}

/// The weapon record that `rec` gives under `patch`.
pub open spec fn weapon_matches(w: WeaponOut, rec: EntityRecord, patch: PropsPatch) -> bool {
    &&& w.id@ == rec.id@
    &&& w.label@ == rec.label@
    &&& w.kind@ == rec.sub_kind@
    &&& w.damage == patched(rec.damage, patch.damage)
    &&& w.reload == patched(rec.reload, patch.reload)
    &&& w.speed == patched(rec.speed, patch.speed)
    &&& w.range == patched(rec.range, patch.range)
}

/// The ship record that `rec` gives with weapon ranges from `table`.
pub open spec fn ship_matches(s: ShipOut, rec: EntityRecord, table: Seq<(Seq<char>, Fixed)>) -> bool {
    &&& s.id@ == rec.id@
    &&& s.label@ == rec.label@
    &&& s.level == rec.level
    &&& s.kind@ == "Boat"@
    &&& s.sub_kind@ == rec.sub_kind@
    &&& s.speed == rec.speed
    &&& s.health == rec.damage
    &&& s.length == rec.length
    &&& s.draft == rec.draft
    &&& s.depth == rec.depth
    &&& s.reload == rec.reload
    &&& s.anti_aircraft == rec.anti_aircraft
    &&& s.torpedo_resistance == rec.torpedo_resistance
    &&& s.stealth == rec.stealth
    &&& s.npc == rec.npc
    &&& groups_match(s.armaments@, mount_refs(rec), table)
    &&& s.range == effective_range_spec(
        rec.range,
        max_group_range(s.armaments@),
        rec.visual_range,
    )
}

/// The largest range among `groups`, or zero where there is none.
pub fn max_armament_range(groups: &Vec<ArmOut>) -> (r: Fixed)
    ensures
        r == max_group_range(groups@),
{
    let mut m = Fixed::zero();
    let mut i: usize = 0;
    while i < groups.len()
        invariant
            i <= groups@.len(),
            m == max_group_range(groups@.take(i as int)),
        decreases groups@.len() - i,
    {
        assert(groups@.take(i + 1).drop_last() =~= groups@.take(i as int));
        m = m.max(groups[i].range);
        i = i + 1;
    }
    assert(groups@.take(i as int) =~= groups@);
    m
}

/// A ship's range by the three-tier fallback: declared, then armament, then
/// visual.
pub fn effective_range(declared: Fixed, groups: &Vec<ArmOut>, visual: Fixed) -> (r: Fixed)
    ensures
        r == effective_range_spec(declared, max_group_range(groups@), visual),
{
    if declared.is_positive() {
        declared
    } else {
        let m = max_armament_range(groups);
        if m.is_positive() {
            m
        } else {
            visual
        }
    }
}

/// The weapon record of `rec`, with the fields that `patch` sets replaced.
pub fn weapon_output(rec: &EntityRecord, patch: Option<PropsPatch>) -> (r: WeaponOut)
    ensures
        weapon_matches(
            r,
            *rec,
            match patch {
                Some(p) => p,
                None => PropsPatch::none(),
            },
        ),
{
    let mut w = WeaponOut {
        id: rec.id.clone(),
        label: rec.label.clone(),
        kind: rec.sub_kind.clone(),
        damage: rec.damage,
        reload: rec.reload,
        speed: rec.speed,
        range: rec.range,
    };
    if let Some(p) = patch {
        if let Some(v) = p.range {
            w.range = v;
        }
        if let Some(v) = p.speed {
            w.speed = v;
        }
        if let Some(v) = p.reload {
            w.reload = v;
        }
        if let Some(v) = p.damage {
            w.damage = v;
        }
    }
    w
}

/// The weapon references of a ship: armaments, then occupied turrets.
pub fn collect_refs(rec: &EntityRecord) -> (r: Vec<String>)
    ensures
        views(r@) == mount_refs(*rec),
{
    let mut r: Vec<String> = Vec::new();
    let mut i: usize = 0;
    while i < rec.armaments.len()
        invariant
            i <= rec.armaments@.len(),
            r@.len() == i,
            forall|k: int| 0 <= k < i ==> (#[trigger] r@[k])@ == rec.armaments@[k]@,
        decreases rec.armaments@.len() - i,
    {
        r.push(rec.armaments[i].clone());
        i = i + 1;
    }
    assert(views(r@) =~= views(rec.armaments@));
    let mut t: usize = 0;
    while t < rec.turrets.len()
        invariant
            t <= rec.turrets@.len(),
            views(r@) == views(rec.armaments@) + turret_refs(rec.turrets@.take(t as int)),
        decreases rec.turrets@.len() - t,
    {
        assert(rec.turrets@.take(t + 1).drop_last() =~= rec.turrets@.take(t as int));
        let ghost before = r@;
        match &rec.turrets[t] {
            Some(id) => {
                r.push(id.clone());
                assert(views(r@) =~= views(before).push(id@));
            },
            None => {},
        }
        t = t + 1;
    }
    assert(rec.turrets@.take(t as int) =~= rec.turrets@);
    r
}

/// The ship record of `rec`, with weapon ranges from `table`.
pub fn ship_output(rec: &EntityRecord, table: &RangeTable) -> (r: ShipOut)
    ensures
        ship_matches(r, *rec, table.view_entries()),
{
    let refs = collect_refs(rec);
    let armaments = aggregate(&refs, table);
    let range = effective_range(rec.range, &armaments, rec.visual_range);
    ShipOut {
        id: rec.id.clone(),
        label: rec.label.clone(),
        level: rec.level,
        kind: "Boat".to_owned(),
        sub_kind: rec.sub_kind.clone(),
        speed: rec.speed,
        health: rec.damage,
        length: rec.length,
        draft: rec.draft,
        range,
        depth: rec.depth,
        reload: rec.reload,
        anti_aircraft: rec.anti_aircraft,
        torpedo_resistance: rec.torpedo_resistance,
        stealth: rec.stealth,
        npc: rec.npc,
        armaments,
    }
}

/// The entities of kind `k`, in registry order.
pub open spec fn of_kind(reg: Seq<EntityRecord>, k: EntityKind) -> Seq<EntityRecord>
    decreases reg.len(),
{
    if reg.len() == 0 {
        Seq::empty()
    } else {
        let rest = of_kind(reg.drop_last(), k);
        if reg.last().kind == k {
            rest.push(reg.last())
        } else {
            rest
        }
    }
}

/// The range table that a list of weapon records gives.
pub open spec fn weapon_ranges(ws: Seq<WeaponOut>) -> Seq<(Seq<char>, Fixed)> {
    ws.map_values(|w: WeaponOut| (w.id@, w.range))
}

/// The document that `reg` gives under `overrides`: one weapon record per
/// weapon and one ship record per boat, each in registry order, with ship
/// armament ranges taken from the weapon records.
pub open spec fn catalog_matches(
    doc: CatalogDocument,
    reg: Seq<EntityRecord>,
    overrides: Overrides,
) -> bool {
    let weapons = of_kind(reg, EntityKind::Weapon);
    let boats = of_kind(reg, EntityKind::Boat);
    &&& doc.weapons@.len() == weapons.len()
    &&& forall|k: int|
        0 <= k < weapons.len() ==> weapon_matches(
            #[trigger] doc.weapons@[k],
            weapons[k],
            patch_for(overrides, weapons[k].id@),
        )
    &&& doc.ships@.len() == boats.len()
    &&& forall|k: int|
        0 <= k < boats.len() ==> ship_matches(
            #[trigger] doc.ships@[k],
            boats[k],
            weapon_ranges(doc.weapons@),
        )
}

/// Derives the catalog from the registry. Weapons are read first, with their
/// patches applied, so that every ship sees the range of every weapon
/// whatever the registry's order; entities of other kinds are left out.
pub fn build_catalog(registry: &Vec<EntityRecord>, overrides: &Overrides) -> (r: CatalogDocument)
    ensures
        catalog_matches(r, registry@, *overrides),
{
    let ghost reg = registry@;
    let mut weapons: Vec<WeaponOut> = Vec::new();
    let mut table = RangeTable::new();
    let mut i: usize = 0;
    proof {
        assert(weapon_ranges(weapons@) =~= table.view_entries());
    }
    while i < registry.len()
        invariant
            i <= reg.len(),
            reg == registry@,
            weapons@.len() == of_kind(reg.take(i as int), EntityKind::Weapon).len(),
            forall|k: int|
                0 <= k < weapons@.len() ==> weapon_matches(
                    #[trigger] weapons@[k],
                    of_kind(reg.take(i as int), EntityKind::Weapon)[k],
                    patch_for(*overrides, of_kind(reg.take(i as int), EntityKind::Weapon)[k].id@),
                ),
            table.view_entries() == weapon_ranges(weapons@),
        decreases reg.len() - i,
    {
        assert(reg.take(i + 1).drop_last() =~= reg.take(i as int));
        let rec = &registry[i];
        if rec.kind == EntityKind::Weapon {
            let w = weapon_output(rec, overrides.get(&rec.id));
            table.record(w.id.clone(), w.range);
            let ghost before = weapons@;
            weapons.push(w);
            assert(weapon_ranges(weapons@) =~= weapon_ranges(before).push((w.id@, w.range)));
        }
        i = i + 1;
    }
    assert(reg.take(i as int) =~= reg);
    let mut ships: Vec<ShipOut> = Vec::new();
    let mut j: usize = 0;
    while j < registry.len()
        invariant
            j <= reg.len(),
            reg == registry@,
            ships@.len() == of_kind(reg.take(j as int), EntityKind::Boat).len(),
            forall|k: int|
                0 <= k < ships@.len() ==> ship_matches(
                    #[trigger] ships@[k],
                    of_kind(reg.take(j as int), EntityKind::Boat)[k],
                    weapon_ranges(weapons@),
                ),
            table.view_entries() == weapon_ranges(weapons@),
        decreases reg.len() - j,
    {
        assert(reg.take(j + 1).drop_last() =~= reg.take(j as int));
        let rec = &registry[j];
        if rec.kind == EntityKind::Boat {
            let s = ship_output(rec, &table);
            ships.push(s);
        }
        j = j + 1;
    }
    assert(reg.take(j as int) =~= reg);
    CatalogDocument { weapons, ships }
}

/// A weapon that no patch names comes out with the registry's range, speed,
/// reload and damage.
pub proof fn lemma_unpatched_weapon_unchanged(
    doc: CatalogDocument,
    reg: Seq<EntityRecord>,
    overrides: Overrides,
    k: int,
)
    requires
        catalog_matches(doc, reg, overrides),
        0 <= k < of_kind(reg, EntityKind::Weapon).len(),
        overrides.lookup(of_kind(reg, EntityKind::Weapon)[k].id@) is None,
    ensures
        doc.weapons@[k].range == of_kind(reg, EntityKind::Weapon)[k].range,
        doc.weapons@[k].speed == of_kind(reg, EntityKind::Weapon)[k].speed,
        doc.weapons@[k].reload == of_kind(reg, EntityKind::Weapon)[k].reload,
        doc.weapons@[k].damage == of_kind(reg, EntityKind::Weapon)[k].damage,
{
    assert(weapon_matches(
        doc.weapons@[k],
        of_kind(reg, EntityKind::Weapon)[k],
        patch_for(overrides, of_kind(reg, EntityKind::Weapon)[k].id@),
    ));
}

/// A patched weapon takes exactly the fields that its patch sets; the others
/// keep the registry's values.
pub proof fn lemma_patch_sets_only_its_fields(
    doc: CatalogDocument,
    reg: Seq<EntityRecord>,
    overrides: Overrides,
    k: int,
    p: PropsPatch,
)
    requires
        catalog_matches(doc, reg, overrides),
        0 <= k < of_kind(reg, EntityKind::Weapon).len(),
        overrides.lookup(of_kind(reg, EntityKind::Weapon)[k].id@) == Some(p),
    ensures
        doc.weapons@[k].range == match p.range {
            Some(v) => v,
            None => of_kind(reg, EntityKind::Weapon)[k].range,
        },
        doc.weapons@[k].speed == match p.speed {
            Some(v) => v,
            None => of_kind(reg, EntityKind::Weapon)[k].speed,
        },
        doc.weapons@[k].reload == match p.reload {
            Some(v) => v,
            None => of_kind(reg, EntityKind::Weapon)[k].reload,
        },
        doc.weapons@[k].damage == match p.damage {
            Some(v) => v,
            None => of_kind(reg, EntityKind::Weapon)[k].damage,
        },
{
    assert(weapon_matches(
        doc.weapons@[k],
        of_kind(reg, EntityKind::Weapon)[k],
        patch_for(overrides, of_kind(reg, EntityKind::Weapon)[k].id@),
    ));
}

/// A ship with no declared range whose armaments reach some positive range
/// takes the armaments' largest range, not its visual range.
pub proof fn lemma_armament_tier_before_visual(s: ShipOut, rec: EntityRecord, table: Seq<(Seq<char>, Fixed)>)
    requires
        ship_matches(s, rec, table),
        rec.range.micros == 0,
        max_group_range(s.armaments@).micros > 0,
    ensures
        s.range == max_group_range(s.armaments@),
{
}

/// A ship with no declared range and no weapon mounted takes its visual range.
pub proof fn lemma_visual_tier_without_armaments(
    s: ShipOut,
    rec: EntityRecord,
    table: Seq<(Seq<char>, Fixed)>,
)
    requires
        ship_matches(s, rec, table),
        rec.range.micros == 0,
        mount_refs(rec).len() == 0,
    ensures
        s.range == rec.visual_range,
        s.armaments@.len() == 0,
{
    assert(s.armaments@.len() == 0);
}

/// A weapon that a ship references `n > 0` times over its armaments and
/// turrets together has a group, and every group of that weapon counts `n`
/// (up to 255) at the weapon's resolved range.
pub proof fn lemma_group_counts_references(
    s: ShipOut,
    rec: EntityRecord,
    table: Seq<(Seq<char>, Fixed)>,
    id: Seq<char>,
)
    requires
        ship_matches(s, rec, table),
        occurrences(mount_refs(rec), id) > 0,
    ensures
        exists|g: int| 0 <= g < s.armaments@.len() && (#[trigger] s.armaments@[g]).weapon_id@ == id,
        forall|g: int|
            0 <= g < s.armaments@.len() && (#[trigger] s.armaments@[g]).weapon_id@ == id ==> {
                &&& s.armaments@[g].count == saturated(occurrences(mount_refs(rec), id))
                &&& s.armaments@[g].range == resolved_range(table, id)
            },
{
    lemma_present_grouped(mount_refs(rec), id);
    let ids = first_occurrences(mount_refs(rec));
    let g = choose|g: int| 0 <= g < ids.len() && ids[g] == id;
    assert(s.armaments@[g].weapon_id@ == id);
}

} // verus!
