use entity_catalog::armament::{aggregate, ArmOut, RangeTable};
use entity_catalog::catalog::{
    build_catalog, collect_refs, effective_range, max_armament_range, ship_output, weapon_output,
    CatalogDocument, EntityKind, EntityRecord, ShipOut, WeaponOut,
};
use entity_catalog::fixed::{parse_fixed, Fixed};
use entity_catalog::overrides::{scan_overrides, Overrides, PropsPatch};
use entity_catalog::paths::data_file_path;

fn units(n: i64) -> Fixed {
    Fixed { micros: n * 1_000_000 }
}

fn chars(s: &str) -> Vec<char> {
    s.chars().collect()
}

fn weapon(id: &str, range: i64, speed: i64, reload: i64, damage: i64) -> EntityRecord {
    EntityRecord {
        id: id.to_string(),
        label: format!("{} label", id),
        kind: EntityKind::Weapon,
        sub_kind: "Torpedo".to_string(),
        level: 1,
        speed: units(speed),
        damage: units(damage),
        length: units(3),
        draft: units(0),
        range: units(range),
        depth: units(0),
        reload: units(reload),
        anti_aircraft: units(0),
        torpedo_resistance: units(0),
        stealth: units(0),
        visual_range: units(0),
        npc: false,
        armaments: vec![],
        turrets: vec![],
    }
}

fn boat(id: &str, range: i64, visual: i64, armaments: &[&str], turrets: &[Option<&str>]) -> EntityRecord {
    EntityRecord {
        id: id.to_string(),
        label: format!("{} label", id),
        kind: EntityKind::Boat,
        sub_kind: "Destroyer".to_string(),
        level: 4,
        speed: units(12),
        damage: units(7),
        length: units(110),
        draft: units(5),
        range: units(range),
        depth: units(0),
        reload: units(1),
        anti_aircraft: units(2),
        torpedo_resistance: Fixed { micros: 250_000 },
        stealth: Fixed { micros: 100_000 },
        visual_range: units(visual),
        npc: true,
        armaments: armaments.iter().map(|a| a.to_string()).collect(),
        turrets: turrets.iter().map(|t| t.map(|s| s.to_string())).collect(),
    }
}

fn scenario_registry() -> Vec<EntityRecord> {
    vec![
        weapon("TorpedoA", 10, 5, 2, 20),
        boat("Destroyer1", 0, 50, &["TorpedoA", "TorpedoA"], &[]),
    ]
}

fn group(id: &str, count: u8, range: Fixed) -> ArmOut {
    ArmOut { weapon_id: id.to_string(), count, range, notes: None }
}

#[test]
fn scenario_torpedo_destroyer() {
    let doc = build_catalog(&scenario_registry(), &Overrides::new());
    assert_eq!(doc.weapons.len(), 1);
    let w = &doc.weapons[0];
    assert_eq!(w.id, "TorpedoA");
    assert_eq!(w.kind, "Torpedo");
    assert_eq!(w.range, units(10));
    assert_eq!(w.speed, units(5));
    assert_eq!(w.reload, units(2));
    assert_eq!(w.damage, units(20));
    assert_eq!(doc.ships.len(), 1);
    let s = &doc.ships[0];
    assert_eq!(s.id, "Destroyer1");
    assert_eq!(s.kind, "Boat");
    assert_eq!(s.sub_kind, "Destroyer");
    assert_eq!(s.armaments, vec![group("TorpedoA", 2, units(10))]);
    assert_eq!(s.range, units(10));
}

#[test]
fn scenario_override_range_reaches_ship() {
    let text = "#[entity(Weapon, Torpedo)]\n#[props(range = 15)]\nTorpedoA,\n";
    let overrides = scan_overrides(text);
    let doc = build_catalog(&scenario_registry(), &overrides);
    assert_eq!(doc.weapons[0].range, units(15));
    assert_eq!(doc.weapons[0].speed, units(5));
    assert_eq!(doc.ships[0].armaments, vec![group("TorpedoA", 2, units(15))]);
    assert_eq!(doc.ships[0].range, units(15));
}

#[test]
fn two_identifiers_after_one_properties_line() {
    let text = "#[entity(Weapon, Torpedo)]\n#[props(range = 15)]\nTorpedoA,\nTorpedoB,\n";
    let o = scan_overrides(text);
    assert_eq!(o.entries.len(), 1);
    assert_eq!(o.get(&"TorpedoA".to_string()).unwrap().range, Some(units(15)));
    assert!(o.get(&"TorpedoB".to_string()).is_none());
}

#[test]
fn unpatched_weapon_keeps_registry_values() {
    let text = "#[entity(Weapon, Torpedo)]\n#[props(range = 99)]\nOther,\n";
    let doc = build_catalog(&scenario_registry(), &scan_overrides(text));
    let w = &doc.weapons[0];
    assert_eq!((w.range, w.speed, w.reload, w.damage), (units(10), units(5), units(2), units(20)));
}

#[test]
fn patch_changes_only_given_fields() {
    let text = "  #[entity(Weapon, Torpedo)]\r\n  #[props(speed = 7.5, damage = 0.25)]\r\n  TorpedoA,\r\n";
    let doc = build_catalog(&scenario_registry(), &scan_overrides(text));
    let w = &doc.weapons[0];
    assert_eq!(w.range, units(10));
    assert_eq!(w.reload, units(2));
    assert_eq!(w.speed, Fixed { micros: 7_500_000 });
    assert_eq!(w.damage, Fixed { micros: 250_000 });
}

#[test]
fn all_four_keys_are_read() {
    let text = "#[entity(Weapon)]\n#[props(range = 1, speed = 2, reload = 3, damage = 4)]\nGun,\n";
    let p = scan_overrides(text).get(&"Gun".to_string()).unwrap();
    assert_eq!(
        p,
        PropsPatch {
            range: Some(units(1)),
            speed: Some(units(2)),
            reload: Some(units(3)),
            damage: Some(units(4)),
        }
    );
}

#[test]
fn unparsable_values_and_unknown_keys_are_skipped() {
    let text = "#[entity(Weapon)]\n#[props(range = far, speed = 3, weight = 9, damage =4)]\nGun,\n";
    let p = scan_overrides(text).get(&"Gun".to_string()).unwrap();
    assert_eq!(p.range, None);
    assert_eq!(p.speed, Some(units(3)));
    assert_eq!(p.damage, None);
    assert_eq!(p.reload, None);
}

#[test]
fn patch_with_nothing_readable_is_not_stored() {
    let text = "#[entity(Weapon)]\n#[props(range = far)]\nGun,\n";
    assert!(scan_overrides(text).entries.is_empty());
}

#[test]
fn properties_outside_weapon_blocks_are_ignored() {
    let text = "#[entity(Boat, Destroyer)]\n#[props(range = 15)]\nTorpedoA,\n";
    assert!(scan_overrides(text).entries.is_empty());
}

#[test]
fn new_block_marker_clears_pending_patch() {
    let text = "#[entity(Weapon)]\n#[props(range = 15)]\n#[entity(Weapon)]\nGun,\n";
    assert!(scan_overrides(text).entries.is_empty());
    let text = "#[entity(Weapon)]\n#[props(range = 15)]\n#[entity(Boat)]\nShip,\n";
    assert!(scan_overrides(text).entries.is_empty());
}

#[test]
fn lowercase_name_is_no_identifier_line() {
    let text = "#[entity(Weapon)]\n#[props(range = 15)]\nfoo,\nGun,\n";
    let o = scan_overrides(text);
    assert_eq!(o.get(&"Gun".to_string()).unwrap().range, Some(units(15)));
    assert!(o.get(&"foo".to_string()).is_none());
}

#[test]
fn non_ascii_uppercase_identifier() {
    let text = "#[entity(Weapon)]\n#[props(range = 4)]\nÉclair,\n";
    let o = scan_overrides(text);
    assert_eq!(o.entries.len(), 1);
    assert_eq!(o.entries[0].0, "Éclair");
}

#[test]
fn later_patch_replaces_earlier() {
    let text = "#[entity(Weapon)]\n#[props(range = 1)]\nGun,\n#[entity(Weapon)]\n#[props(speed = 2)]\nGun,\n";
    let p = scan_overrides(text).get(&"Gun".to_string()).unwrap();
    assert_eq!(p.range, None);
    assert_eq!(p.speed, Some(units(2)));
}

#[test]
fn identifier_with_trailing_commas_and_spaces() {
    let text = "#[entity(Weapon)]\n#[props(range = 3)]\n\tGun ,,\n";
    let o = scan_overrides(text);
    assert_eq!(o.entries[0].0, "Gun");
}

#[test]
fn empty_text_gives_no_overrides() {
    assert!(scan_overrides("").entries.is_empty());
}

#[test]
fn parse_literals() {
    assert_eq!(parse_fixed(&chars("15")), Some(units(15)));
    assert_eq!(parse_fixed(&chars("2.5")), Some(Fixed { micros: 2_500_000 }));
    assert_eq!(parse_fixed(&chars("-0.25")), Some(Fixed { micros: -250_000 }));
    assert_eq!(parse_fixed(&chars("+7")), Some(units(7)));
    assert_eq!(parse_fixed(&chars(".5")), Some(Fixed { micros: 500_000 }));
    assert_eq!(parse_fixed(&chars("3.")), Some(units(3)));
    assert_eq!(parse_fixed(&chars("0.000001")), Some(Fixed { micros: 1 }));
    assert_eq!(parse_fixed(&chars("9223372036854")), Some(units(9_223_372_036_854)));
}

#[test]
fn parse_rejects_malformed() {
    for s in ["", ".", "-", "+", "abc", "1.2.3", "1e5", "1.2345678", " 1", "1-", "--1", "15)]"] {
        assert_eq!(parse_fixed(&chars(s)), None, "{}", s);
    }
    assert_eq!(parse_fixed(&chars("99999999999999999999")), None);
    assert_eq!(parse_fixed(&chars("9223372036855")), None);
}

#[test]
fn armament_tier_wins_over_visual() {
    let groups = vec![group("A", 1, units(3)), group("B", 2, units(8)), group("C", 1, units(0))];
    assert_eq!(max_armament_range(&groups), units(8));
    assert_eq!(effective_range(units(0), &groups, units(50)), units(8));
}

#[test]
fn visual_tier_without_armaments() {
    assert_eq!(effective_range(units(0), &vec![], units(50)), units(50));
    let doc = build_catalog(&vec![boat("Raft", 0, 33, &[], &[None, None])], &Overrides::new());
    assert!(doc.ships[0].armaments.is_empty());
    assert_eq!(doc.ships[0].range, units(33));
}

#[test]
fn visual_tier_when_armaments_have_no_range() {
    let groups = vec![group("A", 1, units(0))];
    assert_eq!(effective_range(units(0), &groups, units(40)), units(40));
}

#[test]
fn declared_range_wins() {
    let groups = vec![group("A", 1, units(30))];
    assert_eq!(effective_range(units(12), &groups, units(50)), units(12));
}

#[test]
fn armaments_and_turrets_counted_together() {
    let reg = vec![
        weapon("Gun", 4, 1, 1, 1),
        weapon("Torp", 9, 1, 1, 1),
        boat("Ship", 0, 20, &["Gun", "Torp", "Gun"], &[Some("Gun"), None, Some("Missile")]),
    ];
    let doc = build_catalog(&reg, &Overrides::new());
    assert_eq!(
        doc.ships[0].armaments,
        vec![group("Gun", 3, units(4)), group("Torp", 1, units(9)), group("Missile", 1, units(0))]
    );
    assert_eq!(doc.ships[0].range, units(9));
}

#[test]
fn collect_refs_skips_empty_turrets() {
    let b = boat("Ship", 0, 0, &["A"], &[None, Some("B"), None, Some("A")]);
    assert_eq!(collect_refs(&b), vec!["A".to_string(), "B".to_string(), "A".to_string()]);
}

#[test]
fn count_saturates_at_255() {
    let names: Vec<&str> = std::iter::repeat("Gun").take(300).collect();
    let reg = vec![weapon("Gun", 2, 1, 1, 1), boat("Big", 0, 1, &names, &[])];
    let doc = build_catalog(&reg, &Overrides::new());
    assert_eq!(doc.ships[0].armaments, vec![group("Gun", 255, units(2))]);
}

#[test]
fn ship_before_weapon_still_sees_range() {
    let reg = vec![boat("Early", 0, 50, &["Late"], &[]), weapon("Late", 6, 1, 1, 1)];
    let doc = build_catalog(&reg, &Overrides::new());
    assert_eq!(doc.ships[0].armaments, vec![group("Late", 1, units(6))]);
    assert_eq!(doc.ships[0].range, units(6));
}

#[test]
fn other_kinds_are_left_out() {
    let mut other = weapon("Crate", 1, 1, 1, 1);
    other.kind = EntityKind::Other;
    let doc = build_catalog(&vec![other], &Overrides::new());
    assert!(doc.weapons.is_empty());
    assert!(doc.ships.is_empty());
}

#[test]
fn ship_fields_are_copied() {
    let table = RangeTable::new();
    let b = boat("Ship", 7, 50, &[], &[]);
    let s = ship_output(&b, &table);
    assert_eq!(s.label, "Ship label");
    assert_eq!(s.level, 4);
    assert_eq!(s.health, units(7));
    assert_eq!(s.length, units(110));
    assert_eq!(s.draft, units(5));
    assert_eq!(s.reload, units(1));
    assert_eq!(s.anti_aircraft, units(2));
    assert_eq!(s.torpedo_resistance, Fixed { micros: 250_000 });
    assert_eq!(s.stealth, Fixed { micros: 100_000 });
    assert!(s.npc);
    assert_eq!(s.range, units(7));
}

#[test]
fn range_table_lookup() {
    let mut t = RangeTable::new();
    assert_eq!(t.lookup(&"Gun".to_string()), units(0));
    t.record("Gun".to_string(), units(3));
    t.record("Torp".to_string(), units(5));
    t.record("Gun".to_string(), units(4));
    assert_eq!(t.lookup(&"Gun".to_string()), units(4));
    assert_eq!(t.lookup(&"Torp".to_string()), units(5));
    let groups = aggregate(&vec!["Torp".to_string(), "Gun".to_string(), "Torp".to_string()], &t);
    assert_eq!(groups, vec![group("Torp", 2, units(5)), group("Gun", 1, units(4))]);
}

#[test]
fn weapon_output_applies_patch() {
    let rec = weapon("Gun", 10, 5, 2, 20);
    let p = PropsPatch { range: None, speed: None, reload: Some(units(9)), damage: None };
    let w = weapon_output(&rec, Some(p));
    assert_eq!(
        w,
        WeaponOut {
            id: "Gun".to_string(),
            label: "Gun label".to_string(),
            kind: "Torpedo".to_string(),
            damage: units(20),
            reload: units(9),
            speed: units(5),
            range: units(10),
        }
    );
}

#[test]
fn data_file_path_joins() {
    assert_eq!(data_file_path("/srv/admin"), "/srv/admin/../../data/entities.json");
}

fn num(f: Fixed) -> serde_json::Value {
    serde_json::Value::from(f.micros)
}

fn read_num(v: &serde_json::Value) -> Fixed {
    Fixed { micros: v.as_i64().unwrap() }
}

fn to_json(doc: &CatalogDocument) -> serde_json::Value {
    let weapons: Vec<serde_json::Value> = doc
        .weapons
        .iter()
        .map(|w| {
            let mut m = serde_json::Map::new();
            m.insert("id".to_string(), serde_json::Value::from(w.id.clone()));
            m.insert("label".to_string(), serde_json::Value::from(w.label.clone()));
            m.insert("kind".to_string(), serde_json::Value::from(w.kind.clone()));
            m.insert("damage".to_string(), num(w.damage));
            m.insert("reload".to_string(), num(w.reload));
            m.insert("speed".to_string(), num(w.speed));
            m.insert("range".to_string(), num(w.range));
            serde_json::Value::Object(m)
        })
        .collect();
    let ships: Vec<serde_json::Value> = doc
        .ships
        .iter()
        .map(|s| {
            let mut m = serde_json::Map::new();
            m.insert("id".to_string(), serde_json::Value::from(s.id.clone()));
            m.insert("label".to_string(), serde_json::Value::from(s.label.clone()));
            m.insert("level".to_string(), serde_json::Value::from(s.level));
            m.insert("kind".to_string(), serde_json::Value::from(s.kind.clone()));
            m.insert("sub_kind".to_string(), serde_json::Value::from(s.sub_kind.clone()));
            for (k, v) in [
                ("speed", s.speed),
                ("health", s.health),
                ("length", s.length),
                ("draft", s.draft),
                ("range", s.range),
                ("depth", s.depth),
                ("reload", s.reload),
                ("anti_aircraft", s.anti_aircraft),
                ("torpedo_resistance", s.torpedo_resistance),
                ("stealth", s.stealth),
            ] {
                m.insert(k.to_string(), num(v));
            }
            m.insert("npc".to_string(), serde_json::Value::from(s.npc));
            let arms: Vec<serde_json::Value> = s
                .armaments
                .iter()
                .map(|a| {
                    let mut g = serde_json::Map::new();
                    g.insert("weapon_id".to_string(), serde_json::Value::from(a.weapon_id.clone()));
                    g.insert("count".to_string(), serde_json::Value::from(a.count));
                    g.insert("range".to_string(), num(a.range));
                    g.insert("notes".to_string(), serde_json::Value::Null);
                    serde_json::Value::Object(g)
                })
                .collect();
            m.insert("armaments".to_string(), serde_json::Value::Array(arms));
            serde_json::Value::Object(m)
        })
        .collect();
    let mut top = serde_json::Map::new();
    top.insert("weapons".to_string(), serde_json::Value::Array(weapons));
    top.insert("ships".to_string(), serde_json::Value::Array(ships));
    serde_json::Value::Object(top)
}

fn text(v: &serde_json::Value, k: &str) -> String {
    v[k].as_str().unwrap().to_string()
}

fn from_json(v: &serde_json::Value) -> CatalogDocument {
    let weapons = v["weapons"]
        .as_array()
        .unwrap()
        .iter()
        .map(|w| WeaponOut {
            id: text(w, "id"),
            label: text(w, "label"),
            kind: text(w, "kind"),
            damage: read_num(&w["damage"]),
            reload: read_num(&w["reload"]),
            speed: read_num(&w["speed"]),
            range: read_num(&w["range"]),
        })
        .collect();
    let ships = v["ships"]
        .as_array()
        .unwrap()
        .iter()
        .map(|s| ShipOut {
            id: text(s, "id"),
            label: text(s, "label"),
            level: s["level"].as_u64().unwrap() as u8,
            kind: text(s, "kind"),
            sub_kind: text(s, "sub_kind"),
            speed: read_num(&s["speed"]),
            health: read_num(&s["health"]),
            length: read_num(&s["length"]),
            draft: read_num(&s["draft"]),
            range: read_num(&s["range"]),
            depth: read_num(&s["depth"]),
            reload: read_num(&s["reload"]),
            anti_aircraft: read_num(&s["anti_aircraft"]),
            torpedo_resistance: read_num(&s["torpedo_resistance"]),
            stealth: read_num(&s["stealth"]),
            npc: s["npc"].as_bool().unwrap(),
            armaments: s["armaments"]
                .as_array()
                .unwrap()
                .iter()
                .map(|a| ArmOut {
                    weapon_id: text(a, "weapon_id"),
                    count: a["count"].as_u64().unwrap() as u8,
                    range: read_num(&a["range"]),
                    notes: None,
                })
                .collect(),
        })
        .collect();
    CatalogDocument { weapons, ships }
}

#[test]
fn exported_document_reads_back_equal() {
    let reg = vec![
        weapon("Gun", 4, 1, 1, 1),
        weapon("Torp", 9, 2, 3, 4),
        boat("Ship", 0, 20, &["Gun", "Torp", "Gun"], &[Some("Gun"), None]),
        boat("Raft", 0, 33, &[], &[]),
    ];
    let overrides = scan_overrides("#[entity(Weapon)]\n#[props(range = 12.125)]\nTorp,\n");
    let doc = build_catalog(&reg, &overrides);
    let encoded = serde_json::to_string_pretty(&to_json(&doc)).unwrap();
    let decoded: serde_json::Value = serde_json::from_str(&encoded).unwrap();
    assert_eq!(from_json(&decoded), doc);
}
