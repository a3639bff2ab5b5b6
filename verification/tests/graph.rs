use wirenorm::intern::IdStringDb;
use wirenorm::neighbour::Neighbour;
use wirenorm::normalize::Tile;
use wirenorm::tiletype::{Bel, Pin, PinDir, TileBitsDatabase, TileDb, TileDbEntry, TileType,
    TileTypes, WireConns};

fn conns(to: &str, from: &[&str]) -> WireConns {
    WireConns {
        to_wire: to.to_string(),
        from_wires: from.iter().map(|s| s.to_string()).collect(),
    }
}

fn small_data() -> TileBitsDatabase {
    TileBitsDatabase {
        pips: vec![conns("A", &["N1:B"])],
        conns: vec![conns("B", &["A"])],
    }
}

fn small_bels() -> Vec<Bel> {
    vec![Bel {
        name: "LUT0".to_string(),
        pins: vec![
            Pin { wire: "Q".to_string(), dir: PinDir::Output },
            Pin { wire: "S1:D".to_string(), dir: PinDir::Input },
        ],
    }]
}

#[test]
fn interner_gives_equal_ids_to_equal_strings() {
    let mut ids = IdStringDb::new();
    let a = ids.id("A");
    let b = ids.id("B");
    assert_eq!(ids.id("A"), a);
    assert_eq!(ids.id("B"), b);
    assert_ne!(a, b);
    assert_eq!(ids.lookup(a), "A");
    assert_eq!(ids.len(), 2);
}

#[test]
fn builder_collects_wires_in_encounter_order() {
    let mut ids = IdStringDb::new();
    let tt = TileType::new(small_data(), small_bels(), &mut ids).unwrap();
    assert_eq!(tt.wires, vec!["A", "N1:B", "B", "Q", "S1:D"]);
    assert_eq!(tt.wire_ids, vec![0, 1, 2, 3, 4]);
    assert!(tt.has_routing());
}

#[test]
fn builder_marks_destinations_and_outputs_driven() {
    let mut ids = IdStringDb::new();
    let tt = TileType::new(small_data(), small_bels(), &mut ids).unwrap();
    // pip destination A, connection destination B, output pin Q
    assert_eq!(tt.driven_wire_ids, vec![0, 2, 3]);
    // the graph invariant: every driven id is a known wire id
    for id in &tt.driven_wire_ids {
        assert!(tt.wire_ids.contains(id));
    }
}

#[test]
fn builder_groups_neighbour_wires() {
    let mut ids = IdStringDb::new();
    let tt = TileType::new(small_data(), small_bels(), &mut ids).unwrap();
    assert_eq!(
        tt.neighbours,
        vec![
            Neighbour::RelXY { rel_x: 0, rel_y: -1 },
            Neighbour::RelXY { rel_x: 0, rel_y: 1 },
        ]
    );
    assert_eq!(tt.neighbour_wire_ids.len(), 2);
    assert_eq!(tt.neighbour_wire_ids[0].0, Neighbour::RelXY { rel_x: 0, rel_y: -1 });
    assert_eq!(tt.neighbour_wire_ids[0].1, vec![1]);
    assert_eq!(tt.neighbour_wire_ids[1].0, Neighbour::RelXY { rel_x: 0, rel_y: 1 });
    assert_eq!(tt.neighbour_wire_ids[1].1, vec![4]);
    // the graph invariant: every bucket id is a known wire id
    for (_, bucket) in &tt.neighbour_wire_ids {
        for id in bucket {
            assert!(tt.wire_ids.contains(id));
        }
    }
}

#[test]
fn builder_shares_one_bucket_per_class() {
    let data = TileBitsDatabase {
        pips: vec![conns("G:VCC", &["N2:X", "N2:Y", "BRANCH:HPBX0100"])],
        conns: vec![],
    };
    let mut ids = IdStringDb::new();
    let tt = TileType::new(data, vec![], &mut ids).unwrap();
    assert_eq!(
        tt.neighbours,
        vec![
            Neighbour::Global,
            Neighbour::RelXY { rel_x: 0, rel_y: -2 },
            Neighbour::Branch,
        ]
    );
    // both N2 wires land in one bucket, in encounter order
    assert_eq!(tt.neighbour_wire_ids[1].1, vec![1, 2]);
}

#[test]
fn builder_rejects_unclassifiable_wires() {
    let data = TileBitsDatabase {
        pips: vec![conns("BOGUS:X", &[])],
        conns: vec![],
    };
    let mut ids = IdStringDb::new();
    match TileType::new(data, vec![], &mut ids) {
        Err(wirenorm::WireError::Grammar { wire }) => assert_eq!(wire, "BOGUS:X"),
        Err(other) => panic!("expected a grammar violation, got {:?}", other),
        Ok(_) => panic!("expected a grammar violation, got a built tile type"),
    }
}

#[test]
fn logic_only_types_have_no_routing() {
    let mut ids = IdStringDb::new();
    let tt = TileType::new(
        TileBitsDatabase { pips: vec![], conns: vec![] },
        small_bels(),
        &mut ids,
    )
    .unwrap();
    assert!(!tt.has_routing());
    assert_eq!(tt.wires, vec!["Q", "S1:D"]);
}

fn grid_tile(x: u32, y: u32, tiletype: &str) -> Tile {
    Tile {
        x,
        y,
        name: format!("{}_R{}C{}", tiletype, y, x),
        tiletype: tiletype.to_string(),
    }
}

#[test]
fn registry_builds_each_type_once() {
    let db = TileDb {
        entries: vec![
            TileDbEntry { tiletype: "PLC".to_string(), data: small_data(), bels: small_bels() },
            TileDbEntry {
                tiletype: "TAP".to_string(),
                data: TileBitsDatabase { pips: vec![conns("X", &["W1:X"])], conns: vec![] },
                bels: vec![],
            },
        ],
    };
    let grid = vec![
        grid_tile(1, 1, "PLC"),
        grid_tile(2, 1, "TAP"),
        grid_tile(3, 1, "PLC"),
        grid_tile(4, 1, "PLC"),
    ];
    let mut ids = IdStringDb::new();
    let reg = TileTypes::new(&db, &mut ids, &grid).unwrap();
    // three PLC tiles, one entry: built exactly once per distinct type
    assert_eq!(reg.types.len(), 2);
    assert_eq!(reg.types[0].0, "PLC");
    assert_eq!(reg.types[1].0, "TAP");
    let plc = reg.get("PLC").unwrap();
    assert_eq!(plc.wires, vec!["A", "N1:B", "B", "Q", "S1:D"]);
    assert!(plc.has_routing());
    let tap = reg.get("TAP").unwrap();
    assert_eq!(tap.wires, vec!["X", "W1:X"]);
    assert!(reg.get("MISSING").is_none());
}

#[test]
fn registry_builds_unknown_types_empty() {
    let db = TileDb { entries: vec![] };
    let grid = vec![grid_tile(1, 1, "PLC")];
    let mut ids = IdStringDb::new();
    let reg = TileTypes::new(&db, &mut ids, &grid).unwrap();
    let plc = reg.get("PLC").unwrap();
    assert!(plc.wires.is_empty());
    assert!(!plc.has_routing());
}
