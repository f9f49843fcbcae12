use archive_core::payloads::{MovementData, StoragePayload};
use archive_core::store::{ArchiveDatabase, ArchiveError};

fn unit(label: &str, kind: &str, section: Option<&str>) -> StoragePayload {
    StoragePayload {
        label: label.to_string(),
        kind: kind.to_string(),
        section: section.map(|s| s.to_string()),
        capacity: None,
        metadata: Some("{\"cor\":\"azul\"}".to_string()),
    }
}

fn movement(action: &str) -> MovementData {
    MovementData {
        action: action.to_string(),
        reference: None,
        item_label: Some("Pasta 1".to_string()),
        from_unit: None,
        to_unit: Some("Sala 2".to_string()),
        note: None,
    }
}

#[test]
fn storage_unit_is_normalised() {
    let mut db = ArchiveDatabase::new();
    let u = db.create_storage_unit(unit("  Pasta azul ", " pasta ", Some("   "))).unwrap();
    assert_eq!(u.label, "Pasta azul");
    assert_eq!(u.kind, "PASTA");
    assert_eq!(u.section, None);
    assert_eq!((u.capacity, u.occupancy), (0, 0));
    assert_eq!(u.metadata.as_deref(), Some("{\"cor\":\"azul\"}"));
    let v = db.create_storage_unit(unit("Caixa 9", "caixa", Some(" A-3 "))).unwrap();
    assert_eq!(v.section.as_deref(), Some("A-3"));
    let ids: Vec<i64> = db.list_storage_units().iter().map(|x| x.id).collect();
    assert_eq!(ids, vec![v.id, u.id]);
    let mut bad = unit("X", "pasta", None);
    bad.capacity = Some(-1);
    assert_eq!(db.create_storage_unit(bad).err(), Some(ArchiveError::InvalidInput));
}

#[test]
fn movements_listed_newest_first() {
    let mut db = ArchiveDatabase::new();
    for a in ["Entrada", "Saída", " Entrada "] {
        db.record_movement("ana", &movement(a)).unwrap();
    }
    let all: Vec<i64> = db.list_movements(-1).iter().map(|m| m.id).collect();
    assert_eq!(all, vec![3, 2, 1]);
    let two: Vec<i64> = db.list_movements(2).iter().map(|m| m.id).collect();
    assert_eq!(two, vec![3, 2]);
    assert!(db.list_movements(0).is_empty());
    assert_eq!(db.list_movements(10).len(), 3);
    let report = db.get_movements_report(1);
    assert_eq!(report.total_movements, 3);
    assert_eq!(report.by_action, vec![("Entrada".to_string(), 2), ("Saída".to_string(), 1)]);
    assert_eq!(report.latest.len(), 1);
}

#[test]
fn snapshot_counts_units_and_todays_movements() {
    let mut db = ArchiveDatabase::new();
    db.create_storage_unit(unit("A", "pasta", None)).unwrap();
    db.create_storage_unit(unit("B", "Pasta", None)).unwrap();
    db.create_storage_unit(unit("C", "arquivo", None)).unwrap();
    db.record_movement("ana", &movement("Entrada")).unwrap();
    let s = db.snapshot();
    assert_eq!(s.total_units, 3);
    assert_eq!(
        s.units_by_type,
        vec![
            ("PASTA".to_string(), 2),
            ("ENVELOPE".to_string(), 0),
            ("GAVETEIRO".to_string(), 0),
            ("CAIXA".to_string(), 0),
            ("ARQUIVO".to_string(), 1),
        ]
    );
    assert_eq!(s.movements_today, 1);
    assert_eq!(s.last_movement.unwrap().action, "Entrada");
    assert_eq!(db.snapshot_as_of("1999-01-01").movements_today, 0);
    let empty = ArchiveDatabase::new().snapshot();
    assert!(empty.last_movement.is_none());
}

#[test]
fn readers_resolve_ids() {
    let mut db = ArchiveDatabase::new();
    let u = db.create_storage_unit(unit("A", "pasta", None)).unwrap();
    assert_eq!(db.get_storage_unit(u.id).unwrap().label, "A");
    assert_eq!(db.get_storage_unit(2).err(), Some(ArchiveError::NotFound));
    let m = db.record_movement("ana", &movement("Entrada")).unwrap();
    assert_eq!(db.get_movement(m.id).unwrap().actor, "ana");
    assert_eq!(db.get_movement(0).err(), Some(ArchiveError::NotFound));
    assert_eq!(db.get_document(1).err(), Some(ArchiveError::NotFound));
}

#[test]
fn boxes_listed_by_year_then_number() {
    let mut db = ArchiveDatabase::new();
    let mk = |n: &str, y: i64| archive_core::payloads::ArchiveBoxPayload {
        box_number: n.to_string(),
        year: y,
        period: None,
        letter_range: None,
        location: None,
        capacity: None,
    };
    db.create_archive_box(&mk("B", 2020)).unwrap();
    db.create_archive_box(&mk("A", 2020)).unwrap();
    db.create_archive_box(&mk("C", 2023)).unwrap();
    let got: Vec<String> = db.list_archive_boxes().iter().map(|b| b.box_number.clone()).collect();
    assert_eq!(got, vec!["C", "A", "B"]);
}
