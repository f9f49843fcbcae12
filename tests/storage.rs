use archive_core::cabinets::DEFAULT_DRAWER_CAPACITY;
use archive_core::occupancy::{classify_rate, occupancy_rate, CabinetStatus};
use archive_core::payloads::{DrawerPayload, EmployeePayload, FileCabinetPayload};
use archive_core::store::{ArchiveDatabase, ArchiveError};

fn cabinet(number: &str, drawers: Option<i64>) -> FileCabinetPayload {
    FileCabinetPayload {
        number: number.to_string(),
        location: Some("Sala 1".to_string()),
        num_drawers: drawers,
        description: None,
        is_active: None,
    }
}

fn employee(name: &str, registration: &str) -> EmployeePayload {
    EmployeePayload {
        full_name: name.to_string(),
        registration: registration.to_string(),
        cpf: None,
        department_id: None,
        admission_date: "2020-01-01".to_string(),
        termination_date: None,
        status: None,
        drawer_position_id: None,
        notes: None,
    }
}

fn hire(db: &mut ArchiveDatabase, name: &str, registration: &str) -> i64 {
    db.create_employee(&employee(name, registration)).unwrap().id
}

fn holders_of(db: &ArchiveDatabase, employee_id: i64) -> usize {
    db.positions.iter().filter(|p| p.employee_id == Some(employee_id)).count()
}

#[test]
fn rate_is_zero_without_capacity() {
    assert_eq!(occupancy_rate(0, 0), 0);
    assert_eq!(occupancy_rate(5, 0), 0);
}

#[test]
fn rate_is_whole_percent_rounded_down() {
    assert_eq!(occupancy_rate(1, 3), 33);
    assert_eq!(occupancy_rate(2, 3), 66);
    assert_eq!(occupancy_rate(9, 10), 90);
    assert_eq!(occupancy_rate(2, 2), 100);
    assert_eq!(occupancy_rate(27, 30), 90);
}

#[test]
fn status_ranges_partition_rates() {
    assert_eq!(classify_rate(0), CabinetStatus::Normal);
    assert_eq!(classify_rate(69), CabinetStatus::Normal);
    assert_eq!(classify_rate(70), CabinetStatus::Warning);
    assert_eq!(classify_rate(89), CabinetStatus::Warning);
    assert_eq!(classify_rate(90), CabinetStatus::Critical);
    assert_eq!(classify_rate(100), CabinetStatus::Critical);
    assert_eq!(CabinetStatus::Critical.as_str(), "CRITICAL");
    assert_eq!(CabinetStatus::Warning.as_str(), "WARNING");
    assert_eq!(CabinetStatus::Normal.as_str(), "OK");
}

#[test]
fn cabinet_is_created_with_numbered_drawers() {
    let mut db = ArchiveDatabase::new();
    let c = db.create_file_cabinet(&cabinet("  B7  ", Some(3))).unwrap();
    assert_eq!(c.id, 1);
    assert_eq!(c.number, "B7");
    assert_eq!(c.num_drawers, 3);
    assert!(c.is_active);
    assert_eq!(db.drawers.len(), 3);
    for (k, d) in db.drawers.iter().enumerate() {
        assert_eq!(d.file_cabinet_id, 1);
        assert_eq!(d.number, k as i64 + 1);
        assert_eq!(d.capacity, DEFAULT_DRAWER_CAPACITY);
    }
    let d = db.create_file_cabinet(&cabinet("C1", None)).unwrap();
    assert_eq!(d.num_drawers, 4);
    assert_eq!(db.drawers.len(), 7);
}

#[test]
fn cabinet_errors() {
    let mut db = ArchiveDatabase::new();
    db.create_file_cabinet(&cabinet("A1", Some(1))).unwrap();
    assert_eq!(db.create_file_cabinet(&cabinet(" A1", Some(1))).err(), Some(ArchiveError::ConstraintViolation));
    assert_eq!(db.create_file_cabinet(&cabinet("A2", Some(0))).err(), Some(ArchiveError::InvalidInput));
    assert_eq!(db.create_file_cabinet(&cabinet("A2", Some(21))).err(), Some(ArchiveError::InvalidInput));
    assert_eq!(db.cabinets.len(), 1);
    assert_eq!(db.get_file_cabinet(2).err(), Some(ArchiveError::NotFound));
}

#[test]
fn drawer_errors() {
    let mut db = ArchiveDatabase::new();
    db.create_file_cabinet(&cabinet("A1", Some(2))).unwrap();
    let p = |cab: i64, number: i64, capacity: i64| DrawerPayload { file_cabinet_id: cab, number, capacity, label: None };
    assert_eq!(db.create_drawer(&p(1, 2, 10)).err(), Some(ArchiveError::ConstraintViolation));
    assert_eq!(db.create_drawer(&p(9, 3, 10)).err(), Some(ArchiveError::NotFound));
    assert_eq!(db.create_drawer(&p(1, 3, 0)).err(), Some(ArchiveError::InvalidInput));
    assert_eq!(db.create_drawer(&p(1, 51, 10)).err(), Some(ArchiveError::InvalidInput));
    let d = db.create_drawer(&p(1, 3, 12)).unwrap();
    assert_eq!((d.id, d.number, d.capacity), (3, 3, 12));
}

#[test]
fn single_drawer_full_cabinet_is_critical() {
    let mut db = ArchiveDatabase::new();
    db.create_file_cabinet(&cabinet("A1", Some(1))).unwrap();
    db.drawers[0].capacity = 2;
    let e1 = hire(&mut db, "E1 Silva", "E1-001");
    let e2 = hire(&mut db, "E2 Souza", "E2-002");
    db.assign_employee_position(e1, 1, 1).unwrap();
    db.assign_employee_position(e2, 1, 2).unwrap();
    let map = db.get_occupation_map();
    assert_eq!(map.cabinets.len(), 1);
    let node = &map.cabinets[0];
    assert_eq!(node.cabinet_label, "A1");
    assert_eq!(node.occupancy_rate, 100);
    assert_eq!(node.status, CabinetStatus::Critical);
    assert_eq!(node.drawers[0].occupancy_rate, 100);
    assert!(node.drawers[0].critical);
    assert_eq!(map.totals.critical, 1);
    assert_eq!(map.totals.warnings, 0);
    assert_eq!(map.totals.total_positions, 2);
    assert_eq!(map.totals.occupied_positions, 2);
}

#[test]
fn cabinet_totals_sum_its_own_drawers() {
    let mut db = ArchiveDatabase::new();
    db.create_file_cabinet(&cabinet("Z9", Some(2))).unwrap();
    db.create_file_cabinet(&cabinet("A1", Some(1))).unwrap();
    let e = hire(&mut db, "Ana Lima", "R-100");
    db.assign_employee_position(e, 2, 7).unwrap();
    let list = db.list_file_cabinets();
    assert_eq!(list.len(), 2);
    assert_eq!(list[0].cabinet.number, "A1");
    assert_eq!(list[1].cabinet.number, "Z9");
    assert_eq!(list[0].total_positions, 30);
    assert_eq!(list[0].occupied_positions, 0);
    assert_eq!(list[1].total_positions, 60);
    assert_eq!(list[1].occupied_positions, 1);
    assert_eq!(list[1].drawers[1].occupied, 1);
    assert_eq!(list[1].drawers[1].occupancy_rate, 3);
}

#[test]
fn warning_cabinet_is_counted() {
    let mut db = ArchiveDatabase::new();
    db.create_file_cabinet(&cabinet("W1", Some(1))).unwrap();
    db.drawers[0].capacity = 10;
    for k in 0..7 {
        let e = hire(&mut db, "Pessoa", &format!("W-{}", k));
        db.assign_employee_position(e, 1, k + 1).unwrap();
    }
    let map = db.get_occupation_map();
    assert_eq!(map.cabinets[0].occupancy_rate, 70);
    assert_eq!(map.cabinets[0].status, CabinetStatus::Warning);
    assert_eq!(map.totals.warnings, 1);
    assert_eq!(map.totals.critical, 0);
}

#[test]
fn reassignment_leaves_one_position() {
    let mut db = ArchiveDatabase::new();
    db.create_file_cabinet(&cabinet("A1", Some(2))).unwrap();
    let e = hire(&mut db, "Carlos Dias", "R-1");
    let first = db.assign_employee_position(e, 1, 1).unwrap();
    let second = db.assign_employee_position(e, 2, 5).unwrap();
    assert_ne!(first.id, second.id);
    assert_eq!(holders_of(&db, e), 1);
    assert!(!db.positions[(first.id - 1) as usize].is_occupied);
    assert_eq!(db.employees[(e - 1) as usize].drawer_position_id, Some(second.id));
}

#[test]
fn assigning_taken_position_unlinks_previous_holder() {
    let mut db = ArchiveDatabase::new();
    db.create_file_cabinet(&cabinet("A1", Some(1))).unwrap();
    let a = hire(&mut db, "Ana", "R-1");
    let b = hire(&mut db, "Bia", "R-2");
    let pa = db.assign_employee_position(a, 1, 3).unwrap();
    let pb = db.assign_employee_position(b, 1, 3).unwrap();
    assert_eq!(pa.id, pb.id);
    assert_eq!(pb.employee_id, Some(b));
    assert_eq!(db.employees[(a - 1) as usize].drawer_position_id, None);
    assert_eq!(holders_of(&db, a), 0);
    assert_eq!(db.positions.len(), 1);
}

#[test]
fn assignment_errors() {
    let mut db = ArchiveDatabase::new();
    db.create_file_cabinet(&cabinet("A1", Some(1))).unwrap();
    let e = hire(&mut db, "Ana", "R-1");
    assert_eq!(db.assign_employee_position(e, 1, 0).err(), Some(ArchiveError::InvalidInput));
    assert_eq!(db.assign_employee_position(9, 1, 1).err(), Some(ArchiveError::NotFound));
    assert_eq!(db.assign_employee_position(e, 9, 1).err(), Some(ArchiveError::NotFound));
    assert!(db.positions.is_empty());
}

#[test]
fn termination_frees_the_position() {
    let mut db = ArchiveDatabase::new();
    db.create_file_cabinet(&cabinet("A1", Some(1))).unwrap();
    let e = hire(&mut db, "Davi", "R-9");
    let p = db.assign_employee_position(e, 1, 4).unwrap();
    let t = db.terminate_employee(e, "2024-05-31").unwrap();
    assert_eq!(t.status, "TERMINATED");
    assert_eq!(t.termination_date.as_deref(), Some("2024-05-31"));
    assert_eq!(t.drawer_position_id, None);
    assert_eq!(holders_of(&db, e), 0);
    let freed = db.get_drawer_position(p.id).unwrap();
    assert!(!freed.is_occupied);
    assert_eq!(freed.employee_id, None);
    assert_eq!(db.terminate_employee(42, "2024-05-31").err(), Some(ArchiveError::NotFound));
}

#[test]
fn employee_creation_rules() {
    let mut db = ArchiveDatabase::new();
    let e = db.create_employee(&employee("  Maria Clara ", " M-1 ")).unwrap();
    assert_eq!(e.full_name, "Maria Clara");
    assert_eq!(e.registration, "M-1");
    assert_eq!(e.status, "ACTIVE");
    assert_eq!(db.create_employee(&employee("Outra", "M-1")).err(), Some(ArchiveError::ConstraintViolation));
    let mut p = employee("Joana", "J-1");
    p.department_id = Some(3);
    assert_eq!(db.create_employee(&p).err(), Some(ArchiveError::NotFound));
    assert_eq!(db.get_employee_by_id(5).err(), Some(ArchiveError::NotFound));
}

#[test]
fn employee_reads_department_name() {
    let mut db = ArchiveDatabase::new();
    let d = db
        .create_department(&archive_core::payloads::DepartmentPayload {
            name: " Financeiro ".to_string(),
            code: Some("FIN".to_string()),
            description: None,
            is_active: None,
        })
        .unwrap();
    assert_eq!(d.name, "Financeiro");
    let mut p = employee("Rui", "R-1");
    p.department_id = Some(d.id);
    let e = db.create_employee(&p).unwrap();
    assert_eq!(e.department_name.as_deref(), Some("Financeiro"));
}
