use archive_core::payloads::{DocumentPayload, EmployeePayload, FileCabinetPayload, LoanPayload};
use archive_core::queries::contains_ignoring_ascii_case;
use archive_core::store::{ArchiveDatabase, ArchiveError};

fn hire(db: &mut ArchiveDatabase, name: &str, registration: &str, status: Option<&str>, cpf: Option<&str>) -> i64 {
    db.create_employee(&EmployeePayload {
        full_name: name.to_string(),
        registration: registration.to_string(),
        cpf: cpf.map(|c| c.to_string()),
        department_id: None,
        admission_date: "2018-07-01".to_string(),
        termination_date: None,
        status: status.map(|s| s.to_string()),
        drawer_position_id: None,
        notes: None,
    })
    .unwrap()
    .id
}

fn loan(employee_id: i64, due: &str) -> LoanPayload {
    LoanPayload {
        token: "t".to_string(),
        employee_id,
        requester_name: "RH".to_string(),
        requester_department_id: None,
        reason: "Auditoria".to_string(),
        expected_return_date: due.to_string(),
        return_notes: None,
    }
}

#[test]
fn list_employees_by_name_with_pages() {
    let mut db = ArchiveDatabase::new();
    hire(&mut db, "Carla", "R-1", None, None);
    hire(&mut db, "Ana", "R-2", None, None);
    hire(&mut db, "Bruno", "R-3", Some("TERMINATED"), None);
    hire(&mut db, "Ana", "R-4", None, None);
    let names = |v: Vec<archive_core::records::EmployeeRecord>| v.iter().map(|e| e.registration.clone()).collect::<Vec<_>>();
    assert_eq!(names(db.list_employees(None, None, 1, 50).unwrap()), vec!["R-2", "R-4", "R-3", "R-1"]);
    assert_eq!(names(db.list_employees(Some("ACTIVE"), None, 1, 50).unwrap()), vec!["R-2", "R-4", "R-1"]);
    assert_eq!(names(db.list_employees(None, None, 2, 3).unwrap()), vec!["R-1"]);
    assert!(db.list_employees(None, None, 3, 3).unwrap().is_empty());
    assert_eq!(db.list_employees(None, None, 0, 3).err(), Some(ArchiveError::InvalidInput));
    assert_eq!(db.list_employees(None, None, 1, 501).err(), Some(ArchiveError::InvalidInput));
}

#[test]
fn search_matches_name_registration_and_cpf() {
    let mut db = ArchiveDatabase::new();
    hire(&mut db, "Joana Prado", "MAT-10", None, Some("123.456.789-00"));
    hire(&mut db, "Pedro Alves", "MAT-11", None, None);
    hire(&mut db, "Alvaro Reis", "X-9", None, None);
    let regs = |q: &str| db.search_employees(q, 20).unwrap().iter().map(|e| e.registration.clone()).collect::<Vec<_>>();
    assert_eq!(regs("  alv "), vec!["X-9", "MAT-11"]);
    assert_eq!(regs("mat-1"), vec!["MAT-10", "MAT-11"]);
    assert_eq!(regs("456.789"), vec!["MAT-10"]);
    assert!(regs("zzz").is_empty());
    assert_eq!(db.search_employees("ana", 1).unwrap().len(), 1);
    assert_eq!(db.search_employees("ana", 0).err(), Some(ArchiveError::InvalidInput));
    assert_eq!(db.search_employees("ana", 51).err(), Some(ArchiveError::InvalidInput));
}

#[test]
fn containment_ignores_ascii_case_only() {
    assert!(contains_ignoring_ascii_case("Registro ABC", "abc"));
    assert!(contains_ignoring_ascii_case("abc", ""));
    assert!(!contains_ignoring_ascii_case("ab", "abc"));
    assert!(!contains_ignoring_ascii_case("ÉRICA", "érica"));
    assert!(contains_ignoring_ascii_case("érica", "éRICA"));
}

#[test]
fn loans_listed_newest_first() {
    let mut db = ArchiveDatabase::new();
    let e = hire(&mut db, "Ana", "R-1", None, None);
    let f = hire(&mut db, "Bia", "R-2", None, None);
    let a = db.create_loan(&loan(e, "2030-01-01"), "u").unwrap();
    let b = db.create_loan(&loan(f, "2030-01-01"), "u").unwrap();
    let c = db.create_loan(&loan(e, "2030-01-01"), "u").unwrap();
    db.return_loan(b.id, None, None, "u").unwrap();
    let all: Vec<i64> = db.list_loans(None).iter().map(|l| l.id).collect();
    assert_eq!(all, vec![c.id, b.id, a.id]);
    let out: Vec<i64> = db.list_loans(Some("BORROWED")).iter().map(|l| l.id).collect();
    assert_eq!(out, vec![c.id, a.id]);
    let mine: Vec<i64> = db.get_employee_active_loans(e).iter().map(|l| l.id).collect();
    assert_eq!(mine, vec![c.id, a.id]);
    assert!(db.get_employee_active_loans(f).is_empty());
}

#[test]
fn employee_detail_gathers_records() {
    let mut db = ArchiveDatabase::new();
    db.create_file_cabinet(&FileCabinetPayload { number: "A1".to_string(), location: None, num_drawers: Some(1), description: None, is_active: None }).unwrap();
    let e = hire(&mut db, "Ana", "R-1", None, None);
    let doc = |filed_by: Option<&str>| DocumentPayload {
        token: "t".to_string(),
        employee_id: e,
        category_id: 1,
        type_id: 2,
        description: Some("Contrato".to_string()),
        document_date: None,
        expiration_date: None,
        notes: None,
        filed_by: filed_by.map(|s| s.to_string()),
    };
    let d1 = db.create_document(&doc(None), "operador").unwrap();
    assert_eq!(d1.filed_by.as_deref(), Some("operador"));
    let d2 = db.create_document(&doc(Some("Maria")), "operador").unwrap();
    assert_eq!(d2.filed_by.as_deref(), Some("Maria"));
    let p = db.assign_employee_position(e, 1, 2).unwrap();
    db.create_loan(&loan(e, "2030-01-01"), "u").unwrap();
    let detail = db.get_employee(e).unwrap();
    assert_eq!(detail.basic.full_name, "Ana");
    let ids: Vec<i64> = detail.documents.iter().map(|d| d.id).collect();
    assert_eq!(ids, vec![d2.id, d1.id]);
    assert_eq!(detail.active_loans.len(), 1);
    assert_eq!(detail.drawer_position.unwrap().id, p.id);
    assert_eq!(db.get_employee(9).err(), Some(ArchiveError::NotFound));
    let mut bad = doc(None);
    bad.employee_id = 9;
    assert_eq!(db.create_document(&bad, "x").err(), Some(ArchiveError::NotFound));
}

#[test]
fn dashboard_counts() {
    let mut db = ArchiveDatabase::new();
    db.create_file_cabinet(&FileCabinetPayload { number: "A1".to_string(), location: None, num_drawers: Some(1), description: None, is_active: None }).unwrap();
    db.create_file_cabinet(&FileCabinetPayload { number: "B1".to_string(), location: None, num_drawers: Some(1), description: None, is_active: None }).unwrap();
    db.drawers[0].capacity = 1;
    let a = hire(&mut db, "Ana", "R-1", None, None);
    let b = hire(&mut db, "Bia", "R-2", None, None);
    db.assign_employee_position(a, 1, 1).unwrap();
    db.terminate_employee(b, "2024-01-01").unwrap();
    db.create_loan(&loan(a, "2000-01-01"), "u").unwrap();
    db.create_loan(&loan(a, "2999-01-01"), "u").unwrap();
    let s = db.get_dashboard_stats();
    assert_eq!(s.active_employees, 1);
    assert_eq!(s.terminated_employees, 1);
    assert_eq!(s.open_loans, 2);
    assert_eq!(s.overdue_loans, 1);
    assert_eq!(s.archive_boxes, 0);
    assert_eq!(s.critical_cabinets.len(), 1);
    assert_eq!(s.critical_cabinets[0].cabinet_label, "A1");
}

#[test]
fn login_with_default_admin() {
    let mut db = ArchiveDatabase::new();
    db.ensure_default_admin("  Admin@Empresa.com ", "s3nha!").unwrap();
    assert_eq!(db.users.len(), 1);
    assert_eq!(db.users[0].login, "admin@empresa.com");
    assert_ne!(db.users[0].password_hash, "s3nha!");
    let p = db.verify_login("ADMIN@empresa.com", "s3nha!").unwrap().unwrap();
    assert_eq!(p.login, "admin@empresa.com");
    assert_eq!(p.role, "admin");
    let by_base = db.verify_login("admin", "s3nha!").unwrap().unwrap();
    assert_eq!(by_base.id, p.id);
    assert!(db.verify_login("admin@empresa.com", "errada").unwrap().is_none());
    assert!(db.verify_login("   ", "s3nha!").unwrap().is_none());
    assert!(db.verify_login("outra", "s3nha!").unwrap().is_none());
}

#[test]
fn default_admin_replaces_stale_admin() {
    let mut db = ArchiveDatabase::new();
    db.ensure_default_admin("admin", "primeira").unwrap();
    assert_eq!(db.users[0].login, "admin");
    db.ensure_default_admin("gestor", "segunda").unwrap();
    assert_eq!(db.users.len(), 1);
    assert_eq!(db.users[0].login, "gestor");
    assert!(db.verify_login("gestor", "segunda").unwrap().is_some());
    assert!(db.verify_login("admin", "primeira").unwrap().is_none());
    db.ensure_default_admin("gestor", "terceira").unwrap();
    assert_eq!(db.users.len(), 1);
    assert!(db.verify_login("gestor", "terceira").unwrap().is_some());
}

#[test]
fn malformed_hash_is_a_storage_failure() {
    let mut db = ArchiveDatabase::new();
    db.ensure_default_admin("chefe", "x1234").unwrap();
    db.users[0].password_hash = "nao-e-um-hash".to_string();
    assert_eq!(db.verify_login("chefe", "x1234").err(), Some(ArchiveError::StorageFailure));
}
