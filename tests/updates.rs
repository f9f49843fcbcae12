use archive_core::payloads::{DepartmentPayload, EmployeePayload, FileCabinetPayload, LoanPayload};
use archive_core::sessions::{LoginRateLimiter, SessionStore};
use archive_core::store::{ArchiveDatabase, ArchiveError};

fn dept(name: &str) -> DepartmentPayload {
    DepartmentPayload { name: name.to_string(), code: None, description: None, is_active: None }
}

fn person(name: &str, registration: &str, status: Option<&str>) -> EmployeePayload {
    EmployeePayload {
        full_name: name.to_string(),
        registration: registration.to_string(),
        cpf: None,
        department_id: None,
        admission_date: "2017-01-09".to_string(),
        termination_date: None,
        status: status.map(|s| s.to_string()),
        drawer_position_id: None,
        notes: None,
    }
}

fn with_cabinet() -> ArchiveDatabase {
    let mut db = ArchiveDatabase::new();
    db.create_file_cabinet(&FileCabinetPayload { number: "A1".to_string(), location: None, num_drawers: Some(1), description: None, is_active: None }).unwrap();
    db
}

#[test]
fn departments_update_and_list_by_name() {
    let mut db = ArchiveDatabase::new();
    let a = db.create_department(&dept("Vendas")).unwrap();
    let b = db.create_department(&dept("Compras")).unwrap();
    assert_eq!(db.create_department(&dept("Vendas ")).err(), Some(ArchiveError::ConstraintViolation));
    let names: Vec<String> = db.list_departments().iter().map(|d| d.name.clone()).collect();
    assert_eq!(names, vec!["Compras", "Vendas"]);
    let mut p = dept(" Atendimento ");
    p.is_active = Some(false);
    let u = db.update_department(a.id, &p).unwrap();
    assert_eq!(u.name, "Atendimento");
    assert!(!u.is_active);
    assert_eq!(db.update_department(b.id, &dept("Atendimento")).err(), Some(ArchiveError::ConstraintViolation));
    assert_eq!(db.update_department(b.id, &dept("Compras")).unwrap().name, "Compras");
    assert_eq!(db.update_department(7, &dept("X")).err(), Some(ArchiveError::NotFound));
    assert_eq!(db.get_department(a.id).unwrap().name, "Atendimento");
}

#[test]
fn employee_update_keeps_registration_unique() {
    let mut db = ArchiveDatabase::new();
    let a = db.create_employee(&person("Ana", "R-1", None)).unwrap().id;
    db.create_employee(&person("Bia", "R-2", None)).unwrap();
    assert_eq!(db.update_employee(a, &person("Ana", "R-2", None)).err(), Some(ArchiveError::ConstraintViolation));
    let u = db.update_employee(a, &person(" Ana Maria ", "R-1", None)).unwrap();
    assert_eq!(u.full_name, "Ana Maria");
    assert_eq!(u.status, "ACTIVE");
    assert_eq!(db.update_employee(9, &person("X", "R-9", None)).err(), Some(ArchiveError::NotFound));
}

#[test]
fn update_to_terminated_frees_position() {
    let mut db = with_cabinet();
    let a = db.create_employee(&person("Ana", "R-1", None)).unwrap().id;
    let p = db.assign_employee_position(a, 1, 1).unwrap();
    let mut upd = person("Ana", "R-1", Some("TERMINATED"));
    upd.termination_date = Some("2024-02-29".to_string());
    let u = db.update_employee(a, &upd).unwrap();
    assert_eq!(u.drawer_position_id, None);
    assert!(!db.get_drawer_position(p.id).unwrap().is_occupied);
    assert!(db.check_integrity());
}

#[test]
fn terminated_employee_cannot_be_placed() {
    let mut db = with_cabinet();
    let a = db.create_employee(&person("Ana", "R-1", None)).unwrap().id;
    db.terminate_employee(a, "2024-01-31").unwrap();
    assert_eq!(db.assign_employee_position(a, 1, 1).err(), Some(ArchiveError::ConstraintViolation));
    assert!(db.positions.is_empty());
}

#[test]
fn loans_report_counts() {
    let mut db = ArchiveDatabase::new();
    let e = db.create_employee(&person("Ana", "R-1", None)).unwrap().id;
    let mk = |due: &str| LoanPayload {
        token: "t".to_string(),
        employee_id: e,
        requester_name: "Jurídico".to_string(),
        requester_department_id: None,
        reason: "Consulta".to_string(),
        expected_return_date: due.to_string(),
        return_notes: None,
    };
    let a = db.create_loan(&mk("2024-01-10"), "u").unwrap();
    db.create_loan(&mk("2024-02-10"), "u").unwrap();
    db.create_loan(&mk("2024-12-10"), "u").unwrap();
    db.return_loan(a.id, Some("2024-03-01T09:30:00+00:00"), None, "u").unwrap();
    let r = db.get_loans_report_as_of("2024-03-01");
    assert_eq!(r.total_loans, 3);
    assert_eq!(r.open_loans, 2);
    assert_eq!(r.returned_today, 1);
    assert_eq!(r.overdue_loans.len(), 1);
    assert_eq!(db.get_loans_report_as_of("2024-03-02").returned_today, 0);
    assert_eq!(db.get_loans_report().total_loans, 3);
}

#[test]
fn integrity_check_rejects_broken_links() {
    let mut db = with_cabinet();
    let a = db.create_employee(&person("Ana", "R-1", None)).unwrap().id;
    db.assign_employee_position(a, 1, 1).unwrap();
    assert!(db.check_integrity());
    db.employees[0].drawer_position_id = None;
    assert!(!db.check_integrity());
    let mut other = ArchiveDatabase::new();
    other.create_file_cabinet(&FileCabinetPayload { number: "Z".to_string(), location: None, num_drawers: Some(2), description: None, is_active: None }).unwrap();
    other.drawers[1].number = 1;
    assert!(!other.check_integrity());
}

#[test]
fn defaults_start_empty() {
    let store = SessionStore::default();
    assert!(store.get("qualquer").is_none());
    let mut lim = LoginRateLimiter::default();
    assert!(lim.check_at("ana", 0).is_ok());
}
