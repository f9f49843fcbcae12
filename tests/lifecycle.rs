use archive_core::payloads::{ArchiveBoxPayload, EmployeePayload, LoanPayload};
use archive_core::store::{ArchiveDatabase, ArchiveError};

fn hire(db: &mut ArchiveDatabase, name: &str, registration: &str) -> i64 {
    db.create_employee(&EmployeePayload {
        full_name: name.to_string(),
        registration: registration.to_string(),
        cpf: None,
        department_id: None,
        admission_date: "2019-02-01".to_string(),
        termination_date: None,
        status: None,
        drawer_position_id: None,
        notes: None,
    })
    .unwrap()
    .id
}

fn new_box(number: &str, year: i64, capacity: Option<i64>) -> ArchiveBoxPayload {
    ArchiveBoxPayload {
        box_number: number.to_string(),
        year,
        period: Some("1º semestre".to_string()),
        letter_range: Some("A-F".to_string()),
        location: None,
        capacity,
    }
}

fn loan(employee_id: i64, due: &str) -> LoanPayload {
    LoanPayload {
        token: "t".to_string(),
        employee_id,
        requester_name: "Setor Jurídico".to_string(),
        requester_department_id: None,
        reason: "Processo trabalhista".to_string(),
        expected_return_date: due.to_string(),
        return_notes: None,
    }
}

fn yesterday() -> String {
    (chrono::Utc::now().date_naive() - chrono::Duration::days(1)).format("%Y-%m-%d").to_string()
}

fn tomorrow() -> String {
    (chrono::Utc::now().date_naive() + chrono::Duration::days(1)).format("%Y-%m-%d").to_string()
}

#[test]
fn archive_transfer_and_disposal_scenario() {
    let mut db = ArchiveDatabase::new();
    let b = db.create_archive_box(&new_box("CX-2024-01", 2024, Some(50))).unwrap();
    assert_eq!((b.year, b.capacity, b.current_count), (2024, 50, 0));
    let e3 = hire(&mut db, "E3 Moreira", "E3-003");
    let item = db.transfer_to_archive(e3, b.id, Some("2020-01-01"), "admin").unwrap();
    assert!(!item.disposed);
    assert_eq!(item.transferred_by, "admin");
    assert_eq!(db.get_archive_box(b.id).unwrap().current_count, 1);
    let candidates = db.get_disposal_candidates();
    assert!(candidates.iter().any(|c| c.archive_item.id == item.id));
    assert_eq!(candidates[0].employee.full_name, "E3 Moreira");
    let term = db.register_disposal(&vec![item.id], None).unwrap();
    assert!(term.term_number.starts_with("TERMO-"));
    assert!(!term.term_number.contains(':'));
    assert_eq!(term.generated_by, "Sistema");
    let after = db.get_archive_item(item.id).unwrap();
    assert!(after.disposed);
    assert_eq!(after.disposal_term_number.as_deref(), Some(term.term_number.as_str()));
    assert!(db.get_disposal_candidates().is_empty());
}

#[test]
fn disposal_shares_term_and_date() {
    let mut db = ArchiveDatabase::new();
    let b = db.create_archive_box(&new_box("CX-1", 2023, None)).unwrap();
    assert_eq!(b.capacity, 50);
    let e1 = hire(&mut db, "Ana", "R-1");
    let e2 = hire(&mut db, "Bia", "R-2");
    let e3 = hire(&mut db, "Cau", "R-3");
    let i1 = db.transfer_to_archive(e1, b.id, Some("2001-01-01"), "u").unwrap();
    let i2 = db.transfer_to_archive(e2, b.id, None, "u").unwrap();
    let i3 = db.transfer_to_archive(e3, b.id, None, "u").unwrap();
    assert_eq!(db.get_archive_box(b.id).unwrap().current_count, 3);
    let term = db.register_disposal(&vec![i1.id, i2.id], Some("TERMO-77")).unwrap();
    assert_eq!(term.term_number, "TERMO-77");
    assert_eq!(term.items.len(), 2);
    let a = db.get_archive_item(i1.id).unwrap();
    let c = db.get_archive_item(i2.id).unwrap();
    assert!(a.disposed && c.disposed);
    assert_eq!(a.disposal_term_number, c.disposal_term_number);
    assert_eq!(a.disposal_date, c.disposal_date);
    assert_eq!(a.disposal_date.as_deref(), Some(term.generated_at.as_str()));
    assert!(!db.get_archive_item(i3.id).unwrap().disposed);
}

#[test]
fn disposal_is_all_or_nothing() {
    let mut db = ArchiveDatabase::new();
    let b = db.create_archive_box(&new_box("CX-1", 2023, None)).unwrap();
    let e = hire(&mut db, "Ana", "R-1");
    let i = db.transfer_to_archive(e, b.id, None, "u").unwrap();
    assert_eq!(db.register_disposal(&vec![i.id, 99], None).err(), Some(ArchiveError::NotFound));
    assert!(!db.get_archive_item(i.id).unwrap().disposed);
    assert_eq!(db.register_disposal(&Vec::new(), None).err(), Some(ArchiveError::InvalidInput));
}

#[test]
fn candidates_follow_eligibility_date() {
    let mut db = ArchiveDatabase::new();
    let b = db.create_archive_box(&new_box("CX-1", 2023, None)).unwrap();
    let e = hire(&mut db, "Ana", "R-1");
    let late = db.transfer_to_archive(e, b.id, Some("2015-06-01"), "u").unwrap();
    let early = db.transfer_to_archive(e, b.id, Some("2010-01-01"), "u").unwrap();
    let future = db.transfer_to_archive(e, b.id, Some("2030-01-01"), "u").unwrap();
    let on_day = db.transfer_to_archive(e, b.id, Some("2020-03-10"), "u").unwrap();
    let got: Vec<i64> = db.get_disposal_candidates_as_of("2020-03-10").iter().map(|c| c.archive_item.id).collect();
    assert_eq!(got, vec![early.id, late.id, on_day.id]);
    assert!(!got.contains(&future.id));
}

#[test]
fn box_errors() {
    let mut db = ArchiveDatabase::new();
    db.create_archive_box(&new_box("CX-1", 2023, None)).unwrap();
    assert_eq!(db.create_archive_box(&new_box(" CX-1 ", 2023, None)).err(), Some(ArchiveError::ConstraintViolation));
    assert_eq!(db.create_archive_box(&new_box("CX-2", 1800, None)).err(), Some(ArchiveError::InvalidInput));
    assert_eq!(db.create_archive_box(&new_box("CX-2", 2023, Some(501))).err(), Some(ArchiveError::InvalidInput));
    let e = hire(&mut db, "Ana", "R-1");
    assert_eq!(db.transfer_to_archive(e, 7, None, "u").err(), Some(ArchiveError::NotFound));
    assert_eq!(db.transfer_to_archive(7, 1, None, "u").err(), Some(ArchiveError::NotFound));
    assert!(db.items.is_empty());
}

#[test]
fn overdue_loan_scenario() {
    let mut db = ArchiveDatabase::new();
    let e1 = hire(&mut db, "E1 Silva", "E1-001");
    let l = db.create_loan(&loan(e1, &yesterday()), "admin").unwrap();
    assert_eq!(l.status, "BORROWED");
    assert_eq!(l.loaned_by, "admin");
    let overdue = db.get_overdue_loans();
    assert!(overdue.iter().any(|o| o.loan.id == l.id));
    assert_eq!(overdue[0].employee.id, e1);
    let r = db.return_loan(l.id, None, Some("ok"), "admin").unwrap();
    assert_eq!(r.status, "RETURNED");
    assert_eq!(r.actual_return_date.as_deref(), Some(r.updated_at.as_str()));
    assert_eq!(r.returned_by.as_deref(), Some("admin"));
    assert!(!db.get_overdue_loans().iter().any(|o| o.loan.id == l.id));
}

#[test]
fn loan_due_later_is_not_overdue() {
    let mut db = ArchiveDatabase::new();
    let e = hire(&mut db, "Ana", "R-1");
    db.create_loan(&loan(e, &tomorrow()), "u").unwrap();
    assert!(db.get_overdue_loans().is_empty());
}

#[test]
fn overdue_report_orders_by_due_date() {
    let mut db = ArchiveDatabase::new();
    let e = hire(&mut db, "Ana", "R-1");
    let a = db.create_loan(&loan(e, "2024-03-01"), "u").unwrap();
    let b = db.create_loan(&loan(e, "2024-01-15"), "u").unwrap();
    let c = db.create_loan(&loan(e, "2024-06-30"), "u").unwrap();
    let got: Vec<i64> = db.get_overdue_loans_as_of("2024-06-30").iter().map(|o| o.loan.id).collect();
    assert_eq!(got, vec![b.id, a.id]);
    assert!(!got.contains(&c.id));
}

#[test]
fn loan_is_returned_once() {
    let mut db = ArchiveDatabase::new();
    let e = hire(&mut db, "Ana", "R-1");
    let l = db.create_loan(&loan(e, "2024-01-01"), "u").unwrap();
    let r = db.return_loan(l.id, Some("2024-01-02"), None, "v").unwrap();
    assert_eq!(r.actual_return_date.as_deref(), Some("2024-01-02"));
    assert_eq!(db.return_loan(l.id, None, None, "v").err(), Some(ArchiveError::ConstraintViolation));
    assert_eq!(db.return_loan(9, None, None, "v").err(), Some(ArchiveError::NotFound));
    assert_eq!(db.create_loan(&loan(9, "2024-01-01"), "u").err(), Some(ArchiveError::NotFound));
}
