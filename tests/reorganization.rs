use archive_core::payloads::{EmployeePayload, FileCabinetPayload};
use archive_core::reorganization::{plan_moves, MoveCandidate};
use archive_core::store::ArchiveDatabase;

fn setup(drawers: i64) -> ArchiveDatabase {
    let mut db = ArchiveDatabase::new();
    db.create_file_cabinet(&FileCabinetPayload {
        number: "A1".to_string(),
        location: None,
        num_drawers: Some(drawers),
        description: None,
        is_active: None,
    })
    .unwrap();
    db
}

fn fill(db: &mut ArchiveDatabase, drawer: i64, count: i64, tag: &str) -> Vec<i64> {
    let mut ids = Vec::new();
    for k in 0..count {
        let e = db
            .create_employee(&EmployeePayload {
                full_name: format!("{} {}", tag, k),
                registration: format!("{}-{}", tag, k),
                cpf: None,
                department_id: None,
                admission_date: "2021-03-01".to_string(),
                termination_date: None,
                status: None,
                drawer_position_id: None,
                notes: None,
            })
            .unwrap();
        db.assign_employee_position(e.id, drawer, k + 1).unwrap();
        ids.push(e.id);
    }
    ids
}

#[test]
fn plan_moves_round_robin() {
    let cands: Vec<MoveCandidate> = (1..=5)
        .map(|k| MoveCandidate { employee_id: k, employee_name: format!("E{}", k), from_drawer: "A1-G1".to_string() })
        .collect();
    let targets = vec!["B1-G1".to_string(), "B1-G2".to_string()];
    let plan = plan_moves(&cands, &targets, 4);
    assert_eq!(plan.total_moves, 4);
    let to: Vec<&str> = plan.suggestions.iter().map(|s| s.to_drawer.as_str()).collect();
    assert_eq!(to, vec!["B1-G1", "B1-G2", "B1-G1", "B1-G2"]);
    assert_eq!(plan.suggestions[3].employee_id, 4);
    assert_eq!(plan.suggestions[0].reason, "Redistribuição de capacidade");
    assert_eq!(plan_moves(&cands, &Vec::new(), 4).total_moves, 0);
}

#[test]
fn plan_takes_three_from_each_critical_drawer() {
    let mut db = setup(3);
    db.drawers[0].capacity = 4;
    db.drawers[1].capacity = 5;
    let full = fill(&mut db, 1, 4, "F");
    let high = fill(&mut db, 2, 5, "H");
    fill(&mut db, 3, 1, "L");
    let plan = db.suggest_reorganization(90, 10);
    assert_eq!(plan.total_moves, 6);
    let ids: Vec<i64> = plan.suggestions.iter().map(|s| s.employee_id).collect();
    assert_eq!(ids, vec![full[0], full[1], full[2], high[0], high[1], high[2]]);
    assert_eq!(plan.suggestions[0].from_drawer, "A1-G1");
    assert_eq!(plan.suggestions[3].from_drawer, "A1-G2");
    assert!(plan.suggestions.iter().all(|s| s.to_drawer == "A1-G3"));
}

#[test]
fn plan_respects_budget_and_threshold() {
    let mut db = setup(3);
    db.drawers[0].capacity = 4;
    fill(&mut db, 1, 3, "F");
    let none = db.suggest_reorganization(90, 10);
    assert_eq!(none.total_moves, 0);
    let some = db.suggest_reorganization(75, 2);
    assert_eq!(some.total_moves, 2);
    assert!(some.suggestions.iter().all(|s| s.from_drawer == "A1-G1"));
    let to: Vec<&str> = some.suggestions.iter().map(|s| s.to_drawer.as_str()).collect();
    assert_eq!(to, vec!["A1-G2", "A1-G3"]);
}

#[test]
fn plan_clamps_its_inputs() {
    let mut db = setup(2);
    db.drawers[0].capacity = 10;
    fill(&mut db, 1, 6, "F");
    let plan = db.suggest_reorganization(10, 0);
    assert_eq!(plan.total_moves, 1);
    let plan = db.suggest_reorganization(10, 100);
    assert_eq!(plan.total_moves, 3);
}

#[test]
fn plan_without_room_is_empty() {
    let mut db = setup(1);
    db.drawers[0].capacity = 2;
    fill(&mut db, 1, 2, "F");
    let plan = db.suggest_reorganization(90, 10);
    assert_eq!(plan.total_moves, 0);
    assert!(plan.suggestions.is_empty());
}
