use archive_core::labels::{drawer_label, position_label};
use archive_core::payloads::{ArchiveBoxPayload, DepartmentPayload, EmployeePayload, FileCabinetPayload};
use archive_core::records::{DocumentCategoryRecord, DocumentTypeRecord};
use archive_core::store::{ArchiveDatabase, ArchiveError};

fn detail<'a>(details: &'a [(String, String)], key: &str) -> Option<&'a str> {
    details.iter().find(|(k, _)| k == key).map(|(_, v)| v.as_str())
}

#[test]
fn drawer_and_position_names() {
    assert_eq!(drawer_label("A1", 3), "A1-G3");
    assert_eq!(position_label("B-7", 12, 40), "B-7-G12-P40");
    assert_eq!(drawer_label("X", -2), "X-G-2");
}

#[test]
fn folder_label_lists_location() {
    let mut db = ArchiveDatabase::new();
    let dep = db.create_department(&DepartmentPayload { name: "RH".to_string(), code: None, description: None, is_active: None }).unwrap();
    db.create_file_cabinet(&FileCabinetPayload { number: "A1".to_string(), location: None, num_drawers: Some(2), description: None, is_active: None }).unwrap();
    let e = db
        .create_employee(&EmployeePayload {
            full_name: "Ana Souza".to_string(),
            registration: "R-77".to_string(),
            cpf: None,
            department_id: Some(dep.id),
            admission_date: "2015-03-02".to_string(),
            termination_date: None,
            status: None,
            drawer_position_id: None,
            notes: None,
        })
        .unwrap()
        .id;
    let before = db.generate_folder_label(e).unwrap();
    assert_eq!(detail(&before.details, "Localização"), None);
    db.assign_employee_position(e, 2, 15).unwrap();
    let l = db.generate_folder_label(e).unwrap();
    assert_eq!(l.title, "Ana Souza");
    assert_eq!(l.subtitle.as_deref(), Some("R-77"));
    assert_eq!(detail(&l.details, "Matrícula"), Some("R-77"));
    assert_eq!(detail(&l.details, "Departamento"), Some("RH"));
    assert_eq!(detail(&l.details, "Admissão"), Some("2015-03-02"));
    assert_eq!(detail(&l.details, "Localização"), Some("A1-G2-P15"));
    let env = db.generate_envelope_label(e, "MEDICINA").unwrap();
    assert_eq!(env.subtitle.as_deref(), Some("MEDICINA"));
    assert_eq!(env.details, vec![("Matrícula".to_string(), "R-77".to_string()), ("Categoria".to_string(), "MEDICINA".to_string())]);
    assert_eq!(db.generate_folder_label(99).err(), Some(ArchiveError::NotFound));
}

#[test]
fn box_label_shows_fill() {
    let mut db = ArchiveDatabase::new();
    let b = db
        .create_archive_box(&ArchiveBoxPayload {
            box_number: "CX-9".to_string(),
            year: 2022,
            period: Some("2º semestre".to_string()),
            letter_range: None,
            location: Some("Depósito".to_string()),
            capacity: Some(40),
        })
        .unwrap();
    let l = db.generate_box_label(b.id).unwrap();
    assert_eq!(l.title, "Caixa CX-9");
    assert_eq!(l.subtitle.as_deref(), Some("Arquivo Morto 2022"));
    assert_eq!(detail(&l.details, "Ano"), Some("2022"));
    assert_eq!(detail(&l.details, "Período"), Some("2º semestre"));
    assert_eq!(detail(&l.details, "Faixa"), None);
    assert_eq!(detail(&l.details, "Local"), Some("Depósito"));
    assert_eq!(detail(&l.details, "Capacidade"), Some("0/40"));
    assert_eq!(db.generate_box_label(5).err(), Some(ArchiveError::NotFound));
}

#[test]
fn taxonomy_listed_by_name() {
    let mut db = ArchiveDatabase::new();
    for (k, name) in ["Pessoal", "Medicina do Trabalho", "Treinamento"].iter().enumerate() {
        db.categories.push(DocumentCategoryRecord {
            id: k as i64 + 1,
            name: name.to_string(),
            code: name.to_uppercase(),
            description: None,
            icon: None,
            color: None,
            created_at: "2024-01-01".to_string(),
        });
    }
    for (k, (cat, name, years)) in [(1, "RG", 5), (2, "ASO Admissional", 20), (1, "CPF", 5)].iter().enumerate() {
        db.document_types.push(DocumentTypeRecord {
            id: k as i64 + 1,
            category_id: *cat,
            name: name.to_string(),
            retention_years: *years,
            is_required: false,
            created_at: "2024-01-01".to_string(),
        });
    }
    let cats: Vec<String> = db.list_document_categories().iter().map(|c| c.name.clone()).collect();
    assert_eq!(cats, vec!["Medicina do Trabalho", "Pessoal", "Treinamento"]);
    let all: Vec<String> = db.list_document_types(None).iter().map(|t| t.name.clone()).collect();
    assert_eq!(all, vec!["ASO Admissional", "CPF", "RG"]);
    let personal: Vec<String> = db.list_document_types(Some(1)).iter().map(|t| t.name.clone()).collect();
    assert_eq!(personal, vec!["CPF", "RG"]);
}
