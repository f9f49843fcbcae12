//! Request payloads and their validation.
use vstd::prelude::*;

verus! {

/// Data of a department to create or update.
pub struct DepartmentPayload {
    pub name: String,
    pub code: Option<String>,
    pub description: Option<String>,
    pub is_active: Option<bool>,
}

/// Data of an employee to create or update.
pub struct EmployeePayload {
    pub full_name: String,
    pub registration: String,
    pub cpf: Option<String>,
    pub department_id: Option<i64>,
    pub admission_date: String,
    pub termination_date: Option<String>,
    pub status: Option<String>,
    pub drawer_position_id: Option<i64>,
    pub notes: Option<String>,
}

/// Data of a file cabinet to create.
pub struct FileCabinetPayload {
    pub number: String,
    pub location: Option<String>,
    pub num_drawers: Option<i64>,
    pub description: Option<String>,
    pub is_active: Option<bool>,
}

/// Data of a drawer to add to a cabinet.
pub struct DrawerPayload {
    pub file_cabinet_id: i64,
    pub number: i64,
    pub capacity: i64,
    pub label: Option<String>,
}

/// A request to lend an employee's folder.
pub struct LoanPayload {
    pub token: String,
    pub employee_id: i64,
    pub requester_name: String,
    pub requester_department_id: Option<i64>,
    pub reason: String,
    pub expected_return_date: String,
    pub return_notes: Option<String>,
}

/// Data of a dead-archive box to create.
pub struct ArchiveBoxPayload {
    pub box_number: String,
    pub year: i64,
    pub period: Option<String>,
    pub letter_range: Option<String>,
    pub location: Option<String>,
    pub capacity: Option<i64>,
}

/// A login attempt.
pub struct CredentialsPayload {
    pub login: String,
    pub password: String,
}

/// A request that carries only a session token.
pub struct TokenPayload {
    pub token: String,
}

/// A request about one entity.
pub struct IdPayload {
    pub token: String,
    pub id: i64,
}

/// A request about several entities.
pub struct IdsPayload {
    pub token: String,
    pub ids: Vec<i64>,
}

/// A storage unit to register. The metadata is JSON text.
pub struct StoragePayload {
    pub label: String,
    pub kind: String,
    pub section: Option<String>,
    pub capacity: Option<i64>,
    pub metadata: Option<String>,
}

/// A request to register a storage unit.
pub struct StorageCreatePayload {
    pub token: String,
    pub data: StoragePayload,
}

/// A movement to record.
pub struct MovementData {
    pub action: String,
    pub reference: Option<String>,
    pub item_label: Option<String>,
    pub from_unit: Option<String>,
    pub to_unit: Option<String>,
    pub note: Option<String>,
}

/// A request to record a movement.
pub struct MovementPayload {
    pub token: String,
    pub data: MovementData,
}

/// A request to create or update a department.
pub struct DepartmentUpsertPayload {
    pub token: String,
    pub data: DepartmentPayload,
}

/// A request to hire an employee.
pub struct EmployeeCreatePayload {
    pub token: String,
    pub data: EmployeePayload,
}

/// A request to update an employee.
pub struct EmployeeUpdatePayload {
    pub token: String,
    pub employee_id: i64,
    pub data: EmployeePayload,
}

/// A request for a page of employees.
pub struct EmployeeFilterPayload {
    pub token: String,
    pub status: Option<String>,
    pub department_id: Option<i64>,
    pub drawer_position_id: Option<i64>,
    pub page_size: Option<i64>,
    pub page: Option<i64>,
}

/// A search over employees.
pub struct SearchPayload {
    pub token: String,
    pub query: String,
    pub limit: Option<i64>,
}

/// A request to terminate an employee.
pub struct TerminationPayload {
    pub token: String,
    pub employee_id: i64,
    pub termination_date: String,
    pub reason: Option<String>,
    pub transfer_to_box_id: Option<i64>,
}

/// A request to create a cabinet.
pub struct FileCabinetCreatePayload {
    pub token: String,
    pub data: FileCabinetPayload,
}

/// A request to add a drawer.
pub struct DrawerCreatePayload {
    pub token: String,
    pub data: DrawerPayload,
}

/// A request to put an employee in a drawer position.
pub struct DrawerAssignmentPayload {
    pub token: String,
    pub employee_id: i64,
    pub drawer_id: i64,
    pub position: i64,
}

/// A request for a reorganization plan.
pub struct ReorganizationRequestPayload {
    pub token: String,
    pub critical_threshold: Option<i64>,
    pub max_moves: Option<i64>,
}

/// A request for an employee's documents.
pub struct EmployeeDocumentsPayload {
    pub token: String,
    pub employee_id: i64,
}

/// A document to file.
pub struct DocumentPayload {
    pub token: String,
    pub employee_id: i64,
    pub category_id: i64,
    pub type_id: i64,
    pub description: Option<String>,
    pub document_date: Option<String>,
    pub expiration_date: Option<String>,
    pub notes: Option<String>,
    pub filed_by: Option<String>,
}

/// A request to return a loan.
pub struct LoanReturnPayload {
    pub token: String,
    pub loan_id: i64,
    pub actual_return_date: Option<String>,
    pub return_notes: Option<String>,
}

/// A request to create a box.
pub struct ArchiveBoxCreatePayload {
    pub token: String,
    pub data: ArchiveBoxPayload,
}

/// A request to move a folder into the dead archive.
pub struct ArchiveTransferPayload {
    pub token: String,
    pub employee_id: i64,
    pub box_id: i64,
    pub disposal_eligible_date: Option<String>,
}

/// A request to register a disposal.
pub struct DisposalRegisterPayload {
    pub token: String,
    pub item_ids: Vec<i64>,
    pub term_number: Option<String>,
}

/// A request for a label.
pub struct LabelRequestPayload {
    pub token: String,
    pub entity_id: i64,
    pub format: Option<String>,
}

} // verus!
