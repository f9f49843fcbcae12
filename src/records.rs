//! The stored records of the archive, one type per table.
use vstd::prelude::*;

use crate::text::{clone_opt, opt_view};

verus! {

/// A department of the organisation.
pub struct DepartmentRecord {
    pub id: i64,
    pub name: String,
    pub code: Option<String>,
    pub description: Option<String>,
    pub is_active: bool,
    pub created_at: String,
    pub updated_at: String,
}

impl DepartmentRecord {
    /// Field by field equality of text.
    pub open spec fn eqv(&self, o: &Self) -> bool {
        &&& self.id == o.id
        &&& self.name@ == o.name@
        &&& opt_view(self.code) == opt_view(o.code)
        &&& opt_view(self.description) == opt_view(o.description)
        &&& self.is_active == o.is_active
        &&& self.created_at@ == o.created_at@
        &&& self.updated_at@ == o.updated_at@
    }

    pub fn duplicate(&self) -> (r: Self)
        ensures
            r.eqv(self),
    {
        DepartmentRecord {
            id: self.id,
            name: self.name.clone(),
            code: clone_opt(&self.code),
            description: clone_opt(&self.description),
            is_active: self.is_active,
            created_at: self.created_at.clone(),
            updated_at: self.updated_at.clone(),
        }
    }
}

/// An employee whose records the archive files.
pub struct EmployeeRecord {
    pub id: i64,
    pub full_name: String,
    pub registration: String,
    pub cpf: Option<String>,
    pub department_id: Option<i64>,
    pub department_name: Option<String>,
    pub admission_date: String,
    pub termination_date: Option<String>,
    pub status: String,
    pub drawer_position_id: Option<i64>,
    pub notes: Option<String>,
    pub created_at: String,
    pub updated_at: String,
}

impl EmployeeRecord {
    /// Field by field equality of text.
    pub open spec fn eqv(&self, o: &Self) -> bool {
        &&& self.id == o.id
        &&& self.full_name@ == o.full_name@
        &&& self.registration@ == o.registration@
        &&& opt_view(self.cpf) == opt_view(o.cpf)
        &&& self.department_id == o.department_id
        &&& opt_view(self.department_name) == opt_view(o.department_name)
        &&& self.admission_date@ == o.admission_date@
        &&& opt_view(self.termination_date) == opt_view(o.termination_date)
        &&& self.status@ == o.status@
        &&& self.drawer_position_id == o.drawer_position_id
        &&& opt_view(self.notes) == opt_view(o.notes)
        &&& self.created_at@ == o.created_at@
        &&& self.updated_at@ == o.updated_at@
    }

    pub fn duplicate(&self) -> (r: Self)
        ensures
            r.eqv(self),
    {
        EmployeeRecord {
            id: self.id,
            full_name: self.full_name.clone(),
            registration: self.registration.clone(),
            cpf: clone_opt(&self.cpf),
            department_id: self.department_id,
            department_name: clone_opt(&self.department_name),
            admission_date: self.admission_date.clone(),
            termination_date: clone_opt(&self.termination_date),
            status: self.status.clone(),
            drawer_position_id: self.drawer_position_id,
            notes: clone_opt(&self.notes),
            created_at: self.created_at.clone(),
            updated_at: self.updated_at.clone(),
        }
    }
}

/// A file cabinet, which owns its drawers.
pub struct FileCabinetRecord {
    pub id: i64,
    pub number: String,
    pub location: Option<String>,
    pub num_drawers: i64,
    pub description: Option<String>,
    pub is_active: bool,
    pub created_at: String,
    pub updated_at: String,
}

impl FileCabinetRecord {
    /// Field by field equality of text.
    pub open spec fn eqv(&self, o: &Self) -> bool {
        &&& self.id == o.id
        &&& self.number@ == o.number@
        &&& opt_view(self.location) == opt_view(o.location)
        &&& self.num_drawers == o.num_drawers
        &&& opt_view(self.description) == opt_view(o.description)
        &&& self.is_active == o.is_active
        &&& self.created_at@ == o.created_at@
        &&& self.updated_at@ == o.updated_at@
    }

    pub fn duplicate(&self) -> (r: Self)
        ensures
            r.eqv(self),
    {
        FileCabinetRecord {
            id: self.id,
            number: self.number.clone(),
            location: clone_opt(&self.location),
            num_drawers: self.num_drawers,
            description: clone_opt(&self.description),
            is_active: self.is_active,
            created_at: self.created_at.clone(),
            updated_at: self.updated_at.clone(),
        }
    }
}

/// A drawer of a cabinet, with room for `capacity` positions.
pub struct DrawerRecord {
    pub id: i64,
    pub file_cabinet_id: i64,
    pub number: i64,
    pub capacity: i64,
    pub label: Option<String>,
    pub created_at: String,
}

impl DrawerRecord {
    /// Field by field equality of text.
    pub open spec fn eqv(&self, o: &Self) -> bool {
        &&& self.id == o.id
        &&& self.file_cabinet_id == o.file_cabinet_id
        &&& self.number == o.number
        &&& self.capacity == o.capacity
        &&& opt_view(self.label) == opt_view(o.label)
        &&& self.created_at@ == o.created_at@
    }

    pub fn duplicate(&self) -> (r: Self)
        ensures
            r.eqv(self),
    {
        DrawerRecord {
            id: self.id,
            file_cabinet_id: self.file_cabinet_id,
            number: self.number,
            capacity: self.capacity,
            label: clone_opt(&self.label),
            created_at: self.created_at.clone(),
        }
    }
}

/// One slot of a drawer, optionally holding one employee's folder.
pub struct DrawerPositionRecord {
    pub id: i64,
    pub drawer_id: i64,
    pub position: i64,
    pub employee_id: Option<i64>,
    pub is_occupied: bool,
    pub created_at: String,
}

impl DrawerPositionRecord {
    /// Field by field equality of text.
    pub open spec fn eqv(&self, o: &Self) -> bool {
        &&& self.id == o.id
        &&& self.drawer_id == o.drawer_id
        &&& self.position == o.position
        &&& self.employee_id == o.employee_id
        &&& self.is_occupied == o.is_occupied
        &&& self.created_at@ == o.created_at@
    }

    pub fn duplicate(&self) -> (r: Self)
        ensures
            r.eqv(self),
    {
        DrawerPositionRecord {
            id: self.id,
            drawer_id: self.drawer_id,
            position: self.position,
            employee_id: self.employee_id,
            is_occupied: self.is_occupied,
            created_at: self.created_at.clone(),
        }
    }
}

/// A loan of an employee's folder to a requester.
pub struct LoanRecord {
    pub id: i64,
    pub employee_id: i64,
    pub requester_name: String,
    pub requester_department_id: Option<i64>,
    pub reason: String,
    pub loan_date: String,
    pub expected_return_date: String,
    pub actual_return_date: Option<String>,
    pub status: String,
    pub return_notes: Option<String>,
    pub loaned_by: String,
    pub returned_by: Option<String>,
    pub created_at: String,
    pub updated_at: String,
}

impl LoanRecord {
    /// Field by field equality of text.
    pub open spec fn eqv(&self, o: &Self) -> bool {
        &&& self.id == o.id
        &&& self.employee_id == o.employee_id
        &&& self.requester_name@ == o.requester_name@
        &&& self.requester_department_id == o.requester_department_id
        &&& self.reason@ == o.reason@
        &&& self.loan_date@ == o.loan_date@
        &&& self.expected_return_date@ == o.expected_return_date@
        &&& opt_view(self.actual_return_date) == opt_view(o.actual_return_date)
        &&& self.status@ == o.status@
        &&& opt_view(self.return_notes) == opt_view(o.return_notes)
        &&& self.loaned_by@ == o.loaned_by@
        &&& opt_view(self.returned_by) == opt_view(o.returned_by)
        &&& self.created_at@ == o.created_at@
        &&& self.updated_at@ == o.updated_at@
    }

    pub fn duplicate(&self) -> (r: Self)
        ensures
            r.eqv(self),
    {
        LoanRecord {
            id: self.id,
            employee_id: self.employee_id,
            requester_name: self.requester_name.clone(),
            requester_department_id: self.requester_department_id,
            reason: self.reason.clone(),
            loan_date: self.loan_date.clone(),
            expected_return_date: self.expected_return_date.clone(),
            actual_return_date: clone_opt(&self.actual_return_date),
            status: self.status.clone(),
            return_notes: clone_opt(&self.return_notes),
            loaned_by: self.loaned_by.clone(),
            returned_by: clone_opt(&self.returned_by),
            created_at: self.created_at.clone(),
            updated_at: self.updated_at.clone(),
        }
    }
}

/// A box of the dead archive.
pub struct ArchiveBoxRecord {
    pub id: i64,
    pub box_number: String,
    pub year: i64,
    pub period: Option<String>,
    pub letter_range: Option<String>,
    pub location: Option<String>,
    pub capacity: i64,
    pub current_count: i64,
    pub created_at: String,
}

impl ArchiveBoxRecord {
    /// Field by field equality of text.
    pub open spec fn eqv(&self, o: &Self) -> bool {
        &&& self.id == o.id
        &&& self.box_number@ == o.box_number@
        &&& self.year == o.year
        &&& opt_view(self.period) == opt_view(o.period)
        &&& opt_view(self.letter_range) == opt_view(o.letter_range)
        &&& opt_view(self.location) == opt_view(o.location)
        &&& self.capacity == o.capacity
        &&& self.current_count == o.current_count
        &&& self.created_at@ == o.created_at@
    }

    pub fn duplicate(&self) -> (r: Self)
        ensures
            r.eqv(self),
    {
        ArchiveBoxRecord {
            id: self.id,
            box_number: self.box_number.clone(),
            year: self.year,
            period: clone_opt(&self.period),
            letter_range: clone_opt(&self.letter_range),
            location: clone_opt(&self.location),
            capacity: self.capacity,
            current_count: self.current_count,
            created_at: self.created_at.clone(),
        }
    }
}

/// An employee's folder held in a box of the dead archive.
pub struct ArchiveItemRecord {
    pub id: i64,
    pub employee_id: i64,
    pub box_id: i64,
    pub transfer_date: String,
    pub disposal_eligible_date: Option<String>,
    pub disposed: bool,
    pub disposal_date: Option<String>,
    pub disposal_term_number: Option<String>,
    pub transferred_by: String,
    pub created_at: String,
}

impl ArchiveItemRecord {
    /// Field by field equality of text.
    pub open spec fn eqv(&self, o: &Self) -> bool {
        &&& self.id == o.id
        &&& self.employee_id == o.employee_id
        &&& self.box_id == o.box_id
        &&& self.transfer_date@ == o.transfer_date@
        &&& opt_view(self.disposal_eligible_date) == opt_view(o.disposal_eligible_date)
        &&& self.disposed == o.disposed
        &&& opt_view(self.disposal_date) == opt_view(o.disposal_date)
        &&& opt_view(self.disposal_term_number) == opt_view(o.disposal_term_number)
        &&& self.transferred_by@ == o.transferred_by@
        &&& self.created_at@ == o.created_at@
    }

    pub fn duplicate(&self) -> (r: Self)
        ensures
            r.eqv(self),
    {
        ArchiveItemRecord {
            id: self.id,
            employee_id: self.employee_id,
            box_id: self.box_id,
            transfer_date: self.transfer_date.clone(),
            disposal_eligible_date: clone_opt(&self.disposal_eligible_date),
            disposed: self.disposed,
            disposal_date: clone_opt(&self.disposal_date),
            disposal_term_number: clone_opt(&self.disposal_term_number),
            transferred_by: self.transferred_by.clone(),
            created_at: self.created_at.clone(),
        }
    }
}

/// A filed document; never changed once filed.
pub struct DocumentRecord {
    pub id: i64,
    pub employee_id: i64,
    pub category_id: i64,
    pub type_id: i64,
    pub description: Option<String>,
    pub document_date: Option<String>,
    pub filing_date: String,
    pub expiration_date: Option<String>,
    pub notes: Option<String>,
    pub filed_by: Option<String>,
    pub created_at: String,
}

impl DocumentRecord {
    /// Field by field equality of text.
    pub open spec fn eqv(&self, o: &Self) -> bool {
        &&& self.id == o.id
        &&& self.employee_id == o.employee_id
        &&& self.category_id == o.category_id
        &&& self.type_id == o.type_id
        &&& opt_view(self.description) == opt_view(o.description)
        &&& opt_view(self.document_date) == opt_view(o.document_date)
        &&& self.filing_date@ == o.filing_date@
        &&& opt_view(self.expiration_date) == opt_view(o.expiration_date)
        &&& opt_view(self.notes) == opt_view(o.notes)
        &&& opt_view(self.filed_by) == opt_view(o.filed_by)
        &&& self.created_at@ == o.created_at@
    }

    pub fn duplicate(&self) -> (r: Self)
        ensures
            r.eqv(self),
    {
        DocumentRecord {
            id: self.id,
            employee_id: self.employee_id,
            category_id: self.category_id,
            type_id: self.type_id,
            description: clone_opt(&self.description),
            document_date: clone_opt(&self.document_date),
            filing_date: self.filing_date.clone(),
            expiration_date: clone_opt(&self.expiration_date),
            notes: clone_opt(&self.notes),
            filed_by: clone_opt(&self.filed_by),
            created_at: self.created_at.clone(),
        }
    }
}

/// A recorded movement of a storage unit's contents.
pub struct MovementRecord {
    pub id: i64,
    pub reference: Option<String>,
    pub item_label: Option<String>,
    pub from_unit: Option<String>,
    pub to_unit: Option<String>,
    pub action: String,
    pub note: Option<String>,
    pub actor: String,
    pub created_at: String,
}

impl MovementRecord {
    /// Field by field equality of text.
    pub open spec fn eqv(&self, o: &Self) -> bool {
        &&& self.id == o.id
        &&& opt_view(self.reference) == opt_view(o.reference)
        &&& opt_view(self.item_label) == opt_view(o.item_label)
        &&& opt_view(self.from_unit) == opt_view(o.from_unit)
        &&& opt_view(self.to_unit) == opt_view(o.to_unit)
        &&& self.action@ == o.action@
        &&& opt_view(self.note) == opt_view(o.note)
        &&& self.actor@ == o.actor@
        &&& self.created_at@ == o.created_at@
    }

    pub fn duplicate(&self) -> (r: Self)
        ensures
            r.eqv(self),
    {
        MovementRecord {
            id: self.id,
            reference: clone_opt(&self.reference),
            item_label: clone_opt(&self.item_label),
            from_unit: clone_opt(&self.from_unit),
            to_unit: clone_opt(&self.to_unit),
            action: self.action.clone(),
            note: clone_opt(&self.note),
            actor: self.actor.clone(),
            created_at: self.created_at.clone(),
        }
    }
}

/// A storage unit (folder, envelope, cabinet, box) of the general register.
/// Its metadata is kept as JSON text.
pub struct StorageUnitRecord {
    pub id: i64,
    pub label: String,
    pub kind: String,
    pub section: Option<String>,
    pub capacity: i64,
    pub occupancy: i64,
    pub metadata: Option<String>,
    pub created_at: String,
    pub updated_at: String,
}

impl StorageUnitRecord {
    /// Field by field equality of text.
    pub open spec fn eqv(&self, o: &Self) -> bool {
        &&& self.id == o.id
        &&& self.label@ == o.label@
        &&& self.kind@ == o.kind@
        &&& opt_view(self.section) == opt_view(o.section)
        &&& self.capacity == o.capacity
        &&& self.occupancy == o.occupancy
        &&& opt_view(self.metadata) == opt_view(o.metadata)
        &&& self.created_at@ == o.created_at@
        &&& self.updated_at@ == o.updated_at@
    }

    pub fn duplicate(&self) -> (r: Self)
        ensures
            r.eqv(self),
    {
        StorageUnitRecord {
            id: self.id,
            label: self.label.clone(),
            kind: self.kind.clone(),
            section: clone_opt(&self.section),
            capacity: self.capacity,
            occupancy: self.occupancy,
            metadata: clone_opt(&self.metadata),
            created_at: self.created_at.clone(),
            updated_at: self.updated_at.clone(),
        }
    }
}

/// A category of documents.
pub struct DocumentCategoryRecord {
    pub id: i64,
    pub name: String,
    pub code: String,
    pub description: Option<String>,
    pub icon: Option<String>,
    pub color: Option<String>,
    pub created_at: String,
}

impl DocumentCategoryRecord {
    /// Field by field equality of text.
    pub open spec fn eqv(&self, o: &Self) -> bool {
        &&& self.id == o.id
        &&& self.name@ == o.name@
        &&& self.code@ == o.code@
        &&& opt_view(self.description) == opt_view(o.description)
        &&& opt_view(self.icon) == opt_view(o.icon)
        &&& opt_view(self.color) == opt_view(o.color)
        &&& self.created_at@ == o.created_at@
    }

    pub fn duplicate(&self) -> (r: Self)
        ensures
            r.eqv(self),
    {
        DocumentCategoryRecord {
            id: self.id,
            name: self.name.clone(),
            code: self.code.clone(),
            description: clone_opt(&self.description),
            icon: clone_opt(&self.icon),
            color: clone_opt(&self.color),
            created_at: self.created_at.clone(),
        }
    }
}

/// A type of document, with how long it is kept.
pub struct DocumentTypeRecord {
    pub id: i64,
    pub category_id: i64,
    pub name: String,
    pub retention_years: i64,
    pub is_required: bool,
    pub created_at: String,
}

impl DocumentTypeRecord {
    /// Field by field equality of text.
    pub open spec fn eqv(&self, o: &Self) -> bool {
        &&& self.id == o.id
        &&& self.category_id == o.category_id
        &&& self.name@ == o.name@
        &&& self.retention_years == o.retention_years
        &&& self.is_required == o.is_required
        &&& self.created_at@ == o.created_at@
    }

    pub fn duplicate(&self) -> (r: Self)
        ensures
            r.eqv(self),
    {
        DocumentTypeRecord {
            id: self.id,
            category_id: self.category_id,
            name: self.name.clone(),
            retention_years: self.retention_years,
            is_required: self.is_required,
            created_at: self.created_at.clone(),
        }
    }
}

/// A user who may log in.
pub struct UserRecord {
    pub id: i64,
    pub name: String,
    pub login: String,
    pub password_hash: String,
    pub role: String,
    pub created_at: String,
}

} // verus!
