//! The entity store: every table of the archive held in memory, with the
//! invariants that tie them together. A multi-row change is one call, so
//! it is applied whole or not at all.
use vstd::prelude::*;

use crate::clock::{trim_of, trimmed, utc_now_rfc3339};
use crate::occupancy::{MAX_DRAWER_CAPACITY, MAX_ROWS};
use crate::records::{
    ArchiveBoxRecord, ArchiveItemRecord, DepartmentRecord, DocumentRecord, DrawerPositionRecord, DrawerRecord,
    DocumentCategoryRecord, DocumentTypeRecord, EmployeeRecord, FileCabinetRecord, LoanRecord, MovementRecord, StorageUnitRecord, UserRecord,
};
use crate::text::{clone_opt, opt_view, str_eq};
use crate::payloads::{DepartmentPayload, EmployeePayload};

verus! {

/// Why an operation of the store failed.
#[derive(PartialEq, Eq, Structural, Clone, Copy, Debug)]
pub enum ArchiveError {
    /// The request's data is malformed or out of range.
    InvalidInput,
    /// There is no valid session.
    Unauthorized,
    /// A referenced id does not resolve.
    NotFound,
    /// A uniqueness or capacity rule would be broken.
    ConstraintViolation,
    /// The store cannot take the write.
    StorageFailure,
}

impl ArchiveError {
    /// A message for the user.
    pub fn message(&self) -> (r: String) {
        match self {
            ArchiveError::InvalidInput => String::from_str("Dados inválidos"),
            ArchiveError::Unauthorized => String::from_str("Sessão inválida. Faça login novamente."),
            ArchiveError::NotFound => String::from_str("Registro não encontrado"),
            ArchiveError::ConstraintViolation => String::from_str("Registro duplicado"),
            ArchiveError::StorageFailure => String::from_str("Falha de armazenamento"),
        }
    }
}

/// The status of an employee on the payroll.
pub open spec fn active_status() -> Seq<char> {
    "ACTIVE"@
}

/// The status of an employee who has left.
pub open spec fn terminated_status() -> Seq<char> {
    "TERMINATED"@
}

/// All tables of the archive. Row `i` of each table has id `i + 1`.
pub struct ArchiveDatabase {
    pub departments: Vec<DepartmentRecord>,
    pub employees: Vec<EmployeeRecord>,
    pub cabinets: Vec<FileCabinetRecord>,
    pub drawers: Vec<DrawerRecord>,
    pub positions: Vec<DrawerPositionRecord>,
    pub loans: Vec<LoanRecord>,
    pub boxes: Vec<ArchiveBoxRecord>,
    pub items: Vec<ArchiveItemRecord>,
    pub documents: Vec<DocumentRecord>,
    pub categories: Vec<DocumentCategoryRecord>,
    pub document_types: Vec<DocumentTypeRecord>,
    pub units: Vec<StorageUnitRecord>,
    pub movements: Vec<MovementRecord>,
    pub users: Vec<UserRecord>,
    /// The id the next user gets.
    pub next_user_id: i64,
}

/// `id` names row `id - 1` of a table of `len` rows.
pub open spec fn id_in(id: i64, len: int) -> bool {
    1 <= id <= len
}

impl ArchiveDatabase {
    /// Ids follow the rows and no table outgrows the store.
    pub open spec fn ids_wf(&self) -> bool {
        &&& self.departments@.len() <= MAX_ROWS
        &&& self.employees@.len() <= MAX_ROWS
        &&& self.cabinets@.len() <= MAX_ROWS
        &&& self.drawers@.len() <= MAX_ROWS
        &&& self.positions@.len() <= MAX_ROWS
        &&& self.loans@.len() <= MAX_ROWS
        &&& self.boxes@.len() <= MAX_ROWS
        &&& self.items@.len() <= MAX_ROWS
        &&& self.documents@.len() <= MAX_ROWS
        &&& self.units@.len() <= MAX_ROWS
        &&& self.movements@.len() <= MAX_ROWS
        &&& self.users@.len() <= MAX_ROWS
        &&& 1 <= self.next_user_id
        &&& forall|i: int| 0 <= i < self.users@.len() ==> #[trigger] self.users@[i].id < self.next_user_id
        &&& forall|i: int| 0 <= i < self.departments@.len() ==> #[trigger] self.departments@[i].id == i + 1
        &&& forall|i: int| 0 <= i < self.employees@.len() ==> #[trigger] self.employees@[i].id == i + 1
        &&& forall|i: int| 0 <= i < self.cabinets@.len() ==> #[trigger] self.cabinets@[i].id == i + 1
        &&& forall|i: int| 0 <= i < self.drawers@.len() ==> #[trigger] self.drawers@[i].id == i + 1
        &&& forall|i: int| 0 <= i < self.positions@.len() ==> #[trigger] self.positions@[i].id == i + 1
        &&& forall|i: int| 0 <= i < self.loans@.len() ==> #[trigger] self.loans@[i].id == i + 1
        &&& forall|i: int| 0 <= i < self.boxes@.len() ==> #[trigger] self.boxes@[i].id == i + 1
        &&& forall|i: int| 0 <= i < self.items@.len() ==> #[trigger] self.items@[i].id == i + 1
        &&& forall|i: int| 0 <= i < self.documents@.len() ==> #[trigger] self.documents@[i].id == i + 1
        &&& forall|i: int| 0 <= i < self.units@.len() ==> #[trigger] self.units@[i].id == i + 1
        &&& forall|i: int| 0 <= i < self.movements@.len() ==> #[trigger] self.movements@[i].id == i + 1
    }

    /// Each drawer belongs to a cabinet, has a capacity in range, and its
    /// number is unique within the cabinet; cabinet numbers are unique.
    pub open spec fn cabinets_wf(&self) -> bool {
        &&& forall|i: int|
            0 <= i < self.drawers@.len() ==> {
                &&& id_in(#[trigger] self.drawers@[i].file_cabinet_id, self.cabinets@.len() as int)
                &&& 0 < self.drawers@[i].capacity <= MAX_DRAWER_CAPACITY
            }
        &&& forall|i: int, j: int|
            0 <= i < j < self.drawers@.len() && (#[trigger] self.drawers@[i]).file_cabinet_id
                == (#[trigger] self.drawers@[j]).file_cabinet_id ==> self.drawers@[i].number
                != self.drawers@[j].number
        &&& forall|i: int, j: int|
            0 <= i < j < self.cabinets@.len() ==> (#[trigger] self.cabinets@[i]).number@
                != (#[trigger] self.cabinets@[j]).number@
    }

    /// Positions and employees point at each other, both ways: a position
    /// is occupied exactly when it names an employee, and that employee names
    /// it back. Hence no two positions name the same employee. A terminated
    /// employee holds no position.
    pub open spec fn positions_wf(&self) -> bool {
        &&& forall|i: int|
            0 <= i < self.positions@.len() ==> {
                let p = #[trigger] self.positions@[i];
                &&& id_in(p.drawer_id, self.drawers@.len() as int)
                &&& p.is_occupied == p.employee_id.is_some()
                &&& p.employee_id matches Some(e) ==> {
                    &&& id_in(e, self.employees@.len() as int)
                    &&& self.employees@[e - 1].drawer_position_id == Some(p.id)
                }
            }
        &&& forall|i: int, j: int|
            0 <= i < j < self.positions@.len() ==> !((#[trigger] self.positions@[i]).drawer_id
                == (#[trigger] self.positions@[j]).drawer_id && self.positions@[i].position
                == self.positions@[j].position)
        &&& forall|i: int|
            0 <= i < self.employees@.len() ==> {
                let e = #[trigger] self.employees@[i];
                &&& e.drawer_position_id matches Some(p) ==> {
                    &&& id_in(p, self.positions@.len() as int)
                    &&& self.positions@[p - 1].employee_id == Some(e.id)
                }
                &&& e.status@ == terminated_status() ==> e.drawer_position_id is None
            }
    }

    /// References between the other tables resolve, and registrations and
    /// box numbers are unique.
    pub open spec fn refs_wf(&self) -> bool {
        &&& forall|i: int|
            0 <= i < self.employees@.len() ==> ((#[trigger] self.employees@[i]).department_id matches Some(
                d,
            ) ==> id_in(d, self.departments@.len() as int))
        &&& forall|i: int, j: int|
            0 <= i < j < self.employees@.len() ==> (#[trigger] self.employees@[i]).registration@
                != (#[trigger] self.employees@[j]).registration@
        &&& forall|i: int|
            0 <= i < self.loans@.len() ==> id_in(
                (#[trigger] self.loans@[i]).employee_id,
                self.employees@.len() as int,
            )
        &&& forall|i: int|
            0 <= i < self.items@.len() ==> {
                &&& id_in((#[trigger] self.items@[i]).employee_id, self.employees@.len() as int)
                &&& id_in(self.items@[i].box_id, self.boxes@.len() as int)
            }
        &&& forall|i: int, j: int|
            0 <= i < j < self.boxes@.len() ==> (#[trigger] self.boxes@[i]).box_number@
                != (#[trigger] self.boxes@[j]).box_number@
        &&& forall|i: int|
            0 <= i < self.boxes@.len() ==> 0 <= (#[trigger] self.boxes@[i]).current_count
                <= self.items@.len()
    }

    /// The store's invariant.
    pub open spec fn wf(&self) -> bool {
        &&& self.ids_wf()
        &&& self.cabinets_wf()
        &&& self.positions_wf()
        &&& self.refs_wf()
    }

    /// An empty store.
    pub fn new() -> (r: Self)
        ensures
            r.wf(),
            r.departments@.len() == 0,
            r.employees@.len() == 0,
            r.cabinets@.len() == 0,
            r.drawers@.len() == 0,
            r.positions@.len() == 0,
            r.loans@.len() == 0,
            r.boxes@.len() == 0,
            r.items@.len() == 0,
            r.documents@.len() == 0,
            r.units@.len() == 0,
            r.movements@.len() == 0,
            r.users@.len() == 0,
    {
        ArchiveDatabase {
            departments: Vec::new(),
            employees: Vec::new(),
            cabinets: Vec::new(),
            drawers: Vec::new(),
            positions: Vec::new(),
            loans: Vec::new(),
            boxes: Vec::new(),
            items: Vec::new(),
            documents: Vec::new(),
            categories: Vec::new(),
            document_types: Vec::new(),
            units: Vec::new(),
            movements: Vec::new(),
            users: Vec::new(),
            next_user_id: 1,
        }
    }

    /// In a well-formed store no two positions hold the same employee, and a
    /// position holds an employee exactly when that employee points at it.
    pub proof fn lemma_one_position_per_employee(&self, e: i64, i: int, j: int)
        requires
            self.wf(),
            0 <= i < self.positions@.len(),
            0 <= j < self.positions@.len(),
            self.positions@[i].employee_id == Some(e),
            self.positions@[j].employee_id == Some(e),
        ensures
            i == j,
            self.employees@[e - 1].drawer_position_id == Some((i + 1) as i64),
    {
        assert(self.positions@[i].id == i + 1);
        assert(self.positions@[j].id == j + 1);
    }
}

} // verus!
