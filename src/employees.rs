//! Departments and employees, and the termination of an employee.
use vstd::prelude::*;

use crate::clock::{trim_of, trimmed, utc_now_rfc3339};
use crate::occupancy::MAX_ROWS;
use crate::payloads::{DepartmentPayload, EmployeePayload};
use crate::records::{DepartmentRecord, DrawerPositionRecord, EmployeeRecord};
use crate::store::{active_status, id_in, terminated_status, ArchiveDatabase, ArchiveError};
use crate::text::{clone_opt, holds_index, keyed_before, opt_view, order_by_text, str_eq};

verus! {

/// The status a new employee gets: the one given, else active.
pub open spec fn initial_status(p: EmployeePayload) -> Seq<char> {
    match p.status {
        Some(s) => s@,
        None => active_status(),
    }
}

/// Some record of `r` has the id of row `i`.
pub open spec fn lists_row(r: Seq<DepartmentRecord>, i: int) -> bool {
    exists|k: int| 0 <= k < r.len() && r[k].id == i + 1
}

impl ArchiveDatabase {
    /// The name of the department `d`, if it resolves.
    pub open spec fn department_name_spec(&self, d: Option<i64>) -> Option<Seq<char>> {
        match d {
            Some(id) => if id_in(id, self.departments@.len() as int) {
                Some(self.departments@[id - 1].name@)
            } else {
                None
            },
            None => None,
        }
    }

    /// Employee row `i` as it is read: with its department's current name.
    pub open spec fn employee_read(&self, r: EmployeeRecord, i: int) -> bool {
        let e = self.employees@[i];
        &&& r.id == e.id
        &&& r.full_name@ == e.full_name@
        &&& r.registration@ == e.registration@
        &&& opt_view(r.cpf) == opt_view(e.cpf)
        &&& r.department_id == e.department_id
        &&& opt_view(r.department_name) == self.department_name_spec(e.department_id)
        &&& r.admission_date@ == e.admission_date@
        &&& opt_view(r.termination_date) == opt_view(e.termination_date)
        &&& r.status@ == e.status@
        &&& r.drawer_position_id == e.drawer_position_id
        &&& opt_view(r.notes) == opt_view(e.notes)
        &&& r.created_at@ == e.created_at@
        &&& r.updated_at@ == e.updated_at@
    }

    /// Some department is named `name`.
    pub open spec fn department_name_taken(&self, name: Seq<char>) -> bool {
        exists|i: int| 0 <= i < self.departments@.len() && #[trigger] self.departments@[i].name@ == name
    }

    fn find_department_name(&self, name: &str) -> (r: bool)
        ensures
            r == self.department_name_taken(name@),
    {
        let mut i: usize = 0;
        while i < self.departments.len()
            invariant
                0 <= i <= self.departments@.len(),
                forall|k: int| 0 <= k < i ==> #[trigger] self.departments@[k].name@ != name@,
            decreases self.departments@.len() - i,
        {
            if str_eq(self.departments[i].name.as_str(), name) {
                return true;
            }
            i = i + 1;
        }
        false
    }

    /// Creates a department; its name, trimmed, must be new.
    pub fn create_department(&mut self, payload: &DepartmentPayload) -> (r: Result<
        DepartmentRecord,
        ArchiveError,
    >)
        requires
            old(self).wf(),
        ensures
            final(self).wf(),
            old(self).department_name_taken(trim_of(payload.name@)) ==> r == Err::<
                DepartmentRecord,
                ArchiveError,
            >(ArchiveError::ConstraintViolation),
            !old(self).department_name_taken(trim_of(payload.name@)) && old(self).departments@.len()
                >= MAX_ROWS ==> r == Err::<DepartmentRecord, ArchiveError>(
                ArchiveError::StorageFailure,
            ),
            !old(self).department_name_taken(trim_of(payload.name@)) && old(self).departments@.len()
                < MAX_ROWS ==> r is Ok,
            r is Err ==> *final(self) == *old(self),
            r matches Ok(d) ==> {
                &&& d.id == old(self).departments@.len() + 1
                &&& d.name@ == trim_of(payload.name@)
                &&& opt_view(d.code) == opt_view(payload.code)
                &&& opt_view(d.description) == opt_view(payload.description)
                &&& d.is_active == payload.is_active.unwrap_or(true)
                &&& d.created_at@ == d.updated_at@
                &&& final(self).departments@ == old(self).departments@.push(
                    final(self).departments@.last(),
                )
                &&& final(self).departments@.last().eqv(&d)
                &&& *final(self) == (ArchiveDatabase {
                    departments: final(self).departments,
                    ..*old(self)
                })
            },
    {
        let name = trimmed(payload.name.as_str());
        if self.find_department_name(name.as_str()) {
            return Err(ArchiveError::ConstraintViolation);
        }
        if self.departments.len() >= MAX_ROWS as usize {
            return Err(ArchiveError::StorageFailure);
        }
        let now = utc_now_rfc3339();
        let id = self.departments.len() as i64 + 1;
        let is_active = match payload.is_active {
            Some(b) => b,
            None => true,
        };
        let rec = DepartmentRecord {
            id,
            name,
            code: clone_opt(&payload.code),
            description: clone_opt(&payload.description),
            is_active,
            created_at: now.clone(),
            updated_at: now,
        };
        let out = rec.duplicate();
        self.departments.push(rec);
        Ok(out)
    }

    /// Reads department `id`.
    pub fn get_department(&self, id: i64) -> (r: Result<DepartmentRecord, ArchiveError>)
        requires
            self.wf(),
        ensures
            !id_in(id, self.departments@.len() as int) ==> r == Err::<DepartmentRecord, ArchiveError>(
                ArchiveError::NotFound,
            ),
            id_in(id, self.departments@.len() as int) ==> (r matches Ok(d) && d.eqv(
                &self.departments@[id - 1],
            )),
    {
        if id < 1 || id > self.departments.len() as i64 {
            return Err(ArchiveError::NotFound);
        }
        Ok(self.departments[(id - 1) as usize].duplicate())
    }

    /// The current name of department `d`.
    fn department_name(&self, d: Option<i64>) -> (r: Option<String>)
        requires
            self.wf(),
        ensures
            opt_view(r) == self.department_name_spec(d),
    {
        match d {
            Some(id) => {
                if id >= 1 && id <= self.departments.len() as i64 {
                    Some(self.departments[(id - 1) as usize].name.clone())
                } else {
                    None
                }
            },
            None => None,
        }
    }

    /// Reads employee `id`, with its department's name.
    pub fn get_employee_by_id(&self, id: i64) -> (r: Result<EmployeeRecord, ArchiveError>)
        requires
            self.wf(),
        ensures
            !id_in(id, self.employees@.len() as int) ==> r == Err::<EmployeeRecord, ArchiveError>(
                ArchiveError::NotFound,
            ),
            id_in(id, self.employees@.len() as int) ==> (r matches Ok(e) && self.employee_read(
                e,
                id - 1,
            )),
    {
        if id < 1 || id > self.employees.len() as i64 {
            return Err(ArchiveError::NotFound);
        }
        let e = &self.employees[(id - 1) as usize];
        let mut out = e.duplicate();
        out.department_name = self.department_name(e.department_id);
        Ok(out)
    }

    /// Some employee is registered as `reg`.
    pub open spec fn registration_taken(&self, reg: Seq<char>) -> bool {
        exists|i: int| 0 <= i < self.employees@.len() && #[trigger] self.employees@[i].registration@ == reg
    }

    fn find_registration(&self, reg: &str) -> (r: bool)
        ensures
            r == self.registration_taken(reg@),
    {
        let mut i: usize = 0;
        while i < self.employees.len()
            invariant
                0 <= i <= self.employees@.len(),
                forall|k: int| 0 <= k < i ==> #[trigger] self.employees@[k].registration@ != reg@,
            decreases self.employees@.len() - i,
        {
            if str_eq(self.employees[i].registration.as_str(), reg) {
                return true;
            }
            i = i + 1;
        }
        false
    }

    /// Hires an employee. The name and registration are trimmed; the
    /// registration must be new and the department, if given, must exist.
    /// The new employee holds no position: positions are given by
    /// assignment alone.
    #[verifier::spinoff_prover]
    pub fn create_employee(&mut self, payload: &EmployeePayload) -> (r: Result<
        EmployeeRecord,
        ArchiveError,
    >)
        requires
            old(self).wf(),
        ensures
            r matches Err(e) ==> (e == ArchiveError::NotFound || e == ArchiveError::ConstraintViolation || e == ArchiveError::StorageFailure),
            final(self).wf(),
            r is Err ==> *final(self) == *old(self),
            r == Err::<EmployeeRecord, ArchiveError>(ArchiveError::NotFound) <==> (
            payload.department_id matches Some(d) && !id_in(d, old(self).departments@.len() as int)),
            r == Err::<EmployeeRecord, ArchiveError>(ArchiveError::ConstraintViolation) <==> (
            !(payload.department_id matches Some(d) && !id_in(
                d,
                old(self).departments@.len() as int,
            )) && old(self).registration_taken(trim_of(payload.registration@))),
            r == Err::<EmployeeRecord, ArchiveError>(ArchiveError::StorageFailure) <==> (
            !(payload.department_id matches Some(d) && !id_in(
                d,
                old(self).departments@.len() as int,
            )) && !old(self).registration_taken(trim_of(payload.registration@))
                && old(self).employees@.len() >= MAX_ROWS),
            r matches Ok(e) ==> {
                &&& e.id == old(self).employees@.len() + 1
                &&& final(self).employees@.len() == e.id
                &&& final(self).employees@.drop_last() == old(self).employees@
                &&& final(self).employee_read(e, e.id - 1)
                &&& e.full_name@ == trim_of(payload.full_name@)
                &&& e.registration@ == trim_of(payload.registration@)
                &&& opt_view(e.cpf) == opt_view(payload.cpf)
                &&& e.department_id == payload.department_id
                &&& e.admission_date@ == payload.admission_date@
                &&& opt_view(e.termination_date) == opt_view(payload.termination_date)
                &&& e.status@ == initial_status(*payload)
                &&& e.drawer_position_id is None
                &&& opt_view(e.notes) == opt_view(payload.notes)
                &&& *final(self) == (ArchiveDatabase {
                    employees: final(self).employees,
                    ..*old(self)
                })
            },
    {
        if let Some(d) = payload.department_id {
            if d < 1 || d > self.departments.len() as i64 {
                return Err(ArchiveError::NotFound);
            }
        }
        let registration = trimmed(payload.registration.as_str());
        if self.find_registration(registration.as_str()) {
            return Err(ArchiveError::ConstraintViolation);
        }
        if self.employees.len() >= MAX_ROWS as usize {
            return Err(ArchiveError::StorageFailure);
        }
        let now = utc_now_rfc3339();
        let id = self.employees.len() as i64 + 1;
        let status = match &payload.status {
            Some(s) => s.clone(),
            None => String::from_str("ACTIVE"),
        };
        let rec = EmployeeRecord {
            id,
            full_name: trimmed(payload.full_name.as_str()),
            registration,
            cpf: clone_opt(&payload.cpf),
            department_id: payload.department_id,
            department_name: None,
            admission_date: payload.admission_date.clone(),
            termination_date: clone_opt(&payload.termination_date),
            status,
            drawer_position_id: None,
            notes: clone_opt(&payload.notes),
            created_at: now.clone(),
            updated_at: now,
        };
        let ghost old_db = *self;
        self.employees.push(rec);
        proof {
            assert(self.employees@.drop_last() =~= old_db.employees@);
            assert forall|i: int, j: int| 0 <= i < j < self.employees@.len() implies
                (#[trigger] self.employees@[i]).registration@
                != (#[trigger] self.employees@[j]).registration@ by {
                if j == self.employees@.len() - 1 {
                    assert(old_db.employees@[i] == self.employees@[i]);
                }
            }
        }
        self.get_employee_by_id(id)
    }

    /// Terminates employee `id`: status TERMINATED, the termination date
    /// set, and its position freed on both sides.
    #[verifier::spinoff_prover]
    pub fn terminate_employee(&mut self, id: i64, termination_date: &str) -> (r: Result<
        EmployeeRecord,
        ArchiveError,
    >)
        requires
            old(self).wf(),
        ensures
            r matches Err(e) ==> (e == ArchiveError::NotFound),
            final(self).wf(),
            !id_in(id, old(self).employees@.len() as int) <==> r == Err::<EmployeeRecord, ArchiveError>(
                ArchiveError::NotFound,
            ),
            r is Err ==> *final(self) == *old(self),
            r matches Ok(e) ==> {
                let o = old(self).employees@[id - 1];
                let n = final(self).employees@[id - 1];
                &&& final(self).employee_read(e, id - 1)
                &&& n.status@ == terminated_status()
                &&& n.termination_date matches Some(t) && t@ == termination_date@
                &&& n.drawer_position_id is None
                &&& n.id == o.id && n.full_name == o.full_name && n.registration == o.registration
                &&& n.cpf == o.cpf && n.department_id == o.department_id
                &&& n.department_name == o.department_name && n.admission_date == o.admission_date
                &&& n.notes == o.notes && n.created_at == o.created_at
                &&& final(self).employees@.len() == old(self).employees@.len()
                &&& forall|k: int|
                    0 <= k < old(self).employees@.len() && k != id - 1
                        ==> #[trigger] final(self).employees@[k] == old(self).employees@[k]
                &&& final(self).positions@.len() == old(self).positions@.len()
                &&& forall|k: int|
                    0 <= k < final(self).positions@.len()
                        ==> (#[trigger] final(self).positions@[k]).employee_id != Some(id)
                &&& forall|k: int|
                    0 <= k < old(self).positions@.len() ==> {
                        let op = #[trigger] old(self).positions@[k];
                        let np = final(self).positions@[k];
                        if op.employee_id == Some(id) {
                            np == (DrawerPositionRecord {
                                employee_id: None,
                                is_occupied: false,
                                ..op
                            })
                        } else {
                            np == op
                        }
                    }
                &&& *final(self) == (ArchiveDatabase {
                    employees: final(self).employees,
                    positions: final(self).positions,
                    ..*old(self)
                })
            },
    {
        if id < 1 || id > self.employees.len() as i64 {
            return Err(ArchiveError::NotFound);
        }
        let i = (id - 1) as usize;
        let ghost old_db = *self;
        if let Some(p) = self.employees[i].drawer_position_id {
            let pi = (p - 1) as usize;
            self.positions[pi].employee_id = None;
            self.positions[pi].is_occupied = false;
            proof {
                assert forall|k: int| 0 <= k < old_db.positions@.len() && k != pi implies
                    #[trigger] old_db.positions@[k].employee_id != Some(id) by {
                    if old_db.positions@[k].employee_id == Some(id) {
                        assert(old_db.employees@[id - 1].drawer_position_id == Some(
                            old_db.positions@[k].id,
                        ));
                    }
                }
            }
        } else {
            proof {
                assert forall|k: int| 0 <= k < old_db.positions@.len() implies
                    #[trigger] old_db.positions@[k].employee_id != Some(id) by {
                    if old_db.positions@[k].employee_id == Some(id) {
                        assert(old_db.employees@[id - 1].drawer_position_id == Some(
                            old_db.positions@[k].id,
                        ));
                    }
                }
            }
        }
        let now = utc_now_rfc3339();
        self.employees[i].status = String::from_str("TERMINATED");
        self.employees[i].termination_date = Some(termination_date.to_string());
        self.employees[i].drawer_position_id = None;
        self.employees[i].updated_at = now;
        self.get_employee_by_id(id)
    }

    /// Some department other than row `skip` is named `name`.
    pub open spec fn department_name_taken_by_other(&self, name: Seq<char>, skip: int) -> bool {
        exists|i: int|
            0 <= i < self.departments@.len() && i != skip && #[trigger] self.departments@[i].name@ == name
    }

    /// Rewrites department `id`; its name, trimmed, must stay unique.
    pub fn update_department(&mut self, id: i64, payload: &DepartmentPayload) -> (r: Result<
        DepartmentRecord,
        ArchiveError,
    >)
        requires
            old(self).wf(),
        ensures
            r matches Err(e) ==> (e == ArchiveError::NotFound || e == ArchiveError::ConstraintViolation),
            final(self).wf(),
            r is Err ==> *final(self) == *old(self),
            r == Err::<DepartmentRecord, ArchiveError>(ArchiveError::NotFound) <==> !id_in(
                id,
                old(self).departments@.len() as int,
            ),
            r == Err::<DepartmentRecord, ArchiveError>(ArchiveError::ConstraintViolation) <==> (id_in(
                id,
                old(self).departments@.len() as int,
            ) && old(self).department_name_taken_by_other(trim_of(payload.name@), id - 1)),
            r matches Ok(d) ==> {
                let o = old(self).departments@[id - 1];
                &&& final(self).departments@[id - 1].eqv(&d)
                &&& d.id == id
                &&& d.name@ == trim_of(payload.name@)
                &&& opt_view(d.code) == opt_view(payload.code)
                &&& opt_view(d.description) == opt_view(payload.description)
                &&& d.is_active == payload.is_active.unwrap_or(true)
                &&& d.created_at@ == o.created_at@
                &&& final(self).departments@.len() == old(self).departments@.len()
                &&& forall|k: int|
                    0 <= k < old(self).departments@.len() && k != id - 1
                        ==> #[trigger] final(self).departments@[k] == old(self).departments@[k]
                &&& *final(self) == (ArchiveDatabase {
                    departments: final(self).departments,
                    ..*old(self)
                })
            },
    {
        if id < 1 || id > self.departments.len() as i64 {
            return Err(ArchiveError::NotFound);
        }
        let di = (id - 1) as usize;
        let name = trimmed(payload.name.as_str());
        let mut k: usize = 0;
        while k < self.departments.len()
            invariant
                *self == *old(self),
                self.wf(),
                id_in(id, self.departments@.len() as int),
                di == id - 1,
                name@ == trim_of(payload.name@),
                0 <= k <= self.departments@.len(),
                di < self.departments@.len(),
                forall|j: int| 0 <= j < k && j != di ==> #[trigger] self.departments@[j].name@ != name@,
            decreases self.departments@.len() - k,
        {
            if k != di && str_eq(self.departments[k].name.as_str(), name.as_str()) {
                return Err(ArchiveError::ConstraintViolation);
            }
            k = k + 1;
        }
        let now = utc_now_rfc3339();
        let is_active = match payload.is_active {
            Some(b) => b,
            None => true,
        };
        self.departments[di].name = name;
        self.departments[di].code = clone_opt(&payload.code);
        self.departments[di].description = clone_opt(&payload.description);
        self.departments[di].is_active = is_active;
        self.departments[di].updated_at = now;
        Ok(self.departments[di].duplicate())
    }

    /// Some employee other than row `skip` is registered as `reg`.
    pub open spec fn registration_taken_by_other(&self, reg: Seq<char>, skip: int) -> bool {
        exists|i: int|
            0 <= i < self.employees@.len() && i != skip && #[trigger] self.employees@[i].registration@ == reg
    }

    /// Rewrites employee `id` from the payload. The name and registration
    /// are trimmed, the registration must stay unique, and the department,
    /// if given, must exist. The position is not taken from the payload: it
    /// changes by assignment or termination alone, so the two sides of the
    /// link stay consistent.
    #[verifier::spinoff_prover]
    pub fn update_employee(&mut self, id: i64, payload: &EmployeePayload) -> (r: Result<
        EmployeeRecord,
        ArchiveError,
    >)
        requires
            old(self).wf(),
        ensures
            r matches Err(e) ==> (e == ArchiveError::NotFound || e == ArchiveError::ConstraintViolation),
            final(self).wf(),
            r is Err ==> *final(self) == *old(self),
            r == Err::<EmployeeRecord, ArchiveError>(ArchiveError::NotFound) <==> (!id_in(
                id,
                old(self).employees@.len() as int,
            ) || (payload.department_id matches Some(d) && !id_in(
                d,
                old(self).departments@.len() as int,
            ))),
            r == Err::<EmployeeRecord, ArchiveError>(ArchiveError::ConstraintViolation) <==> (id_in(
                id,
                old(self).employees@.len() as int,
            ) && !(payload.department_id matches Some(d) && !id_in(
                d,
                old(self).departments@.len() as int,
            )) && old(self).registration_taken_by_other(trim_of(payload.registration@), id - 1)),
            r matches Ok(e) ==> {
                let o = old(self).employees@[id - 1];
                &&& final(self).employee_read(e, id - 1)
                &&& e.id == id
                &&& e.full_name@ == trim_of(payload.full_name@)
                &&& e.registration@ == trim_of(payload.registration@)
                &&& opt_view(e.cpf) == opt_view(payload.cpf)
                &&& e.department_id == payload.department_id
                &&& e.admission_date@ == payload.admission_date@
                &&& opt_view(e.termination_date) == opt_view(payload.termination_date)
                &&& e.status@ == initial_status(*payload)
                &&& e.drawer_position_id == if e.status@ == terminated_status() {
                    None
                } else {
                    o.drawer_position_id
                }
                &&& opt_view(e.notes) == opt_view(payload.notes)
                &&& e.created_at@ == o.created_at@
                &&& final(self).employees@.len() == old(self).employees@.len()
                &&& forall|k: int|
                    0 <= k < old(self).employees@.len() && k != id - 1
                        ==> #[trigger] final(self).employees@[k] == old(self).employees@[k]
                &&& final(self).positions@.len() == old(self).positions@.len()
                &&& forall|k: int|
                    0 <= k < old(self).positions@.len() ==> {
                        let op = #[trigger] old(self).positions@[k];
                        let np = final(self).positions@[k];
                        if op.employee_id == Some(id) && e.status@ == terminated_status() {
                            np == (DrawerPositionRecord {
                                employee_id: None,
                                is_occupied: false,
                                ..op
                            })
                        } else {
                            np == op
                        }
                    }
                &&& *final(self) == (ArchiveDatabase {
                    employees: final(self).employees,
                    positions: final(self).positions,
                    ..*old(self)
                })
            },
    {
        if id < 1 || id > self.employees.len() as i64 {
            return Err(ArchiveError::NotFound);
        }
        if let Some(d) = payload.department_id {
            if d < 1 || d > self.departments.len() as i64 {
                return Err(ArchiveError::NotFound);
            }
        }
        let ei = (id - 1) as usize;
        let registration = trimmed(payload.registration.as_str());
        let mut k: usize = 0;
        while k < self.employees.len()
            invariant
                *self == *old(self),
                self.wf(),
                id_in(id, self.employees@.len() as int),
                !(payload.department_id matches Some(d) && !id_in(d, self.departments@.len() as int)),
                ei == id - 1,
                registration@ == trim_of(payload.registration@),
                0 <= k <= self.employees@.len(),
                ei < self.employees@.len(),
                forall|j: int| 0 <= j < k && j != ei ==> #[trigger] self.employees@[j].registration@ != registration@,
            decreases self.employees@.len() - k,
        {
            if k != ei && str_eq(self.employees[k].registration.as_str(), registration.as_str()) {
                return Err(ArchiveError::ConstraintViolation);
            }
            k = k + 1;
        }
        let now = utc_now_rfc3339();
        let status = match &payload.status {
            Some(s) => s.clone(),
            None => String::from_str("ACTIVE"),
        };
        let terminating = str_eq(status.as_str(), "TERMINATED");
        let ghost old_db = *self;
        proof {
            assert forall|k: int| 0 <= k < old_db.positions@.len() && old_db.positions@[k].employee_id == Some(id)
                implies old_db.employees@[id - 1].drawer_position_id == Some((k + 1) as i64) by {
                assert(old_db.positions@[k].id == k + 1);
            }
        }
        if terminating {
            if let Some(p) = self.employees[ei].drawer_position_id {
                let pi = (p - 1) as usize;
                self.positions[pi].employee_id = None;
                self.positions[pi].is_occupied = false;
            }
            self.employees[ei].drawer_position_id = None;
        }
        self.employees[ei].full_name = trimmed(payload.full_name.as_str());
        self.employees[ei].registration = registration;
        self.employees[ei].cpf = clone_opt(&payload.cpf);
        self.employees[ei].department_id = payload.department_id;
        self.employees[ei].admission_date = payload.admission_date.clone();
        self.employees[ei].termination_date = clone_opt(&payload.termination_date);
        self.employees[ei].status = status;
        self.employees[ei].notes = clone_opt(&payload.notes);
        self.employees[ei].updated_at = now;
        proof {
            let db = *self;
            assert forall|a: int, b: int| 0 <= a < b < db.employees@.len() implies
                (#[trigger] db.employees@[a]).registration@ != (#[trigger] db.employees@[b]).registration@ by {
                if a != ei && b != ei {
                    assert(db.employees@[a] == old_db.employees@[a]);
                    assert(db.employees@[b] == old_db.employees@[b]);
                }
            }
            assert forall|i: int| 0 <= i < db.employees@.len() implies #[trigger] db.employees@[i].id == i + 1 by {
                if i != ei {
                    assert(db.employees@[i] == old_db.employees@[i]);
                }
            }
            assert forall|i: int| 0 <= i < db.positions@.len() implies {
                let p = #[trigger] db.positions@[i];
                &&& id_in(p.drawer_id, db.drawers@.len() as int)
                &&& p.is_occupied == p.employee_id.is_some()
                &&& p.employee_id matches Some(e) ==> {
                    &&& id_in(e, db.employees@.len() as int)
                    &&& db.employees@[e - 1].drawer_position_id == Some(p.id)
                }
            } by {
                assert(db.positions@[i].drawer_id == old_db.positions@[i].drawer_id);
                assert(db.positions@[i].id == old_db.positions@[i].id);
                if let Some(e) = db.positions@[i].employee_id {
                    assert(old_db.positions@[i].employee_id == Some(e));
                    if e != id {
                        assert(db.employees@[e - 1] == old_db.employees@[e - 1]);
                    }
                }
            }
            assert forall|i: int, j: int|
                0 <= i < j < db.positions@.len() implies !((#[trigger] db.positions@[i]).drawer_id
                == (#[trigger] db.positions@[j]).drawer_id && db.positions@[i].position
                == db.positions@[j].position) by {
                assert(db.positions@[i].drawer_id == old_db.positions@[i].drawer_id);
                assert(db.positions@[j].drawer_id == old_db.positions@[j].drawer_id);
                assert(db.positions@[i].position == old_db.positions@[i].position);
                assert(db.positions@[j].position == old_db.positions@[j].position);
            }
            assert forall|i: int| 0 <= i < db.employees@.len() implies {
                let e = #[trigger] db.employees@[i];
                &&& e.drawer_position_id matches Some(p) ==> {
                    &&& id_in(p, db.positions@.len() as int)
                    &&& db.positions@[p - 1].employee_id == Some(e.id)
                }
                &&& e.status@ == terminated_status() ==> e.drawer_position_id is None
            } by {
                if i != ei {
                    assert(db.employees@[i] == old_db.employees@[i]);
                    if let Some(p) = db.employees@[i].drawer_position_id {
                        assert(old_db.positions@[p - 1].employee_id == Some((i + 1) as i64));
                        assert(db.positions@[p - 1] == old_db.positions@[p - 1]);
                    }
                } else if let Some(p) = db.employees@[i].drawer_position_id {
                    assert(!terminating);
                    assert(db.positions@[p - 1] == old_db.positions@[p - 1]);
                }
            }
        }
        self.get_employee_by_id(id)
    }

    /// All departments, by name and then by id.
    pub fn list_departments(&self) -> (r: Vec<DepartmentRecord>)
        requires
            self.wf(),
        ensures
            r@.len() == self.departments@.len(),
            forall|k: int|
                0 <= k < r@.len() ==> id_in((#[trigger] r@[k]).id, self.departments@.len() as int)
                    && r@[k].eqv(&self.departments@[r@[k].id - 1]),
            forall|a: int, b: int|
                0 <= a < b < r@.len() ==> keyed_before(
                    (#[trigger] r@[a]).name@,
                    r@[a].id as int,
                    (#[trigger] r@[b]).name@,
                    r@[b].id as int,
                ),
            forall|i: int| 0 <= i < self.departments@.len() ==> #[trigger] lists_row(r@, i),
    {
        let mut keys: Vec<String> = Vec::new();
        let mut i: usize = 0;
        while i < self.departments.len()
            invariant
                0 <= i <= self.departments@.len(),
                keys@.len() == i,
                forall|k: int| 0 <= k < i ==> (#[trigger] keys@[k])@ == self.departments@[k].name@,
            decreases self.departments@.len() - i,
        {
            keys.push(self.departments[i].name.clone());
            i = i + 1;
        }
        let order = order_by_text(&keys);
        let mut out: Vec<DepartmentRecord> = Vec::new();
        let mut k: usize = 0;
        while k < order.len()
            invariant
                self.wf(),
                0 <= k <= order@.len(),
                order@.len() == keys@.len(),
                keys@.len() == self.departments@.len(),
                forall|a: int| 0 <= a < order@.len() ==> (#[trigger] order@[a]) < keys@.len(),
                forall|a: int| 0 <= a < keys@.len() ==> (#[trigger] keys@[a])@ == self.departments@[a].name@,
                out@.len() == k,
                forall|a: int| 0 <= a < k ==> (#[trigger] out@[a]).eqv(&self.departments@[order@[a] as int]),
            decreases order@.len() - k,
        {
            out.push(self.departments[order[k]].duplicate());
            k = k + 1;
        }
        proof {
            assert forall|a: int, b: int| 0 <= a < b < out@.len() implies keyed_before(
                (#[trigger] out@[a]).name@,
                out@[a].id as int,
                (#[trigger] out@[b]).name@,
                out@[b].id as int,
            ) by {
                let pa = order@[a] as int;
                let pb = order@[b] as int;
                assert(keyed_before(keys@[pa]@, pa, keys@[pb]@, pb));
                assert(self.departments@[pa].id == pa + 1);
                assert(self.departments@[pb].id == pb + 1);
            }
            assert forall|m: int| 0 <= m < self.departments@.len() implies #[trigger] lists_row(out@, m) by {
                assert(holds_index(order@, m));
                let a = choose|a: int| 0 <= a < order@.len() && order@[a] == m;
                assert(out@[a].id == m + 1);
            }
            assert forall|a: int| 0 <= a < out@.len() implies id_in((#[trigger] out@[a]).id, self.departments@.len() as int)
                && out@[a].eqv(&self.departments@[out@[a].id - 1]) by {
                assert(self.departments@[order@[a] as int].id == order@[a] + 1);
            }
        }
        out
    }
}

} // verus!
