//! File cabinets, their drawers, and the assignment of employees to
//! drawer positions.
use vstd::prelude::*;

use crate::clock::{trim_of, trimmed, utc_now_rfc3339};
use crate::occupancy::MAX_ROWS;
use crate::payloads::{DrawerPayload, FileCabinetPayload};
use crate::records::{DrawerPositionRecord, DrawerRecord, FileCabinetRecord};
use crate::store::{id_in, terminated_status, ArchiveDatabase, ArchiveError};
use crate::text::{clone_opt, opt_view, str_eq};

verus! {

/// Drawers a new cabinet gets when none are asked for.
pub const DEFAULT_DRAWERS: i64 = 4;

/// Most drawers a new cabinet may be given.
pub const MAX_CABINET_DRAWERS: i64 = 20;

/// Capacity of each drawer made with its cabinet.
pub const DEFAULT_DRAWER_CAPACITY: i64 = 30;

/// Highest number a drawer may carry.
pub const MAX_DRAWER_NUMBER: i64 = 50;

/// The number of drawers a cabinet payload asks for.
pub open spec fn requested_drawers(p: FileCabinetPayload) -> int {
    match p.num_drawers {
        Some(n) => n as int,
        None => DEFAULT_DRAWERS as int,
    }
}

/// A drawer payload's number and capacity are in range.
pub open spec fn drawer_payload_ok(p: DrawerPayload) -> bool {
    &&& 1 <= p.number
    &&& p.number <= MAX_DRAWER_NUMBER
    &&& 1 <= p.capacity
    &&& p.capacity <= crate::occupancy::MAX_DRAWER_CAPACITY
}

impl ArchiveDatabase {
    /// Some cabinet carries the number `number`.
    pub open spec fn cabinet_number_taken(&self, number: Seq<char>) -> bool {
        exists|i: int| 0 <= i < self.cabinets@.len() && #[trigger] self.cabinets@[i].number@ == number
    }

    fn find_cabinet_number(&self, number: &str) -> (r: bool)
        ensures
            r == self.cabinet_number_taken(number@),
    {
        let mut i: usize = 0;
        while i < self.cabinets.len()
            invariant
                0 <= i <= self.cabinets@.len(),
                forall|k: int| 0 <= k < i ==> #[trigger] self.cabinets@[k].number@ != number@,
            decreases self.cabinets@.len() - i,
        {
            if str_eq(self.cabinets[i].number.as_str(), number) {
                return true;
            }
            i = i + 1;
        }
        false
    }

    /// Creates a cabinet with its drawers, numbered from 1, each of capacity
    /// 30. The number, trimmed, must be new; between 1 and 20 drawers.
    #[verifier::spinoff_prover]
    pub fn create_file_cabinet(&mut self, payload: &FileCabinetPayload) -> (r: Result<
        FileCabinetRecord,
        ArchiveError,
    >)
        requires
            old(self).wf(),
        ensures
            r matches Err(e) ==> (e == ArchiveError::InvalidInput || e == ArchiveError::ConstraintViolation || e == ArchiveError::StorageFailure),
            final(self).wf(),
            r is Err ==> *final(self) == *old(self),
            r == Err::<FileCabinetRecord, ArchiveError>(ArchiveError::InvalidInput) <==> !(1
                <= requested_drawers(*payload) <= MAX_CABINET_DRAWERS),
            r == Err::<FileCabinetRecord, ArchiveError>(ArchiveError::ConstraintViolation) <==> (1
                <= requested_drawers(*payload) <= MAX_CABINET_DRAWERS
                && old(self).cabinet_number_taken(trim_of(payload.number@))),
            r == Err::<FileCabinetRecord, ArchiveError>(ArchiveError::StorageFailure) <==> (1
                <= requested_drawers(*payload) <= MAX_CABINET_DRAWERS
                && !old(self).cabinet_number_taken(trim_of(payload.number@)) && (
            old(self).cabinets@.len() >= MAX_ROWS || old(self).drawers@.len()
                + requested_drawers(*payload) > MAX_ROWS)),
            r matches Ok(c) ==> {
                let n = requested_drawers(*payload);
                let base = old(self).drawers@.len();
                &&& c.id == old(self).cabinets@.len() + 1
                &&& c.number@ == trim_of(payload.number@)
                &&& opt_view(c.location) == opt_view(payload.location)
                &&& c.num_drawers == n
                &&& opt_view(c.description) == opt_view(payload.description)
                &&& c.is_active == payload.is_active.unwrap_or(true)
                &&& final(self).cabinets@.drop_last() == old(self).cabinets@
                &&& final(self).cabinets@.last().eqv(&c)
                &&& final(self).drawers@.len() == base + n
                &&& final(self).drawers@.subrange(0, base as int) == old(self).drawers@
                &&& forall|k: int|
                    base <= k < base + n ==> {
                        let d = #[trigger] final(self).drawers@[k];
                        &&& d.file_cabinet_id == c.id
                        &&& d.number == k - base + 1
                        &&& d.capacity == DEFAULT_DRAWER_CAPACITY
                        &&& d.label is None
                    }
                &&& *final(self) == (ArchiveDatabase {
                    cabinets: final(self).cabinets,
                    drawers: final(self).drawers,
                    ..*old(self)
                })
            },
    {
        let n = match payload.num_drawers {
            Some(k) => k,
            None => DEFAULT_DRAWERS,
        };
        if n < 1 || n > MAX_CABINET_DRAWERS {
            return Err(ArchiveError::InvalidInput);
        }
        let number = trimmed(payload.number.as_str());
        if self.find_cabinet_number(number.as_str()) {
            return Err(ArchiveError::ConstraintViolation);
        }
        if self.cabinets.len() >= MAX_ROWS as usize || self.drawers.len() + n as usize
            > MAX_ROWS as usize {
            return Err(ArchiveError::StorageFailure);
        }
        let now = utc_now_rfc3339();
        let id = self.cabinets.len() as i64 + 1;
        let is_active = match payload.is_active {
            Some(b) => b,
            None => true,
        };
        let cab = FileCabinetRecord {
            id,
            number,
            location: clone_opt(&payload.location),
            num_drawers: n,
            description: clone_opt(&payload.description),
            is_active,
            created_at: now.clone(),
            updated_at: now.clone(),
        };
        let out = cab.duplicate();
        let ghost old_db = *self;
        let ghost number_view = out.number@;
        self.cabinets.push(cab);
        assert(self.cabinets@.drop_last() =~= old_db.cabinets@);
        let ghost mid = *self;
        let base = self.drawers.len();
        let mut k: i64 = 1;
        while k <= n
            invariant
                1 <= k <= n + 1,
                1 <= n <= MAX_CABINET_DRAWERS,
                base == old_db.drawers@.len(),
                base + n <= MAX_ROWS,
                id == self.cabinets@.len(),
                *self == (ArchiveDatabase { drawers: self.drawers, ..mid }),
                self.drawers@.len() == base + k - 1,
                self.drawers@.subrange(0, base as int) == old_db.drawers@,
                forall|j: int|
                    base <= j < self.drawers@.len() ==> {
                        let d = #[trigger] self.drawers@[j];
                        &&& d.id == j + 1
                        &&& d.file_cabinet_id == id
                        &&& d.number == j - base + 1
                        &&& d.capacity == DEFAULT_DRAWER_CAPACITY
                        &&& d.label is None
                    },
            decreases n + 1 - k,
        {
            let d = DrawerRecord {
                id: self.drawers.len() as i64 + 1,
                file_cabinet_id: id,
                number: k,
                capacity: DEFAULT_DRAWER_CAPACITY,
                label: None,
                created_at: now.clone(),
            };
            let ghost before = self.drawers@;
            self.drawers.push(d);
            assert(self.drawers@.subrange(0, base as int) =~= before.subrange(0, base as int));
            k = k + 1;
        }
        proof {
            let ds = self.drawers@;
            assert forall|i: int| 0 <= i < ds.len() implies #[trigger] ds[i].id == i + 1 by {
                if i < base {
                    assert(ds[i] == ds.subrange(0, base as int)[i]);
                }
            }
            assert forall|i: int| 0 <= i < ds.len() implies {
                &&& id_in(#[trigger] ds[i].file_cabinet_id, self.cabinets@.len() as int)
                &&& 0 < ds[i].capacity <= crate::occupancy::MAX_DRAWER_CAPACITY
            } by {
                if i < base {
                    assert(ds[i] == ds.subrange(0, base as int)[i]);
                }
            }
            assert forall|i: int, j: int|
                0 <= i < j < ds.len() && (#[trigger] ds[i]).file_cabinet_id
                    == (#[trigger] ds[j]).file_cabinet_id implies ds[i].number != ds[j].number by {
                if j < base {
                    assert(ds[i] == ds.subrange(0, base as int)[i]);
                    assert(ds[j] == ds.subrange(0, base as int)[j]);
                } else if i < base {
                    assert(ds[i] == ds.subrange(0, base as int)[i]);
                    assert(old_db.drawers@[i].file_cabinet_id <= old_db.cabinets@.len());
                }
            }
            assert forall|i: int, j: int| 0 <= i < j < self.cabinets@.len() implies
                (#[trigger] self.cabinets@[i]).number@ != (#[trigger] self.cabinets@[j]).number@ by {
                if j == self.cabinets@.len() - 1 {
                    assert(old_db.cabinets@[i] == self.cabinets@[i]);
                    assert(self.cabinets@[j].number@ == number_view);
                }
            }
            assert forall|i: int| 0 <= i < self.positions@.len() implies
                id_in(#[trigger] self.positions@[i].drawer_id, self.drawers@.len() as int) by {
                assert(old_db.positions@[i] == self.positions@[i]);
            }
        }
        Ok(out)
    }

    /// Reads cabinet `id`.
    pub fn get_file_cabinet(&self, id: i64) -> (r: Result<FileCabinetRecord, ArchiveError>)
        requires
            self.wf(),
        ensures
            !id_in(id, self.cabinets@.len() as int) ==> r == Err::<FileCabinetRecord, ArchiveError>(
                ArchiveError::NotFound,
            ),
            id_in(id, self.cabinets@.len() as int) ==> (r matches Ok(c) && c.eqv(
                &self.cabinets@[id - 1],
            )),
    {
        if id < 1 || id > self.cabinets.len() as i64 {
            return Err(ArchiveError::NotFound);
        }
        Ok(self.cabinets[(id - 1) as usize].duplicate())
    }

    /// Reads drawer `id`.
    pub fn get_drawer(&self, id: i64) -> (r: Result<DrawerRecord, ArchiveError>)
        requires
            self.wf(),
        ensures
            !id_in(id, self.drawers@.len() as int) ==> r == Err::<DrawerRecord, ArchiveError>(
                ArchiveError::NotFound,
            ),
            id_in(id, self.drawers@.len() as int) ==> (r matches Ok(d) && d.eqv(
                &self.drawers@[id - 1],
            )),
    {
        if id < 1 || id > self.drawers.len() as i64 {
            return Err(ArchiveError::NotFound);
        }
        Ok(self.drawers[(id - 1) as usize].duplicate())
    }

    /// Reads position `id`.
    pub fn get_drawer_position(&self, id: i64) -> (r: Result<DrawerPositionRecord, ArchiveError>)
        requires
            self.wf(),
        ensures
            !id_in(id, self.positions@.len() as int) ==> r == Err::<
                DrawerPositionRecord,
                ArchiveError,
            >(ArchiveError::NotFound),
            id_in(id, self.positions@.len() as int) ==> (r matches Ok(p) && p.eqv(
                &self.positions@[id - 1],
            )),
    {
        if id < 1 || id > self.positions.len() as i64 {
            return Err(ArchiveError::NotFound);
        }
        Ok(self.positions[(id - 1) as usize].duplicate())
    }

    /// Some drawer of cabinet `cabinet` carries the number `number`.
    pub open spec fn drawer_number_taken(&self, cabinet: i64, number: i64) -> bool {
        exists|i: int|
            0 <= i < self.drawers@.len() && (#[trigger] self.drawers@[i]).file_cabinet_id == cabinet
                && self.drawers@[i].number == number
    }

    /// Adds a drawer to a cabinet: numbers 1 to 50, unique in the cabinet;
    /// capacity 1 to 200.
    #[verifier::spinoff_prover]
    pub fn create_drawer(&mut self, payload: &DrawerPayload) -> (r: Result<DrawerRecord, ArchiveError>)
        requires
            old(self).wf(),
        ensures
            r matches Err(e) ==> (e == ArchiveError::InvalidInput || e == ArchiveError::NotFound || e == ArchiveError::ConstraintViolation || e == ArchiveError::StorageFailure),
            final(self).wf(),
            r is Err ==> *final(self) == *old(self),
            r == Err::<DrawerRecord, ArchiveError>(ArchiveError::InvalidInput) <==> !drawer_payload_ok(*payload),
            r == Err::<DrawerRecord, ArchiveError>(ArchiveError::NotFound) <==> (drawer_payload_ok(*payload) && !id_in(
                payload.file_cabinet_id,
                old(self).cabinets@.len() as int,
            )),
            r == Err::<DrawerRecord, ArchiveError>(ArchiveError::ConstraintViolation) <==> (drawer_payload_ok(*payload) && id_in(
                payload.file_cabinet_id,
                old(self).cabinets@.len() as int,
            ) && old(self).drawer_number_taken(payload.file_cabinet_id, payload.number)),
            r == Err::<DrawerRecord, ArchiveError>(ArchiveError::StorageFailure) <==> (drawer_payload_ok(*payload) && id_in(
                payload.file_cabinet_id,
                old(self).cabinets@.len() as int,
            ) && !old(self).drawer_number_taken(payload.file_cabinet_id, payload.number)
                && old(self).drawers@.len() >= MAX_ROWS),
            r matches Ok(d) ==> {
                &&& d.id == old(self).drawers@.len() + 1
                &&& d.file_cabinet_id == payload.file_cabinet_id
                &&& d.number == payload.number
                &&& d.capacity == payload.capacity
                &&& opt_view(d.label) == opt_view(payload.label)
                &&& final(self).drawers@.drop_last() == old(self).drawers@
                &&& final(self).drawers@.last().eqv(&d)
                &&& *final(self) == (ArchiveDatabase { drawers: final(self).drawers, ..*old(self) })
            },
    {
        if payload.number < 1 || payload.number > MAX_DRAWER_NUMBER || payload.capacity < 1
            || payload.capacity > crate::occupancy::MAX_DRAWER_CAPACITY {
            return Err(ArchiveError::InvalidInput);
        }
        if payload.file_cabinet_id < 1 || payload.file_cabinet_id > self.cabinets.len() as i64 {
            return Err(ArchiveError::NotFound);
        }
        let mut i: usize = 0;
        while i < self.drawers.len()
            invariant
                *self == *old(self),
                self.wf(),
                drawer_payload_ok(*payload),
                id_in(payload.file_cabinet_id, self.cabinets@.len() as int),
                0 <= i <= self.drawers@.len(),
                forall|k: int|
                    0 <= k < i ==> !((#[trigger] self.drawers@[k]).file_cabinet_id
                        == payload.file_cabinet_id && self.drawers@[k].number == payload.number),
            decreases self.drawers@.len() - i,
        {
            if self.drawers[i].file_cabinet_id == payload.file_cabinet_id && self.drawers[i].number
                == payload.number {
                return Err(ArchiveError::ConstraintViolation);
            }
            i = i + 1;
        }
        if self.drawers.len() >= MAX_ROWS as usize {
            return Err(ArchiveError::StorageFailure);
        }
        let now = utc_now_rfc3339();
        let d = DrawerRecord {
            id: self.drawers.len() as i64 + 1,
            file_cabinet_id: payload.file_cabinet_id,
            number: payload.number,
            capacity: payload.capacity,
            label: clone_opt(&payload.label),
            created_at: now,
        };
        let out = d.duplicate();
        let ghost old_db = *self;
        self.drawers.push(d);
        proof {
            assert(self.drawers@.drop_last() =~= old_db.drawers@);
            assert forall|a: int, b: int|
                0 <= a < b < self.drawers@.len() && (#[trigger] self.drawers@[a]).file_cabinet_id
                    == (#[trigger] self.drawers@[b]).file_cabinet_id implies self.drawers@[a].number
                    != self.drawers@[b].number by {
                assert(self.drawers@[a] == old_db.drawers@[a]);
                if b < old_db.drawers@.len() {
                    assert(self.drawers@[b] == old_db.drawers@[b]);
                }
            }
            assert forall|k: int| 0 <= k < self.positions@.len() implies
                id_in(#[trigger] self.positions@[k].drawer_id, self.drawers@.len() as int) by {
                assert(old_db.positions@[k] == self.positions@[k]);
            }
        }
        Ok(out)
    }

    /// Some position of drawer `drawer` carries the number `position`.
    pub open spec fn slot_exists(&self, drawer: i64, position: i64) -> bool {
        exists|j: int|
            0 <= j < self.positions@.len() && (#[trigger] self.positions@[j]).drawer_id == drawer
                && self.positions@[j].position == position
    }

    /// The index of the position of `drawer` numbered `position`, if any.
    fn find_slot(&self, drawer: i64, position: i64) -> (r: Option<usize>)
        ensures
            r matches Some(j) ==> j < self.positions@.len() && self.positions@[j as int].drawer_id
                == drawer && self.positions@[j as int].position == position,
            r is None ==> !self.slot_exists(drawer, position),
    {
        let mut j: usize = 0;
        while j < self.positions.len()
            invariant
                0 <= j <= self.positions@.len(),
                forall|k: int|
                    0 <= k < j ==> !((#[trigger] self.positions@[k]).drawer_id == drawer
                        && self.positions@[k].position == position),
            decreases self.positions@.len() - j,
        {
            if self.positions[j].drawer_id == drawer && self.positions[j].position == position {
                return Some(j);
            }
            j = j + 1;
        }
        None
    }

    /// Puts employee `employee_id` in position `position` of drawer
    /// `drawer_id`, making the position if it is new. Both sides stay
    /// consistent: the employee's former position is freed, and an employee
    /// who held the target position no longer points at it. A terminated
    /// employee cannot be placed.
    #[verifier::spinoff_prover]
    #[verifier::rlimit(80)]
    pub fn assign_employee_position(&mut self, employee_id: i64, drawer_id: i64, position: i64) -> (r:
        Result<DrawerPositionRecord, ArchiveError>)
        requires
            old(self).wf(),
        ensures
            r matches Err(e) ==> (e == ArchiveError::InvalidInput || e == ArchiveError::NotFound || e == ArchiveError::ConstraintViolation || e == ArchiveError::StorageFailure),
            final(self).wf(),
            r is Err ==> *final(self) == *old(self),
            r == Err::<DrawerPositionRecord, ArchiveError>(ArchiveError::InvalidInput) <==> position
                < 1,
            r == Err::<DrawerPositionRecord, ArchiveError>(ArchiveError::NotFound) <==> (position >= 1
                && !(id_in(employee_id, old(self).employees@.len() as int) && id_in(
                drawer_id,
                old(self).drawers@.len() as int,
            ))),
            r == Err::<DrawerPositionRecord, ArchiveError>(ArchiveError::ConstraintViolation) <==> (
            position >= 1 && id_in(employee_id, old(self).employees@.len() as int) && id_in(
                drawer_id,
                old(self).drawers@.len() as int,
            ) && old(self).employees@[employee_id - 1].status@ == terminated_status()),
            r == Err::<DrawerPositionRecord, ArchiveError>(ArchiveError::StorageFailure) <==> (
            position >= 1 && id_in(employee_id, old(self).employees@.len() as int) && id_in(
                drawer_id,
                old(self).drawers@.len() as int,
            ) && old(self).employees@[employee_id - 1].status@ != terminated_status()
                && !old(self).slot_exists(drawer_id, position) && old(self).positions@.len()
                >= MAX_ROWS),
            r matches Ok(p) ==> {
                &&& id_in(p.id, final(self).positions@.len() as int)
                &&& final(self).positions@[p.id - 1].eqv(&p)
                &&& p.drawer_id == drawer_id
                &&& p.position == position
                &&& p.employee_id == Some(employee_id)
                &&& p.is_occupied
                &&& final(self).employees@[employee_id - 1].drawer_position_id == Some(p.id)
                &&& forall|k: int|
                    0 <= k < final(self).positions@.len() ==> ((
                    #[trigger] final(self).positions@[k]).employee_id == Some(employee_id) <==> k
                        == p.id - 1)
                &&& old(self).slot_exists(drawer_id, position) ==> final(self).positions@.len()
                    == old(self).positions@.len()
                &&& !old(self).slot_exists(drawer_id, position) ==> final(self).positions@.len()
                    == old(self).positions@.len() + 1
                &&& forall|k: int|
                    0 <= k < old(self).positions@.len() && k != p.id - 1 ==> {
                        let op = #[trigger] old(self).positions@[k];
                        let np = final(self).positions@[k];
                        if op.employee_id == Some(employee_id) {
                            np == (DrawerPositionRecord {
                                employee_id: None,
                                is_occupied: false,
                                ..op
                            })
                        } else {
                            np == op
                        }
                    }
                &&& final(self).employees@.len() == old(self).employees@.len()
                &&& forall|k: int|
                    0 <= k < old(self).employees@.len() && k != employee_id - 1 ==> {
                        let oe = #[trigger] old(self).employees@[k];
                        let ne = final(self).employees@[k];
                        if oe.drawer_position_id == Some(p.id) {
                            ne == (crate::records::EmployeeRecord {
                                drawer_position_id: None,
                                ..oe
                            })
                        } else {
                            ne == oe
                        }
                    }
                &&& *final(self) == (ArchiveDatabase {
                    employees: final(self).employees,
                    positions: final(self).positions,
                    ..*old(self)
                })
            },
    {
        if position < 1 {
            return Err(ArchiveError::InvalidInput);
        }
        if employee_id < 1 || employee_id > self.employees.len() as i64 || drawer_id < 1
            || drawer_id > self.drawers.len() as i64 {
            return Err(ArchiveError::NotFound);
        }
        if str_eq(self.employees[(employee_id - 1) as usize].status.as_str(), "TERMINATED") {
            return Err(ArchiveError::ConstraintViolation);
        }
        let slot = self.find_slot(drawer_id, position);
        if slot.is_none() && self.positions.len() >= MAX_ROWS as usize {
            return Err(ArchiveError::StorageFailure);
        }
        let ei = (employee_id - 1) as usize;
        let ghost db0 = *self;
        // Free the employee's former position.
        if let Some(q) = self.employees[ei].drawer_position_id {
            let qi = (q - 1) as usize;
            self.positions[qi].employee_id = None;
            self.positions[qi].is_occupied = false;
        }
        let ghost db1 = *self;
        proof {
            assert forall|k: int| 0 <= k < db1.positions@.len() implies
                (#[trigger] db1.positions@[k]).employee_id != Some(employee_id) by {
                if db0.positions@[k].employee_id == Some(employee_id) {
                    assert(db0.employees@[ei as int].drawer_position_id == Some((k + 1) as i64));
                }
            }
        }
        let pid: i64;
        match slot {
            Some(j) => {
                if let Some(o) = self.positions[j].employee_id {
                    // o != employee_id: the former position was freed above.
                    let oi = (o - 1) as usize;
                    self.employees[oi].drawer_position_id = None;
                }
                self.positions[j].employee_id = Some(employee_id);
                self.positions[j].is_occupied = true;
                pid = j as i64 + 1;
            },
            None => {
                let now = utc_now_rfc3339();
                let rec = DrawerPositionRecord {
                    id: self.positions.len() as i64 + 1,
                    drawer_id,
                    position,
                    employee_id: Some(employee_id),
                    is_occupied: true,
                    created_at: now,
                };
                self.positions.push(rec);
                pid = self.positions.len() as i64;
            },
        }
        self.employees[ei].drawer_position_id = Some(pid);
        proof {
            let db = *self;
            assert forall|k: int| 0 <= k < db.positions@.len() implies
                (#[trigger] db.positions@[k]).employee_id == Some(employee_id) <==> k == pid - 1 by {
                if k < db1.positions@.len() && k != pid - 1 {
                    assert(db.positions@[k] == db1.positions@[k]);
                }
            }
            assert forall|i: int| 0 <= i < db.positions@.len() implies {
                let p = #[trigger] db.positions@[i];
                &&& id_in(p.drawer_id, db.drawers@.len() as int)
                &&& p.is_occupied == p.employee_id.is_some()
                &&& p.employee_id matches Some(e) ==> {
                    &&& id_in(e, db.employees@.len() as int)
                    &&& db.employees@[e - 1].drawer_position_id == Some(p.id)
                }
            } by {
                if i != pid - 1 {
                    assert(db.positions@[i] == db1.positions@[i]);
                    if let Some(e) = db.positions@[i].employee_id {
                        assert(e != employee_id);
                        assert(db0.positions@[i].employee_id == Some(e));
                        assert(db0.employees@[e - 1].drawer_position_id == Some((i + 1) as i64));
                    }
                }
            }
            assert forall|i: int| 0 <= i < db.employees@.len() implies {
                let e = #[trigger] db.employees@[i];
                e.drawer_position_id matches Some(p) ==> {
                    &&& id_in(p, db.positions@.len() as int)
                    &&& db.positions@[p - 1].employee_id == Some(e.id)
                }
            } by {
                if i != ei {
                    if let Some(p) = db.employees@[i].drawer_position_id {
                        assert(db0.employees@[i].drawer_position_id == Some(p));
                        assert(db0.positions@[p - 1].employee_id == Some((i + 1) as i64));
                        assert(p != pid);
                        assert(db.positions@[p - 1] == db0.positions@[p - 1]);
                    }
                }
            }
            assert forall|i: int, j: int|
                0 <= i < j < db.positions@.len() implies !((#[trigger] db.positions@[i]).drawer_id
                == (#[trigger] db.positions@[j]).drawer_id && db.positions@[i].position
                == db.positions@[j].position) by {
                if j == db0.positions@.len() {
                    assert(db0.positions@[i].drawer_id == db.positions@[i].drawer_id);
                    assert(db0.positions@[i].position == db.positions@[i].position);
                } else {
                    assert(db0.positions@[i].drawer_id == db.positions@[i].drawer_id);
                    assert(db0.positions@[j].drawer_id == db.positions@[j].drawer_id);
                    assert(db0.positions@[i].position == db.positions@[i].position);
                    assert(db0.positions@[j].position == db.positions@[j].position);
                }
            }
            assert forall|i: int| 0 <= i < db.employees@.len() implies (
                (#[trigger] db.employees@[i]).department_id matches Some(d) ==> id_in(
                    d,
                    db.departments@.len() as int,
                )) by {
                assert(db.employees@[i].department_id == db0.employees@[i].department_id);
            }
            assert forall|i: int, j: int| 0 <= i < j < db.employees@.len() implies
                (#[trigger] db.employees@[i]).registration@ != (#[trigger] db.employees@[j]).registration@ by {
                assert(db.employees@[i].registration == db0.employees@[i].registration);
                assert(db.employees@[j].registration == db0.employees@[j].registration);
            }
        }
        Ok(self.positions[(pid - 1) as usize].duplicate())
    }
}

} // verus!
