//! Checking a store assembled from rows read elsewhere: it may be used only
//! when the check passes, since every operation relies on the invariant.
use vstd::prelude::*;

use crate::occupancy::{MAX_DRAWER_CAPACITY, MAX_ROWS};
use crate::store::{id_in, terminated_status, ArchiveDatabase};
use crate::text::str_eq;

verus! {

impl ArchiveDatabase {
    fn ids_ok(&self) -> (r: bool)
        ensures
            r ==> self.ids_wf(),
    {
        let max = MAX_ROWS as usize;
        if self.departments.len() > max || self.employees.len() > max || self.cabinets.len() > max
            || self.drawers.len() > max || self.positions.len() > max || self.loans.len() > max
            || self.boxes.len() > max || self.items.len() > max || self.documents.len() > max
            || self.units.len() > max || self.movements.len() > max || self.users.len() > max
            || self.next_user_id < 1 {
            return false;
        }
        let mut i: usize = 0;
        while i < self.departments.len()
            invariant
                self.departments@.len() <= MAX_ROWS,
                i <= self.departments@.len(),
                forall|k: int| 0 <= k < i ==> #[trigger] self.departments@[k].id == k + 1,
            decreases self.departments@.len() - i,
        {
            if self.departments[i].id != i as i64 + 1 {
                return false;
            }
            i = i + 1;
        }
        let mut i: usize = 0;
        while i < self.employees.len()
            invariant
                self.employees@.len() <= MAX_ROWS,
                i <= self.employees@.len(),
                forall|k: int| 0 <= k < i ==> #[trigger] self.employees@[k].id == k + 1,
            decreases self.employees@.len() - i,
        {
            if self.employees[i].id != i as i64 + 1 {
                return false;
            }
            i = i + 1;
        }
        let mut i: usize = 0;
        while i < self.cabinets.len()
            invariant
                self.cabinets@.len() <= MAX_ROWS,
                i <= self.cabinets@.len(),
                forall|k: int| 0 <= k < i ==> #[trigger] self.cabinets@[k].id == k + 1,
            decreases self.cabinets@.len() - i,
        {
            if self.cabinets[i].id != i as i64 + 1 {
                return false;
            }
            i = i + 1;
        }
        let mut i: usize = 0;
        while i < self.drawers.len()
            invariant
                self.drawers@.len() <= MAX_ROWS,
                i <= self.drawers@.len(),
                forall|k: int| 0 <= k < i ==> #[trigger] self.drawers@[k].id == k + 1,
            decreases self.drawers@.len() - i,
        {
            if self.drawers[i].id != i as i64 + 1 {
                return false;
            }
            i = i + 1;
        }
        let mut i: usize = 0;
        while i < self.positions.len()
            invariant
                self.positions@.len() <= MAX_ROWS,
                i <= self.positions@.len(),
                forall|k: int| 0 <= k < i ==> #[trigger] self.positions@[k].id == k + 1,
            decreases self.positions@.len() - i,
        {
            if self.positions[i].id != i as i64 + 1 {
                return false;
            }
            i = i + 1;
        }
        let mut i: usize = 0;
        while i < self.loans.len()
            invariant
                self.loans@.len() <= MAX_ROWS,
                i <= self.loans@.len(),
                forall|k: int| 0 <= k < i ==> #[trigger] self.loans@[k].id == k + 1,
            decreases self.loans@.len() - i,
        {
            if self.loans[i].id != i as i64 + 1 {
                return false;
            }
            i = i + 1;
        }
        let mut i: usize = 0;
        while i < self.boxes.len()
            invariant
                self.boxes@.len() <= MAX_ROWS,
                i <= self.boxes@.len(),
                forall|k: int| 0 <= k < i ==> #[trigger] self.boxes@[k].id == k + 1,
            decreases self.boxes@.len() - i,
        {
            if self.boxes[i].id != i as i64 + 1 {
                return false;
            }
            i = i + 1;
        }
        let mut i: usize = 0;
        while i < self.items.len()
            invariant
                self.items@.len() <= MAX_ROWS,
                i <= self.items@.len(),
                forall|k: int| 0 <= k < i ==> #[trigger] self.items@[k].id == k + 1,
            decreases self.items@.len() - i,
        {
            if self.items[i].id != i as i64 + 1 {
                return false;
            }
            i = i + 1;
        }
        let mut i: usize = 0;
        while i < self.documents.len()
            invariant
                self.documents@.len() <= MAX_ROWS,
                i <= self.documents@.len(),
                forall|k: int| 0 <= k < i ==> #[trigger] self.documents@[k].id == k + 1,
            decreases self.documents@.len() - i,
        {
            if self.documents[i].id != i as i64 + 1 {
                return false;
            }
            i = i + 1;
        }
        let mut i: usize = 0;
        while i < self.units.len()
            invariant
                self.units@.len() <= MAX_ROWS,
                i <= self.units@.len(),
                forall|k: int| 0 <= k < i ==> #[trigger] self.units@[k].id == k + 1,
            decreases self.units@.len() - i,
        {
            if self.units[i].id != i as i64 + 1 {
                return false;
            }
            i = i + 1;
        }
        let mut i: usize = 0;
        while i < self.movements.len()
            invariant
                self.movements@.len() <= MAX_ROWS,
                i <= self.movements@.len(),
                forall|k: int| 0 <= k < i ==> #[trigger] self.movements@[k].id == k + 1,
            decreases self.movements@.len() - i,
        {
            if self.movements[i].id != i as i64 + 1 {
                return false;
            }
            i = i + 1;
        }
        let mut i: usize = 0;
        while i < self.users.len()
            invariant
                i <= self.users@.len(),
                forall|k: int| 0 <= k < i ==> #[trigger] self.users@[k].id < self.next_user_id,
            decreases self.users@.len() - i,
        {
            if self.users[i].id >= self.next_user_id {
                return false;
            }
            i = i + 1;
        }
        true
    }

    fn cabinets_ok(&self) -> (r: bool)
        requires
            self.ids_wf(),
        ensures
            r ==> self.cabinets_wf(),
    {
        let nc = self.cabinets.len() as i64;
        let mut i: usize = 0;
        while i < self.drawers.len()
            invariant
                self.ids_wf(),
                nc == self.cabinets@.len(),
                i <= self.drawers@.len(),
                forall|k: int|
                    0 <= k < i ==> {
                        &&& id_in(#[trigger] self.drawers@[k].file_cabinet_id, self.cabinets@.len() as int)
                        &&& 0 < self.drawers@[k].capacity <= MAX_DRAWER_CAPACITY
                    },
                forall|a: int, b: int|
                    0 <= a < b < i && (#[trigger] self.drawers@[a]).file_cabinet_id
                        == (#[trigger] self.drawers@[b]).file_cabinet_id ==> self.drawers@[a].number
                        != self.drawers@[b].number,
            decreases self.drawers@.len() - i,
        {
            let d = &self.drawers[i];
            if d.file_cabinet_id < 1 || d.file_cabinet_id > nc || d.capacity < 1 || d.capacity
                > MAX_DRAWER_CAPACITY {
                return false;
            }
            let mut j: usize = 0;
            while j < i
                invariant
                    i < self.drawers@.len(),
                    j <= i,
                    forall|a: int|
                        0 <= a < j && (#[trigger] self.drawers@[a]).file_cabinet_id
                            == self.drawers@[i as int].file_cabinet_id ==> self.drawers@[a].number
                            != self.drawers@[i as int].number,
                decreases i - j,
            {
                if self.drawers[j].file_cabinet_id == self.drawers[i].file_cabinet_id
                    && self.drawers[j].number == self.drawers[i].number {
                    return false;
                }
                j = j + 1;
            }
            i = i + 1;
        }
        let mut i: usize = 0;
        while i < self.cabinets.len()
            invariant
                i <= self.cabinets@.len(),
                forall|a: int, b: int|
                    0 <= a < b < i ==> (#[trigger] self.cabinets@[a]).number@
                        != (#[trigger] self.cabinets@[b]).number@,
            decreases self.cabinets@.len() - i,
        {
            let mut j: usize = 0;
            while j < i
                invariant
                    i < self.cabinets@.len(),
                    j <= i,
                    forall|a: int| 0 <= a < j ==> (#[trigger] self.cabinets@[a]).number@ != self.cabinets@[i as int].number@,
                decreases i - j,
            {
                if str_eq(self.cabinets[j].number.as_str(), self.cabinets[i].number.as_str()) {
                    return false;
                }
                j = j + 1;
            }
            i = i + 1;
        }
        true
    }

    fn positions_ok(&self) -> (r: bool)
        requires
            self.ids_wf(),
        ensures
            r ==> self.positions_wf(),
    {
        let nd = self.drawers.len() as i64;
        let ne = self.employees.len() as i64;
        let np = self.positions.len() as i64;
        let mut i: usize = 0;
        while i < self.positions.len()
            invariant
                self.ids_wf(),
                nd == self.drawers@.len(),
                ne == self.employees@.len(),
                np == self.positions@.len(),
                i <= self.positions@.len(),
                forall|k: int|
                    0 <= k < i ==> {
                        let p = #[trigger] self.positions@[k];
                        &&& id_in(p.drawer_id, self.drawers@.len() as int)
                        &&& p.is_occupied == p.employee_id.is_some()
                        &&& p.employee_id matches Some(e) ==> {
                            &&& id_in(e, self.employees@.len() as int)
                            &&& self.employees@[e - 1].drawer_position_id == Some(p.id)
                        }
                    },
                forall|a: int, b: int|
                    0 <= a < b < i ==> !((#[trigger] self.positions@[a]).drawer_id
                        == (#[trigger] self.positions@[b]).drawer_id && self.positions@[a].position
                        == self.positions@[b].position),
            decreases self.positions@.len() - i,
        {
            let p = &self.positions[i];
            if p.drawer_id < 1 || p.drawer_id > nd || p.is_occupied != p.employee_id.is_some() {
                return false;
            }
            if let Some(e) = p.employee_id {
                if e < 1 || e > ne || self.employees[(e - 1) as usize].drawer_position_id != Some(p.id) {
                    return false;
                }
            }
            let mut j: usize = 0;
            while j < i
                invariant
                    i < self.positions@.len(),
                    j <= i,
                    forall|a: int|
                        0 <= a < j ==> !((#[trigger] self.positions@[a]).drawer_id
                            == self.positions@[i as int].drawer_id && self.positions@[a].position
                            == self.positions@[i as int].position),
                decreases i - j,
            {
                if self.positions[j].drawer_id == self.positions[i].drawer_id
                    && self.positions[j].position == self.positions[i].position {
                    return false;
                }
                j = j + 1;
            }
            i = i + 1;
        }
        let mut i: usize = 0;
        while i < self.employees.len()
            invariant
                self.ids_wf(),
                np == self.positions@.len(),
                i <= self.employees@.len(),
                forall|k: int|
                    0 <= k < i ==> {
                        let e = #[trigger] self.employees@[k];
                        &&& e.drawer_position_id matches Some(p) ==> {
                            &&& id_in(p, self.positions@.len() as int)
                            &&& self.positions@[p - 1].employee_id == Some(e.id)
                        }
                        &&& e.status@ == terminated_status() ==> e.drawer_position_id is None
                    },
            decreases self.employees@.len() - i,
        {
            let e = &self.employees[i];
            if let Some(p) = e.drawer_position_id {
                if p < 1 || p > np || self.positions[(p - 1) as usize].employee_id != Some(e.id) {
                    return false;
                }
                if str_eq(e.status.as_str(), "TERMINATED") {
                    return false;
                }
            }
            i = i + 1;
        }
        true
    }

    fn refs_ok(&self) -> (r: bool)
        requires
            self.ids_wf(),
        ensures
            r ==> self.refs_wf(),
    {
        let ndep = self.departments.len() as i64;
        let ne = self.employees.len() as i64;
        let nb = self.boxes.len() as i64;
        let mut i: usize = 0;
        while i < self.employees.len()
            invariant
                self.ids_wf(),
                ndep == self.departments@.len(),
                i <= self.employees@.len(),
                forall|k: int|
                    0 <= k < i ==> ((#[trigger] self.employees@[k]).department_id matches Some(d) ==> id_in(
                        d,
                        self.departments@.len() as int,
                    )),
                forall|a: int, b: int|
                    0 <= a < b < i ==> (#[trigger] self.employees@[a]).registration@
                        != (#[trigger] self.employees@[b]).registration@,
            decreases self.employees@.len() - i,
        {
            if let Some(d) = self.employees[i].department_id {
                if d < 1 || d > ndep {
                    return false;
                }
            }
            let mut j: usize = 0;
            while j < i
                invariant
                    i < self.employees@.len(),
                    j <= i,
                    forall|a: int| 0 <= a < j ==> (#[trigger] self.employees@[a]).registration@ != self.employees@[i as int].registration@,
                decreases i - j,
            {
                if str_eq(self.employees[j].registration.as_str(), self.employees[i].registration.as_str()) {
                    return false;
                }
                j = j + 1;
            }
            i = i + 1;
        }
        let mut i: usize = 0;
        while i < self.loans.len()
            invariant
                ne == self.employees@.len(),
                i <= self.loans@.len(),
                forall|k: int| 0 <= k < i ==> id_in((#[trigger] self.loans@[k]).employee_id, self.employees@.len() as int),
            decreases self.loans@.len() - i,
        {
            if self.loans[i].employee_id < 1 || self.loans[i].employee_id > ne {
                return false;
            }
            i = i + 1;
        }
        let mut i: usize = 0;
        while i < self.items.len()
            invariant
                ne == self.employees@.len(),
                nb == self.boxes@.len(),
                i <= self.items@.len(),
                forall|k: int|
                    0 <= k < i ==> {
                        &&& id_in((#[trigger] self.items@[k]).employee_id, self.employees@.len() as int)
                        &&& id_in(self.items@[k].box_id, self.boxes@.len() as int)
                    },
            decreases self.items@.len() - i,
        {
            let it = &self.items[i];
            if it.employee_id < 1 || it.employee_id > ne || it.box_id < 1 || it.box_id > nb {
                return false;
            }
            i = i + 1;
        }
        let ni = self.items.len() as i64;
        let mut i: usize = 0;
        while i < self.boxes.len()
            invariant
                self.ids_wf(),
                ni == self.items@.len(),
                i <= self.boxes@.len(),
                forall|a: int, b: int|
                    0 <= a < b < i ==> (#[trigger] self.boxes@[a]).box_number@
                        != (#[trigger] self.boxes@[b]).box_number@,
                forall|k: int| 0 <= k < i ==> 0 <= (#[trigger] self.boxes@[k]).current_count <= self.items@.len(),
            decreases self.boxes@.len() - i,
        {
            if self.boxes[i].current_count < 0 || self.boxes[i].current_count > ni {
                return false;
            }
            let mut j: usize = 0;
            while j < i
                invariant
                    i < self.boxes@.len(),
                    j <= i,
                    forall|a: int| 0 <= a < j ==> (#[trigger] self.boxes@[a]).box_number@ != self.boxes@[i as int].box_number@,
                decreases i - j,
            {
                if str_eq(self.boxes[j].box_number.as_str(), self.boxes[i].box_number.as_str()) {
                    return false;
                }
                j = j + 1;
            }
            i = i + 1;
        }
        true
    }

    /// Checks the store's invariant on a store assembled from stored rows.
    /// A store for which this holds may be handed to every operation.
    pub fn check_integrity(&self) -> (r: bool)
        ensures
            r ==> self.wf(),
    {
        self.ids_ok() && self.cabinets_ok() && self.positions_ok() && self.refs_ok()
    }
}

} // verus!
