//! Loans of employees' folders: lending, the one-way return, and the
//! overdue report.
use vstd::prelude::*;

use crate::clock::{utc_now_rfc3339, utc_today};
use crate::occupancy::MAX_ROWS;
use crate::payloads::LoanPayload;
use crate::records::{EmployeeRecord, LoanRecord};
use crate::store::{id_in, ArchiveDatabase, ArchiveError};
use crate::text::{
    clone_opt, holds_index, keyed_before, opt_view, order_by_text, str_eq, str_lt, text_lt,
};

verus! {

/// Status of a folder that is out.
pub open spec fn borrowed_status() -> Seq<char> {
    "BORROWED"@
}

/// Status of a folder that came back.
pub open spec fn returned_status() -> Seq<char> {
    "RETURNED"@
}

/// The text of an optional string slice.
pub open spec fn opt_str_view(o: Option<&str>) -> Option<Seq<char>> {
    match o {
        Some(s) => Some(s@),
        None => None,
    }
}

/// Loan `l` is still out and was due before `today`.
pub open spec fn is_overdue(l: LoanRecord, today: Seq<char>) -> bool {
    l.status@ == borrowed_status() && text_lt(l.expected_return_date@, today)
}

/// A loan with the employee whose folder it lends.
pub struct LoanWithEmployee {
    pub loan: LoanRecord,
    pub employee: EmployeeRecord,
}

impl ArchiveDatabase {
    /// Lends the folder of an existing employee, as `actor`. The loan starts
    /// BORROWED, dated now.
    pub fn create_loan(&mut self, payload: &LoanPayload, actor: &str) -> (r: Result<LoanRecord, ArchiveError>)
        requires
            old(self).wf(),
        ensures
            r matches Err(e) ==> (e == ArchiveError::NotFound || e == ArchiveError::StorageFailure),
            final(self).wf(),
            r is Err ==> *final(self) == *old(self),
            r == Err::<LoanRecord, ArchiveError>(ArchiveError::NotFound) <==> (!id_in(
                payload.employee_id,
                old(self).employees@.len() as int,
            ) || (payload.requester_department_id matches Some(d) && !id_in(
                d,
                old(self).departments@.len() as int,
            ))),
            r == Err::<LoanRecord, ArchiveError>(ArchiveError::StorageFailure) <==> (id_in(
                payload.employee_id,
                old(self).employees@.len() as int,
            ) && !(payload.requester_department_id matches Some(d) && !id_in(
                d,
                old(self).departments@.len() as int,
            )) && old(self).loans@.len() >= MAX_ROWS),
            r matches Ok(l) ==> {
                &&& l.id == old(self).loans@.len() + 1
                &&& final(self).loans@.drop_last() == old(self).loans@
                &&& final(self).loans@.last().eqv(&l)
                &&& l.employee_id == payload.employee_id
                &&& l.requester_name@ == payload.requester_name@
                &&& l.requester_department_id == payload.requester_department_id
                &&& l.reason@ == payload.reason@
                &&& l.expected_return_date@ == payload.expected_return_date@
                &&& l.actual_return_date is None
                &&& l.status@ == borrowed_status()
                &&& opt_view(l.return_notes) == opt_view(payload.return_notes)
                &&& l.loaned_by@ == actor@
                &&& l.returned_by is None
                &&& l.loan_date@ == l.created_at@ && l.created_at@ == l.updated_at@
                &&& *final(self) == (ArchiveDatabase { loans: final(self).loans, ..*old(self) })
            },
    {
        if payload.employee_id < 1 || payload.employee_id > self.employees.len() as i64 {
            return Err(ArchiveError::NotFound);
        }
        if let Some(d) = payload.requester_department_id {
            if d < 1 || d > self.departments.len() as i64 {
                return Err(ArchiveError::NotFound);
            }
        }
        if self.loans.len() >= MAX_ROWS as usize {
            return Err(ArchiveError::StorageFailure);
        }
        let now = utc_now_rfc3339();
        let rec = LoanRecord {
            id: self.loans.len() as i64 + 1,
            employee_id: payload.employee_id,
            requester_name: payload.requester_name.clone(),
            requester_department_id: payload.requester_department_id,
            reason: payload.reason.clone(),
            loan_date: now.clone(),
            expected_return_date: payload.expected_return_date.clone(),
            actual_return_date: None,
            status: String::from_str("BORROWED"),
            return_notes: clone_opt(&payload.return_notes),
            loaned_by: actor.to_string(),
            returned_by: None,
            created_at: now.clone(),
            updated_at: now,
        };
        let out = rec.duplicate();
        let ghost old_db = *self;
        self.loans.push(rec);
        assert(self.loans@.drop_last() =~= old_db.loans@);
        Ok(out)
    }

    /// Reads loan `id`.
    pub fn get_loan(&self, id: i64) -> (r: Result<LoanRecord, ArchiveError>)
        requires
            self.wf(),
        ensures
            !id_in(id, self.loans@.len() as int) ==> r == Err::<LoanRecord, ArchiveError>(
                ArchiveError::NotFound,
            ),
            id_in(id, self.loans@.len() as int) ==> (r matches Ok(l) && l.eqv(&self.loans@[id - 1])),
    {
        if id < 1 || id > self.loans.len() as i64 {
            return Err(ArchiveError::NotFound);
        }
        Ok(self.loans[(id - 1) as usize].duplicate())
    }

    /// Returns loan `loan_id`, as `actor`: BORROWED becomes RETURNED, once.
    /// The return date is the one given, else now.
    pub fn return_loan(
        &mut self,
        loan_id: i64,
        return_date: Option<&str>,
        return_notes: Option<&str>,
        actor: &str,
    ) -> (r: Result<LoanRecord, ArchiveError>)
        requires
            old(self).wf(),
        ensures
            r matches Err(e) ==> (e == ArchiveError::NotFound || e == ArchiveError::ConstraintViolation),
            final(self).wf(),
            r is Err ==> *final(self) == *old(self),
            r == Err::<LoanRecord, ArchiveError>(ArchiveError::NotFound) <==> !id_in(
                loan_id,
                old(self).loans@.len() as int,
            ),
            r == Err::<LoanRecord, ArchiveError>(ArchiveError::ConstraintViolation) <==> (id_in(
                loan_id,
                old(self).loans@.len() as int,
            ) && old(self).loans@[loan_id - 1].status@ != borrowed_status()),
            r matches Ok(l) ==> {
                let o = old(self).loans@[loan_id - 1];
                let n = final(self).loans@[loan_id - 1];
                &&& o.status@ == borrowed_status()
                &&& n.eqv(&l)
                &&& n.status@ == returned_status()
                &&& n.actual_return_date matches Some(d) && (d@ == match return_date {
                    Some(g) => g@,
                    None => n.updated_at@,
                })
                &&& opt_view(n.return_notes) == opt_str_view(return_notes)
                &&& n.returned_by matches Some(b) && b@ == actor@
                &&& n.id == o.id && n.employee_id == o.employee_id
                &&& n.requester_name == o.requester_name
                &&& n.requester_department_id == o.requester_department_id
                &&& n.reason == o.reason && n.loan_date == o.loan_date
                &&& n.expected_return_date == o.expected_return_date
                &&& n.loaned_by == o.loaned_by && n.created_at == o.created_at
                &&& final(self).loans@.len() == old(self).loans@.len()
                &&& forall|k: int|
                    0 <= k < old(self).loans@.len() && k != loan_id - 1
                        ==> #[trigger] final(self).loans@[k] == old(self).loans@[k]
                &&& *final(self) == (ArchiveDatabase { loans: final(self).loans, ..*old(self) })
            },
    {
        if loan_id < 1 || loan_id > self.loans.len() as i64 {
            return Err(ArchiveError::NotFound);
        }
        let i = (loan_id - 1) as usize;
        if !str_eq(self.loans[i].status.as_str(), "BORROWED") {
            return Err(ArchiveError::ConstraintViolation);
        }
        let now = utc_now_rfc3339();
        let date = match return_date {
            Some(d) => d.to_string(),
            None => now.clone(),
        };
        let notes = match return_notes {
            Some(n) => Some(n.to_string()),
            None => None,
        };
        self.loans[i].status = String::from_str("RETURNED");
        self.loans[i].actual_return_date = Some(date);
        self.loans[i].return_notes = notes;
        self.loans[i].returned_by = Some(actor.to_string());
        self.loans[i].updated_at = now;
        Ok(self.loans[i].duplicate())
    }

    /// `r` lists the loans overdue on `today`, each once, by due date and
    /// then by id, each with its employee.
    pub open spec fn overdue_listed(&self, r: Seq<LoanWithEmployee>, today: Seq<char>) -> bool {
        &&& forall|k: int|
            0 <= k < r.len() ==> {
                let l = (#[trigger] r[k]).loan;
                &&& id_in(l.id, self.loans@.len() as int)
                &&& l.eqv(&self.loans@[l.id - 1])
                &&& is_overdue(l, today)
                &&& self.employee_read(r[k].employee, l.employee_id - 1)
            }
        &&& forall|a: int, b: int|
            0 <= a < b < r.len() ==> keyed_before(
                (#[trigger] r[a]).loan.expected_return_date@,
                r[a].loan.id as int,
                (#[trigger] r[b]).loan.expected_return_date@,
                r[b].loan.id as int,
            )
        &&& forall|i: int|
            0 <= i < self.loans@.len() && is_overdue(#[trigger] self.loans@[i], today) ==> exists|k: int|
                0 <= k < r.len() && r[k].loan.id == i + 1
    }

    /// The loans overdue on `today` (a `YYYY-MM-DD` date): still BORROWED
    /// and due strictly before it, earliest due first.
    pub fn get_overdue_loans_as_of(&self, today: &str) -> (r: Vec<LoanWithEmployee>)
        requires
            self.wf(),
        ensures
            self.overdue_listed(r@, today@),
    {
        let mut idx: Vec<usize> = Vec::new();
        let mut keys: Vec<String> = Vec::new();
        let mut i: usize = 0;
        while i < self.loans.len()
            invariant
                self.wf(),
                0 <= i <= self.loans@.len(),
                idx@.len() == keys@.len(),
                forall|k: int|
                    0 <= k < idx@.len() ==> {
                        &&& (#[trigger] idx@[k]) < i
                        &&& is_overdue(self.loans@[idx@[k] as int], today@)
                        &&& keys@[k]@ == self.loans@[idx@[k] as int].expected_return_date@
                    },
                forall|a: int, b: int| 0 <= a < b < idx@.len() ==> (#[trigger] idx@[a]) < (#[trigger] idx@[b]),
                forall|m: int|
                    0 <= m < i && is_overdue(#[trigger] self.loans@[m], today@) ==> exists|k: int|
                        0 <= k < idx@.len() && idx@[k] == m,
            decreases self.loans@.len() - i,
        {
            let l = &self.loans[i];
            let keep = str_eq(l.status.as_str(), "BORROWED") && str_lt(
                l.expected_return_date.as_str(),
                today,
            );
            assert(keep == is_overdue(self.loans@[i as int], today@));
            let ghost before = idx@;
            if keep {
                idx.push(i);
                keys.push(l.expected_return_date.clone());
            }
            proof {
                assert forall|m: int|
                    0 <= m < i + 1 && is_overdue(#[trigger] self.loans@[m], today@) implies exists|k: int|
                        0 <= k < idx@.len() && idx@[k] == m by {
                    if m == i {
                        assert(idx@ == before.push(i));
                        assert(idx@[idx@.len() - 1] == m);
                    } else {
                        let k = choose|k: int| 0 <= k < before.len() && before[k] == m;
                        assert(idx@[k] == m);
                    }
                }
            }
            i = i + 1;
        }
        let order = order_by_text(&keys);
        let mut out: Vec<LoanWithEmployee> = Vec::new();
        let mut k: usize = 0;
        while k < order.len()
            invariant
                self.wf(),
                0 <= k <= order@.len(),
                order@.len() == keys@.len(),
                idx@.len() == keys@.len(),
                forall|a: int| 0 <= a < order@.len() ==> (#[trigger] order@[a]) < keys@.len(),
                forall|a: int|
                    0 <= a < idx@.len() ==> {
                        &&& (#[trigger] idx@[a]) < self.loans@.len()
                        &&& is_overdue(self.loans@[idx@[a] as int], today@)
                        &&& keys@[a]@ == self.loans@[idx@[a] as int].expected_return_date@
                    },
                out@.len() == k,
                forall|a: int|
                    0 <= a < k ==> {
                        let l = (#[trigger] out@[a]).loan;
                        &&& l.eqv(&self.loans@[idx@[order@[a] as int] as int])
                        &&& self.employee_read(out@[a].employee, l.employee_id - 1)
                    },
            decreases order@.len() - k,
        {
            let li = idx[order[k]];
            let loan = self.loans[li].duplicate();
            assert(id_in(self.loans@[li as int].employee_id, self.employees@.len() as int));
            let employee = match self.get_employee_by_id(loan.employee_id) {
                Ok(e) => e,
                Err(_) => {
                    proof {
                        assert(false);
                    }
                    return out;
                },
            };
            out.push(LoanWithEmployee { loan, employee });
            k = k + 1;
        }
        proof {
            let r = out@;
            assert forall|a: int| 0 <= a < r.len() implies {
                let l = (#[trigger] r[a]).loan;
                &&& id_in(l.id, self.loans@.len() as int)
                &&& l.eqv(&self.loans@[l.id - 1])
                &&& is_overdue(l, today@)
                &&& self.employee_read(r[a].employee, l.employee_id - 1)
            } by {
                let li = idx@[order@[a] as int] as int;
                assert(self.loans@[li].id == li + 1);
            }
            assert forall|a: int, b: int| 0 <= a < b < r.len() implies keyed_before(
                (#[trigger] r[a]).loan.expected_return_date@,
                r[a].loan.id as int,
                (#[trigger] r[b]).loan.expected_return_date@,
                r[b].loan.id as int,
            ) by {
                let pa = order@[a] as int;
                let pb = order@[b] as int;
                assert(keyed_before(keys@[pa]@, pa, keys@[pb]@, pb));
                let la = idx@[pa] as int;
                let lb = idx@[pb] as int;
                assert(self.loans@[la].id == la + 1);
                assert(self.loans@[lb].id == lb + 1);
                if pa < pb {
                    assert(idx@[pa] < idx@[pb]);
                } else if pb < pa {
                    assert(idx@[pb] < idx@[pa]);
                }
            }
            assert forall|m: int|
                0 <= m < self.loans@.len() && is_overdue(#[trigger] self.loans@[m], today@) implies exists|a: int|
                    0 <= a < r.len() && r[a].loan.id == m + 1 by {
                let p = choose|p: int| 0 <= p < idx@.len() && idx@[p] == m;
                assert(holds_index(order@, p));
                let a = choose|a: int| 0 <= a < order@.len() && order@[a] == p;
                assert(self.loans@[m].id == m + 1);
                assert(r[a].loan.id == m + 1);
            }
        }
        out
    }

    /// The loans overdue today, by the UTC clock; see
    /// [`Self::get_overdue_loans_as_of`].
    pub fn get_overdue_loans(&self) -> (r: Vec<LoanWithEmployee>)
        requires
            self.wf(),
        ensures
            exists|today: Seq<char>| self.overdue_listed(r@, today),
    {
        let today = utc_today();
        self.get_overdue_loans_as_of(today.as_str())
    }
}

} // verus!
