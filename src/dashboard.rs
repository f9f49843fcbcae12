//! The dashboard: counts of employees, loans and boxes, and the cabinets
//! at critical occupancy.
use vstd::prelude::*;

use crate::clock::{utc_now_rfc3339, utc_today};
use crate::loans::{borrowed_status, is_overdue, returned_status};
use crate::occupancy::{map_of, status_of, cabinet_rate, CabinetOccupationNode, CabinetStatus, FileCabinetWithOccupancy, OccupationMap, MAX_ROWS};
use crate::records::{EmployeeRecord, LoanRecord};
use crate::reports::{DashboardStats, LoansReport};
use crate::store::{active_status, terminated_status, ArchiveDatabase};
use crate::text::{str_eq, str_lt};

verus! {

/// Number of employees of `es` with status `s`.
pub open spec fn count_employees(es: Seq<EmployeeRecord>, s: Seq<char>) -> int
    decreases es.len(),
{
    if es.len() == 0 {
        0
    } else {
        count_employees(es.drop_last(), s) + if es.last().status@ == s {
            1int
        } else {
            0int
        }
    }
}

/// Number of loans of `ls` still out.
pub open spec fn count_open(ls: Seq<LoanRecord>) -> int
    decreases ls.len(),
{
    if ls.len() == 0 {
        0
    } else {
        count_open(ls.drop_last()) + if ls.last().status@ == borrowed_status() {
            1int
        } else {
            0int
        }
    }
}

/// Number of loans of `ls` overdue on `today`.
pub open spec fn count_overdue(ls: Seq<LoanRecord>, today: Seq<char>) -> int
    decreases ls.len(),
{
    if ls.len() == 0 {
        0
    } else {
        count_overdue(ls.drop_last(), today) + if is_overdue(ls.last(), today) {
            1int
        } else {
            0int
        }
    }
}

impl ArchiveDatabase {
    fn employees_with_status(&self, s: &str) -> (r: i64)
        requires
            self.wf(),
        ensures
            r == count_employees(self.employees@, s@),
    {
        let mut n: i64 = 0;
        let mut i: usize = 0;
        while i < self.employees.len()
            invariant
                self.wf(),
                0 <= i <= self.employees@.len(),
                n == count_employees(self.employees@.subrange(0, i as int), s@),
                0 <= n <= i,
            decreases self.employees@.len() - i,
        {
            assert(self.employees@.subrange(0, i + 1).drop_last() =~= self.employees@.subrange(0, i as int));
            if str_eq(self.employees[i].status.as_str(), s) {
                n = n + 1;
            }
            i = i + 1;
        }
        assert(self.employees@.subrange(0, i as int) =~= self.employees@);
        n
    }

    fn loans_counted(&self, today: &str) -> (r: (i64, i64))
        requires
            self.wf(),
        ensures
            r.0 == count_open(self.loans@),
            r.1 == count_overdue(self.loans@, today@),
    {
        let mut open: i64 = 0;
        let mut late: i64 = 0;
        let mut i: usize = 0;
        while i < self.loans.len()
            invariant
                self.wf(),
                0 <= i <= self.loans@.len(),
                open == count_open(self.loans@.subrange(0, i as int)),
                late == count_overdue(self.loans@.subrange(0, i as int), today@),
                0 <= open <= i,
                0 <= late <= i,
            decreases self.loans@.len() - i,
        {
            assert(self.loans@.subrange(0, i + 1).drop_last() =~= self.loans@.subrange(0, i as int));
            let l = &self.loans[i];
            if str_eq(l.status.as_str(), "BORROWED") {
                open = open + 1;
                if str_lt(l.expected_return_date.as_str(), today) {
                    late = late + 1;
                }
            }
            i = i + 1;
        }
        assert(self.loans@.subrange(0, i as int) =~= self.loans@);
        (open, late)
    }

    /// The dashboard's counters: active and terminated employees, open and
    /// overdue loans (by today's UTC date), boxes, and the critical
    /// cabinets of the occupation map, in its order.
    pub fn get_dashboard_stats(&self) -> (r: DashboardStats)
        requires
            self.wf(),
        ensures
            r.active_employees == count_employees(self.employees@, active_status()),
            r.terminated_employees == count_employees(self.employees@, terminated_status()),
            r.open_loans == count_open(self.loans@),
            exists|today: Seq<char>| r.overdue_loans == #[trigger] count_overdue(self.loans@, today),
            r.archive_boxes == self.boxes@.len(),
            exists|m: OccupationMap, cs: Seq<FileCabinetWithOccupancy>|
                self.cabinets_listed(cs) && #[trigger] map_of(m, cs) && r.critical_cabinets@
                    == m.cabinets@.filter(|n: CabinetOccupationNode| n.status == CabinetStatus::Critical),
    {
        let active = self.employees_with_status("ACTIVE");
        let terminated = self.employees_with_status("TERMINATED");
        let today = utc_today();
        let (open, late) = self.loans_counted(today.as_str());
        let map = self.get_occupation_map();
        let ghost m0 = map;
        let ghost all = map.cabinets@;
        let mut rest = map.cabinets;
        let mut critical: Vec<CabinetOccupationNode> = Vec::new();
        let n = rest.len();
        let mut i: usize = 0;
        assert(all.subrange(0, 0) =~= Seq::<CabinetOccupationNode>::empty());
        while i < n
            invariant
                n == all.len(),
                0 <= i <= n,
                rest@ == all.subrange(i as int, n as int),
                critical@ == all.subrange(0, i as int).filter(
                    |c: CabinetOccupationNode| c.status == CabinetStatus::Critical,
                ),
            decreases n - i,
        {
            let node = rest.remove(0);
            assert(node == all[i as int]);
            assert(rest@ =~= all.subrange(i as int + 1, n as int));
            let ghost pre = all.subrange(0, i as int + 1);
            assert(pre.drop_last() =~= all.subrange(0, i as int));
            assert(pre.last() == node);
            assert(pre =~= all.subrange(0, i as int).push(node));
            proof {
                all.subrange(0, i as int).lemma_filter_push(
                    node,
                    |c: CabinetOccupationNode| c.status == CabinetStatus::Critical,
                );
            }
            let is_critical = match node.status {
                CabinetStatus::Critical => true,
                _ => false,
            };
            if is_critical {
                critical.push(node);
            }
            i = i + 1;
        }
        assert(all.subrange(0, n as int) =~= all);
        proof {
            let cs = choose|cs: Seq<FileCabinetWithOccupancy>| self.cabinets_listed(cs) && map_of(m0, cs);
            assert(map_of(m0, cs));
        }
        DashboardStats {
            active_employees: active,
            terminated_employees: terminated,
            open_loans: open,
            overdue_loans: late,
            critical_cabinets: critical,
            archive_boxes: self.boxes.len() as i64,
            last_sync: utc_now_rfc3339(),
        }
    }
}

/// Loan `l` was returned on `today`: its return date starts with it.
pub open spec fn returned_on(l: LoanRecord, today: Seq<char>) -> bool {
    &&& l.status@ == returned_status()
    &&& l.actual_return_date matches Some(d) && today.len() <= d@.len() && d@.take(today.len() as int) == today
}

/// Number of loans of `ls` returned on `today`.
pub open spec fn count_returned_on(ls: Seq<LoanRecord>, today: Seq<char>) -> int
    decreases ls.len(),
{
    if ls.len() == 0 {
        0
    } else {
        count_returned_on(ls.drop_last(), today) + if returned_on(ls.last(), today) {
            1int
        } else {
            0int
        }
    }
}

impl ArchiveDatabase {
    /// The loans report on `today` (a `YYYY-MM-DD` date): all loans, those
    /// still out, those overdue, and those returned that day.
    pub fn get_loans_report_as_of(&self, today: &str) -> (r: LoansReport)
        requires
            self.wf(),
        ensures
            r.total_loans == self.loans@.len(),
            r.open_loans == count_open(self.loans@),
            r.returned_today == count_returned_on(self.loans@, today@),
            self.overdue_listed(r.overdue_loans@, today@),
    {
        let (open, _) = self.loans_counted(today);
        let mut returned: i64 = 0;
        let mut i: usize = 0;
        let n = today.unicode_len();
        while i < self.loans.len()
            invariant
                self.wf(),
                n == today@.len(),
                0 <= i <= self.loans@.len(),
                returned == count_returned_on(self.loans@.subrange(0, i as int), today@),
                0 <= returned <= i,
            decreases self.loans@.len() - i,
        {
            assert(self.loans@.subrange(0, i + 1).drop_last() =~= self.loans@.subrange(0, i as int));
            let l = &self.loans[i];
            let hit = str_eq(l.status.as_str(), "RETURNED") && match &l.actual_return_date {
                Some(d) => {
                    let ds = d.as_str();
                    if n <= ds.unicode_len() {
                        str_eq(ds.substring_char(0, n), today)
                    } else {
                        false
                    }
                },
                None => false,
            };
            proof {
                if let Some(d) = &l.actual_return_date {
                    if n <= d@.len() {
                        assert(d@.subrange(0, n as int) == d@.take(n as int));
                    }
                }
            }
            assert(hit == returned_on(self.loans@[i as int], today@));
            if hit {
                returned = returned + 1;
            }
            i = i + 1;
        }
        assert(self.loans@.subrange(0, i as int) =~= self.loans@);
        LoansReport {
            total_loans: self.loans.len() as i64,
            open_loans: open,
            overdue_loans: self.get_overdue_loans_as_of(today),
            returned_today: returned,
        }
    }

    /// The loans report on today's UTC date; see
    /// [`Self::get_loans_report_as_of`].
    pub fn get_loans_report(&self) -> (r: LoansReport)
        requires
            self.wf(),
        ensures
            r.total_loans == self.loans@.len(),
            r.open_loans == count_open(self.loans@),
            exists|today: Seq<char>| #[trigger] self.overdue_listed(r.overdue_loans@, today)
                && r.returned_today == count_returned_on(self.loans@, today),
    {
        let today = utc_today();
        self.get_loans_report_as_of(today.as_str())
    }
}

} // verus!
