//! Listing queries over the store: employees by filter and page, loans by
//! status, and what is filed for one employee.
use vstd::prelude::*;

use crate::clock::{trim_of, trimmed};
use crate::loans::{borrowed_status, opt_str_view};
use crate::records::{DrawerPositionRecord, EmployeeRecord, LoanRecord};
use crate::store::{id_in, ArchiveDatabase, ArchiveError};
use crate::text::{holds_index, keyed_before, order_by_text, str_eq};

verus! {

/// Largest page of employees a request may ask for.
pub const MAX_PAGE_SIZE: i64 = 500;

/// Most employees a search may return.
pub const MAX_SEARCH_LIMIT: i64 = 50;

/// Employee `e` passes the filter: the status and department, where given.
pub open spec fn employee_matches(e: EmployeeRecord, status: Option<Seq<char>>, department_id: Option<i64>) -> bool {
    &&& (status matches Some(s) ==> e.status@ == s)
    &&& (department_id matches Some(d) ==> e.department_id == Some(d))
}

/// Two characters match when equal or equal up to ASCII case.
pub open spec fn chars_match(a: char, b: char) -> bool {
    let x = a as u32;
    let y = b as u32;
    x == y || (65 <= x <= 90 && x + 32 == y) || (65 <= y <= 90 && y + 32 == x)
}

/// `q` occurs in `s` at place `i`, up to ASCII case.
pub open spec fn occurs_at(s: Seq<char>, q: Seq<char>, i: int) -> bool {
    0 <= i && i + q.len() <= s.len() && forall|j: int| 0 <= j < q.len() ==> chars_match(#[trigger] s[i + j], q[j])
}

/// `q` occurs somewhere in `s`, up to ASCII case: what SQL's
/// `LIKE '%q%'` finds when `q` holds no wildcard.
pub open spec fn contains_folded(s: Seq<char>, q: Seq<char>) -> bool {
    exists|i: int| #[trigger] occurs_at(s, q, i)
}

/// Employee `e` is found by the query `q`: in the name, the registration
/// or the CPF.
pub open spec fn employee_found(e: EmployeeRecord, q: Seq<char>) -> bool {
    ||| contains_folded(e.full_name@, q)
    ||| contains_folded(e.registration@, q)
    ||| (e.cpf matches Some(c) && contains_folded(c@, q))
}

fn char_matches(a: char, b: char) -> (r: bool)
    ensures
        r == chars_match(a, b),
{
    let x = a as u32;
    let y = b as u32;
    x == y || (65 <= x && x <= 90 && (x as u64) + 32 == y as u64) || (65 <= y && y <= 90 && (y as u64)
        + 32 == x as u64)
}

/// Decides [`contains_folded`].
pub fn contains_ignoring_ascii_case(s: &str, q: &str) -> (r: bool)
    ensures
        r == contains_folded(s@, q@),
{
    let n = s.unicode_len();
    let m = q.unicode_len();
    if m > n {
        assert forall|i: int| !occurs_at(s@, q@, i) by {}
        return false;
    }
    let mut i: usize = 0;
    while i <= n - m
        invariant
            n == s@.len(),
            m == q@.len(),
            m <= n,
            0 <= i <= n - m + 1,
            forall|k: int| 0 <= k < i ==> !occurs_at(s@, q@, k),
        decreases n - m + 1 - i,
    {
        let mut j: usize = 0;
        while j < m && char_matches(s.get_char(i + j), q.get_char(j))
            invariant
                n == s@.len(),
                m == q@.len(),
                i + m <= n,
                0 <= j <= m,
                forall|t: int| 0 <= t < j ==> chars_match(#[trigger] s@[i + t], q@[t]),
            decreases m - j,
        {
            j = j + 1;
        }
        if j == m {
            assert(occurs_at(s@, q@, i as int));
            return true;
        }
        assert(!chars_match(s@[i + j], q@[j as int]));
        i = i + 1;
    }
    assert forall|k: int| !occurs_at(s@, q@, k) by {
        if 0 <= k && k < i {
        }
    }
    false
}

impl ArchiveDatabase {
    /// `ord` holds the rows marked in `keep`, each once, by full name and
    /// then by row.
    pub open spec fn marked_by_name(&self, ord: Seq<int>, keep: Seq<bool>) -> bool {
        &&& forall|k: int| 0 <= k < ord.len() ==> 0 <= #[trigger] ord[k] < self.employees@.len() && keep[ord[k]]
        &&& forall|a: int, b: int|
            0 <= a < b < ord.len() ==> keyed_before(
                self.employees@[#[trigger] ord[a]].full_name@,
                ord[a],
                self.employees@[#[trigger] ord[b]].full_name@,
                ord[b],
            )
        &&& forall|i: int|
            0 <= i < self.employees@.len() && #[trigger] keep[i] ==> exists|k: int| 0 <= k < ord.len() && ord[k] == i
    }

    /// `ord` holds the rows of the employees that pass the filter, each once,
    /// by full name and then by id.
    pub open spec fn employees_ordered(
        &self,
        ord: Seq<int>,
        status: Option<Seq<char>>,
        department_id: Option<i64>,
    ) -> bool {
        self.marked_by_name(
            ord,
            Seq::new(
                self.employees@.len(),
                |i: int| employee_matches(self.employees@[i], status, department_id),
            ),
        )
    }

    /// `ord` holds the rows of the employees that query `q` finds, each
    /// once, by full name and then by id.
    pub open spec fn employees_found(&self, ord: Seq<int>, q: Seq<char>) -> bool {
        self.marked_by_name(
            ord,
            Seq::new(self.employees@.len(), |i: int| employee_found(self.employees@[i], q)),
        )
    }

    /// The marked rows, by full name.
    fn order_marked(&self, keep: &Vec<bool>) -> (r: Vec<usize>)
        requires
            keep@.len() == self.employees@.len(),
        ensures
            self.marked_by_name(r@.map_values(|i: usize| i as int), keep@),
            r@.len() <= self.employees@.len(),
    {
        let mut idx: Vec<usize> = Vec::new();
        let mut keys: Vec<String> = Vec::new();
        let mut i: usize = 0;
        while i < self.employees.len()
            invariant
                keep@.len() == self.employees@.len(),
                0 <= i <= self.employees@.len(),
                idx@.len() == keys@.len(),
                idx@.len() <= i,
                forall|k: int|
                    0 <= k < idx@.len() ==> {
                        &&& (#[trigger] idx@[k]) < i
                        &&& keep@[idx@[k] as int]
                        &&& keys@[k]@ == self.employees@[idx@[k] as int].full_name@
                    },
                forall|a: int, b: int| 0 <= a < b < idx@.len() ==> (#[trigger] idx@[a]) < (#[trigger] idx@[b]),
                forall|m: int| 0 <= m < i && #[trigger] keep@[m] ==> exists|k: int| 0 <= k < idx@.len() && idx@[k] == m,
            decreases self.employees@.len() - i,
        {
            let ghost before = idx@;
            if keep[i] {
                idx.push(i);
                keys.push(self.employees[i].full_name.clone());
            }
            proof {
                assert forall|m: int| 0 <= m < i + 1 && #[trigger] keep@[m] implies exists|k: int|
                    0 <= k < idx@.len() && idx@[k] == m by {
                    if m == i {
                        assert(idx@ == before.push(i));
                        assert(idx@[idx@.len() - 1] == m);
                    } else {
                        let k = choose|k: int| 0 <= k < before.len() && before[k] == m;
                        assert(idx@[k] == m);
                    }
                }
            }
            i = i + 1;
        }
        let order = order_by_text(&keys);
        let mut out: Vec<usize> = Vec::new();
        let mut k: usize = 0;
        while k < order.len()
            invariant
                0 <= k <= order@.len(),
                order@.len() == keys@.len(),
                idx@.len() == keys@.len(),
                forall|a: int| 0 <= a < order@.len() ==> (#[trigger] order@[a]) < keys@.len(),
                out@.len() == k,
                forall|a: int| 0 <= a < k ==> #[trigger] out@[a] == idx@[order@[a] as int],
            decreases order@.len() - k,
        {
            out.push(idx[order[k]]);
            k = k + 1;
        }
        proof {
            let ord = out@.map_values(|i: usize| i as int);
            assert forall|a: int, b: int| 0 <= a < b < ord.len() implies keyed_before(
                self.employees@[#[trigger] ord[a]].full_name@,
                ord[a],
                self.employees@[#[trigger] ord[b]].full_name@,
                ord[b],
            ) by {
                let pa = order@[a] as int;
                let pb = order@[b] as int;
                assert(keyed_before(keys@[pa]@, pa, keys@[pb]@, pb));
                if pa < pb {
                    assert(idx@[pa] < idx@[pb]);
                } else if pb < pa {
                    assert(idx@[pb] < idx@[pa]);
                }
            }
            assert forall|m: int| 0 <= m < self.employees@.len() && #[trigger] keep@[m] implies exists|a: int|
                0 <= a < ord.len() && ord[a] == m by {
                let p = choose|p: int| 0 <= p < idx@.len() && idx@[p] == m;
                assert(holds_index(order@, p));
                let a = choose|a: int| 0 <= a < order@.len() && order@[a] == p;
                assert(ord[a] == m);
            }
        }
        out
    }

    /// The rows of the employees that pass the filter, by full name.
    fn ordered_employees(&self, status: Option<&str>, department_id: Option<i64>) -> (r: Vec<usize>)
        requires
            self.wf(),
        ensures
            self.employees_ordered(
                r@.map_values(|i: usize| i as int),
                opt_str_view(status),
                department_id,
            ),
            r@.len() <= self.employees@.len(),
    {
        let ghost st = opt_str_view(status);
        let mut keep: Vec<bool> = Vec::new();
        let mut i: usize = 0;
        while i < self.employees.len()
            invariant
                st == opt_str_view(status),
                0 <= i <= self.employees@.len(),
                keep@.len() == i,
                forall|k: int| 0 <= k < i ==> #[trigger] keep@[k] == employee_matches(self.employees@[k], st, department_id),
            decreases self.employees@.len() - i,
        {
            let e = &self.employees[i];
            let s_ok = match status {
                Some(s) => str_eq(e.status.as_str(), s),
                None => true,
            };
            let d_ok = match department_id {
                Some(d) => e.department_id == Some(d),
                None => true,
            };
            keep.push(s_ok && d_ok);
            i = i + 1;
        }
        assert(keep@ =~= Seq::new(
            self.employees@.len(),
            |i: int| employee_matches(self.employees@[i], st, department_id),
        ));
        self.order_marked(&keep)
    }

    /// A page of the employees that pass the filter, by full name: page
    /// `page` (from 1) of `page_size` (1 to 500) employees.
    pub fn list_employees(
        &self,
        status: Option<&str>,
        department_id: Option<i64>,
        page: i64,
        page_size: i64,
    ) -> (r: Result<Vec<EmployeeRecord>, ArchiveError>)
        requires
            self.wf(),
        ensures
            !(1 <= page && 1 <= page_size <= MAX_PAGE_SIZE) ==> r == Err::<
                Vec<EmployeeRecord>,
                ArchiveError,
            >(ArchiveError::InvalidInput),
            1 <= page && 1 <= page_size <= MAX_PAGE_SIZE ==> (r matches Ok(v) && exists|ord: Seq<int>|
                {
                    let off = (page - 1) * page_size;
                    &&& #[trigger] self.employees_ordered(ord, opt_str_view(status), department_id)
                    &&& v@.len() == if off >= ord.len() {
                        0
                    } else if ord.len() - off < page_size {
                        ord.len() - off
                    } else {
                        page_size as int
                    }
                    &&& forall|k: int| 0 <= k < v@.len() ==> self.employee_read(#[trigger] v@[k], ord[off + k])
                }),
    {
        if page < 1 || page_size < 1 || page_size > MAX_PAGE_SIZE {
            return Err(ArchiveError::InvalidInput);
        }
        let rows = self.ordered_employees(status, department_id);
        let ghost ord = rows@.map_values(|i: usize| i as int);
        assert(0 <= (page as i128 - 1) * (page_size as i128) <= 500 * 0x7fff_ffff_ffff_ffffi128)
            by (nonlinear_arith)
            requires
                1 <= page,
                1 <= page_size <= 500,
        ;
        let off128 = (page as i128 - 1) * (page_size as i128);
        let mut out: Vec<EmployeeRecord> = Vec::new();
        if off128 >= rows.len() as i128 {
            assert(self.employees_ordered(ord, opt_str_view(status), department_id));
            return Ok(out);
        }
        let off = off128 as usize;
        let mut k: usize = 0;
        while k < page_size as usize && off + k < rows.len()
            invariant
                self.wf(),
                off < rows@.len(),
                rows@.len() <= self.employees@.len(),
                off as int == (page - 1) * page_size,
                1 <= page_size <= MAX_PAGE_SIZE,
                ord == rows@.map_values(|i: usize| i as int),
                self.employees_ordered(ord, opt_str_view(status), department_id),
                0 <= k <= page_size,
                off + k <= rows@.len(),
                out@.len() == k,
                forall|a: int| 0 <= a < k ==> self.employee_read(#[trigger] out@[a], ord[off + a]),
            decreases page_size - k,
        {
            let row = rows[off + k];
            assert(ord[off + k] == row as int);
            let e = match self.get_employee_by_id(row as i64 + 1) {
                Ok(e) => e,
                Err(_) => {
                    proof {
                        assert(false);
                    }
                    return Ok(out);
                },
            };
            out.push(e);
            k = k + 1;
        }
        Ok(out)
    }

    /// The loans with status `status`, or all of them, newest first. Loans
    /// are dated when created, so newest first is highest id first.
    pub fn list_loans(&self, status: Option<&str>) -> (r: Vec<LoanRecord>)
        requires
            self.wf(),
        ensures
            forall|k: int|
                0 <= k < r@.len() ==> {
                    let l = #[trigger] r@[k];
                    &&& id_in(l.id, self.loans@.len() as int)
                    &&& l.eqv(&self.loans@[l.id - 1])
                    &&& (status matches Some(s) ==> l.status@ == s@)
                },
            forall|a: int, b: int| 0 <= a < b < r@.len() ==> (#[trigger] r@[a]).id > (#[trigger] r@[b]).id,
            forall|i: int|
                0 <= i < self.loans@.len() && (status matches Some(s) ==> (#[trigger] self.loans@[i]).status@
                    == s@) ==> exists|k: int| 0 <= k < r@.len() && r@[k].id == i + 1,
    {
        let mut out: Vec<LoanRecord> = Vec::new();
        let mut i: usize = self.loans.len();
        while i > 0
            invariant
                self.wf(),
                0 <= i <= self.loans@.len(),
                forall|k: int|
                    0 <= k < out@.len() ==> {
                        let l = #[trigger] out@[k];
                        &&& i < l.id <= self.loans@.len()
                        &&& l.eqv(&self.loans@[l.id - 1])
                        &&& (status matches Some(s) ==> l.status@ == s@)
                    },
                forall|a: int, b: int| 0 <= a < b < out@.len() ==> (#[trigger] out@[a]).id > (#[trigger] out@[b]).id,
                forall|m: int|
                    i <= m < self.loans@.len() && (status matches Some(s) ==> (#[trigger] self.loans@[m]).status@
                        == s@) ==> exists|k: int| 0 <= k < out@.len() && out@[k].id == m + 1,
            decreases i,
        {
            i = i - 1;
            let l = &self.loans[i];
            let keep = match status {
                Some(s) => str_eq(l.status.as_str(), s),
                None => true,
            };
            let ghost before = out@;
            if keep {
                out.push(l.duplicate());
                proof {
                    assert(out@[out@.len() - 1].id == i + 1);
                }
            }
            proof {
                assert forall|m: int|
                    i <= m < self.loans@.len() && (status matches Some(s) ==> (#[trigger] self.loans@[m]).status@
                        == s@) implies exists|k: int| 0 <= k < out@.len() && out@[k].id == m + 1 by {
                    if m == i {
                        assert(out@[out@.len() - 1].id == m + 1);
                    } else {
                        let k = choose|k: int| 0 <= k < before.len() && before[k].id == m + 1;
                        assert(out@[k] == before[k]);
                    }
                }
            }
        }
        out
    }

    /// The loans of employee `employee_id` that are still out, newest first.
    pub fn get_employee_active_loans(&self, employee_id: i64) -> (r: Vec<LoanRecord>)
        requires
            self.wf(),
        ensures
            forall|k: int|
                0 <= k < r@.len() ==> {
                    let l = #[trigger] r@[k];
                    &&& id_in(l.id, self.loans@.len() as int)
                    &&& l.eqv(&self.loans@[l.id - 1])
                    &&& l.employee_id == employee_id
                    &&& l.status@ == borrowed_status()
                },
            forall|a: int, b: int| 0 <= a < b < r@.len() ==> (#[trigger] r@[a]).id > (#[trigger] r@[b]).id,
            forall|i: int|
                0 <= i < self.loans@.len() && (#[trigger] self.loans@[i]).employee_id == employee_id
                    && self.loans@[i].status@ == borrowed_status() ==> exists|k: int|
                    0 <= k < r@.len() && r@[k].id == i + 1,
    {
        let mut out: Vec<LoanRecord> = Vec::new();
        let mut i: usize = self.loans.len();
        while i > 0
            invariant
                self.wf(),
                0 <= i <= self.loans@.len(),
                forall|k: int|
                    0 <= k < out@.len() ==> {
                        let l = #[trigger] out@[k];
                        &&& i < l.id <= self.loans@.len()
                        &&& l.eqv(&self.loans@[l.id - 1])
                        &&& l.employee_id == employee_id
                        &&& l.status@ == borrowed_status()
                    },
                forall|a: int, b: int| 0 <= a < b < out@.len() ==> (#[trigger] out@[a]).id > (#[trigger] out@[b]).id,
                forall|m: int|
                    i <= m < self.loans@.len() && (#[trigger] self.loans@[m]).employee_id == employee_id
                        && self.loans@[m].status@ == borrowed_status() ==> exists|k: int|
                        0 <= k < out@.len() && out@[k].id == m + 1,
            decreases i,
        {
            i = i - 1;
            let l = &self.loans[i];
            let keep = l.employee_id == employee_id && str_eq(l.status.as_str(), "BORROWED");
            let ghost before = out@;
            if keep {
                out.push(l.duplicate());
                proof {
                    assert(out@[out@.len() - 1].id == i + 1);
                }
            }
            proof {
                assert forall|m: int|
                    i <= m < self.loans@.len() && (#[trigger] self.loans@[m]).employee_id == employee_id
                        && self.loans@[m].status@ == borrowed_status() implies exists|k: int|
                        0 <= k < out@.len() && out@[k].id == m + 1 by {
                    if m == i {
                        assert(out@[out@.len() - 1].id == m + 1);
                    } else {
                        let k = choose|k: int| 0 <= k < before.len() && before[k].id == m + 1;
                        assert(out@[k] == before[k]);
                    }
                }
            }
        }
        out
    }

    /// The position that holds employee `employee_id`, if any.
    pub fn get_employee_drawer_position(&self, employee_id: i64) -> (r: Option<DrawerPositionRecord>)
        requires
            self.wf(),
        ensures
            r is None <==> forall|k: int|
                0 <= k < self.positions@.len() ==> (#[trigger] self.positions@[k]).employee_id != Some(
                    employee_id,
                ),
            r matches Some(p) ==> id_in(p.id, self.positions@.len() as int) && p.eqv(
                &self.positions@[p.id - 1],
            ) && p.employee_id == Some(employee_id),
    {
        let mut k: usize = 0;
        while k < self.positions.len()
            invariant
                self.wf(),
                0 <= k <= self.positions@.len(),
                forall|j: int| 0 <= j < k ==> (#[trigger] self.positions@[j]).employee_id != Some(employee_id),
            decreases self.positions@.len() - k,
        {
            if self.positions[k].employee_id == Some(employee_id) {
                return Some(self.positions[k].duplicate());
            }
            k = k + 1;
        }
        None
    }

    /// The employees whose name, registration or CPF holds the query,
    /// trimmed, up to ASCII case; by full name, at most `limit` (1 to 50).
    pub fn search_employees(&self, query: &str, limit: i64) -> (r: Result<Vec<EmployeeRecord>, ArchiveError>)
        requires
            self.wf(),
        ensures
            !(1 <= limit <= MAX_SEARCH_LIMIT) ==> r == Err::<Vec<EmployeeRecord>, ArchiveError>(
                ArchiveError::InvalidInput,
            ),
            1 <= limit <= MAX_SEARCH_LIMIT ==> (r matches Ok(v) && exists|ord: Seq<int>|
                {
                    &&& #[trigger] self.employees_found(ord, trim_of(query@))
                    &&& v@.len() == if ord.len() < limit {
                        ord.len() as int
                    } else {
                        limit as int
                    }
                    &&& forall|k: int| 0 <= k < v@.len() ==> self.employee_read(#[trigger] v@[k], ord[k])
                }),
    {
        if limit < 1 || limit > MAX_SEARCH_LIMIT {
            return Err(ArchiveError::InvalidInput);
        }
        let q = trimmed(query);
        let ghost qv = q@;
        let mut keep: Vec<bool> = Vec::new();
        let mut i: usize = 0;
        while i < self.employees.len()
            invariant
                qv == q@,
                0 <= i <= self.employees@.len(),
                keep@.len() == i,
                forall|k: int| 0 <= k < i ==> #[trigger] keep@[k] == employee_found(self.employees@[k], qv),
            decreases self.employees@.len() - i,
        {
            let e = &self.employees[i];
            let hit = contains_ignoring_ascii_case(e.full_name.as_str(), q.as_str())
                || contains_ignoring_ascii_case(e.registration.as_str(), q.as_str())
                || match &e.cpf {
                Some(c) => contains_ignoring_ascii_case(c.as_str(), q.as_str()),
                None => false,
            };
            keep.push(hit);
            i = i + 1;
        }
        assert(keep@ =~= Seq::new(self.employees@.len(), |i: int| employee_found(self.employees@[i], qv)));
        let rows = self.order_marked(&keep);
        let ghost ord = rows@.map_values(|i: usize| i as int);
        let mut out: Vec<EmployeeRecord> = Vec::new();
        let mut k: usize = 0;
        while k < limit as usize && k < rows.len()
            invariant
                self.wf(),
                1 <= limit <= MAX_SEARCH_LIMIT,
                ord == rows@.map_values(|i: usize| i as int),
                self.employees_found(ord, qv),
                0 <= k <= rows@.len(),
                k <= limit,
                out@.len() == k,
                forall|a: int| 0 <= a < k ==> self.employee_read(#[trigger] out@[a], ord[a]),
            decreases rows@.len() - k,
        {
            let row = rows[k];
            assert(ord[k as int] == row as int);
            let e = match self.get_employee_by_id(row as i64 + 1) {
                Ok(e) => e,
                Err(_) => {
                    proof {
                        assert(false);
                    }
                    return Ok(out);
                },
            };
            out.push(e);
            k = k + 1;
        }
        assert(ord.len() == rows@.len());
        assert(self.employees_found(ord, trim_of(query@)));
        Ok(out)
    }
}

} // verus!
