//! Filed documents and the full view of one employee.
use vstd::prelude::*;

use crate::clock::utc_now_rfc3339;
use crate::loans::borrowed_status;
use crate::occupancy::MAX_ROWS;
use crate::payloads::DocumentPayload;
use crate::records::{DocumentCategoryRecord, DocumentRecord, DocumentTypeRecord};
use crate::reports::EmployeeDetail;
use crate::store::{id_in, ArchiveDatabase, ArchiveError};
use crate::text::{clone_opt, holds_index, keyed_before, opt_view, order_by_text};

verus! {

/// Who a document is filed by: the one named, else the acting user.
pub open spec fn filer_of(p: DocumentPayload, actor: Seq<char>) -> Seq<char> {
    match p.filed_by {
        Some(f) => f@,
        None => actor,
    }
}

/// Type `t` belongs to the category asked for, if one is.
pub open spec fn type_selected(t: DocumentTypeRecord, category_id: Option<i64>) -> bool {
    match category_id {
        Some(c) => t.category_id == c,
        None => true,
    }
}

/// Some entry of `ord` is the row `i`.
pub open spec fn holds_row(ord: Seq<int>, i: int) -> bool {
    exists|k: int| 0 <= k < ord.len() && ord[k] == i
}

impl ArchiveDatabase {
    /// Files a document for an existing employee, as `actor`, dated now.
    pub fn create_document(&mut self, payload: &DocumentPayload, actor: &str) -> (r: Result<
        DocumentRecord,
        ArchiveError,
    >)
        requires
            old(self).wf(),
        ensures
            r matches Err(e) ==> (e == ArchiveError::NotFound || e == ArchiveError::StorageFailure),
            final(self).wf(),
            r is Err ==> *final(self) == *old(self),
            r == Err::<DocumentRecord, ArchiveError>(ArchiveError::NotFound) <==> !id_in(
                payload.employee_id,
                old(self).employees@.len() as int,
            ),
            r == Err::<DocumentRecord, ArchiveError>(ArchiveError::StorageFailure) <==> (id_in(
                payload.employee_id,
                old(self).employees@.len() as int,
            ) && old(self).documents@.len() >= MAX_ROWS),
            r matches Ok(d) ==> {
                &&& d.id == old(self).documents@.len() + 1
                &&& final(self).documents@.drop_last() == old(self).documents@
                &&& final(self).documents@.last().eqv(&d)
                &&& d.employee_id == payload.employee_id
                &&& d.category_id == payload.category_id
                &&& d.type_id == payload.type_id
                &&& opt_view(d.description) == opt_view(payload.description)
                &&& opt_view(d.document_date) == opt_view(payload.document_date)
                &&& opt_view(d.expiration_date) == opt_view(payload.expiration_date)
                &&& opt_view(d.notes) == opt_view(payload.notes)
                &&& opt_view(d.filed_by) == Some(filer_of(*payload, actor@))
                &&& d.filing_date@ == d.created_at@
                &&& *final(self) == (ArchiveDatabase { documents: final(self).documents, ..*old(self) })
            },
    {
        if payload.employee_id < 1 || payload.employee_id > self.employees.len() as i64 {
            return Err(ArchiveError::NotFound);
        }
        if self.documents.len() >= MAX_ROWS as usize {
            return Err(ArchiveError::StorageFailure);
        }
        let now = utc_now_rfc3339();
        let filer = match &payload.filed_by {
            Some(f) => f.clone(),
            None => actor.to_string(),
        };
        let rec = DocumentRecord {
            id: self.documents.len() as i64 + 1,
            employee_id: payload.employee_id,
            category_id: payload.category_id,
            type_id: payload.type_id,
            description: clone_opt(&payload.description),
            document_date: clone_opt(&payload.document_date),
            filing_date: now.clone(),
            expiration_date: clone_opt(&payload.expiration_date),
            notes: clone_opt(&payload.notes),
            filed_by: Some(filer),
            created_at: now,
        };
        let out = rec.duplicate();
        let ghost old_db = *self;
        self.documents.push(rec);
        assert(self.documents@.drop_last() =~= old_db.documents@);
        Ok(out)
    }

    /// Reads document `id`.
    pub fn get_document(&self, id: i64) -> (r: Result<DocumentRecord, ArchiveError>)
        requires
            self.wf(),
        ensures
            !id_in(id, self.documents@.len() as int) <==> r == Err::<DocumentRecord, ArchiveError>(
                ArchiveError::NotFound,
            ),
            r matches Err(e) ==> e == ArchiveError::NotFound,
            r matches Ok(d) ==> d.eqv(&self.documents@[id - 1]),
    {
        if id < 1 || id > self.documents.len() as i64 {
            return Err(ArchiveError::NotFound);
        }
        Ok(self.documents[(id - 1) as usize].duplicate())
    }

    /// The documents of employee `employee_id`, newest first. Documents are
    /// dated when filed, so newest first is highest id first.
    pub fn get_employee_documents(&self, employee_id: i64) -> (r: Vec<DocumentRecord>)
        requires
            self.wf(),
        ensures
            forall|k: int|
                0 <= k < r@.len() ==> {
                    let d = #[trigger] r@[k];
                    &&& id_in(d.id, self.documents@.len() as int)
                    &&& d.eqv(&self.documents@[d.id - 1])
                    &&& d.employee_id == employee_id
                },
            forall|a: int, b: int| 0 <= a < b < r@.len() ==> (#[trigger] r@[a]).id > (#[trigger] r@[b]).id,
            forall|i: int|
                0 <= i < self.documents@.len() && (#[trigger] self.documents@[i]).employee_id == employee_id
                    ==> exists|k: int| 0 <= k < r@.len() && r@[k].id == i + 1,
    {
        let mut out: Vec<DocumentRecord> = Vec::new();
        let mut i: usize = self.documents.len();
        while i > 0
            invariant
                self.wf(),
                0 <= i <= self.documents@.len(),
                forall|k: int|
                    0 <= k < out@.len() ==> {
                        let d = #[trigger] out@[k];
                        &&& i < d.id <= self.documents@.len()
                        &&& d.eqv(&self.documents@[d.id - 1])
                        &&& d.employee_id == employee_id
                    },
                forall|a: int, b: int| 0 <= a < b < out@.len() ==> (#[trigger] out@[a]).id > (#[trigger] out@[b]).id,
                forall|m: int|
                    i <= m < self.documents@.len() && (#[trigger] self.documents@[m]).employee_id == employee_id
                        ==> exists|k: int| 0 <= k < out@.len() && out@[k].id == m + 1,
            decreases i,
        {
            i = i - 1;
            let d = &self.documents[i];
            let ghost before = out@;
            if d.employee_id == employee_id {
                out.push(d.duplicate());
                proof {
                    assert(out@[out@.len() - 1].id == i + 1);
                }
            }
            proof {
                assert forall|m: int|
                    i <= m < self.documents@.len() && (#[trigger] self.documents@[m]).employee_id == employee_id
                        implies exists|k: int| 0 <= k < out@.len() && out@[k].id == m + 1 by {
                    if m == i {
                        assert(out@[out@.len() - 1].id == m + 1);
                    } else {
                        let k = choose|k: int| 0 <= k < before.len() && before[k].id == m + 1;
                        assert(out@[k] == before[k]);
                    }
                }
            }
        }
        out
    }

    /// Employee `id` with its documents, its open loans and its position.
    pub fn get_employee(&self, id: i64) -> (r: Result<EmployeeDetail, ArchiveError>)
        requires
            self.wf(),
        ensures
            r matches Err(e) ==> (e == ArchiveError::NotFound),
            !id_in(id, self.employees@.len() as int) <==> r == Err::<EmployeeDetail, ArchiveError>(
                ArchiveError::NotFound,
            ),
            r matches Ok(d) ==> {
                &&& self.employee_read(d.basic, id - 1)
                &&& forall|k: int|
                    0 <= k < d.documents@.len() ==> (#[trigger] d.documents@[k]).employee_id == id
                &&& forall|i: int|
                    0 <= i < self.documents@.len() && (#[trigger] self.documents@[i]).employee_id == id
                        ==> exists|k: int| 0 <= k < d.documents@.len() && d.documents@[k].id == i + 1
                &&& forall|k: int|
                    0 <= k < d.active_loans@.len() ==> (#[trigger] d.active_loans@[k]).employee_id == id
                        && d.active_loans@[k].status@ == borrowed_status()
                &&& forall|i: int|
                    0 <= i < self.loans@.len() && (#[trigger] self.loans@[i]).employee_id == id
                        && self.loans@[i].status@ == borrowed_status() ==> exists|k: int|
                        0 <= k < d.active_loans@.len() && d.active_loans@[k].id == i + 1
                &&& (d.drawer_position is None <==> self.employees@[id - 1].drawer_position_id is None)
                &&& d.drawer_position matches Some(p) ==> self.employees@[id - 1].drawer_position_id == Some(p.id)
            },
    {
        let basic = match self.get_employee_by_id(id) {
            Ok(e) => e,
            Err(e) => {
                return Err(e);
            },
        };
        let documents = self.get_employee_documents(id);
        let active_loans = self.get_employee_active_loans(id);
        let drawer_position = self.get_employee_drawer_position(id);
        proof {
            let e = self.employees@[id - 1];
            if let Some(p) = e.drawer_position_id {
                assert(self.positions@[p - 1].employee_id == Some(id));
            }
            if let Some(p) = &drawer_position {
                assert(self.positions@[p.id - 1].employee_id == Some(id));
                assert(self.positions@[p.id - 1].id == p.id);
            }
        }
        Ok(EmployeeDetail { basic, documents, active_loans, drawer_position })
    }

    /// The document categories, by name and then by place in the table.
    pub fn list_document_categories(&self) -> (r: Vec<DocumentCategoryRecord>)
        ensures
            r@.len() == self.categories@.len(),
            exists|ord: Seq<int>|
                {
                    &&& #[trigger] ord.len() == self.categories@.len()
                    &&& forall|i: int| 0 <= i < self.categories@.len() ==> #[trigger] holds_row(ord, i)
                    &&& forall|k: int| 0 <= k < ord.len() ==> 0 <= ord[k] < self.categories@.len() && (#[trigger] r@[k]).eqv(&self.categories@[ord[k]])
                    &&& forall|a: int, b: int|
                        0 <= a < b < ord.len() ==> keyed_before(
                            self.categories@[#[trigger] ord[a]].name@,
                            ord[a],
                            self.categories@[#[trigger] ord[b]].name@,
                            ord[b],
                        )
                },
    {
        let mut keys: Vec<String> = Vec::new();
        let mut i: usize = 0;
        while i < self.categories.len()
            invariant
                0 <= i <= self.categories@.len(),
                keys@.len() == i,
                forall|k: int| 0 <= k < i ==> (#[trigger] keys@[k])@ == self.categories@[k].name@,
            decreases self.categories@.len() - i,
        {
            keys.push(self.categories[i].name.clone());
            i = i + 1;
        }
        let order = order_by_text(&keys);
        let mut out: Vec<DocumentCategoryRecord> = Vec::new();
        let mut k: usize = 0;
        while k < order.len()
            invariant
                0 <= k <= order@.len(),
                order@.len() == keys@.len(),
                keys@.len() == self.categories@.len(),
                forall|a: int| 0 <= a < order@.len() ==> (#[trigger] order@[a]) < keys@.len(),
                out@.len() == k,
                forall|a: int| 0 <= a < k ==> (#[trigger] out@[a]).eqv(&self.categories@[order@[a] as int]),
            decreases order@.len() - k,
        {
            out.push(self.categories[order[k]].duplicate());
            k = k + 1;
        }
        proof {
            let ord = order@.map_values(|i: usize| i as int);
            assert forall|i: int| 0 <= i < self.categories@.len() implies #[trigger] holds_row(ord, i) by {
                assert(holds_index(order@, i));
                let a = choose|a: int| 0 <= a < order@.len() && order@[a] == i;
                assert(ord[a] == i);
            }
            assert forall|a: int, b: int| 0 <= a < b < ord.len() implies keyed_before(
                self.categories@[#[trigger] ord[a]].name@,
                ord[a],
                self.categories@[#[trigger] ord[b]].name@,
                ord[b],
            ) by {
                let pa = order@[a] as int;
                let pb = order@[b] as int;
                assert(keyed_before(keys@[pa]@, pa, keys@[pb]@, pb));
            }
            assert(ord.len() == self.categories@.len());
        }
        out
    }

    /// The document types, of one category when given, by name and then by
    /// place in the table.
    pub fn list_document_types(&self, category_id: Option<i64>) -> (r: Vec<DocumentTypeRecord>)
        ensures
            forall|k: int| 0 <= k < r@.len() ==> type_selected(#[trigger] r@[k], category_id),
            exists|ord: Seq<int>|
                {
                    &&& #[trigger] ord.len() == r@.len()
                    &&& forall|k: int| 0 <= k < ord.len() ==> 0 <= ord[k] < self.document_types@.len() && (#[trigger] r@[k]).eqv(&self.document_types@[ord[k]])
                    &&& forall|i: int|
                        0 <= i < self.document_types@.len() && type_selected(#[trigger] self.document_types@[i], category_id)
                            ==> exists|k: int| 0 <= k < ord.len() && ord[k] == i
                    &&& forall|a: int, b: int|
                        0 <= a < b < ord.len() ==> keyed_before(
                            self.document_types@[#[trigger] ord[a]].name@,
                            ord[a],
                            self.document_types@[#[trigger] ord[b]].name@,
                            ord[b],
                        )
                },
    {
        let mut idx: Vec<usize> = Vec::new();
        let mut keys: Vec<String> = Vec::new();
        let mut i: usize = 0;
        while i < self.document_types.len()
            invariant
                0 <= i <= self.document_types@.len(),
                idx@.len() == keys@.len(),
                forall|k: int|
                    0 <= k < idx@.len() ==> {
                        &&& (#[trigger] idx@[k]) < i
                        &&& type_selected(self.document_types@[idx@[k] as int], category_id)
                        &&& keys@[k]@ == self.document_types@[idx@[k] as int].name@
                    },
                forall|a: int, b: int| 0 <= a < b < idx@.len() ==> (#[trigger] idx@[a]) < (#[trigger] idx@[b]),
                forall|m: int|
                    0 <= m < i && type_selected(#[trigger] self.document_types@[m], category_id)
                        ==> exists|k: int| 0 <= k < idx@.len() && idx@[k] == m,
            decreases self.document_types@.len() - i,
        {
            let keep = match category_id {
                Some(c) => self.document_types[i].category_id == c,
                None => true,
            };
            assert(keep == type_selected(self.document_types@[i as int], category_id));
            let ghost before = idx@;
            if keep {
                idx.push(i);
                keys.push(self.document_types[i].name.clone());
            }
            proof {
                assert forall|m: int|
                    0 <= m < i + 1 && type_selected(#[trigger] self.document_types@[m], category_id)
                        implies exists|k: int| 0 <= k < idx@.len() && idx@[k] == m by {
                    if m == i {
                        assert(idx@ == before.push(i));
                        assert(idx@[idx@.len() - 1] == m);
                    } else {
                        let k = choose|k: int| 0 <= k < before.len() && before[k] == m;
                        assert(idx@[k] == m);
                    }
                }
            }
            i = i + 1;
        }
        let order = order_by_text(&keys);
        let mut out: Vec<DocumentTypeRecord> = Vec::new();
        let mut k: usize = 0;
        while k < order.len()
            invariant
                0 <= k <= order@.len(),
                order@.len() == keys@.len(),
                idx@.len() == keys@.len(),
                forall|a: int| 0 <= a < order@.len() ==> (#[trigger] order@[a]) < keys@.len(),
                forall|a: int| 0 <= a < idx@.len() ==> (#[trigger] idx@[a]) < self.document_types@.len()
                    && type_selected(self.document_types@[idx@[a] as int], category_id),
                forall|a: int, b: int| 0 <= a < b < idx@.len() ==> (#[trigger] idx@[a]) < (#[trigger] idx@[b]),
                forall|m: int|
                    0 <= m < self.document_types@.len() && type_selected(#[trigger] self.document_types@[m], category_id)
                        ==> exists|k: int| 0 <= k < idx@.len() && idx@[k] == m,
                forall|p: int| 0 <= p < keys@.len() ==> #[trigger] holds_index(order@, p),
                forall|a: int, b: int|
                    0 <= a < b < order@.len() ==> keyed_before(
                        keys@[(#[trigger] order@[a]) as int]@,
                        order@[a] as int,
                        keys@[(#[trigger] order@[b]) as int]@,
                        order@[b] as int,
                    ),
                forall|k: int| 0 <= k < idx@.len() ==> keys@[k]@ == self.document_types@[#[trigger] idx@[k] as int].name@,
                out@.len() == k,
                forall|a: int| 0 <= a < k ==> (#[trigger] out@[a]).eqv(&self.document_types@[idx@[order@[a] as int] as int]),
            decreases order@.len() - k,
        {
            out.push(self.document_types[idx[order[k]]].duplicate());
            k = k + 1;
        }
        proof {
            let ord = Seq::new(order@.len(), |a: int| idx@[order@[a] as int] as int);
            assert forall|a: int, b: int| 0 <= a < b < ord.len() implies keyed_before(
                self.document_types@[#[trigger] ord[a]].name@,
                ord[a],
                self.document_types@[#[trigger] ord[b]].name@,
                ord[b],
            ) by {
                let pa = order@[a] as int;
                let pb = order@[b] as int;
                assert(keyed_before(keys@[pa]@, pa, keys@[pb]@, pb));
                if pa < pb {
                    assert(idx@[pa] < idx@[pb]);
                } else if pb < pa {
                    assert(idx@[pb] < idx@[pa]);
                }
            }
            assert forall|m: int|
                0 <= m < self.document_types@.len() && type_selected(#[trigger] self.document_types@[m], category_id)
                    implies exists|a: int| 0 <= a < ord.len() && ord[a] == m by {
                let p = choose|p: int| 0 <= p < idx@.len() && idx@[p] == m;
                assert(holds_index(order@, p));
                let a = choose|a: int| 0 <= a < order@.len() && order@[a] == p;
                assert(ord[a] == m);
            }
            assert(ord.len() == out@.len());
        }
        out
    }
}

} // verus!
