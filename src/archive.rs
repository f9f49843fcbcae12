//! The dead archive: boxes, the transfer of a folder into a box, the
//! folders due for disposal, and the registration of a disposal.
use vstd::prelude::*;

use crate::clock::{colons_to_dashes, replace_colons, trim_of, trimmed, utc_now_rfc3339, utc_today};
use crate::loans::opt_str_view;
use crate::occupancy::MAX_ROWS;
use crate::payloads::ArchiveBoxPayload;
use crate::records::{ArchiveBoxRecord, ArchiveItemRecord, EmployeeRecord};
use crate::store::{id_in, ArchiveDatabase, ArchiveError};
use crate::text::{
    clone_opt, holds_index, keyed_before, lemma_text_lt_total, lemma_text_lt_transitive, opt_view,
    order_by_text, str_eq, str_le, str_lt, text_le, text_lt,
};

verus! {

/// Capacity of a box when none is given.
pub const DEFAULT_BOX_CAPACITY: i64 = 50;

/// Largest capacity a box may be given.
pub const MAX_BOX_CAPACITY: i64 = 500;

/// Earliest year a box may carry.
pub const MIN_BOX_YEAR: i64 = 1900;

/// Latest year a box may carry.
pub const MAX_BOX_YEAR: i64 = 3000;

/// The capacity a box payload asks for.
pub open spec fn requested_capacity(p: ArchiveBoxPayload) -> int {
    match p.capacity {
        Some(c) => c as int,
        None => DEFAULT_BOX_CAPACITY as int,
    }
}

/// A box payload's year and capacity are in range.
pub open spec fn box_payload_ok(p: ArchiveBoxPayload) -> bool {
    &&& MIN_BOX_YEAR <= p.year
    &&& p.year <= MAX_BOX_YEAR
    &&& 1 <= requested_capacity(p)
    &&& requested_capacity(p) <= MAX_BOX_CAPACITY
}

/// Item `it` may be disposed of on `today`: not yet disposed, with an
/// eligibility date on or before it.
pub open spec fn is_disposal_candidate(it: ArchiveItemRecord, today: Seq<char>) -> bool {
    &&& !it.disposed
    &&& it.disposal_eligible_date matches Some(d) && text_le(d@, today)
}

/// The term number generated for a disposal registered at time `now`.
pub open spec fn generated_term(now: Seq<char>) -> Seq<char> {
    "TERMO-"@ + colons_to_dashes(now)
}

/// The key by which disposal candidates are ordered.
pub open spec fn eligible_key(it: ArchiveItemRecord) -> Seq<char> {
    match it.disposal_eligible_date {
        Some(d) => d@,
        None => Seq::empty(),
    }
}

/// An archived folder with its employee.
pub struct DisposalCandidate {
    pub archive_item: ArchiveItemRecord,
    pub employee: EmployeeRecord,
}

/// The receipt of a disposal: its term, when, the items, and by whom.
pub struct DisposalTerm {
    pub term_number: String,
    pub generated_at: String,
    pub items: Vec<ArchiveItemRecord>,
    pub generated_by: String,
}

impl ArchiveDatabase {
    /// Some box carries the number `number`.
    pub open spec fn box_number_taken(&self, number: Seq<char>) -> bool {
        exists|i: int| 0 <= i < self.boxes@.len() && #[trigger] self.boxes@[i].box_number@ == number
    }

    fn find_box_number(&self, number: &str) -> (r: bool)
        ensures
            r == self.box_number_taken(number@),
    {
        let mut i: usize = 0;
        while i < self.boxes.len()
            invariant
                0 <= i <= self.boxes@.len(),
                forall|k: int| 0 <= k < i ==> #[trigger] self.boxes@[k].box_number@ != number@,
            decreases self.boxes@.len() - i,
        {
            if str_eq(self.boxes[i].box_number.as_str(), number) {
                return true;
            }
            i = i + 1;
        }
        false
    }

    /// Creates an empty box. Its number, trimmed, must be new; the year runs
    /// from 1900 to 3000 and the capacity, 50 unless given, from 1 to 500.
    #[verifier::spinoff_prover]
    pub fn create_archive_box(&mut self, payload: &ArchiveBoxPayload) -> (r: Result<
        ArchiveBoxRecord,
        ArchiveError,
    >)
        requires
            old(self).wf(),
        ensures
            r matches Err(e) ==> (e == ArchiveError::InvalidInput || e == ArchiveError::ConstraintViolation || e == ArchiveError::StorageFailure),
            final(self).wf(),
            r is Err ==> *final(self) == *old(self),
            r == Err::<ArchiveBoxRecord, ArchiveError>(ArchiveError::InvalidInput) <==> !box_payload_ok(
                *payload,
            ),
            r == Err::<ArchiveBoxRecord, ArchiveError>(ArchiveError::ConstraintViolation) <==> (
            box_payload_ok(*payload) && old(self).box_number_taken(trim_of(payload.box_number@))),
            r == Err::<ArchiveBoxRecord, ArchiveError>(ArchiveError::StorageFailure) <==> (
            box_payload_ok(*payload) && !old(self).box_number_taken(trim_of(payload.box_number@))
                && old(self).boxes@.len() >= MAX_ROWS),
            r matches Ok(b) ==> {
                &&& b.id == old(self).boxes@.len() + 1
                &&& final(self).boxes@.drop_last() == old(self).boxes@
                &&& final(self).boxes@.last().eqv(&b)
                &&& b.box_number@ == trim_of(payload.box_number@)
                &&& b.year == payload.year
                &&& opt_view(b.period) == opt_view(payload.period)
                &&& opt_view(b.letter_range) == opt_view(payload.letter_range)
                &&& opt_view(b.location) == opt_view(payload.location)
                &&& b.capacity == requested_capacity(*payload)
                &&& b.current_count == 0
                &&& *final(self) == (ArchiveDatabase { boxes: final(self).boxes, ..*old(self) })
            },
    {
        let capacity = match payload.capacity {
            Some(c) => c,
            None => DEFAULT_BOX_CAPACITY,
        };
        if payload.year < MIN_BOX_YEAR || payload.year > MAX_BOX_YEAR || capacity < 1 || capacity
            > MAX_BOX_CAPACITY {
            return Err(ArchiveError::InvalidInput);
        }
        let number = trimmed(payload.box_number.as_str());
        if self.find_box_number(number.as_str()) {
            return Err(ArchiveError::ConstraintViolation);
        }
        if self.boxes.len() >= MAX_ROWS as usize {
            return Err(ArchiveError::StorageFailure);
        }
        let now = utc_now_rfc3339();
        let rec = ArchiveBoxRecord {
            id: self.boxes.len() as i64 + 1,
            box_number: number,
            year: payload.year,
            period: clone_opt(&payload.period),
            letter_range: clone_opt(&payload.letter_range),
            location: clone_opt(&payload.location),
            capacity,
            current_count: 0,
            created_at: now,
        };
        let out = rec.duplicate();
        let ghost old_db = *self;
        let ghost number_view = out.box_number@;
        self.boxes.push(rec);
        proof {
            assert(self.boxes@.drop_last() =~= old_db.boxes@);
            assert forall|i: int, j: int| 0 <= i < j < self.boxes@.len() implies
                (#[trigger] self.boxes@[i]).box_number@ != (#[trigger] self.boxes@[j]).box_number@ by {
                assert(self.boxes@[i] == old_db.boxes@[i]);
                if j < old_db.boxes@.len() {
                    assert(self.boxes@[j] == old_db.boxes@[j]);
                }
            }
            assert forall|i: int| 0 <= i < self.items@.len() implies {
                &&& id_in((#[trigger] self.items@[i]).employee_id, self.employees@.len() as int)
                &&& id_in(self.items@[i].box_id, self.boxes@.len() as int)
            } by {
                assert(self.items@[i] == old_db.items@[i]);
            }
            assert forall|i: int| 0 <= i < self.boxes@.len() implies 0 <= (
            #[trigger] self.boxes@[i]).current_count <= self.items@.len() by {
                if i < old_db.boxes@.len() {
                    assert(self.boxes@[i] == old_db.boxes@[i]);
                }
            }
            assert forall|i: int| 0 <= i < self.boxes@.len() implies #[trigger] self.boxes@[i].id == i + 1 by {
                if i < old_db.boxes@.len() {
                    assert(self.boxes@[i] == old_db.boxes@[i]);
                }
            }
            assert(self.ids_wf());
            assert(self.refs_wf());
        }
        Ok(out)
    }

    /// Reads box `id`.
    pub fn get_archive_box(&self, id: i64) -> (r: Result<ArchiveBoxRecord, ArchiveError>)
        requires
            self.wf(),
        ensures
            !id_in(id, self.boxes@.len() as int) ==> r == Err::<ArchiveBoxRecord, ArchiveError>(
                ArchiveError::NotFound,
            ),
            id_in(id, self.boxes@.len() as int) ==> (r matches Ok(b) && b.eqv(&self.boxes@[id - 1])),
    {
        if id < 1 || id > self.boxes.len() as i64 {
            return Err(ArchiveError::NotFound);
        }
        Ok(self.boxes[(id - 1) as usize].duplicate())
    }

    /// Reads archived item `id`.
    pub fn get_archive_item(&self, id: i64) -> (r: Result<ArchiveItemRecord, ArchiveError>)
        requires
            self.wf(),
        ensures
            !id_in(id, self.items@.len() as int) ==> r == Err::<ArchiveItemRecord, ArchiveError>(
                ArchiveError::NotFound,
            ),
            id_in(id, self.items@.len() as int) ==> (r matches Ok(it) && it.eqv(&self.items@[id - 1])),
    {
        if id < 1 || id > self.items.len() as i64 {
            return Err(ArchiveError::NotFound);
        }
        Ok(self.items[(id - 1) as usize].duplicate())
    }

    /// Moves an employee's folder into box `box_id`, as `actor`: a new item,
    /// not disposed, and the box's count one higher, in one step.
    #[verifier::spinoff_prover]
    pub fn transfer_to_archive(
        &mut self,
        employee_id: i64,
        box_id: i64,
        disposal_eligible_date: Option<&str>,
        actor: &str,
    ) -> (r: Result<ArchiveItemRecord, ArchiveError>)
        requires
            old(self).wf(),
        ensures
            r matches Err(e) ==> (e == ArchiveError::NotFound || e == ArchiveError::StorageFailure),
            final(self).wf(),
            r is Err ==> *final(self) == *old(self),
            r == Err::<ArchiveItemRecord, ArchiveError>(ArchiveError::NotFound) <==> !(id_in(
                employee_id,
                old(self).employees@.len() as int,
            ) && id_in(box_id, old(self).boxes@.len() as int)),
            r == Err::<ArchiveItemRecord, ArchiveError>(ArchiveError::StorageFailure) <==> (id_in(
                employee_id,
                old(self).employees@.len() as int,
            ) && id_in(box_id, old(self).boxes@.len() as int) && old(self).items@.len() >= MAX_ROWS),
            r matches Ok(it) ==> {
                let ob = old(self).boxes@[box_id - 1];
                let nb = final(self).boxes@[box_id - 1];
                &&& it.id == old(self).items@.len() + 1
                &&& final(self).items@.drop_last() == old(self).items@
                &&& final(self).items@.last().eqv(&it)
                &&& it.employee_id == employee_id
                &&& it.box_id == box_id
                &&& opt_view(it.disposal_eligible_date) == opt_str_view(disposal_eligible_date)
                &&& !it.disposed
                &&& it.disposal_date is None
                &&& it.disposal_term_number is None
                &&& it.transferred_by@ == actor@
                &&& it.transfer_date@ == it.created_at@
                &&& nb == (ArchiveBoxRecord { current_count: (ob.current_count + 1) as i64, ..ob })
                &&& final(self).boxes@.len() == old(self).boxes@.len()
                &&& forall|k: int|
                    0 <= k < old(self).boxes@.len() && k != box_id - 1
                        ==> #[trigger] final(self).boxes@[k] == old(self).boxes@[k]
                &&& *final(self) == (ArchiveDatabase {
                    boxes: final(self).boxes,
                    items: final(self).items,
                    ..*old(self)
                })
            },
    {
        if employee_id < 1 || employee_id > self.employees.len() as i64 || box_id < 1 || box_id
            > self.boxes.len() as i64 {
            return Err(ArchiveError::NotFound);
        }
        if self.items.len() >= MAX_ROWS as usize {
            return Err(ArchiveError::StorageFailure);
        }
        let now = utc_now_rfc3339();
        let eligible = match disposal_eligible_date {
            Some(d) => Some(d.to_string()),
            None => None,
        };
        let rec = ArchiveItemRecord {
            id: self.items.len() as i64 + 1,
            employee_id,
            box_id,
            transfer_date: now.clone(),
            disposal_eligible_date: eligible,
            disposed: false,
            disposal_date: None,
            disposal_term_number: None,
            transferred_by: actor.to_string(),
            created_at: now,
        };
        let out = rec.duplicate();
        let ghost old_db = *self;
        let bi = (box_id - 1) as usize;
        assert(0 <= self.boxes@[bi as int].current_count <= self.items@.len());
        self.items.push(rec);
        self.boxes[bi].current_count = self.boxes[bi].current_count + 1;
        proof {
            assert(self.items@.drop_last() =~= old_db.items@);
            assert forall|i: int| 0 <= i < self.boxes@.len() implies #[trigger] self.boxes@[i].id == i + 1 by {
                assert(self.boxes@[i].id == old_db.boxes@[i].id);
            }
            assert forall|i: int| 0 <= i < self.items@.len() implies #[trigger] self.items@[i].id == i + 1 by {
                if i < old_db.items@.len() {
                    assert(self.items@[i] == old_db.items@[i]);
                }
            }
            assert forall|i: int| 0 <= i < self.items@.len() implies {
                &&& id_in((#[trigger] self.items@[i]).employee_id, self.employees@.len() as int)
                &&& id_in(self.items@[i].box_id, self.boxes@.len() as int)
            } by {
                if i < old_db.items@.len() {
                    assert(self.items@[i] == old_db.items@[i]);
                }
            }
            assert forall|i: int, j: int| 0 <= i < j < self.boxes@.len() implies
                (#[trigger] self.boxes@[i]).box_number@ != (#[trigger] self.boxes@[j]).box_number@ by {
                assert(self.boxes@[i].box_number == old_db.boxes@[i].box_number);
                assert(self.boxes@[j].box_number == old_db.boxes@[j].box_number);
            }
            assert forall|i: int| 0 <= i < self.boxes@.len() implies 0 <= (
            #[trigger] self.boxes@[i]).current_count <= self.items@.len() by {
                if i != bi {
                    assert(self.boxes@[i] == old_db.boxes@[i]);
                }
            }
        }
        Ok(out)
    }

    /// `r` lists the items that may be disposed of on `today`, each once,
    /// by eligibility date and then by id, each with its employee.
    pub open spec fn candidates_listed(&self, r: Seq<DisposalCandidate>, today: Seq<char>) -> bool {
        &&& forall|k: int|
            0 <= k < r.len() ==> {
                let it = (#[trigger] r[k]).archive_item;
                &&& id_in(it.id, self.items@.len() as int)
                &&& it.eqv(&self.items@[it.id - 1])
                &&& is_disposal_candidate(it, today)
                &&& self.employee_read(r[k].employee, it.employee_id - 1)
            }
        &&& forall|a: int, b: int|
            0 <= a < b < r.len() ==> keyed_before(
                eligible_key((#[trigger] r[a]).archive_item),
                r[a].archive_item.id as int,
                eligible_key((#[trigger] r[b]).archive_item),
                r[b].archive_item.id as int,
            )
        &&& forall|i: int|
            0 <= i < self.items@.len() && is_disposal_candidate(#[trigger] self.items@[i], today)
                ==> exists|k: int| 0 <= k < r.len() && r[k].archive_item.id == i + 1
    }

    /// The items that may be disposed of on `today` (a `YYYY-MM-DD` date):
    /// not disposed, eligible on or before it, earliest first.
    pub fn get_disposal_candidates_as_of(&self, today: &str) -> (r: Vec<DisposalCandidate>)
        requires
            self.wf(),
        ensures
            self.candidates_listed(r@, today@),
    {
        let mut idx: Vec<usize> = Vec::new();
        let mut keys: Vec<String> = Vec::new();
        let mut i: usize = 0;
        while i < self.items.len()
            invariant
                self.wf(),
                0 <= i <= self.items@.len(),
                idx@.len() == keys@.len(),
                forall|k: int|
                    0 <= k < idx@.len() ==> {
                        &&& (#[trigger] idx@[k]) < i
                        &&& is_disposal_candidate(self.items@[idx@[k] as int], today@)
                        &&& keys@[k]@ == eligible_key(self.items@[idx@[k] as int])
                    },
                forall|a: int, b: int| 0 <= a < b < idx@.len() ==> (#[trigger] idx@[a]) < (#[trigger] idx@[b]),
                forall|m: int|
                    0 <= m < i && is_disposal_candidate(#[trigger] self.items@[m], today@) ==> exists|k: int|
                        0 <= k < idx@.len() && idx@[k] == m,
            decreases self.items@.len() - i,
        {
            let it = &self.items[i];
            let keep = match &it.disposal_eligible_date {
                Some(d) => !it.disposed && str_le(d.as_str(), today),
                None => false,
            };
            assert(keep == is_disposal_candidate(self.items@[i as int], today@));
            let ghost before = idx@;
            if keep {
                idx.push(i);
                match &it.disposal_eligible_date {
                    Some(d) => keys.push(d.clone()),
                    None => keys.push(String::new()),
                }
            }
            proof {
                assert forall|m: int|
                    0 <= m < i + 1 && is_disposal_candidate(#[trigger] self.items@[m], today@) implies exists|k: int|
                        0 <= k < idx@.len() && idx@[k] == m by {
                    if m == i {
                        assert(idx@ == before.push(i));
                        assert(idx@[idx@.len() - 1] == m);
                    } else {
                        let k = choose|k: int| 0 <= k < before.len() && before[k] == m;
                        assert(idx@[k] == m);
                    }
                }
            }
            i = i + 1;
        }
        let order = order_by_text(&keys);
        let mut out: Vec<DisposalCandidate> = Vec::new();
        let mut k: usize = 0;
        while k < order.len()
            invariant
                self.wf(),
                0 <= k <= order@.len(),
                order@.len() == keys@.len(),
                idx@.len() == keys@.len(),
                forall|a: int| 0 <= a < order@.len() ==> (#[trigger] order@[a]) < keys@.len(),
                forall|a: int|
                    0 <= a < idx@.len() ==> {
                        &&& (#[trigger] idx@[a]) < self.items@.len()
                        &&& is_disposal_candidate(self.items@[idx@[a] as int], today@)
                        &&& keys@[a]@ == eligible_key(self.items@[idx@[a] as int])
                    },
                out@.len() == k,
                forall|a: int|
                    0 <= a < k ==> {
                        let it = (#[trigger] out@[a]).archive_item;
                        &&& it.eqv(&self.items@[idx@[order@[a] as int] as int])
                        &&& self.employee_read(out@[a].employee, it.employee_id - 1)
                    },
            decreases order@.len() - k,
        {
            let ii = idx[order[k]];
            let item = self.items[ii].duplicate();
            assert(id_in(self.items@[ii as int].employee_id, self.employees@.len() as int));
            let employee = match self.get_employee_by_id(item.employee_id) {
                Ok(e) => e,
                Err(_) => {
                    proof {
                        assert(false);
                    }
                    return out;
                },
            };
            out.push(DisposalCandidate { archive_item: item, employee });
            k = k + 1;
        }
        proof {
            let r = out@;
            assert forall|a: int| 0 <= a < r.len() implies {
                let it = (#[trigger] r[a]).archive_item;
                &&& id_in(it.id, self.items@.len() as int)
                &&& it.eqv(&self.items@[it.id - 1])
                &&& is_disposal_candidate(it, today@)
                &&& self.employee_read(r[a].employee, it.employee_id - 1)
            } by {
                let ii = idx@[order@[a] as int] as int;
                assert(self.items@[ii].id == ii + 1);
            }
            assert forall|a: int, b: int| 0 <= a < b < r.len() implies keyed_before(
                eligible_key((#[trigger] r[a]).archive_item),
                r[a].archive_item.id as int,
                eligible_key((#[trigger] r[b]).archive_item),
                r[b].archive_item.id as int,
            ) by {
                let pa = order@[a] as int;
                let pb = order@[b] as int;
                assert(keyed_before(keys@[pa]@, pa, keys@[pb]@, pb));
                let ia = idx@[pa] as int;
                let ib = idx@[pb] as int;
                assert(self.items@[ia].id == ia + 1);
                assert(self.items@[ib].id == ib + 1);
                if pa < pb {
                    assert(idx@[pa] < idx@[pb]);
                } else if pb < pa {
                    assert(idx@[pb] < idx@[pa]);
                }
            }
            assert forall|m: int|
                0 <= m < self.items@.len() && is_disposal_candidate(#[trigger] self.items@[m], today@) implies exists|a: int|
                    0 <= a < r.len() && r[a].archive_item.id == m + 1 by {
                let p = choose|p: int| 0 <= p < idx@.len() && idx@[p] == m;
                assert(holds_index(order@, p));
                let a = choose|a: int| 0 <= a < order@.len() && order@[a] == p;
                assert(self.items@[m].id == m + 1);
                assert(r[a].archive_item.id == m + 1);
            }
        }
        out
    }

    /// The items that may be disposed of today, by the UTC clock; see
    /// [`Self::get_disposal_candidates_as_of`].
    pub fn get_disposal_candidates(&self) -> (r: Vec<DisposalCandidate>)
        requires
            self.wf(),
        ensures
            exists|today: Seq<char>| self.candidates_listed(r@, today),
    {
        let today = utc_today();
        self.get_disposal_candidates_as_of(today.as_str())
    }
}

/// Box `a` is listed before box `b`: a later year first, then by number.
pub open spec fn box_before(a: ArchiveBoxRecord, b: ArchiveBoxRecord) -> bool {
    a.year > b.year || (a.year == b.year && text_lt(a.box_number@, b.box_number@))
}

impl ArchiveDatabase {
    /// All boxes, latest year first and then by number.
    pub fn list_archive_boxes(&self) -> (r: Vec<ArchiveBoxRecord>)
        requires
            self.wf(),
        ensures
            r@.len() == self.boxes@.len(),
            forall|k: int|
                0 <= k < r@.len() ==> id_in((#[trigger] r@[k]).id, self.boxes@.len() as int)
                    && r@[k].eqv(&self.boxes@[r@[k].id - 1]),
            forall|a: int, b: int| 0 <= a < b < r@.len() ==> box_before(#[trigger] r@[a], #[trigger] r@[b]),
    {
        let mut idx: Vec<usize> = Vec::new();
        let mut i: usize = 0;
        while i < self.boxes.len()
            invariant
                self.wf(),
                0 <= i <= self.boxes@.len(),
                idx@.len() == i,
                forall|k: int| 0 <= k < idx@.len() ==> (#[trigger] idx@[k]) < i,
                forall|a: int, b: int| 0 <= a < b < idx@.len() ==> (#[trigger] idx@[a]) != (#[trigger] idx@[b]),
                forall|a: int, b: int|
                    0 <= a < b < idx@.len() ==> box_before(
                        self.boxes@[(#[trigger] idx@[a]) as int],
                        self.boxes@[(#[trigger] idx@[b]) as int],
                    ),
            decreases self.boxes@.len() - i,
        {
            let x = &self.boxes[i];
            let mut j: usize = 0;
            while j < idx.len() && (self.boxes[idx[j]].year > x.year || (self.boxes[idx[j]].year == x.year
                && str_lt(self.boxes[idx[j]].box_number.as_str(), x.box_number.as_str())))
                invariant
                    0 <= j <= idx@.len(),
                    i < self.boxes@.len(),
                    *x == self.boxes@[i as int],
                    forall|k: int| 0 <= k < idx@.len() ==> (#[trigger] idx@[k]) < i,
                    forall|k: int| 0 <= k < j ==> box_before(self.boxes@[(#[trigger] idx@[k]) as int], self.boxes@[i as int]),
                decreases idx@.len() - j,
            {
                j = j + 1;
            }
            let ghost old_idx = idx@;
            let ghost bx = self.boxes@[i as int];
            proof {
                assert forall|k: int| j <= k < old_idx.len() implies box_before(bx, self.boxes@[(#[trigger] old_idx[k]) as int]) by {
                    let y = self.boxes@[old_idx[j as int] as int];
                    let z = self.boxes@[old_idx[k] as int];
                    assert(y.box_number@ != bx.box_number@);
                    lemma_text_lt_total(y.box_number@, bx.box_number@);
                    assert(!box_before(y, bx));
                    assert(box_before(bx, y));
                    if k > j {
                        assert(box_before(y, z));
                        if bx.year == y.year && y.year == z.year {
                            lemma_text_lt_transitive(bx.box_number@, y.box_number@, z.box_number@);
                        }
                    }
                }
            }
            idx.insert(j, i);
            proof {
                assert forall|a: int, b: int| 0 <= a < b < idx@.len() implies box_before(
                    self.boxes@[(#[trigger] idx@[a]) as int],
                    self.boxes@[(#[trigger] idx@[b]) as int],
                ) by {
                    if b < j {
                        assert(idx@[a] == old_idx[a] && idx@[b] == old_idx[b]);
                    } else if b == j {
                        assert(idx@[a] == old_idx[a]);
                    } else if a < j {
                        assert(idx@[a] == old_idx[a] && idx@[b] == old_idx[b - 1]);
                        let p = self.boxes@[idx@[a] as int];
                        let q = self.boxes@[idx@[b] as int];
                        if p.year == bx.year && bx.year == q.year {
                            lemma_text_lt_transitive(p.box_number@, bx.box_number@, q.box_number@);
                        }
                    } else if a == j {
                        assert(idx@[b] == old_idx[b - 1]);
                    } else {
                        assert(idx@[a] == old_idx[a - 1] && idx@[b] == old_idx[b - 1]);
                    }
                }
                assert forall|a: int, b: int| 0 <= a < b < idx@.len() implies (#[trigger] idx@[a]) != (#[trigger] idx@[b]) by {
                    if a != j && b != j {
                        let oa = if a < j { a } else { a - 1 };
                        let ob = if b < j { b } else { b - 1 };
                        assert(idx@[a] == old_idx[oa] && idx@[b] == old_idx[ob]);
                    } else if a == j {
                        assert(idx@[b] == old_idx[b - 1]);
                    } else {
                        assert(idx@[a] == old_idx[a]);
                    }
                }
                assert forall|k: int| 0 <= k < idx@.len() implies (#[trigger] idx@[k]) < i + 1 by {
                    if k < j {
                        assert(idx@[k] == old_idx[k]);
                    } else if k > j {
                        assert(idx@[k] == old_idx[k - 1]);
                    }
                }
            }
            i = i + 1;
        }
        let mut out: Vec<ArchiveBoxRecord> = Vec::new();
        let mut k: usize = 0;
        while k < idx.len()
            invariant
                self.wf(),
                0 <= k <= idx@.len(),
                idx@.len() == self.boxes@.len(),
                forall|a: int| 0 <= a < idx@.len() ==> (#[trigger] idx@[a]) < self.boxes@.len(),
                out@.len() == k,
                forall|a: int| 0 <= a < k ==> (#[trigger] out@[a]).eqv(&self.boxes@[idx@[a] as int]),
            decreases idx@.len() - k,
        {
            out.push(self.boxes[idx[k]].duplicate());
            k = k + 1;
        }
        proof {
            assert forall|a: int| 0 <= a < out@.len() implies id_in((#[trigger] out@[a]).id, self.boxes@.len() as int)
                && out@[a].eqv(&self.boxes@[out@[a].id - 1]) by {
                assert(self.boxes@[idx@[a] as int].id == idx@[a] + 1);
            }
            assert forall|a: int, b: int| 0 <= a < b < out@.len() implies box_before(#[trigger] out@[a], #[trigger] out@[b]) by {
                assert(box_before(self.boxes@[idx@[a] as int], self.boxes@[idx@[b] as int]));
            }
        }
        out
    }
}

/// Some entry of `ids` names row `i`.
pub open spec fn names_row(ids: Seq<i64>, i: int) -> bool {
    exists|k: int| 0 <= k < ids.len() && ids[k] == i + 1
}

/// `n` is `o` disposed of on `date` under term `term`.
pub open spec fn disposed_as(o: ArchiveItemRecord, n: ArchiveItemRecord, date: Seq<char>, term: Seq<char>) -> bool {
    &&& n.disposed
    &&& opt_view(n.disposal_date) == Some(date)
    &&& opt_view(n.disposal_term_number) == Some(term)
    &&& n.id == o.id
    &&& n.employee_id == o.employee_id
    &&& n.box_id == o.box_id
    &&& n.transfer_date == o.transfer_date
    &&& n.disposal_eligible_date == o.disposal_eligible_date
    &&& n.transferred_by == o.transferred_by
    &&& n.created_at == o.created_at
}

impl ArchiveDatabase {
    /// Registers the disposal of the listed items, all or none: each is
    /// marked disposed, with one date and one term number, the one given or
    /// `TERMO-` and the time with `:` as `-`.
    #[verifier::spinoff_prover]
    pub fn register_disposal(&mut self, item_ids: &Vec<i64>, term_number: Option<&str>) -> (r: Result<
        DisposalTerm,
        ArchiveError,
    >)
        requires
            old(self).wf(),
        ensures
            r matches Err(e) ==> (e == ArchiveError::InvalidInput || e == ArchiveError::NotFound),
            final(self).wf(),
            r is Err ==> *final(self) == *old(self),
            r == Err::<DisposalTerm, ArchiveError>(ArchiveError::InvalidInput) <==> item_ids@.len() == 0,
            r == Err::<DisposalTerm, ArchiveError>(ArchiveError::NotFound) <==> (item_ids@.len() > 0
                && exists|k: int|
                0 <= k < item_ids@.len() && !id_in(#[trigger] item_ids@[k], old(self).items@.len() as int)),
            r matches Ok(t) ==> {
                &&& t.term_number@ == match term_number {
                    Some(s) => s@,
                    None => generated_term(t.generated_at@),
                }
                &&& t.generated_by@ == "Sistema"@
                &&& final(self).items@.len() == old(self).items@.len()
                &&& forall|i: int|
                    0 <= i < old(self).items@.len() ==> if names_row(item_ids@, i) {
                        disposed_as(
                            old(self).items@[i],
                            #[trigger] final(self).items@[i],
                            t.generated_at@,
                            t.term_number@,
                        )
                    } else {
                        final(self).items@[i] == old(self).items@[i]
                    }
                &&& t.items@.len() == item_ids@.len()
                &&& forall|k: int|
                    0 <= k < item_ids@.len() ==> (#[trigger] t.items@[k]).eqv(
                        &final(self).items@[item_ids@[k] - 1],
                    )
                &&& *final(self) == (ArchiveDatabase { items: final(self).items, ..*old(self) })
            },
    {
        if item_ids.len() == 0 {
            return Err(ArchiveError::InvalidInput);
        }
        let mut k: usize = 0;
        while k < item_ids.len()
            invariant
                *self == *old(self),
                self.wf(),
                0 <= k <= item_ids@.len(),
                forall|a: int| 0 <= a < k ==> id_in(#[trigger] item_ids@[a], self.items@.len() as int),
            decreases item_ids@.len() - k,
        {
            if item_ids[k] < 1 || item_ids[k] > self.items.len() as i64 {
                return Err(ArchiveError::NotFound);
            }
            k = k + 1;
        }
        let now = utc_now_rfc3339();
        let term = match term_number {
            Some(s) => s.to_string(),
            None => String::from_str("TERMO-").concat(replace_colons(now.as_str()).as_str()),
        };
        let ghost old_db = *self;
        let mut k: usize = 0;
        while k < item_ids.len()
            invariant
                old_db.wf(),
                *self == (ArchiveDatabase { items: self.items, ..old_db }),
                self.items@.len() == old_db.items@.len(),
                0 <= k <= item_ids@.len(),
                forall|a: int| 0 <= a < item_ids@.len() ==> id_in(#[trigger] item_ids@[a], self.items@.len() as int),
                forall|i: int|
                    0 <= i < self.items@.len() ==> if names_row(item_ids@.subrange(0, k as int), i) {
                        disposed_as(old_db.items@[i], #[trigger] self.items@[i], now@, term@)
                    } else {
                        self.items@[i] == old_db.items@[i]
                    },
            decreases item_ids@.len() - k,
        {
            let ii = (item_ids[k] - 1) as usize;
            self.items[ii].disposed = true;
            self.items[ii].disposal_date = Some(now.clone());
            self.items[ii].disposal_term_number = Some(term.clone());
            proof {
                let sub = item_ids@.subrange(0, k as int + 1);
                assert forall|i: int| 0 <= i < self.items@.len() implies if names_row(sub, i) {
                    disposed_as(old_db.items@[i], #[trigger] self.items@[i], now@, term@)
                } else {
                    self.items@[i] == old_db.items@[i]
                } by {
                    let prev = item_ids@.subrange(0, k as int);
                    if i == ii {
                        assert(sub[k as int] == i + 1);
                    } else {
                        if names_row(sub, i) {
                            let a = choose|a: int| 0 <= a < sub.len() && sub[a] == i + 1;
                            assert(a < k);
                            assert(prev[a] == i + 1);
                        }
                        if names_row(prev, i) {
                            let a = choose|a: int| 0 <= a < prev.len() && prev[a] == i + 1;
                            assert(sub[a] == i + 1);
                        }
                    }
                }
            }
            k = k + 1;
        }
        proof {
            assert(item_ids@.subrange(0, k as int) =~= item_ids@);
            let db = *self;
            assert forall|i: int| 0 <= i < db.items@.len() implies #[trigger] db.items@[i].id == i + 1 by {
                if names_row(item_ids@, i) {
                } else {
                }
            }
            assert forall|i: int| 0 <= i < db.items@.len() implies {
                &&& id_in((#[trigger] db.items@[i]).employee_id, db.employees@.len() as int)
                &&& id_in(db.items@[i].box_id, db.boxes@.len() as int)
            } by {
                assert(old_db.items@[i].employee_id == db.items@[i].employee_id);
            }
        }
        let mut out: Vec<ArchiveItemRecord> = Vec::new();
        let mut k: usize = 0;
        let ghost done = *self;
        while k < item_ids.len()
            invariant
                *self == done,
                self.items@.len() <= MAX_ROWS,
                0 <= k <= item_ids@.len(),
                forall|a: int| 0 <= a < item_ids@.len() ==> id_in(#[trigger] item_ids@[a], self.items@.len() as int),
                out@.len() == k,
                forall|a: int| 0 <= a < k ==> (#[trigger] out@[a]).eqv(&self.items@[item_ids@[a] - 1]),
            decreases item_ids@.len() - k,
        {
            assert(id_in(item_ids@[k as int], self.items@.len() as int));
            let ghost before = out@;
            let ii = (item_ids[k] - 1) as usize;
            let copy = self.items[ii].duplicate();
            assert(copy.eqv(&self.items@[item_ids@[k as int] - 1]));
            out.push(copy);
            assert forall|a: int| 0 <= a < k + 1 implies (#[trigger] out@[a]).eqv(
                &self.items@[item_ids@[a] - 1],
            ) by {
                if a < k {
                    assert(out@[a] == before[a]);
                    assert(before[a].eqv(&self.items@[item_ids@[a] - 1]));
                }
            }
            k = k + 1;
        }
        Ok(DisposalTerm { term_number: term, generated_at: now, items: out, generated_by: String::from_str("Sistema") })
    }
}

} // verus!
