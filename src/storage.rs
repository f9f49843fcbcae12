//! The general register of storage units and the log of movements, with
//! the snapshot of counts shown at login.
use vstd::prelude::*;

use crate::clock::{trim_of, trimmed, upper_of, uppercased, utc_now_rfc3339, utc_today};
use crate::occupancy::MAX_ROWS;
use crate::payloads::{MovementData, StoragePayload};
use crate::records::{MovementRecord, StorageUnitRecord};
use crate::reports::{MovementsReport, SnapshotSummary};
use crate::store::{id_in, ArchiveDatabase, ArchiveError};
use crate::text::{clone_opt, opt_view, str_eq, tally, tally_of, texts};

verus! {

/// The unit types every snapshot lists, in order.
pub open spec fn usual_kinds() -> Seq<Seq<char>> {
    seq!["PASTA"@, "ENVELOPE"@, "GAVETEIRO"@, "CAIXA"@]
}

/// A section as stored: trimmed, and absent when nothing is left.
pub open spec fn section_of(s: Option<String>) -> Option<Seq<char>> {
    match s {
        Some(t) => if trim_of(t@).len() == 0 {
            None
        } else {
            Some(trim_of(t@))
        },
        None => None,
    }
}

/// Movement `m` was recorded on `today`: its time starts with it.
pub open spec fn recorded_on(m: MovementRecord, today: Seq<char>) -> bool {
    today.len() <= m.created_at@.len() && m.created_at@.take(today.len() as int) == today
}

/// Number of movements of `ms` recorded on `today`.
pub open spec fn count_recorded_on(ms: Seq<MovementRecord>, today: Seq<char>) -> int
    decreases ms.len(),
{
    if ms.len() == 0 {
        0
    } else {
        count_recorded_on(ms.drop_last(), today) + if recorded_on(ms.last(), today) {
            1int
        } else {
            0int
        }
    }
}

/// The number of newest rows a listing limited to `limit` returns out of
/// `len`; a negative limit returns all.
pub open spec fn limited(len: int, limit: int) -> int {
    if limit < 0 || limit >= len {
        len
    } else {
        limit
    }
}

impl ArchiveDatabase {
    /// Registers a storage unit: label trimmed, type trimmed and in upper
    /// case, section trimmed (none when empty), capacity 0 unless given and
    /// never negative, occupancy 0.
    pub fn create_storage_unit(&mut self, payload: StoragePayload) -> (r: Result<StorageUnitRecord, ArchiveError>)
        requires
            old(self).wf(),
        ensures
            r matches Err(e) ==> (e == ArchiveError::InvalidInput || e == ArchiveError::StorageFailure),
            final(self).wf(),
            r is Err ==> *final(self) == *old(self),
            r == Err::<StorageUnitRecord, ArchiveError>(ArchiveError::InvalidInput) <==> (payload.capacity matches Some(c) && c < 0),
            r == Err::<StorageUnitRecord, ArchiveError>(ArchiveError::StorageFailure) <==> (!(payload.capacity matches Some(c) && c < 0)
                && old(self).units@.len() >= MAX_ROWS),
            r matches Ok(u) ==> {
                &&& u.id == old(self).units@.len() + 1
                &&& final(self).units@.drop_last() == old(self).units@
                &&& final(self).units@.last().eqv(&u)
                &&& u.label@ == trim_of(payload.label@)
                &&& u.kind@ == upper_of(trim_of(payload.kind@))
                &&& opt_view(u.section) == section_of(payload.section)
                &&& u.capacity == payload.capacity.unwrap_or(0)
                &&& u.occupancy == 0
                &&& opt_view(u.metadata) == opt_view(payload.metadata)
                &&& u.created_at@ == u.updated_at@
                &&& *final(self) == (ArchiveDatabase { units: final(self).units, ..*old(self) })
            },
    {
        let capacity = match payload.capacity {
            Some(c) => c,
            None => 0,
        };
        if capacity < 0 {
            return Err(ArchiveError::InvalidInput);
        }
        if self.units.len() >= MAX_ROWS as usize {
            return Err(ArchiveError::StorageFailure);
        }
        let kind = uppercased(trimmed(payload.kind.as_str()).as_str());
        let section = match &payload.section {
            Some(s) => {
                let t = trimmed(s.as_str());
                if t.as_str().unicode_len() == 0 {
                    None
                } else {
                    Some(t)
                }
            },
            None => None,
        };
        let now = utc_now_rfc3339();
        let rec = StorageUnitRecord {
            id: self.units.len() as i64 + 1,
            label: trimmed(payload.label.as_str()),
            kind,
            section,
            capacity,
            occupancy: 0,
            metadata: payload.metadata,
            created_at: now.clone(),
            updated_at: now,
        };
        let out = rec.duplicate();
        let ghost old_db = *self;
        self.units.push(rec);
        assert(self.units@.drop_last() =~= old_db.units@);
        Ok(out)
    }

    /// Reads storage unit `id`.
    pub fn get_storage_unit(&self, id: i64) -> (r: Result<StorageUnitRecord, ArchiveError>)
        requires
            self.wf(),
        ensures
            !id_in(id, self.units@.len() as int) <==> r == Err::<StorageUnitRecord, ArchiveError>(
                ArchiveError::NotFound,
            ),
            r matches Err(e) ==> e == ArchiveError::NotFound,
            r matches Ok(u) ==> u.eqv(&self.units@[id - 1]),
    {
        if id < 1 || id > self.units.len() as i64 {
            return Err(ArchiveError::NotFound);
        }
        Ok(self.units[(id - 1) as usize].duplicate())
    }

    /// Reads movement `id`.
    pub fn get_movement(&self, id: i64) -> (r: Result<MovementRecord, ArchiveError>)
        requires
            self.wf(),
        ensures
            !id_in(id, self.movements@.len() as int) <==> r == Err::<MovementRecord, ArchiveError>(
                ArchiveError::NotFound,
            ),
            r matches Err(e) ==> e == ArchiveError::NotFound,
            r matches Ok(m) ==> m.eqv(&self.movements@[id - 1]),
    {
        if id < 1 || id > self.movements.len() as i64 {
            return Err(ArchiveError::NotFound);
        }
        Ok(self.movements[(id - 1) as usize].duplicate())
    }

    /// All storage units, most recently changed first. Units are not
    /// changed after they are made, so this is highest id first.
    pub fn list_storage_units(&self) -> (r: Vec<StorageUnitRecord>)
        requires
            self.wf(),
        ensures
            r@.len() == self.units@.len(),
            forall|k: int| 0 <= k < r@.len() ==> (#[trigger] r@[k]).eqv(&self.units@[self.units@.len() - 1 - k]),
    {
        let n = self.units.len();
        let mut out: Vec<StorageUnitRecord> = Vec::new();
        let mut k: usize = 0;
        while k < n
            invariant
                n == self.units@.len(),
                0 <= k <= n,
                out@.len() == k,
                forall|a: int| 0 <= a < k ==> (#[trigger] out@[a]).eqv(&self.units@[n - 1 - a]),
            decreases n - k,
        {
            out.push(self.units[n - 1 - k].duplicate());
            k = k + 1;
        }
        out
    }

    /// Records a movement by `actor`, with the action trimmed, dated now.
    pub fn record_movement(&mut self, actor: &str, payload: &MovementData) -> (r: Result<MovementRecord, ArchiveError>)
        requires
            old(self).wf(),
        ensures
            final(self).wf(),
            r is Err ==> *final(self) == *old(self),
            r is Err <==> old(self).movements@.len() >= MAX_ROWS,
            r matches Ok(m) ==> {
                &&& m.id == old(self).movements@.len() + 1
                &&& final(self).movements@.drop_last() == old(self).movements@
                &&& final(self).movements@.last().eqv(&m)
                &&& opt_view(m.reference) == opt_view(payload.reference)
                &&& opt_view(m.item_label) == opt_view(payload.item_label)
                &&& opt_view(m.from_unit) == opt_view(payload.from_unit)
                &&& opt_view(m.to_unit) == opt_view(payload.to_unit)
                &&& m.action@ == trim_of(payload.action@)
                &&& opt_view(m.note) == opt_view(payload.note)
                &&& m.actor@ == actor@
                &&& *final(self) == (ArchiveDatabase { movements: final(self).movements, ..*old(self) })
            },
    {
        if self.movements.len() >= MAX_ROWS as usize {
            return Err(ArchiveError::StorageFailure);
        }
        let rec = MovementRecord {
            id: self.movements.len() as i64 + 1,
            reference: clone_opt(&payload.reference),
            item_label: clone_opt(&payload.item_label),
            from_unit: clone_opt(&payload.from_unit),
            to_unit: clone_opt(&payload.to_unit),
            action: trimmed(payload.action.as_str()),
            note: clone_opt(&payload.note),
            actor: actor.to_string(),
            created_at: utc_now_rfc3339(),
        };
        let out = rec.duplicate();
        let ghost old_db = *self;
        self.movements.push(rec);
        assert(self.movements@.drop_last() =~= old_db.movements@);
        Ok(out)
    }

    /// The newest `limit` movements, newest first; all of them when `limit`
    /// is negative. Movements are dated when recorded, so newest first is
    /// highest id first.
    pub fn list_movements(&self, limit: i64) -> (r: Vec<MovementRecord>)
        requires
            self.wf(),
        ensures
            r@.len() == limited(self.movements@.len() as int, limit as int),
            forall|k: int|
                0 <= k < r@.len() ==> (#[trigger] r@[k]).eqv(&self.movements@[self.movements@.len() - 1 - k]),
    {
        let n = self.movements.len();
        let count: usize = if limit < 0 || limit as i128 >= n as i128 {
            n
        } else {
            limit as usize
        };
        let mut out: Vec<MovementRecord> = Vec::new();
        let mut k: usize = 0;
        while k < count
            invariant
                n == self.movements@.len(),
                count <= n,
                0 <= k <= count,
                out@.len() == k,
                forall|a: int| 0 <= a < k ==> (#[trigger] out@[a]).eqv(&self.movements@[n - 1 - a]),
            decreases count - k,
        {
            out.push(self.movements[n - 1 - k].duplicate());
            k = k + 1;
        }
        out
    }

    /// The counts shown at login, on `today` (a `YYYY-MM-DD` date): units
    /// in all and per type, movements recorded that day, and the last one.
    pub fn snapshot_as_of(&self, today: &str) -> (r: SnapshotSummary)
        requires
            self.wf(),
        ensures
            r.total_units == self.units@.len(),
            tally_of(
                r.units_by_type@,
                usual_kinds(),
                self.units@.map_values(|u: StorageUnitRecord| u.kind@),
            ),
            r.movements_today == count_recorded_on(self.movements@, today@),
            r.last_movement is None <==> self.movements@.len() == 0,
            r.last_movement matches Some(m) ==> m.eqv(&self.movements@.last()),
    {
        let mut seeds: Vec<String> = Vec::new();
        seeds.push(String::from_str("PASTA"));
        seeds.push(String::from_str("ENVELOPE"));
        seeds.push(String::from_str("GAVETEIRO"));
        seeds.push(String::from_str("CAIXA"));
        proof {
            reveal_strlit("PASTA");
            reveal_strlit("ENVELOPE");
            reveal_strlit("GAVETEIRO");
            reveal_strlit("CAIXA");
            assert(seeds@[0]@ == "PASTA"@ && seeds@[1]@ == "ENVELOPE"@);
            assert(seeds@[2]@ == "GAVETEIRO"@ && seeds@[3]@ == "CAIXA"@);
            assert("PASTA"@[0] != "CAIXA"@[0]);
            assert(seeds@[0]@ != seeds@[3]@);
            assert(seeds@[0]@.len() != seeds@[1]@.len() && seeds@[0]@.len() != seeds@[2]@.len());
            assert(seeds@[1]@.len() != seeds@[2]@.len() && seeds@[1]@.len() != seeds@[3]@.len());
            assert(seeds@[2]@.len() != seeds@[3]@.len());
            assert(texts(seeds@) =~= usual_kinds());
        }
        let mut kinds: Vec<String> = Vec::new();
        let mut i: usize = 0;
        while i < self.units.len()
            invariant
                self.wf(),
                0 <= i <= self.units@.len(),
                kinds@.len() == i,
                forall|k: int| 0 <= k < i ==> (#[trigger] kinds@[k])@ == self.units@[k].kind@,
            decreases self.units@.len() - i,
        {
            kinds.push(self.units[i].kind.clone());
            i = i + 1;
        }
        assert(texts(kinds@) =~= self.units@.map_values(|u: StorageUnitRecord| u.kind@));
        let by_type = tally(&seeds, &kinds);
        let n = today.unicode_len();
        let mut today_count: i64 = 0;
        let mut j: usize = 0;
        while j < self.movements.len()
            invariant
                self.wf(),
                n == today@.len(),
                0 <= j <= self.movements@.len(),
                today_count == count_recorded_on(self.movements@.subrange(0, j as int), today@),
                0 <= today_count <= j,
            decreases self.movements@.len() - j,
        {
            assert(self.movements@.subrange(0, j + 1).drop_last() =~= self.movements@.subrange(0, j as int));
            let c = self.movements[j].created_at.as_str();
            let hit = if n <= c.unicode_len() {
                let head = c.substring_char(0, n);
                assert(head@ == c@.take(n as int));
                str_eq(head, today)
            } else {
                false
            };
            if hit {
                today_count = today_count + 1;
            }
            j = j + 1;
        }
        assert(self.movements@.subrange(0, j as int) =~= self.movements@);
        let last = if self.movements.len() == 0 {
            None
        } else {
            Some(self.movements[self.movements.len() - 1].duplicate())
        };
        SnapshotSummary {
            total_units: self.units.len() as i64,
            units_by_type: by_type,
            movements_today: today_count,
            last_movement: last,
        }
    }

    /// The snapshot on today's UTC date; see [`Self::snapshot_as_of`].
    pub fn snapshot(&self) -> (r: SnapshotSummary)
        requires
            self.wf(),
        ensures
            r.total_units == self.units@.len(),
            tally_of(
                r.units_by_type@,
                usual_kinds(),
                self.units@.map_values(|u: StorageUnitRecord| u.kind@),
            ),
            exists|today: Seq<char>| r.movements_today == #[trigger] count_recorded_on(self.movements@, today),
            r.last_movement is None <==> self.movements@.len() == 0,
    {
        let today = utc_today();
        self.snapshot_as_of(today.as_str())
    }

    /// The movements report: how many there are, how many per action, and
    /// the newest `limit`.
    pub fn get_movements_report(&self, limit: i64) -> (r: MovementsReport)
        requires
            self.wf(),
        ensures
            r.total_movements == self.movements@.len(),
            tally_of(
                r.by_action@,
                Seq::empty(),
                self.movements@.map_values(|m: MovementRecord| m.action@),
            ),
            r.latest@.len() == limited(self.movements@.len() as int, limit as int),
            forall|k: int|
                0 <= k < r.latest@.len() ==> (#[trigger] r.latest@[k]).eqv(
                    &self.movements@[self.movements@.len() - 1 - k],
                ),
    {
        let mut actions: Vec<String> = Vec::new();
        let mut i: usize = 0;
        while i < self.movements.len()
            invariant
                self.wf(),
                0 <= i <= self.movements@.len(),
                actions@.len() == i,
                forall|k: int| 0 <= k < i ==> (#[trigger] actions@[k])@ == self.movements@[k].action@,
            decreases self.movements@.len() - i,
        {
            actions.push(self.movements[i].action.clone());
            i = i + 1;
        }
        assert(texts(actions@) =~= self.movements@.map_values(|m: MovementRecord| m.action@));
        let none: Vec<String> = Vec::new();
        assert(texts(none@) =~= Seq::<Seq<char>>::empty());
        MovementsReport {
            total_movements: self.movements.len() as i64,
            by_action: tally(&none, &actions),
            latest: self.list_movements(limit),
        }
    }
}

} // verus!
