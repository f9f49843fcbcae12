//! The occupancy views of the store: drawers with their fill, cabinets with
//! their totals, and the occupation map. All are recomputed on each call.
use vstd::prelude::*;

use crate::occupancy::{
    cabinet_bounded, drawer_bounded, drawer_fill_ok, map_of, sum_capacity, sum_occupied,
    DrawerWithOccupancy, FileCabinetWithOccupancy, OccupationMap, MAX_ROWS,
};
use crate::records::DrawerPositionRecord;
use crate::store::{id_in, ArchiveDatabase};
use crate::text::{lemma_text_lt_total, lemma_text_lt_transitive, str_lt, text_lt};

verus! {

/// Number of occupied positions of drawer `d`.
pub open spec fn occupied_count(ps: Seq<DrawerPositionRecord>, d: i64) -> int
    decreases ps.len(),
{
    if ps.len() == 0 {
        0
    } else {
        occupied_count(ps.drop_last(), d) + if ps.last().drawer_id == d && ps.last().is_occupied {
            1int
        } else {
            0int
        }
    }
}

proof fn lemma_occupied_count_bounded(ps: Seq<DrawerPositionRecord>, d: i64)
    ensures
        0 <= occupied_count(ps, d) <= ps.len(),
    decreases ps.len(),
{
    if ps.len() > 0 {
        lemma_occupied_count_bounded(ps.drop_last(), d);
    }
}

impl ArchiveDatabase {
    /// `ds` lists the drawers of cabinet `cabinet`, each exactly once, in
    /// increasing number, each with its count of occupied positions.
    pub open spec fn drawers_of(&self, cabinet: i64, ds: Seq<DrawerWithOccupancy>) -> bool {
        &&& forall|k: int|
            0 <= k < ds.len() ==> {
                let d = (#[trigger] ds[k]).drawer;
                &&& id_in(d.id, self.drawers@.len() as int)
                &&& self.drawers@[d.id - 1].file_cabinet_id == cabinet
                &&& drawer_fill_ok(
                    ds[k],
                    self.drawers@[d.id - 1],
                    occupied_count(self.positions@, d.id),
                )
            }
        &&& forall|k: int, l: int|
            0 <= k < l < ds.len() ==> (#[trigger] ds[k]).drawer.number < (#[trigger] ds[l]).drawer.number
        &&& forall|i: int|
            0 <= i < self.drawers@.len() && (#[trigger] self.drawers@[i]).file_cabinet_id == cabinet
                ==> exists|k: int| 0 <= k < ds.len() && #[trigger] ds[k].drawer.id == i + 1
    }

    /// Counts the occupied positions of drawer `d`.
    pub fn count_occupied(&self, d: i64) -> (r: i64)
        requires
            self.wf(),
        ensures
            r == occupied_count(self.positions@, d),
            0 <= r <= MAX_ROWS,
    {
        let mut n: i64 = 0;
        let mut j: usize = 0;
        while j < self.positions.len()
            invariant
                self.wf(),
                0 <= j <= self.positions@.len() <= MAX_ROWS,
                n == occupied_count(self.positions@.subrange(0, j as int), d),
                0 <= n <= j,
            decreases self.positions@.len() - j,
        {
            proof {
                let pre = self.positions@.subrange(0, j as int + 1);
                assert(pre.drop_last() =~= self.positions@.subrange(0, j as int));
            }
            if self.positions[j].drawer_id == d && self.positions[j].is_occupied {
                n = n + 1;
            }
            j = j + 1;
        }
        assert(self.positions@.subrange(0, j as int) =~= self.positions@);
        n
    }

    /// The drawers of cabinet `cabinet_id` in increasing number, with their
    /// fill.
    #[verifier::rlimit(60)]
    pub fn get_drawers_with_occupancy(&self, cabinet_id: i64) -> (r: Vec<DrawerWithOccupancy>)
        requires
            self.wf(),
        ensures
            self.drawers_of(cabinet_id, r@),
            r@.len() <= MAX_ROWS,
            forall|k: int| 0 <= k < r@.len() ==> drawer_bounded(#[trigger] r@[k]),
    {
        // Indices of the cabinet's drawers, in increasing number.
        let mut idx: Vec<usize> = Vec::new();
        let mut i: usize = 0;
        while i < self.drawers.len()
            invariant
                self.wf(),
                0 <= i <= self.drawers@.len(),
                idx@.len() <= i,
                forall|k: int|
                    0 <= k < idx@.len() ==> {
                        &&& (#[trigger] idx@[k]) < i
                        &&& self.drawers@[idx@[k] as int].file_cabinet_id == cabinet_id
                    },
                forall|k: int, l: int|
                    0 <= k < l < idx@.len() ==> self.drawers@[(#[trigger] idx@[k]) as int].number
                        < self.drawers@[(#[trigger] idx@[l]) as int].number,
                forall|m: int|
                    0 <= m < i && (#[trigger] self.drawers@[m]).file_cabinet_id == cabinet_id
                        ==> exists|k: int| 0 <= k < idx@.len() && idx@[k] == m,
            decreases self.drawers@.len() - i,
        {
            if self.drawers[i].file_cabinet_id == cabinet_id {
                let num = self.drawers[i].number;
                let mut j: usize = 0;
                while j < idx.len() && self.drawers[idx[j]].number < num
                    invariant
                        0 <= j <= idx@.len(),
                        forall|k: int| 0 <= k < idx@.len() ==> (#[trigger] idx@[k]) < i,
                        i < self.drawers@.len(),
                        num == self.drawers@[i as int].number,
                        forall|k: int|
                            0 <= k < j ==> self.drawers@[(#[trigger] idx@[k]) as int].number < num,
                    decreases idx@.len() - j,
                {
                    j = j + 1;
                }
                let ghost old_idx = idx@;
                proof {
                    assert forall|k: int| j <= k < old_idx.len() implies num < self.drawers@[(
                    #[trigger] old_idx[k]) as int].number by {
                        let a = old_idx[k] as int;
                        assert(self.drawers@[a].file_cabinet_id == cabinet_id);
                        assert(a < i);
                        assert(self.drawers@[a].number != num);
                        if k > j {
                            assert(self.drawers@[old_idx[j as int] as int].number < self.drawers@[a].number);
                        }
                    }
                }
                idx.insert(j, i);
                proof {
                    assert forall|k: int, l: int| 0 <= k < l < idx@.len() implies
                        self.drawers@[(#[trigger] idx@[k]) as int].number
                        < self.drawers@[(#[trigger] idx@[l]) as int].number by {
                        if l < j {
                            assert(idx@[k] == old_idx[k] && idx@[l] == old_idx[l]);
                        } else if l == j {
                            assert(idx@[k] == old_idx[k]);
                        } else if k < j {
                            assert(idx@[k] == old_idx[k] && idx@[l] == old_idx[l - 1]);
                        } else if k == j {
                            assert(idx@[l] == old_idx[l - 1]);
                        } else {
                            assert(idx@[k] == old_idx[k - 1] && idx@[l] == old_idx[l - 1]);
                        }
                    }
                    assert forall|m: int|
                        0 <= m < i + 1 && (#[trigger] self.drawers@[m]).file_cabinet_id == cabinet_id
                            implies exists|k: int| 0 <= k < idx@.len() && idx@[k] == m by {
                        if m == i {
                            assert(idx@[j as int] == m);
                        } else {
                            let k = choose|k: int| 0 <= k < old_idx.len() && old_idx[k] == m;
                            if k < j {
                                assert(idx@[k] == m);
                            } else {
                                assert(idx@[k + 1] == m);
                            }
                        }
                    }
                    assert forall|k: int| 0 <= k < idx@.len() implies {
                        &&& (#[trigger] idx@[k]) < i + 1
                        &&& self.drawers@[idx@[k] as int].file_cabinet_id == cabinet_id
                    } by {
                        if k < j {
                            assert(idx@[k] == old_idx[k]);
                        } else if k > j {
                            assert(idx@[k] == old_idx[k - 1]);
                        }
                    }
                }
            }
            i = i + 1;
        }
        let mut out: Vec<DrawerWithOccupancy> = Vec::new();
        let mut k: usize = 0;
        while k < idx.len()
            invariant
                self.wf(),
                0 <= k <= idx@.len() <= self.drawers@.len(),
                forall|a: int|
                    0 <= a < idx@.len() ==> {
                        &&& (#[trigger] idx@[a]) < self.drawers@.len()
                        &&& self.drawers@[idx@[a] as int].file_cabinet_id == cabinet_id
                    },
                forall|a: int, b: int|
                    0 <= a < b < idx@.len() ==> self.drawers@[(#[trigger] idx@[a]) as int].number
                        < self.drawers@[(#[trigger] idx@[b]) as int].number,
                out@.len() == k,
                forall|a: int|
                    0 <= a < k ==> {
                        &&& drawer_fill_ok(
                            #[trigger] out@[a],
                            self.drawers@[idx@[a] as int],
                            occupied_count(self.positions@, self.drawers@[idx@[a] as int].id),
                        )
                        &&& drawer_bounded(out@[a])
                    },
            decreases idx@.len() - k,
        {
            let d = &self.drawers[idx[k]];
            let n = self.count_occupied(d.id);
            out.push(DrawerWithOccupancy::new(d, n));
            k = k + 1;
        }
        proof {
            assert forall|a: int| 0 <= a < out@.len() implies {
                let d = (#[trigger] out@[a]).drawer;
                &&& id_in(d.id, self.drawers@.len() as int)
                &&& self.drawers@[d.id - 1].file_cabinet_id == cabinet_id
                &&& drawer_fill_ok(
                    out@[a],
                    self.drawers@[d.id - 1],
                    occupied_count(self.positions@, d.id),
                )
            } by {
                assert(self.drawers@[idx@[a] as int].id == idx@[a] + 1);
            }
            assert forall|a: int, b: int| 0 <= a < b < out@.len() implies
                (#[trigger] out@[a]).drawer.number < (#[trigger] out@[b]).drawer.number by {
                assert(self.drawers@[idx@[a] as int].number < self.drawers@[idx@[b] as int].number);
            }
            assert forall|m: int|
                0 <= m < self.drawers@.len() && (#[trigger] self.drawers@[m]).file_cabinet_id
                    == cabinet_id implies exists|a: int| 0 <= a < out@.len() && #[trigger] out@[a].drawer.id
                    == m + 1 by {
                let a = choose|a: int| 0 <= a < idx@.len() && idx@[a] == m;
                assert(out@[a].drawer.id == m + 1);
            }
        }
        out
    }

    /// `cs` lists the active cabinets, each exactly once, in increasing
    /// number, each totalled over exactly its own drawers.
    pub open spec fn cabinets_listed(&self, cs: Seq<FileCabinetWithOccupancy>) -> bool {
        &&& forall|k: int|
            0 <= k < cs.len() ==> {
                let c = (#[trigger] cs[k]).cabinet;
                &&& id_in(c.id, self.cabinets@.len() as int)
                &&& self.cabinets@[c.id - 1].is_active
                &&& c.eqv(&self.cabinets@[c.id - 1])
                &&& self.drawers_of(c.id, cs[k].drawers@)
                &&& cs[k].total_positions == sum_capacity(cs[k].drawers@)
                &&& cs[k].occupied_positions == sum_occupied(cs[k].drawers@)
            }
        &&& forall|k: int, l: int|
            0 <= k < l < cs.len() ==> text_lt(
                (#[trigger] cs[k]).cabinet.number@,
                (#[trigger] cs[l]).cabinet.number@,
            )
        &&& forall|i: int|
            0 <= i < self.cabinets@.len() && (#[trigger] self.cabinets@[i]).is_active ==> exists|k: int|
                0 <= k < cs.len() && #[trigger] cs[k].cabinet.id == i + 1
    }

    /// The active cabinets in increasing number, each with its drawers and
    /// totals.
    #[verifier::spinoff_prover]
    pub fn list_file_cabinets(&self) -> (r: Vec<FileCabinetWithOccupancy>)
        requires
            self.wf(),
        ensures
            self.cabinets_listed(r@),
            r@.len() <= MAX_ROWS,
            forall|k: int| 0 <= k < r@.len() ==> cabinet_bounded(#[trigger] r@[k]),
    {
        let mut idx: Vec<usize> = Vec::new();
        let mut i: usize = 0;
        while i < self.cabinets.len()
            invariant
                self.wf(),
                0 <= i <= self.cabinets@.len(),
                idx@.len() <= i,
                forall|k: int|
                    0 <= k < idx@.len() ==> {
                        &&& (#[trigger] idx@[k]) < i
                        &&& self.cabinets@[idx@[k] as int].is_active
                    },
                forall|k: int, l: int|
                    0 <= k < l < idx@.len() ==> text_lt(
                        self.cabinets@[(#[trigger] idx@[k]) as int].number@,
                        self.cabinets@[(#[trigger] idx@[l]) as int].number@,
                    ),
                forall|m: int|
                    0 <= m < i && (#[trigger] self.cabinets@[m]).is_active ==> exists|k: int|
                        0 <= k < idx@.len() && idx@[k] == m,
            decreases self.cabinets@.len() - i,
        {
            if self.cabinets[i].is_active {
                let mut j: usize = 0;
                while j < idx.len() && str_lt(
                    self.cabinets[idx[j]].number.as_str(),
                    self.cabinets[i].number.as_str(),
                )
                    invariant
                        0 <= j <= idx@.len(),
                        forall|k: int| 0 <= k < idx@.len() ==> (#[trigger] idx@[k]) < i,
                        i < self.cabinets@.len(),
                        forall|k: int|
                            0 <= k < j ==> text_lt(
                                self.cabinets@[(#[trigger] idx@[k]) as int].number@,
                                self.cabinets@[i as int].number@,
                            ),
                    decreases idx@.len() - j,
                {
                    j = j + 1;
                }
                let ghost old_idx = idx@;
                let ghost num = self.cabinets@[i as int].number@;
                proof {
                    assert forall|k: int| j <= k < old_idx.len() implies text_lt(
                        num,
                        self.cabinets@[(#[trigger] old_idx[k]) as int].number@,
                    ) by {
                        let a = old_idx[k] as int;
                        let b = old_idx[j as int] as int;
                        assert(self.cabinets@[a].number@ != num);
                        assert(self.cabinets@[b].number@ != num);
                        lemma_text_lt_total(self.cabinets@[b].number@, num);
                        if k > j {
                            assert(text_lt(self.cabinets@[b].number@, self.cabinets@[a].number@));
                            lemma_text_lt_transitive(num, self.cabinets@[b].number@, self.cabinets@[a].number@);
                        }
                    }
                }
                idx.insert(j, i);
                proof {
                    assert forall|k: int, l: int| 0 <= k < l < idx@.len() implies text_lt(
                        self.cabinets@[(#[trigger] idx@[k]) as int].number@,
                        self.cabinets@[(#[trigger] idx@[l]) as int].number@,
                    ) by {
                        if l < j {
                            assert(idx@[k] == old_idx[k] && idx@[l] == old_idx[l]);
                        } else if l == j {
                            assert(idx@[k] == old_idx[k]);
                        } else if k < j {
                            assert(idx@[k] == old_idx[k] && idx@[l] == old_idx[l - 1]);
                            lemma_text_lt_transitive(
                                self.cabinets@[idx@[k] as int].number@,
                                num,
                                self.cabinets@[idx@[l] as int].number@,
                            );
                        } else if k == j {
                            assert(idx@[l] == old_idx[l - 1]);
                        } else {
                            assert(idx@[k] == old_idx[k - 1] && idx@[l] == old_idx[l - 1]);
                        }
                    }
                    assert forall|m: int|
                        0 <= m < i + 1 && (#[trigger] self.cabinets@[m]).is_active implies exists|k: int|
                            0 <= k < idx@.len() && idx@[k] == m by {
                        if m == i {
                            assert(idx@[j as int] == m);
                        } else {
                            let k = choose|k: int| 0 <= k < old_idx.len() && old_idx[k] == m;
                            if k < j {
                                assert(idx@[k] == m);
                            } else {
                                assert(idx@[k + 1] == m);
                            }
                        }
                    }
                    assert forall|k: int| 0 <= k < idx@.len() implies {
                        &&& (#[trigger] idx@[k]) < i + 1
                        &&& self.cabinets@[idx@[k] as int].is_active
                    } by {
                        if k < j {
                            assert(idx@[k] == old_idx[k]);
                        } else if k > j {
                            assert(idx@[k] == old_idx[k - 1]);
                        }
                    }
                }
            }
            i = i + 1;
        }
        let mut out: Vec<FileCabinetWithOccupancy> = Vec::new();
        let mut k: usize = 0;
        while k < idx.len()
            invariant
                self.wf(),
                0 <= k <= idx@.len() <= self.cabinets@.len(),
                forall|a: int|
                    0 <= a < idx@.len() ==> {
                        &&& (#[trigger] idx@[a]) < self.cabinets@.len()
                        &&& self.cabinets@[idx@[a] as int].is_active
                    },
                forall|a: int, b: int|
                    0 <= a < b < idx@.len() ==> text_lt(
                        self.cabinets@[(#[trigger] idx@[a]) as int].number@,
                        self.cabinets@[(#[trigger] idx@[b]) as int].number@,
                    ),
                out@.len() == k,
                forall|a: int|
                    0 <= a < k ==> {
                        let c = (#[trigger] out@[a]).cabinet;
                        &&& c.eqv(&self.cabinets@[idx@[a] as int])
                        &&& self.drawers_of(c.id, out@[a].drawers@)
                        &&& out@[a].total_positions == sum_capacity(out@[a].drawers@)
                        &&& out@[a].occupied_positions == sum_occupied(out@[a].drawers@)
                        &&& cabinet_bounded(out@[a])
                    },
            decreases idx@.len() - k,
        {
            let c = &self.cabinets[idx[k]];
            let drawers = self.get_drawers_with_occupancy(c.id);
            out.push(FileCabinetWithOccupancy::summarize(c.duplicate(), drawers));
            k = k + 1;
        }
        proof {
            assert forall|a: int| 0 <= a < out@.len() implies {
                let c = (#[trigger] out@[a]).cabinet;
                &&& id_in(c.id, self.cabinets@.len() as int)
                &&& self.cabinets@[c.id - 1].is_active
                &&& c.eqv(&self.cabinets@[c.id - 1])
            } by {
                assert(self.cabinets@[idx@[a] as int].id == idx@[a] + 1);
            }
            assert forall|a: int, b: int| 0 <= a < b < out@.len() implies text_lt(
                (#[trigger] out@[a]).cabinet.number@,
                (#[trigger] out@[b]).cabinet.number@,
            ) by {
                assert(text_lt(
                    self.cabinets@[idx@[a] as int].number@,
                    self.cabinets@[idx@[b] as int].number@,
                ));
            }
            assert forall|m: int|
                0 <= m < self.cabinets@.len() && (#[trigger] self.cabinets@[m]).is_active implies exists|a: int|
                    0 <= a < out@.len() && #[trigger] out@[a].cabinet.id == m + 1 by {
                let a = choose|a: int| 0 <= a < idx@.len() && idx@[a] == m;
                assert(out@[a].cabinet.id == m + 1);
            }
        }
        out
    }

    /// The occupation map: the active cabinets in increasing number, each
    /// classified by its rate, and the system-wide totals.
    pub fn get_occupation_map(&self) -> (r: OccupationMap)
        requires
            self.wf(),
        ensures
            exists|cs: Seq<FileCabinetWithOccupancy>| self.cabinets_listed(cs) && map_of(r, cs),
    {
        let cabinets = self.list_file_cabinets();
        let ghost cs = cabinets@;
        let r = OccupationMap::build(cabinets);
        assert(self.cabinets_listed(cs) && map_of(r, cs));
        r
    }
}

} // verus!
