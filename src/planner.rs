//! The reorganization planner run over the store: which drawers are
//! critical, which can take folders, and whom to move.
use vstd::prelude::*;

use crate::labels::{drawer_label, drawer_label_text};
use crate::occupancy::MAX_ROWS;
use crate::occupation::occupied_count;
use crate::records::EmployeeRecord;
use crate::reorganization::{
    clamp_moves, clamp_threshold, load_ok, loads_sorted, plan_moves, plan_of, sort_loads,
    DrawerLoad, MoveCandidate, ReorganizationPlan, ReorganizationSuggestion, AVAILABLE_RATE, MOVES_PER_DRAWER,
};
use crate::store::{id_in, ArchiveDatabase};

verus! {

broadcast use vstd::seq_lib::to_multiset_contains;

impl ArchiveDatabase {
    /// The load of drawer row `i`.
    pub open spec fn load_of(&self, i: int) -> DrawerLoad {
        DrawerLoad {
            index: i as usize,
            occupied: occupied_count(self.positions@, self.drawers@[i].id) as i64,
            capacity: self.drawers@[i].capacity,
        }
    }

    /// A load at or above `threshold` percent.
    pub open spec fn is_critical_load(l: DrawerLoad, threshold: int) -> bool {
        l.occupied * 100 >= threshold * l.capacity
    }

    /// A load below the rate at which a drawer can take folders.
    pub open spec fn is_available_load(l: DrawerLoad) -> bool {
        l.occupied * 100 < AVAILABLE_RATE * l.capacity
    }

    /// `s` holds the loads of exactly the drawers that `critical` (else
    /// available) selects, in the planner's order.
    pub open spec fn loads_chosen(
        &self,
        s: Seq<DrawerLoad>,
        critical: bool,
        threshold: int,
    ) -> bool {
        &&& loads_sorted(s, critical)
        &&& forall|k: int|
            0 <= k < s.len() ==> {
                &&& (#[trigger] s[k]).index < self.drawers@.len()
                &&& s[k] == self.load_of(s[k].index as int)
                &&& if critical {
                    Self::is_critical_load(s[k], threshold)
                } else {
                    Self::is_available_load(s[k])
                }
            }
        &&& forall|i: int|
            0 <= i < self.drawers@.len() && (if critical {
                Self::is_critical_load(#[trigger] self.load_of(i), threshold)
            } else {
                Self::is_available_load(self.load_of(i))
            }) ==> exists|k: int| 0 <= k < s.len() && s[k].index == i
    }

    /// Employee `e` is filed in drawer `d`, by its own position reference.
    pub open spec fn in_drawer(&self, e: EmployeeRecord, d: i64) -> bool {
        &&& e.drawer_position_id matches Some(p)
        &&& id_in(p, self.positions@.len() as int)
        &&& self.positions@[p - 1].drawer_id == d
    }

    /// The employees of `es` filed in drawer `d`, in order.
    pub open spec fn occupants(&self, es: Seq<EmployeeRecord>, d: i64) -> Seq<EmployeeRecord>
        decreases es.len(),
    {
        if es.len() == 0 {
            Seq::empty()
        } else {
            let pre = self.occupants(es.drop_last(), d);
            if self.in_drawer(es.last(), d) {
                pre.push(es.last())
            } else {
                pre
            }
        }
    }

    /// The employees taken from drawer row `i`: the first three filed there.
    pub open spec fn movable(&self, i: int) -> Seq<EmployeeRecord> {
        let o = self.occupants(self.employees@, self.drawers@[i].id);
        if o.len() <= MOVES_PER_DRAWER {
            o
        } else {
            o.take(MOVES_PER_DRAWER as int)
        }
    }

    /// The label of drawer row `i`.
    pub open spec fn label_of(&self, i: int) -> Seq<char> {
        let d = self.drawers@[i];
        drawer_label_text(self.cabinets@[d.file_cabinet_id - 1].number@, d.number as int)
    }

    /// The employees to move, with the drawer row each leaves, in the order
    /// of the critical drawers.
    pub open spec fn sources(&self, crit: Seq<DrawerLoad>) -> Seq<(EmployeeRecord, int)>
        decreases crit.len(),
    {
        if crit.len() == 0 {
            Seq::empty()
        } else {
            let i = crit.last().index as int;
            self.sources(crit.drop_last()) + self.movable(i).map_values(
                |e: EmployeeRecord| (e, i),
            )
        }
    }

    /// The candidate list stands for the sources, one for one.
    pub open spec fn candidates_of(&self, cands: Seq<MoveCandidate>, srcs: Seq<(EmployeeRecord, int)>) -> bool {
        &&& cands.len() == srcs.len()
        &&& forall|k: int|
            0 <= k < cands.len() ==> {
                &&& (#[trigger] cands[k]).employee_id == srcs[k].0.id
                &&& cands[k].employee_name@ == srcs[k].0.full_name@
                &&& cands[k].from_drawer@ == self.label_of(srcs[k].1)
            }
    }

    /// The targets are the labels of the available drawers, in order.
    pub open spec fn targets_of(&self, targets: Seq<String>, avail: Seq<DrawerLoad>) -> bool {
        &&& targets.len() == avail.len()
        &&& forall|k: int| 0 <= k < targets.len() ==> (#[trigger] targets[k])@ == self.label_of(avail[k].index as int)
    }

    /// The load of every drawer, in table order.
    fn drawer_loads(&self) -> (r: Vec<DrawerLoad>)
        requires
            self.wf(),
        ensures
            r@.len() == self.drawers@.len(),
            forall|i: int| 0 <= i < r@.len() ==> #[trigger] r@[i] == self.load_of(i) && load_ok(r@[i]),
    {
        let mut out: Vec<DrawerLoad> = Vec::new();
        let mut i: usize = 0;
        while i < self.drawers.len()
            invariant
                self.wf(),
                0 <= i <= self.drawers@.len(),
                out@.len() == i,
                forall|k: int| 0 <= k < i ==> #[trigger] out@[k] == self.load_of(k) && load_ok(out@[k]),
            decreases self.drawers@.len() - i,
        {
            assert(id_in(self.drawers@[i as int].file_cabinet_id, self.cabinets@.len() as int));
            let n = self.count_occupied(self.drawers[i].id);
            out.push(DrawerLoad { index: i, occupied: n, capacity: self.drawers[i].capacity });
            i = i + 1;
        }
        out
    }

    /// The loads that `critical` (else available) selects, in table order.
    fn select_loads(&self, loads: &Vec<DrawerLoad>, critical: bool, threshold: i64) -> (r: Vec<DrawerLoad>)
        requires
            self.wf(),
            0 <= threshold <= 100,
            loads@.len() == self.drawers@.len(),
            forall|i: int| 0 <= i < loads@.len() ==> #[trigger] loads@[i] == self.load_of(i) && load_ok(loads@[i]),
        ensures
            forall|k: int|
                0 <= k < r@.len() ==> {
                    &&& (#[trigger] r@[k]).index < self.drawers@.len()
                    &&& r@[k] == self.load_of(r@[k].index as int)
                    &&& load_ok(r@[k])
                    &&& if critical {
                        Self::is_critical_load(r@[k], threshold as int)
                    } else {
                        Self::is_available_load(r@[k])
                    }
                },
            forall|a: int, b: int| 0 <= a < b < r@.len() ==> (#[trigger] r@[a]).index < (#[trigger] r@[b]).index,
            forall|i: int|
                0 <= i < self.drawers@.len() && (if critical {
                    Self::is_critical_load(#[trigger] self.load_of(i), threshold as int)
                } else {
                    Self::is_available_load(self.load_of(i))
                }) ==> exists|k: int| 0 <= k < r@.len() && r@[k].index == i,
    {
        let mut out: Vec<DrawerLoad> = Vec::new();
        let mut i: usize = 0;
        while i < loads.len()
            invariant
                self.wf(),
                0 <= threshold <= 100,
                0 <= i <= loads@.len(),
                loads@.len() == self.drawers@.len(),
                forall|j: int| 0 <= j < loads@.len() ==> #[trigger] loads@[j] == self.load_of(j) && load_ok(loads@[j]),
                forall|k: int|
                    0 <= k < out@.len() ==> {
                        &&& (#[trigger] out@[k]).index < i
                        &&& out@[k] == self.load_of(out@[k].index as int)
                        &&& load_ok(out@[k])
                        &&& if critical {
                            Self::is_critical_load(out@[k], threshold as int)
                        } else {
                            Self::is_available_load(out@[k])
                        }
                    },
                forall|a: int, b: int| 0 <= a < b < out@.len() ==> (#[trigger] out@[a]).index < (#[trigger] out@[b]).index,
                forall|j: int|
                    0 <= j < i && (if critical {
                        Self::is_critical_load(#[trigger] self.load_of(j), threshold as int)
                    } else {
                        Self::is_available_load(self.load_of(j))
                    }) ==> exists|k: int| 0 <= k < out@.len() && out@[k].index == j,
            decreases loads@.len() - i,
        {
            let l = loads[i];
            assert(l == self.load_of(i as int) && load_ok(l));
            assert(l.index == i);
            assert(0 <= threshold * l.capacity <= 20000) by (nonlinear_arith)
                requires
                    0 <= threshold <= 100,
                    0 < l.capacity <= 200,
            ;
            let scaled = l.occupied * 100;
            let keep = if critical {
                scaled >= threshold * l.capacity
            } else {
                scaled < AVAILABLE_RATE * l.capacity
            };
            assert(keep == (if critical {
                Self::is_critical_load(self.load_of(i as int), threshold as int)
            } else {
                Self::is_available_load(self.load_of(i as int))
            }));
            let ghost before = out@;
            if keep {
                out.push(l);
                proof {
                    assert(out@[out@.len() - 1].index == i);
                }
            }
            proof {
                assert forall|j: int|
                    0 <= j < i + 1 && (if critical {
                        Self::is_critical_load(#[trigger] self.load_of(j), threshold as int)
                    } else {
                        Self::is_available_load(self.load_of(j))
                    }) implies exists|k: int| 0 <= k < out@.len() && out@[k].index == j by {
                    if j == i {
                        assert(keep);
                        assert(out@ == before.push(l));
                        assert(out@[out@.len() - 1].index == j);
                    } else {
                        let k = choose|k: int| 0 <= k < before.len() && before[k].index == j;
                        assert(out@[k] == before[k]);
                    }
                }
            }
            i = i + 1;
        }
        out
    }

    proof fn lemma_occupants_prefix(&self, es: Seq<EmployeeRecord>, j: int, d: i64)
        requires
            0 <= j <= es.len(),
        ensures
            self.occupants(es.subrange(0, j), d).len() <= self.occupants(es, d).len(),
            self.occupants(es, d).subrange(0, self.occupants(es.subrange(0, j), d).len() as int)
                == self.occupants(es.subrange(0, j), d),
        decreases es.len(),
    {
        if j == es.len() {
            assert(es.subrange(0, j) =~= es);
            assert(self.occupants(es, d).subrange(0, self.occupants(es, d).len() as int) =~= self.occupants(es, d));
        } else {
            let p = es.drop_last();
            assert(es.subrange(0, j) =~= p.subrange(0, j));
            self.lemma_occupants_prefix(p, j, d);
            let a = self.occupants(p.subrange(0, j), d);
            let b = self.occupants(p, d);
            if self.in_drawer(es.last(), d) {
                assert(self.occupants(es, d) == b.push(es.last()));
                assert(b.push(es.last()).subrange(0, a.len() as int) =~= b.subrange(0, a.len() as int));
            }
        }
    }

    /// Appends the movable employees of drawer row `di`, labelled `label`.
    #[verifier::spinoff_prover]
    fn push_movable(&self, di: usize, label: &String, cands: &mut Vec<MoveCandidate>)
        requires
            self.wf(),
            di < self.drawers@.len(),
        ensures
            final(cands)@.len() == old(cands)@.len() + self.movable(di as int).len(),
            forall|k: int| 0 <= k < old(cands)@.len() ==> #[trigger] final(cands)@[k] == old(cands)@[k],
            forall|m: int|
                0 <= m < self.movable(di as int).len() ==> {
                    let c = #[trigger] final(cands)@[old(cands)@.len() + m];
                    &&& c.employee_id == self.movable(di as int)[m].id
                    &&& c.employee_name@ == self.movable(di as int)[m].full_name@
                    &&& c.from_drawer@ == label@
                },
    {
        let d = self.drawers[di].id;
        let ghost es = self.employees@;
        let ghost base = cands@.len();
        let ghost start = cands@;
        let mut count: usize = 0;
        let mut j: usize = 0;
        assert(es.subrange(0, 0) =~= Seq::<EmployeeRecord>::empty());
        while j < self.employees.len() && count < MOVES_PER_DRAWER
            invariant
                self.wf(),
                es == self.employees@,
                d == self.drawers@[di as int].id,
                di < self.drawers@.len(),
                0 <= j <= es.len(),
                count <= MOVES_PER_DRAWER,
                ({
                    let o = self.occupants(es.subrange(0, j as int), d);
                    &&& count == (if o.len() <= MOVES_PER_DRAWER { o.len() as int } else { MOVES_PER_DRAWER as int })
                    &&& cands@.len() == base + count
                    &&& forall|m: int|
                        0 <= m < count ==> {
                            let c = #[trigger] cands@[base + m];
                            &&& c.employee_id == o[m].id
                            &&& c.employee_name@ == o[m].full_name@
                            &&& c.from_drawer@ == label@
                        }
                }),
                forall|k: int| 0 <= k < base ==> #[trigger] cands@[k] == start[k],
            decreases es.len() - j,
        {
            let ghost o = self.occupants(es.subrange(0, j as int), d);
            let ghost pre = es.subrange(0, j as int + 1);
            assert(pre.drop_last() =~= es.subrange(0, j as int));
            assert(pre.last() == es[j as int]);
            let e = &self.employees[j];
            let inside = match e.drawer_position_id {
                Some(p) => {
                    assert(id_in(p, self.positions@.len() as int));
                    self.positions[(p - 1) as usize].drawer_id == d
                },
                None => false,
            };
            assert(inside == self.in_drawer(es[j as int], d));
            if inside {
                cands.push(
                    MoveCandidate {
                        employee_id: e.id,
                        employee_name: e.full_name.clone(),
                        from_drawer: label.clone(),
                    },
                );
                count = count + 1;
                proof {
                    let o2 = self.occupants(pre, d);
                    assert(o2 == o.push(es[j as int]));
                    assert forall|m: int| 0 <= m < count implies {
                        let c = #[trigger] cands@[base + m];
                        &&& c.employee_id == o2[m].id
                        &&& c.employee_name@ == o2[m].full_name@
                        &&& c.from_drawer@ == label@
                    } by {
                        if m < count - 1 {
                            assert(o2[m] == o[m]);
                        }
                    }
                }
            }
            j = j + 1;
        }
        proof {
            let o = self.occupants(es.subrange(0, j as int), d);
            let all = self.occupants(es, d);
            self.lemma_occupants_prefix(es, j as int, d);
            let mv = self.movable(di as int);
            if j == es.len() {
                assert(es.subrange(0, j as int) =~= es);
            } else {
                assert(count == MOVES_PER_DRAWER);
                assert(o.len() >= MOVES_PER_DRAWER);
                assert forall|m: int| 0 <= m < MOVES_PER_DRAWER implies mv[m] == o[m] by {
                    assert(all.subrange(0, o.len() as int)[m] == all[m]);
                }
            }
        }
    }

    /// Lists the movable employees of the critical drawers, in order.
    #[verifier::spinoff_prover]
    fn collect_candidates(&self, crit: &Vec<DrawerLoad>) -> (r: Vec<MoveCandidate>)
        requires
            self.wf(),
            forall|k: int| 0 <= k < crit@.len() ==> (#[trigger] crit@[k]).index < self.drawers@.len(),
        ensures
            self.candidates_of(r@, self.sources(crit@)),
    {
        let mut cands: Vec<MoveCandidate> = Vec::new();
        let mut k: usize = 0;
        assert(crit@.subrange(0, 0) =~= Seq::<DrawerLoad>::empty());
        while k < crit.len()
            invariant
                self.wf(),
                0 <= k <= crit@.len(),
                forall|a: int| 0 <= a < crit@.len() ==> (#[trigger] crit@[a]).index < self.drawers@.len(),
                self.candidates_of(cands@, self.sources(crit@.subrange(0, k as int))),
            decreases crit@.len() - k,
        {
            let di = crit[k].index;
            let dr = &self.drawers[di];
            assert(id_in(dr.file_cabinet_id, self.cabinets@.len() as int));
            let label = drawer_label(
                self.cabinets[(dr.file_cabinet_id - 1) as usize].number.as_str(),
                dr.number,
            );
            let ghost before = cands@;
            let ghost prev = self.sources(crit@.subrange(0, k as int));
            self.push_movable(di, &label, &mut cands);
            proof {
                let sub = crit@.subrange(0, k as int + 1);
                assert(sub.drop_last() =~= crit@.subrange(0, k as int));
                assert(sub.last() == crit@[k as int]);
                let mv = self.movable(di as int);
                let added = mv.map_values(|e: EmployeeRecord| (e, di as int));
                let now = self.sources(sub);
                assert(now == prev + added);
                assert forall|a: int| 0 <= a < cands@.len() implies {
                    &&& (#[trigger] cands@[a]).employee_id == now[a].0.id
                    &&& cands@[a].employee_name@ == now[a].0.full_name@
                    &&& cands@[a].from_drawer@ == self.label_of(now[a].1)
                } by {
                    if a < before.len() {
                        assert(cands@[a] == before[a]);
                        assert(now[a] == prev[a]);
                    } else {
                        let m = a - before.len();
                        assert(now[a] == added[m]);
                        assert(cands@[before.len() + m] == cands@[a]);
                    }
                }
            }
            k = k + 1;
        }
        assert(crit@.subrange(0, k as int) =~= crit@);
        cands
    }

    proof fn lemma_sources_from(&self, crit: Seq<DrawerLoad>, k: int)
        requires
            0 <= k < self.sources(crit).len(),
        ensures
            exists|a: int| 0 <= a < crit.len() && crit[a].index as int == #[trigger] self.sources(crit)[k].1,
        decreases crit.len(),
    {
        let p = crit.drop_last();
        let i = crit.last().index as int;
        let added = self.movable(i).map_values(|e: EmployeeRecord| (e, i));
        if k < self.sources(p).len() {
            self.lemma_sources_from(p, k);
            let a = choose|a: int| 0 <= a < p.len() && p[a].index as int == self.sources(p)[k].1;
            assert(self.sources(crit)[k] == self.sources(p)[k]);
            assert(crit[a] == p[a]);
        } else {
            assert(self.sources(crit)[k] == added[k - self.sources(p).len()]);
            assert(crit[crit.len() - 1].index as int == i);
        }
    }

    /// Suggestion `s` takes its employee from a drawer at or above
    /// `threshold` percent.
    pub open spec fn from_critical(&self, s: ReorganizationSuggestion, threshold: int) -> bool {
        exists|i: int|
            0 <= i < self.drawers@.len() && Self::is_critical_load(#[trigger] self.load_of(i), threshold)
                && s.from_drawer@ == self.label_of(i)
    }

    /// The labels of the given drawers, in order.
    fn collect_targets(&self, avail: &Vec<DrawerLoad>) -> (r: Vec<String>)
        requires
            self.wf(),
            forall|k: int| 0 <= k < avail@.len() ==> (#[trigger] avail@[k]).index < self.drawers@.len(),
        ensures
            self.targets_of(r@, avail@),
    {
        let mut out: Vec<String> = Vec::new();
        let mut k: usize = 0;
        while k < avail.len()
            invariant
                self.wf(),
                0 <= k <= avail@.len(),
                forall|a: int| 0 <= a < avail@.len() ==> (#[trigger] avail@[a]).index < self.drawers@.len(),
                out@.len() == k,
                forall|a: int| 0 <= a < k ==> (#[trigger] out@[a])@ == self.label_of(avail@[a].index as int),
            decreases avail@.len() - k,
        {
            let dr = &self.drawers[avail[k].index];
            assert(id_in(dr.file_cabinet_id, self.cabinets@.len() as int));
            let label = drawer_label(
                self.cabinets[(dr.file_cabinet_id - 1) as usize].number.as_str(),
                dr.number,
            );
            out.push(label);
            k = k + 1;
        }
        out
    }

    /// Orders the selected loads and proves them the chosen ones.
    fn order_loads(&self, sel: &Vec<DrawerLoad>, critical: bool, threshold: i64) -> (r: Vec<DrawerLoad>)
        requires
            self.wf(),
            forall|k: int|
                0 <= k < sel@.len() ==> {
                    &&& (#[trigger] sel@[k]).index < self.drawers@.len()
                    &&& sel@[k] == self.load_of(sel@[k].index as int)
                    &&& load_ok(sel@[k])
                    &&& if critical {
                        Self::is_critical_load(sel@[k], threshold as int)
                    } else {
                        Self::is_available_load(sel@[k])
                    }
                },
            forall|a: int, b: int| 0 <= a < b < sel@.len() ==> (#[trigger] sel@[a]).index < (#[trigger] sel@[b]).index,
            forall|i: int|
                0 <= i < self.drawers@.len() && (if critical {
                    Self::is_critical_load(#[trigger] self.load_of(i), threshold as int)
                } else {
                    Self::is_available_load(self.load_of(i))
                }) ==> exists|k: int| 0 <= k < sel@.len() && sel@[k].index == i,
        ensures
            self.loads_chosen(r@, critical, threshold as int),
    {
        let r = sort_loads(sel, critical);
        proof {
            assert forall|k: int| 0 <= k < r@.len() implies exists|m: int| 0 <= m < sel@.len() && sel@[m] == #[trigger] r@[k] by {
                assert(r@.to_multiset().count(r@[k]) > 0);
                assert(sel@.to_multiset().contains(r@[k]));
            }
            assert forall|i: int|
                0 <= i < self.drawers@.len() && (if critical {
                    Self::is_critical_load(#[trigger] self.load_of(i), threshold as int)
                } else {
                    Self::is_available_load(self.load_of(i))
                }) implies exists|k: int| 0 <= k < r@.len() && r@[k].index == i by {
                let m = choose|m: int| 0 <= m < sel@.len() && sel@[m].index == i;
                assert(sel@.to_multiset().count(sel@[m]) > 0);
                assert(r@.to_multiset().contains(sel@[m]));
                let k = choose|k: int| 0 <= k < r@.len() && r@[k] == sel@[m];
            }
            assert forall|k: int| 0 <= k < r@.len() implies {
                &&& (#[trigger] r@[k]).index < self.drawers@.len()
                &&& r@[k] == self.load_of(r@[k].index as int)
                &&& if critical {
                    Self::is_critical_load(r@[k], threshold as int)
                } else {
                    Self::is_available_load(r@[k])
                }
            } by {
                let m = choose|m: int| 0 <= m < sel@.len() && sel@[m] == r@[k];
            }
        }
        r
    }

    /// A plan of relocations from the critical drawers, fullest first, to the
    /// drawers below 70%, emptiest first, round robin, within the budget.
    /// The threshold is brought into 50 to 100 and the budget into 1 to 50.
    /// The store is not changed.
    #[verifier::spinoff_prover]
    pub fn suggest_reorganization(&self, critical_threshold: i64, max_moves: i64) -> (r:
        ReorganizationPlan)
        requires
            self.wf(),
        ensures
            ({
                let t = if critical_threshold < 50 {
                    50int
                } else if critical_threshold > 100 {
                    100int
                } else {
                    critical_threshold as int
                };
                let m = if max_moves < 1 {
                    1int
                } else if max_moves > 50 {
                    50int
                } else {
                    max_moves as int
                };
                &&& exists|
                    crit: Seq<DrawerLoad>,
                    avail: Seq<DrawerLoad>,
                    cands: Seq<MoveCandidate>,
                    targets: Seq<String>,
                |
                    {
                        &&& self.loads_chosen(crit, true, t)
                        &&& self.loads_chosen(avail, false, t)
                        &&& self.candidates_of(cands, self.sources(crit))
                        &&& self.targets_of(targets, avail)
                        &&& plan_of(r, cands, targets, m)
                    }
                &&& r.total_moves <= m
                &&& max_moves >= 1 ==> r.total_moves <= max_moves
                &&& forall|k: int|
                    0 <= k < r.suggestions@.len() ==> self.from_critical(#[trigger] r.suggestions@[k], t)
            }),
    {
        let threshold = clamp_threshold(critical_threshold);
        let moves = clamp_moves(max_moves);
        let loads = self.drawer_loads();
        let crit_sel = self.select_loads(&loads, true, threshold);
        let avail_sel = self.select_loads(&loads, false, threshold);
        let crit = self.order_loads(&crit_sel, true, threshold);
        let avail = self.order_loads(&avail_sel, false, threshold);
        let cands = self.collect_candidates(&crit);
        let targets = self.collect_targets(&avail);
        let plan = plan_moves(&cands, &targets, moves);
        proof {
            let srcs = self.sources(crit@);
            assert forall|k: int| 0 <= k < plan.suggestions@.len() implies self.from_critical(
                #[trigger] plan.suggestions@[k],
                threshold as int,
            ) by {
                assert(k < cands@.len());
                self.lemma_sources_from(crit@, k);
                let a = choose|a: int| 0 <= a < crit@.len() && crit@[a].index as int == srcs[k].1;
                let i = crit@[a].index as int;
                assert(crit@[a] == self.load_of(i));
            }
        }
        plan
    }
}

} // verus!
