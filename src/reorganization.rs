//! The reorganization planner: relocation suggestions that move folders out
//! of the fullest drawers into the emptiest ones, within a move budget.
use vstd::prelude::*;

verus! {

broadcast use vstd::seq_lib::to_multiset_insert, vstd::seq_lib::to_multiset_build;

/// Fewest moves a plan may be asked for.
pub const MIN_MOVES: i64 = 1;

/// Most moves a plan may be asked for.
pub const MAX_MOVES: i64 = 50;

/// Lowest critical threshold a plan may be asked for.
pub const MIN_THRESHOLD: i64 = 50;

/// Highest critical threshold a plan may be asked for.
pub const MAX_THRESHOLD: i64 = 100;

/// Rate below which a drawer can take folders from a critical one.
pub const AVAILABLE_RATE: i64 = 70;

/// Most employees taken from one critical drawer.
pub const MOVES_PER_DRAWER: usize = 3;

/// The fill of one drawer, as the planner orders drawers.
#[derive(Clone, Copy, PartialEq, Eq, Structural, Debug)]
pub struct DrawerLoad {
    /// Where the drawer stands in the store's drawer table.
    pub index: usize,
    pub occupied: i64,
    pub capacity: i64,
}

/// The loads that the planner can order: a positive capacity, and counts
/// within the store's bounds.
pub open spec fn load_ok(l: DrawerLoad) -> bool {
    &&& 0 < l.capacity <= 200
    &&& 0 <= l.occupied <= 1_000_000
}

/// `a` comes before `b`: a higher rate first when `fullest_first`, a lower
/// rate first otherwise; drawers at the same rate by their place in the table.
pub open spec fn load_before(a: DrawerLoad, b: DrawerLoad, fullest_first: bool) -> bool {
    let x = a.occupied * b.capacity;
    let y = b.occupied * a.capacity;
    if x == y {
        a.index < b.index
    } else if fullest_first {
        x > y
    } else {
        x < y
    }
}

/// A sequence in strictly increasing order of [`load_before`].
pub open spec fn loads_sorted(s: Seq<DrawerLoad>, fullest_first: bool) -> bool {
    forall|i: int, j: int| 0 <= i < j < s.len() ==> load_before(s[i], s[j], fullest_first)
}

proof fn lemma_load_before_trans(a: DrawerLoad, b: DrawerLoad, c: DrawerLoad, f: bool)
    requires
        load_ok(a),
        load_ok(b),
        load_ok(c),
        load_before(a, b, f),
        load_before(b, c, f),
    ensures
        load_before(a, c, f),
{
    let (ao, ac, bo, bc, co, cc) = (
        a.occupied as int,
        a.capacity as int,
        b.occupied as int,
        b.capacity as int,
        c.occupied as int,
        c.capacity as int,
    );
    assert(ao * bc == bo * ac && bo * cc == co * bc ==> ao * cc == co * ac) by (nonlinear_arith)
        requires
            ac > 0,
            bc > 0,
            cc > 0,
    ;
    assert(ao * bc <= bo * ac && bo * cc <= co * bc ==> ao * cc <= co * ac) by (nonlinear_arith)
        requires
            ac > 0,
            bc > 0,
            cc > 0,
    ;
    assert(ao * bc >= bo * ac && bo * cc >= co * bc ==> ao * cc >= co * ac) by (nonlinear_arith)
        requires
            ac > 0,
            bc > 0,
            cc > 0,
    ;
    assert(ao * bc < bo * ac && bo * cc <= co * bc ==> ao * cc < co * ac) by (nonlinear_arith)
        requires
            ac > 0,
            bc > 0,
            cc > 0,
    ;
    assert(ao * bc <= bo * ac && bo * cc < co * bc ==> ao * cc < co * ac) by (nonlinear_arith)
        requires
            ac > 0,
            bc > 0,
            cc > 0,
    ;
    assert(ao * bc > bo * ac && bo * cc >= co * bc ==> ao * cc > co * ac) by (nonlinear_arith)
        requires
            ac > 0,
            bc > 0,
            cc > 0,
    ;
    assert(ao * bc >= bo * ac && bo * cc > co * bc ==> ao * cc > co * ac) by (nonlinear_arith)
        requires
            ac > 0,
            bc > 0,
            cc > 0,
    ;
}

/// Decides [`load_before`].
fn before(a: DrawerLoad, b: DrawerLoad, fullest_first: bool) -> (r: bool)
    requires
        load_ok(a),
        load_ok(b),
    ensures
        r == load_before(a, b, fullest_first),
{
    assert(0 <= a.occupied * b.capacity <= 200_000_000) by (nonlinear_arith)
        requires
            load_ok(a),
            load_ok(b),
    ;
    assert(0 <= b.occupied * a.capacity <= 200_000_000) by (nonlinear_arith)
        requires
            load_ok(a),
            load_ok(b),
    ;
    let x = a.occupied * b.capacity;
    let y = b.occupied * a.capacity;
    if x == y {
        a.index < b.index
    } else if fullest_first {
        x > y
    } else {
        x < y
    }
}

/// Orders drawer loads by rate, fullest or emptiest first, ties by their
/// place in the table. The result holds the same loads.
pub fn sort_loads(loads: &Vec<DrawerLoad>, fullest_first: bool) -> (r: Vec<DrawerLoad>)
    requires
        forall|i: int| 0 <= i < loads@.len() ==> load_ok(#[trigger] loads@[i]),
        forall|i: int, j: int|
            0 <= i < j < loads@.len() ==> (#[trigger] loads@[i]).index != (#[trigger] loads@[j]).index,
    ensures
        r@.to_multiset() == loads@.to_multiset(),
        loads_sorted(r@, fullest_first),
{
    let mut out: Vec<DrawerLoad> = Vec::new();
    let mut i: usize = 0;
    assert(loads@.subrange(0, 0) =~= Seq::<DrawerLoad>::empty());
    while i < loads.len()
        invariant
            0 <= i <= loads@.len(),
            forall|k: int| 0 <= k < loads@.len() ==> load_ok(#[trigger] loads@[k]),
            forall|a: int, b: int|
                0 <= a < b < loads@.len() ==> (#[trigger] loads@[a]).index != (#[trigger] loads@[b]).index,
            out@.to_multiset() == loads@.subrange(0, i as int).to_multiset(),
            loads_sorted(out@, fullest_first),
            forall|k: int| 0 <= k < out@.len() ==> load_ok(#[trigger] out@[k]),
            forall|k: int|
                0 <= k < out@.len() ==> exists|m: int| 0 <= m < i && loads@[m] == #[trigger] out@[k],
        decreases loads@.len() - i,
    {
        let x = loads[i];
        let mut j: usize = 0;
        while j < out.len() && !before(x, out[j], fullest_first)
            invariant
                0 <= j <= out@.len(),
                load_ok(x),
                forall|k: int| 0 <= k < out@.len() ==> load_ok(#[trigger] out@[k]),
                forall|k: int| 0 <= k < j ==> !load_before(x, #[trigger] out@[k], fullest_first),
            decreases out@.len() - j,
        {
            j = j + 1;
        }
        let ghost old_out = out@;
        proof {
            assert forall|k: int| 0 <= k < old_out.len() implies (#[trigger] old_out[k]).index != x.index by {
                let m = choose|m: int| 0 <= m < i && loads@[m] == old_out[k];
                assert(loads@[m].index != loads@[i as int].index);
            }
            assert forall|k: int| 0 <= k < j implies load_before(#[trigger] old_out[k], x, fullest_first) by {
                assert(!load_before(x, old_out[k], fullest_first));
                assert(old_out[k].index != x.index);
            }
            assert forall|k: int| j <= k < old_out.len() implies load_before(x, #[trigger] old_out[k], fullest_first) by {
                if k > j {
                    lemma_load_before_trans(x, old_out[j as int], old_out[k], fullest_first);
                }
            }
        }
        out.insert(j, x);
        proof {
            assert(loads@.subrange(0, i as int + 1) =~= loads@.subrange(0, i as int).push(x));
            assert forall|a: int, b: int| 0 <= a < b < out@.len() implies load_before(
                out@[a],
                out@[b],
                fullest_first,
            ) by {
                if b < j {
                } else if b == j {
                } else if a < j {
                    lemma_load_before_trans(out@[a], x, out@[b], fullest_first);
                } else if a == j {
                } else {
                    assert(out@[a] == old_out[a - 1]);
                    assert(out@[b] == old_out[b - 1]);
                }
            }
            assert forall|k: int| 0 <= k < out@.len() implies exists|m: int|
                0 <= m < i + 1 && loads@[m] == #[trigger] out@[k] by {
                if k < j {
                    assert(out@[k] == old_out[k]);
                    let m = choose|m: int| 0 <= m < i && loads@[m] == old_out[k];
                } else if k == j {
                    assert(loads@[i as int] == out@[k]);
                } else {
                    assert(out@[k] == old_out[k - 1]);
                    let m = choose|m: int| 0 <= m < i && loads@[m] == old_out[k - 1];
                }
            }
        }
        i = i + 1;
    }
    assert(loads@.subrange(0, i as int) =~= loads@);
    out
}


/// An employee that may leave a critical drawer, with that drawer's label.
pub struct MoveCandidate {
    pub employee_id: i64,
    pub employee_name: String,
    pub from_drawer: String,
}

/// One proposed relocation.
pub struct ReorganizationSuggestion {
    pub employee_id: i64,
    pub employee_name: String,
    pub from_drawer: String,
    pub to_drawer: String,
    pub reason: String,
}

/// The proposed relocations, in order, and how many there are.
pub struct ReorganizationPlan {
    pub total_moves: usize,
    pub suggestions: Vec<ReorganizationSuggestion>,
}

/// The rationale given with every suggestion.
pub open spec fn move_reason() -> Seq<char> {
    "Redistribuição de capacidade"@
}

/// Suggestion `s` moves candidate `c` to the drawer labelled `to`.
pub open spec fn suggestion_of(s: ReorganizationSuggestion, c: MoveCandidate, to: Seq<char>) -> bool {
    &&& s.employee_id == c.employee_id
    &&& s.employee_name@ == c.employee_name@
    &&& s.from_drawer@ == c.from_drawer@
    &&& s.to_drawer@ == to
    &&& s.reason@ == move_reason()
}

/// Number of moves a plan makes: none without a target drawer, else one per
/// candidate up to the budget.
pub open spec fn planned_moves(candidates: int, targets: int, max_moves: int) -> int {
    if targets == 0 {
        0
    } else if candidates < max_moves {
        candidates
    } else {
        max_moves
    }
}

/// The plan over candidates in order and targets in order: the `k`-th move
/// takes the `k`-th candidate to target `k` modulo the number of targets.
pub open spec fn plan_of(
    p: ReorganizationPlan,
    candidates: Seq<MoveCandidate>,
    targets: Seq<String>,
    max_moves: int,
) -> bool {
    &&& p.total_moves == p.suggestions@.len()
    &&& p.suggestions@.len() == planned_moves(candidates.len() as int, targets.len() as int, max_moves)
    &&& forall|k: int|
        0 <= k < p.suggestions@.len() ==> suggestion_of(
            #[trigger] p.suggestions@[k],
            candidates[k],
            targets[k % (targets.len() as int)]@,
        )
}

/// Spreads the candidates over the targets, round robin, making at most
/// `max_moves` moves.
pub fn plan_moves(
    candidates: &Vec<MoveCandidate>,
    targets: &Vec<String>,
    max_moves: usize,
) -> (r: ReorganizationPlan)
    ensures
        plan_of(r, candidates@, targets@, max_moves as int),
        r.total_moves <= max_moves,
{
    let mut suggestions: Vec<ReorganizationSuggestion> = Vec::new();
    if targets.len() == 0 {
        return ReorganizationPlan { total_moves: 0, suggestions };
    }
    let mut k: usize = 0;
    while k < candidates.len() && k < max_moves
        invariant
            targets@.len() > 0,
            0 <= k <= candidates@.len(),
            k <= max_moves,
            suggestions@.len() == k,
            forall|m: int|
                0 <= m < k ==> suggestion_of(
                    #[trigger] suggestions@[m],
                    candidates@[m],
                    targets@[m % (targets@.len() as int)]@,
                ),
        decreases candidates@.len() - k,
    {
        let c = &candidates[k];
        let target = &targets[k % targets.len()];
        let s = ReorganizationSuggestion {
            employee_id: c.employee_id,
            employee_name: c.employee_name.clone(),
            from_drawer: c.from_drawer.clone(),
            to_drawer: target.clone(),
            reason: String::from_str("Redistribuição de capacidade"),
        };
        suggestions.push(s);
        k = k + 1;
    }
    ReorganizationPlan { total_moves: suggestions.len(), suggestions }
}

/// Brings a requested budget into the accepted range.
pub fn clamp_moves(max_moves: i64) -> (r: usize)
    ensures
        r as int == if max_moves < MIN_MOVES {
            MIN_MOVES as int
        } else if max_moves > MAX_MOVES {
            MAX_MOVES as int
        } else {
            max_moves as int
        },
{
    if max_moves < MIN_MOVES {
        MIN_MOVES as usize
    } else if max_moves > MAX_MOVES {
        MAX_MOVES as usize
    } else {
        max_moves as usize
    }
}

/// Brings a requested critical threshold into the accepted range.
pub fn clamp_threshold(threshold: i64) -> (r: i64)
    ensures
        r == if threshold < MIN_THRESHOLD {
            MIN_THRESHOLD
        } else if threshold > MAX_THRESHOLD {
            MAX_THRESHOLD
        } else {
            threshold
        },
{
    if threshold < MIN_THRESHOLD {
        MIN_THRESHOLD
    } else if threshold > MAX_THRESHOLD {
        MAX_THRESHOLD
    } else {
        threshold
    }
}

} // verus!
