//! The occupancy engine: per-drawer and per-cabinet fill rates, the cabinet
//! classification, and the occupation map with its system-wide totals.
//!
//! Rates are whole percentages rounded down. Classification against the
//! integer thresholds is the same as against the exact quotient, since
//! `floor(x) >= t` holds exactly when `x >= t` for an integer `t`.
use vstd::prelude::*;

use crate::records::{DrawerRecord, FileCabinetRecord};

verus! {

/// Most rows a table of the store may hold.
pub const MAX_ROWS: i64 = 1_000_000;

/// Largest capacity a drawer may be given.
pub const MAX_DRAWER_CAPACITY: i64 = 200;

/// Rate at and above which a drawer or cabinet is critical.
pub const CRITICAL_RATE: i64 = 90;

/// Rate at and above which a cabinet needs attention.
pub const WARNING_RATE: i64 = 70;

/// Whole percentage of `capacity` that `occupied` fills, rounded down;
/// zero for an empty capacity.
pub open spec fn rate_percent(occupied: int, capacity: int) -> int {
    if capacity <= 0 {
        0
    } else {
        (occupied * 100) / capacity
    }
}

/// Computes [`rate_percent`].
pub fn occupancy_rate(occupied: i64, capacity: i64) -> (r: i64)
    requires
        0 <= occupied <= MAX_ROWS * MAX_ROWS,
    ensures
        r == rate_percent(occupied as int, capacity as int),
        capacity <= 0 ==> r == 0,
{
    if capacity <= 0 {
        0
    } else {
        assert(0 <= occupied * 100 <= 100 * MAX_ROWS * MAX_ROWS) by (nonlinear_arith)
            requires 0 <= occupied <= MAX_ROWS * MAX_ROWS;
        (occupied * 100) / capacity
    }
}

/// The rounded rate differs from the exact percentage by less than one point.
pub proof fn lemma_rate_within_one_percent(occupied: int, capacity: int)
    requires
        0 <= occupied,
        0 < capacity,
    ensures
        rate_percent(occupied, capacity) * capacity <= occupied * 100,
        occupied * 100 < (rate_percent(occupied, capacity) + 1) * capacity,
{
    let r = rate_percent(occupied, capacity);
    assert(r == (occupied * 100) / capacity);
    assert(r * capacity <= occupied * 100 && occupied * 100 < (r + 1) * capacity)
        by (nonlinear_arith)
        requires
            r == (occupied * 100) / capacity,
            0 < capacity,
            0 <= occupied,
    {
        vstd::arithmetic::div_mod::lemma_fundamental_div_mod(occupied * 100, capacity);
    }
}

/// How full a cabinet is, by its rate.
#[derive(PartialEq, Eq, Structural, Clone, Copy, Debug)]
pub enum CabinetStatus {
    Normal,
    Warning,
    Critical,
}

/// The class of a rate: critical from 90, warning from 70, else ok.
pub open spec fn status_of(rate: int) -> CabinetStatus {
    if rate >= CRITICAL_RATE {
        CabinetStatus::Critical
    } else if rate >= WARNING_RATE {
        CabinetStatus::Warning
    } else {
        CabinetStatus::Normal
    }
}

/// Severity of a class, ordered ok < warning < critical.
pub open spec fn severity(s: CabinetStatus) -> int {
    match s {
        CabinetStatus::Normal => 0,
        CabinetStatus::Warning => 1,
        CabinetStatus::Critical => 2,
    }
}

/// The text by which a class is shown.
pub open spec fn status_label(s: CabinetStatus) -> Seq<char> {
    match s {
        CabinetStatus::Normal => "OK"@,
        CabinetStatus::Warning => "WARNING"@,
        CabinetStatus::Critical => "CRITICAL"@,
    }
}

impl CabinetStatus {
    /// The text by which this class is shown.
    pub fn as_str(&self) -> (r: &'static str)
        ensures
            r@ == status_label(*self),
    {
        match self {
            CabinetStatus::Normal => "OK",
            CabinetStatus::Warning => "WARNING",
            CabinetStatus::Critical => "CRITICAL",
        }
    }
}

/// Classifies a rate: `>= 90` critical, `>= 70` warning, else ok.
pub fn classify_rate(rate: i64) -> (r: CabinetStatus)
    ensures
        r == status_of(rate as int),
        rate >= 90 ==> r == CabinetStatus::Critical,
        70 <= rate < 90 ==> r == CabinetStatus::Warning,
        rate < 70 ==> r == CabinetStatus::Normal,
{
    if rate >= CRITICAL_RATE {
        CabinetStatus::Critical
    } else if rate >= WARNING_RATE {
        CabinetStatus::Warning
    } else {
        CabinetStatus::Normal
    }
}

/// The three classes partition the rates: each rate has exactly one class,
/// given by its range, and a higher rate never has a milder class.
pub proof fn lemma_status_partition_monotonic(r1: int, r2: int)
    ensures
        (status_of(r1) == CabinetStatus::Critical) <==> r1 >= 90,
        (status_of(r1) == CabinetStatus::Warning) <==> (70 <= r1 && r1 < 90),
        (status_of(r1) == CabinetStatus::Normal) <==> r1 < 70,
        r1 <= r2 ==> severity(status_of(r1)) <= severity(status_of(r2)),
{
}

/// A drawer with its fill.
pub struct DrawerWithOccupancy {
    pub drawer: DrawerRecord,
    pub occupied: i64,
    pub capacity: i64,
    /// Whole percent, rounded down.
    pub occupancy_rate: i64,
    pub critical: bool,
}

/// The fill of a drawer: its capacity, the given count of occupied
/// positions, their rate, and whether that rate is critical.
pub open spec fn drawer_fill_ok(d: DrawerWithOccupancy, drawer: DrawerRecord, occupied: int) -> bool {
    &&& d.drawer.eqv(&drawer)
    &&& d.occupied == occupied
    &&& d.capacity == drawer.capacity
    &&& d.occupancy_rate == rate_percent(occupied, drawer.capacity as int)
    &&& d.critical == (d.occupancy_rate >= CRITICAL_RATE)
}

/// A drawer's numbers lie within the store's bounds.
pub open spec fn drawer_bounded(d: DrawerWithOccupancy) -> bool {
    &&& 0 <= d.occupied <= MAX_ROWS
    &&& 0 <= d.capacity <= MAX_DRAWER_CAPACITY
}

impl DrawerWithOccupancy {
    /// Pairs a drawer with its count of occupied positions.
    pub fn new(drawer: &DrawerRecord, occupied: i64) -> (r: Self)
        requires
            0 <= occupied <= MAX_ROWS,
        ensures
            drawer_fill_ok(r, *drawer, occupied as int),
    {
        let capacity = drawer.capacity;
        let occupancy_rate = occupancy_rate(occupied, capacity);
        DrawerWithOccupancy {
            drawer: drawer.duplicate(),
            occupied,
            capacity,
            occupancy_rate,
            critical: occupancy_rate >= CRITICAL_RATE,
        }
    }
}

/// Sum of the capacities of a sequence of drawers.
pub open spec fn sum_capacity(ds: Seq<DrawerWithOccupancy>) -> int
    decreases ds.len(),
{
    if ds.len() == 0 {
        0
    } else {
        sum_capacity(ds.drop_last()) + ds.last().capacity
    }
}

/// Sum of the occupied counts of a sequence of drawers.
pub open spec fn sum_occupied(ds: Seq<DrawerWithOccupancy>) -> int
    decreases ds.len(),
{
    if ds.len() == 0 {
        0
    } else {
        sum_occupied(ds.drop_last()) + ds.last().occupied
    }
}

proof fn lemma_drawer_sums_bounded(ds: Seq<DrawerWithOccupancy>)
    requires
        forall|i: int| 0 <= i < ds.len() ==> drawer_bounded(#[trigger] ds[i]),
    ensures
        0 <= sum_capacity(ds) <= ds.len() * MAX_DRAWER_CAPACITY,
        0 <= sum_occupied(ds) <= ds.len() * MAX_ROWS,
    decreases ds.len(),
{
    if ds.len() > 0 {
        let p = ds.drop_last();
        assert forall|i: int| 0 <= i < p.len() implies drawer_bounded(#[trigger] p[i]) by {
            assert(p[i] == ds[i]);
        }
        lemma_drawer_sums_bounded(p);
        assert(drawer_bounded(ds[ds.len() - 1]));
    }
}

/// A cabinet with its drawers and their totals.
pub struct FileCabinetWithOccupancy {
    pub cabinet: FileCabinetRecord,
    pub drawers: Vec<DrawerWithOccupancy>,
    pub total_positions: i64,
    pub occupied_positions: i64,
}

/// Bounds on a cabinet's totals that a store within its limits meets.
pub open spec fn cabinet_bounded(c: FileCabinetWithOccupancy) -> bool {
    &&& 0 <= c.total_positions <= MAX_ROWS * MAX_DRAWER_CAPACITY
    &&& 0 <= c.occupied_positions <= MAX_ROWS * MAX_ROWS
}

impl FileCabinetWithOccupancy {
    /// Totals a cabinet over exactly the given drawers.
    pub fn summarize(cabinet: FileCabinetRecord, drawers: Vec<DrawerWithOccupancy>) -> (r: Self)
        requires
            drawers@.len() <= MAX_ROWS,
            forall|i: int| 0 <= i < drawers@.len() ==> drawer_bounded(#[trigger] drawers@[i]),
        ensures
            r.cabinet == cabinet,
            r.drawers@ == drawers@,
            r.total_positions == sum_capacity(drawers@),
            r.occupied_positions == sum_occupied(drawers@),
            cabinet_bounded(r),
    {
        let mut total: i64 = 0;
        let mut occupied: i64 = 0;
        let mut i: usize = 0;
        proof {
            lemma_drawer_sums_bounded(drawers@);
            assert(drawers@.subrange(0, 0) =~= Seq::<DrawerWithOccupancy>::empty());
        }
        while i < drawers.len()
            invariant
                0 <= i <= drawers@.len() <= MAX_ROWS,
                forall|k: int| 0 <= k < drawers@.len() ==> drawer_bounded(#[trigger] drawers@[k]),
                total == sum_capacity(drawers@.subrange(0, i as int)),
                occupied == sum_occupied(drawers@.subrange(0, i as int)),
                0 <= total <= i * MAX_DRAWER_CAPACITY,
                0 <= occupied <= i * MAX_ROWS,
            decreases drawers@.len() - i,
        {
            let ghost prefix = drawers@.subrange(0, i as int + 1);
            assert(prefix.drop_last() =~= drawers@.subrange(0, i as int));
            assert(prefix.last() == drawers@[i as int]);
            assert(drawer_bounded(drawers@[i as int]));
            total = total + drawers[i].capacity;
            occupied = occupied + drawers[i].occupied;
            i = i + 1;
        }
        assert(drawers@.subrange(0, i as int) =~= drawers@);
        assert(i * MAX_DRAWER_CAPACITY <= MAX_ROWS * MAX_DRAWER_CAPACITY) by (nonlinear_arith)
            requires i <= MAX_ROWS;
        assert(i * MAX_ROWS <= MAX_ROWS * MAX_ROWS) by (nonlinear_arith)
            requires i <= MAX_ROWS;
        FileCabinetWithOccupancy {
            cabinet,
            drawers,
            total_positions: total,
            occupied_positions: occupied,
        }
    }
}


/// The rate of a cabinet over all its positions.
pub open spec fn cabinet_rate(c: FileCabinetWithOccupancy) -> int {
    rate_percent(c.occupied_positions as int, c.total_positions as int)
}

/// Sum of the positions of a sequence of cabinets.
pub open spec fn sum_cabinet_positions(cs: Seq<FileCabinetWithOccupancy>) -> int
    decreases cs.len(),
{
    if cs.len() == 0 {
        0
    } else {
        sum_cabinet_positions(cs.drop_last()) + cs.last().total_positions
    }
}

/// Sum of the occupied positions of a sequence of cabinets.
pub open spec fn sum_cabinet_occupied(cs: Seq<FileCabinetWithOccupancy>) -> int
    decreases cs.len(),
{
    if cs.len() == 0 {
        0
    } else {
        sum_cabinet_occupied(cs.drop_last()) + cs.last().occupied_positions
    }
}

/// Number of cabinets of a sequence that fall in class `s`.
pub open spec fn count_status(cs: Seq<FileCabinetWithOccupancy>, s: CabinetStatus) -> int
    decreases cs.len(),
{
    if cs.len() == 0 {
        0
    } else {
        count_status(cs.drop_last(), s) + if status_of(cabinet_rate(cs.last())) == s {
            1int
        } else {
            0int
        }
    }
}

proof fn lemma_count_status_bounded(cs: Seq<FileCabinetWithOccupancy>, s: CabinetStatus)
    ensures
        0 <= count_status(cs, s) <= cs.len(),
    decreases cs.len(),
{
    if cs.len() > 0 {
        lemma_count_status_bounded(cs.drop_last(), s);
    }
}

/// One cabinet of the occupation map.
pub struct CabinetOccupationNode {
    pub cabinet_id: i64,
    pub cabinet_label: String,
    /// Whole percent, rounded down.
    pub occupancy_rate: i64,
    pub status: CabinetStatus,
    pub drawers: Vec<DrawerWithOccupancy>,
}

/// System-wide totals of the occupation map.
pub struct OccupationTotals {
    pub total_positions: i64,
    pub occupied_positions: i64,
    pub warnings: i64,
    pub critical: i64,
}

/// The cabinets in order, each with its drawers, and the totals.
pub struct OccupationMap {
    pub cabinets: Vec<CabinetOccupationNode>,
    pub totals: OccupationTotals,
}

/// The node that stands for cabinet `c` in the map.
pub open spec fn node_of(n: CabinetOccupationNode, c: FileCabinetWithOccupancy) -> bool {
    &&& n.cabinet_id == c.cabinet.id
    &&& n.cabinet_label@ == c.cabinet.number@
    &&& n.occupancy_rate == cabinet_rate(c)
    &&& n.status == status_of(cabinet_rate(c))
    &&& n.drawers@ == c.drawers@
}

/// The occupation map of the given cabinets: one node per cabinet, in order,
/// and totals summed over all of them.
pub open spec fn map_of(m: OccupationMap, cs: Seq<FileCabinetWithOccupancy>) -> bool {
    &&& m.cabinets@.len() == cs.len()
    &&& forall|i: int| 0 <= i < cs.len() ==> node_of(#[trigger] m.cabinets@[i], cs[i])
    &&& m.totals.total_positions == sum_cabinet_positions(cs)
    &&& m.totals.occupied_positions == sum_cabinet_occupied(cs)
    &&& m.totals.warnings == count_status(cs, CabinetStatus::Warning)
    &&& m.totals.critical == count_status(cs, CabinetStatus::Critical)
}

impl OccupationMap {
    /// Builds the map from cabinets already totalled over their drawers.
    pub fn build(cabinets: Vec<FileCabinetWithOccupancy>) -> (r: Self)
        requires
            cabinets@.len() <= MAX_ROWS,
            forall|i: int| 0 <= i < cabinets@.len() ==> cabinet_bounded(#[trigger] cabinets@[i]),
        ensures
            map_of(r, cabinets@),
    {
        let ghost all = cabinets@;
        let n = cabinets.len();
        let mut rest = cabinets;
        let mut nodes: Vec<CabinetOccupationNode> = Vec::new();
        let mut total_positions: i64 = 0;
        let mut occupied_positions: i64 = 0;
        let mut warnings: i64 = 0;
        let mut critical: i64 = 0;
        let mut i: usize = 0;
        assert(all.subrange(0, 0) =~= Seq::<FileCabinetWithOccupancy>::empty());
        assert(all.subrange(0, all.len() as int) =~= all);
        while i < n
            invariant
                n == all.len() <= MAX_ROWS,
                0 <= i <= n,
                forall|k: int| 0 <= k < all.len() ==> cabinet_bounded(#[trigger] all[k]),
                rest@ == all.subrange(i as int, n as int),
                nodes@.len() == i,
                forall|k: int| 0 <= k < i ==> node_of(#[trigger] nodes@[k], all[k]),
                total_positions == sum_cabinet_positions(all.subrange(0, i as int)),
                occupied_positions == sum_cabinet_occupied(all.subrange(0, i as int)),
                warnings == count_status(all.subrange(0, i as int), CabinetStatus::Warning),
                critical == count_status(all.subrange(0, i as int), CabinetStatus::Critical),
                0 <= total_positions <= i * (MAX_ROWS * MAX_DRAWER_CAPACITY),
                0 <= occupied_positions <= i * (MAX_ROWS * MAX_ROWS),
            decreases n - i,
        {
            let ghost prefix = all.subrange(0, i as int + 1);
            proof {
                assert(prefix.drop_last() =~= all.subrange(0, i as int));
                assert(prefix.last() == all[i as int]);
                assert(rest@[0] == all[i as int]);
                assert(cabinet_bounded(all[i as int]));
                lemma_count_status_bounded(all.subrange(0, i as int), CabinetStatus::Warning);
                lemma_count_status_bounded(all.subrange(0, i as int), CabinetStatus::Critical);
                assert((i + 1) * (MAX_ROWS * MAX_DRAWER_CAPACITY) <= MAX_ROWS * (MAX_ROWS
                    * MAX_DRAWER_CAPACITY)) by (nonlinear_arith)
                    requires i + 1 <= MAX_ROWS;
                assert((i + 1) * (MAX_ROWS * MAX_ROWS) <= MAX_ROWS * (MAX_ROWS * MAX_ROWS))
                    by (nonlinear_arith)
                    requires i + 1 <= MAX_ROWS;
                assert(i * (MAX_ROWS * MAX_DRAWER_CAPACITY) + MAX_ROWS * MAX_DRAWER_CAPACITY
                    == (i + 1) * (MAX_ROWS * MAX_DRAWER_CAPACITY)) by (nonlinear_arith);
                assert(i * (MAX_ROWS * MAX_ROWS) + MAX_ROWS * MAX_ROWS == (i + 1) * (MAX_ROWS
                    * MAX_ROWS)) by (nonlinear_arith);
            }
            let cab = rest.remove(0);
            assert(rest@ =~= all.subrange(i as int + 1, n as int));
            let rate = occupancy_rate(cab.occupied_positions, cab.total_positions);
            let status = classify_rate(rate);
            total_positions = total_positions + cab.total_positions;
            occupied_positions = occupied_positions + cab.occupied_positions;
            match status {
                CabinetStatus::Warning => {
                    warnings = warnings + 1;
                },
                CabinetStatus::Critical => {
                    critical = critical + 1;
                },
                CabinetStatus::Normal => {},
            }
            let label = cab.cabinet.number.clone();
            let node = CabinetOccupationNode {
                cabinet_id: cab.cabinet.id,
                cabinet_label: label,
                occupancy_rate: rate,
                status,
                drawers: cab.drawers,
            };
            nodes.push(node);
            i = i + 1;
        }
        OccupationMap {
            cabinets: nodes,
            totals: OccupationTotals { total_positions, occupied_positions, warnings, critical },
        }
    }
}

} // verus!
