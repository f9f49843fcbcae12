//! Composite views handed to callers: login results, the snapshot, the
//! employee detail, labels, and the dashboard and reports.
use vstd::prelude::*;

use crate::loans::LoanWithEmployee;
use crate::occupancy::CabinetOccupationNode;
use crate::records::{
    ArchiveBoxRecord, ArchiveItemRecord, DocumentRecord, DrawerPositionRecord, EmployeeRecord,
    LoanRecord, MovementRecord, StorageUnitRecord,
};
use crate::sessions::UserProfile;

verus! {

/// Counts of the storage units and of today's movements.
pub struct SnapshotSummary {
    pub total_units: i64,
    /// Units per type: the four usual types first, then the others.
    pub units_by_type: Vec<(String, i64)>,
    pub movements_today: i64,
    pub last_movement: Option<MovementRecord>,
}

/// A recorded movement with the counts after it.
pub struct MovementRecordResponse {
    pub movement: MovementRecord,
    pub snapshot: SnapshotSummary,
}

/// A registered storage unit with the counts after it.
pub struct StorageCreateResponse {
    pub unit: StorageUnitRecord,
    pub snapshot: SnapshotSummary,
}

/// What a successful login returns.
pub struct LoginResult {
    pub token: String,
    pub profile: UserProfile,
    pub snapshot: SnapshotSummary,
}

/// An employee with the documents, open loans and position filed for them.
pub struct EmployeeDetail {
    pub basic: EmployeeRecord,
    pub documents: Vec<DocumentRecord>,
    pub active_loans: Vec<LoanRecord>,
    pub drawer_position: Option<DrawerPositionRecord>,
}

/// Text for a printed label.
pub struct LabelData {
    pub title: String,
    pub subtitle: Option<String>,
    /// Pairs of field and value, in print order.
    pub details: Vec<(String, String)>,
    pub generated_at: String,
}

/// What a termination returns.
pub struct TerminationResult {
    pub employee: EmployeeRecord,
    pub archive_item: Option<ArchiveItemRecord>,
    pub label: Option<LabelData>,
}

/// A box with the folders it holds.
pub struct BoxWithCount {
    pub archive_box: ArchiveBoxRecord,
    pub occupants: Vec<ArchiveItemRecord>,
}

/// The dashboard's counters.
pub struct DashboardStats {
    pub active_employees: i64,
    pub terminated_employees: i64,
    pub open_loans: i64,
    pub overdue_loans: i64,
    pub critical_cabinets: Vec<CabinetOccupationNode>,
    pub archive_boxes: i64,
    pub last_sync: String,
}

/// Movements counted by action, with the latest ones.
pub struct MovementsReport {
    pub total_movements: i64,
    /// Movements per action, in the order the actions first occur.
    pub by_action: Vec<(String, i64)>,
    pub latest: Vec<MovementRecord>,
}

/// Loans counted by state, with the overdue ones.
pub struct LoansReport {
    pub total_loans: i64,
    pub open_loans: i64,
    pub overdue_loans: Vec<LoanWithEmployee>,
    pub returned_today: i64,
}

/// Where an export was written.
pub struct FileExportResult {
    pub path: String,
    pub generated_at: String,
}

} // verus!
