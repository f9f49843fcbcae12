//! Records management for a physical archive: cabinets, drawers and
//! positions, employees, loans and the dead archive, with the occupancy
//! engine, the reorganization planner and the lifecycle operations.
pub mod archive;
pub mod auth;
pub mod cabinets;
pub mod clock;
pub mod dashboard;
pub mod documents;
pub mod employees;
pub mod integrity;
pub mod labels;
pub mod loans;
pub mod occupancy;
pub mod occupation;
pub mod payloads;
pub mod planner;
pub mod queries;
pub mod records;
pub mod reorganization;
pub mod reports;
pub mod sessions;
pub mod storage;
pub mod store;
pub mod text;
pub mod validation;
