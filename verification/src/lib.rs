//! Coordinator control-plane logic for the rollout framework: work-item
//! ledger, dispatch queue, work stealing, coordinator lease and epoch
//! fencing, worker registry and failure scan, spot-drain sequencing, and
//! the configuration schema checks.

pub mod backend;
pub mod clock;
pub mod config;
pub mod dispatch_counts;
pub mod drain;
pub mod epoch;
pub mod cloud;
pub mod errors;
pub mod failure_scan;
pub mod fence;
pub mod ids;
pub mod keyed;
pub mod laws;
pub mod lease;
pub mod ledger;
pub mod mock_run;
pub mod observability;
pub mod plugin;
pub mod registry;
pub mod run;
pub mod snapshot;
pub mod steal;
pub mod storage;
pub mod text;
pub mod training;
pub mod work_item;
pub mod work_table;
pub mod worker;
