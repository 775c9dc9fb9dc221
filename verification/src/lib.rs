//! Complexity-weighted code coverage: WCC, CRAP and SKUNK scores per file,
//! per function and for a whole project, computed in exact fixed-point
//! arithmetic from line coverage and a tree of code units.

pub mod code_unit;
pub mod determinism;
pub mod error;
pub mod grcov;
pub mod metrics;
pub mod options;
pub mod order;
pub mod output;
pub mod permutation;
pub mod project;
pub mod runner;
pub mod score;
pub mod spaces;
pub mod wcc;

pub use error::Error;
pub use metrics::{Metrics, MetricsData};
pub use options::{Complexity, GrcovFile, GrcovFormat, Mode, Sort, Thresholds};
pub use output::{FileMetrics, FunctionMetrics, ProjectMetrics, WccOutput};
pub use runner::WccRunner;
