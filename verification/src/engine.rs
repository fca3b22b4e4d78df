//! The analysis of a diagnostic package.

pub mod analysis;
pub mod archive;
pub mod archive_laws;
pub mod boot_laws;
pub mod context_laws;
pub mod ending_laws;
pub mod events;
pub mod evidence;
pub mod fact_laws;
pub mod facts;
pub mod file;
pub mod finding_laws;
pub mod findings;
pub mod hit_laws;
pub mod model;
pub mod payload;
pub mod plan;
pub mod plan_laws;
pub mod piece_laws;
pub mod preview;
pub mod preview_laws;
pub mod report;
pub mod report_laws;
pub mod scan;
pub mod scan_laws;
pub mod session_laws;
pub mod sessions;
pub mod time;
pub mod time_laws;

pub use analysis::{analyze, Analysis};
pub use archive::Cancelled;
pub use model::{Event, Finding, Fragment, LogLine, TimelineSession};
pub use preview::preview;
pub use report::Report;
pub use time::event_time;
