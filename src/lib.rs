//! Aggregation and classification of ad-auction log records.
//!
//! Raw banner sizes are snapped to a catalog of standard sizes
//! (`canonical`), each record is folded into six grouped views
//! (`global`, over the sorted tables of `table`), and the finished raw-size
//! view is scanned for problem formats (`problems`). `laws` states and
//! proves the properties that tie these together; `cli` and `report` hold
//! the pure parts of the command-line front end.

pub mod canonical;
pub mod cli;
pub mod global;
pub mod keys;
pub mod laws;
pub mod problems;
pub mod record;
pub mod report;
pub mod stats;
pub mod table;
