//! Apple Silicon performance counters: the event database, the measurement
//! results and the reports made of them.

pub mod document;
pub mod dates;
pub mod text;
pub mod aliases;
pub mod kpep;
pub mod order;
pub mod load;
pub mod inject;
pub mod stat;
pub mod session;
pub mod report;
pub mod color;
pub mod list;
pub mod laws;
