//! Page-replacement simulation: frames of resident pages, the eviction
//! policies FIFO, LRU, Second-Chance and NRU, and a driver that folds a
//! reference string into a report of hits, faults and evictions.

pub mod page;
pub mod report;
pub mod utils;
pub mod algorithms;
pub mod simulation;

pub use page::MemoryPage;
pub use report::PageReport;
pub use simulation::{load_page, run};
