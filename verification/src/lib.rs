//! A writer that fills a fixed block of memory lent by the caller, and the
//! model its contracts are stated over.

pub mod history;
pub mod model;
pub mod writer;

pub use writer::Writer;
