//! A streaming query-execution pipeline: it pages through a query's result
//! set, converts each row's wire-typed column values into structured values,
//! and hands the rows to a synchronous consumer over a bounded channel.
pub mod bridge;
pub mod codec;
pub mod convert;
pub mod digits;
pub mod laws;
pub mod paging;
pub mod query;
pub mod render;
pub mod value;
