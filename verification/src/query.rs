//! The query request and the pipeline's error taxonomy. Connection and
//! query errors happen before any row is produced and abort the whole
//! operation; a paging error becomes the stream's single terminal record;
//! conversion failures stay inside the column they hit.
use vstd::prelude::*;
use vstd::string::StringExecFns;

verus! {

/// The page-size hint every statement is issued with, and the capacity of
/// the bounded channel to the consumer.
pub const DEFAULT_PAGE_SIZE: usize = 1024;

/// One query to run: the statement text and the page-size hint.
pub struct CassandraQuery {
    pub query: String,
    pub page_size: usize,
}

impl CassandraQuery {
    /// A query with the default page size.
    pub fn new(query: String) -> (r: Self)
        ensures
            r.query@ == query@,
            r.page_size == DEFAULT_PAGE_SIZE,
    {
        CassandraQuery { query, page_size: DEFAULT_PAGE_SIZE }
    }
}

/// What can abort or truncate a query: the cluster unreachable, the
/// statement rejected, or a continuation fetch failed.
pub enum PipelineError {
    ConnectionError(String),
    QueryError(String),
    PagingError(String),
}

impl PipelineError {
    pub open spec fn message_of(&self) -> Seq<char> {
        match *self {
            PipelineError::ConnectionError(m) => m@,
            PipelineError::QueryError(m) => m@,
            PipelineError::PagingError(m) => m@,
        }
    }

    /// The failure's own words, bare: what goes in the label slot under
    /// the fixed heading the caller attaches.
    pub fn message(&self) -> (r: String)
        ensures
            r@ == self.message_of(),
    {
        match self {
            PipelineError::ConnectionError(m) => m.clone(),
            PipelineError::QueryError(m) => m.clone(),
            PipelineError::PagingError(m) => m.clone(),
        }
    }
}

} // verus!
