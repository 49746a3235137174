use cassandra_query::bridge::BoundedChannel;
use cassandra_query::bridge::SendOutcome;
use cassandra_query::paging::build_descriptors;
use cassandra_query::paging::build_record;
use cassandra_query::paging::run_pages;
use cassandra_query::paging::ColumnDescriptor;
use cassandra_query::paging::FetchResult;
use cassandra_query::paging::Page;
use cassandra_query::paging::PagingController;
use cassandra_query::paging::PagingState;
use cassandra_query::paging::StreamItem;
use cassandra_query::query::CassandraQuery;
use cassandra_query::query::PipelineError;
use cassandra_query::query::DEFAULT_PAGE_SIZE;
use cassandra_query::value::StructuredValue;
use cassandra_query::value::WireValue;
use cassandra_query::value::TAG_INT;

fn int_cell(n: i32) -> WireValue {
    WireValue::Scalar(TAG_INT, Some(n.to_be_bytes().to_vec()))
}

fn columns(names: &[&str]) -> Vec<ColumnDescriptor> {
    let tags: Vec<u16> = names.iter().map(|_| TAG_INT).collect();
    build_descriptors(names.iter().map(|s| s.to_string()).collect(), &tags)
}

fn page_of(rows: Vec<Vec<WireValue>>, has_more: bool) -> FetchResult {
    FetchResult::Fetched(Page { rows, has_more })
}

fn record_ints(item: &StreamItem) -> Vec<i64> {
    match item {
        StreamItem::RecordItem(r) => r
            .values
            .iter()
            .map(|v| match v {
                StructuredValue::Int64(n) => *n,
                _ => panic!("expected an integer value"),
            })
            .collect(),
        StreamItem::ErrorItem(_) => panic!("expected a record"),
    }
}

#[test]
fn descriptors_keep_names_and_positions() {
    let cols = columns(&["a", "b", "c"]);
    assert_eq!(cols.len(), 3);
    assert_eq!(cols[1].name, "b");
    assert_eq!(cols[1].index, 1);
    assert_eq!(cols[2].wire_tag, TAG_INT);
}

#[test]
fn record_has_one_value_per_descriptor() {
    let cols = columns(&["x", "y", "z"]);
    // a row with too few cells still yields a full-width record
    let r = build_record(&cols, &vec![int_cell(1)]);
    assert_eq!(r.values.len(), 3);
    assert!(r.names == vec!["x", "y", "z"]);
    assert!(r.values[0] == StructuredValue::Int64(1));
    assert!(matches!(r.values[1], StructuredValue::ErrorValue(_)));
    assert!(matches!(r.values[2], StructuredValue::ErrorValue(_)));
}

#[test]
fn record_width_holds_on_every_page() {
    let cols = columns(&["x", "y"]);
    let fetches = vec![
        page_of(vec![vec![int_cell(1), int_cell(2)], vec![int_cell(3)]], true),
        page_of(vec![vec![], vec![int_cell(4), int_cell(5)]], false),
    ];
    let out = run_pages(cols, &fetches);
    assert_eq!(out.len(), 4);
    for item in &out {
        match item {
            StreamItem::RecordItem(r) => assert_eq!(r.values.len(), 2),
            StreamItem::ErrorItem(_) => panic!("no fetch failed"),
        }
    }
}

#[test]
fn row_order_is_preserved_across_pages() {
    let cols = columns(&["n"]);
    let fetches = vec![
        page_of(vec![vec![int_cell(1)], vec![int_cell(2)]], true),
        page_of(vec![vec![int_cell(3)]], true),
        page_of(vec![vec![int_cell(4)], vec![int_cell(5)]], false),
    ];
    let out = run_pages(cols, &fetches);
    let seen: Vec<i64> = out.iter().map(|it| record_ints(it)[0]).collect();
    assert_eq!(seen, vec![1, 2, 3, 4, 5]);
}

#[test]
fn stream_ends_cleanly_without_continuation() {
    let cols = columns(&["n"]);
    // the second fetch would only be used if the first page carried a token
    let fetches = vec![
        page_of(vec![vec![int_cell(1)]], false),
        page_of(vec![vec![int_cell(2)]], false),
    ];
    let out = run_pages(cols, &fetches);
    assert_eq!(out.len(), 1);
    assert_eq!(record_ints(&out[0]), vec![1]);
}

#[test]
fn three_of_four_pages_with_a_failed_fetch() {
    let cols = columns(&["n"]);
    let fetches = vec![
        page_of(vec![vec![int_cell(1)], vec![int_cell(2)]], true),
        page_of(vec![vec![int_cell(3)]], true),
        FetchResult::FetchFailed("connection reset".to_string()),
        page_of(vec![vec![int_cell(9)]], false),
    ];
    let out = run_pages(cols, &fetches);
    // rows of pages one and two intact, then exactly one terminal error
    assert_eq!(out.len(), 4);
    assert_eq!(record_ints(&out[0]), vec![1]);
    assert_eq!(record_ints(&out[1]), vec![2]);
    assert_eq!(record_ints(&out[2]), vec![3]);
    match &out[3] {
        StreamItem::ErrorItem(e) => {
            assert!(e.message == "connection reset");
            assert!(e.context == "page fetch");
        },
        StreamItem::RecordItem(_) => panic!("expected the terminal error"),
    }
}

#[test]
fn controller_walks_its_states() {
    let mut ctl = PagingController::new(columns(&["n"]));
    assert!(!ctl.is_done());
    let first = ctl.drain_page(&Page { rows: vec![vec![int_cell(1)]], has_more: true });
    assert_eq!(first.len(), 1);
    assert!(ctl.state == PagingState::Fetching);
    ctl.resume_after_fetch();
    assert!(ctl.state == PagingState::Draining);
    let second = ctl.drain_page(&Page { rows: vec![], has_more: true });
    assert_eq!(second.len(), 0);
    let item = ctl.fetch_failed("token refused");
    assert!(matches!(item, StreamItem::ErrorItem(_)));
    assert!(ctl.is_done());
}

#[test]
fn backpressure_never_exceeds_capacity() {
    let mut ch: BoundedChannel<u64> = BoundedChannel::new(1024);
    let mut accepted: usize = 0;
    for i in 0..2000u64 {
        match ch.try_send(i) {
            SendOutcome::Accepted => accepted += 1,
            SendOutcome::Full => break,
            SendOutcome::Disconnected => panic!("receiver still live"),
        }
    }
    assert_eq!(accepted, 1024);
    assert_eq!(ch.len(), 1024);
    assert!(matches!(ch.try_send(9999), SendOutcome::Full));
    assert_eq!(ch.len(), 1024);
}

#[test]
fn channel_is_first_in_first_out() {
    let mut ch: BoundedChannel<u64> = BoundedChannel::new(4);
    assert!(matches!(ch.try_send(10), SendOutcome::Accepted));
    assert!(matches!(ch.try_send(20), SendOutcome::Accepted));
    assert_eq!(ch.recv(), Some(10));
    assert!(matches!(ch.try_send(30), SendOutcome::Accepted));
    assert_eq!(ch.recv(), Some(20));
    assert_eq!(ch.recv(), Some(30));
    assert_eq!(ch.recv(), None);
}

#[test]
fn closed_channel_refuses_sends() {
    let mut ch: BoundedChannel<u64> = BoundedChannel::new(4);
    assert!(matches!(ch.try_send(1), SendOutcome::Accepted));
    ch.close();
    assert!(matches!(ch.try_send(2), SendOutcome::Disconnected));
    assert_eq!(ch.len(), 0);
}

#[test]
fn query_carries_the_default_page_size() {
    let q = CassandraQuery::new("SELECT keyspace_name FROM system_schema.keyspaces".to_string());
    assert_eq!(q.page_size, DEFAULT_PAGE_SIZE);
    assert_eq!(q.page_size, 1024);
    assert!(q.query == "SELECT keyspace_name FROM system_schema.keyspaces");
}

#[test]
fn pipeline_errors_hand_out_the_bare_message() {
    // the fixed heading is attached once, by the caller; the label slot
    // gets the driver's own words
    let e = PipelineError::ConnectionError("no hosts available".to_string());
    assert!(e.message() == "no hosts available");
    let q = PipelineError::QueryError("syntax error".to_string());
    assert!(q.message() == "syntax error");
    let p = PipelineError::PagingError("token rejected".to_string());
    assert!(p.message() == "token rejected");
}
