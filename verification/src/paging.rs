//! The paging controller: drives page-by-page row iteration, builds one
//! record per row, and ends the stream cleanly, or with exactly one
//! terminal error record when a page fetch fails. Rows already delivered
//! from earlier pages stay valid; no retry is attempted.
use vstd::prelude::*;
use vstd::string::StringExecFns;
use crate::convert::convert_model;
use crate::convert::convert_value;
use crate::convert::missing_err;
use crate::convert::missing_error;
use crate::convert::lemma_wire_view_seq_index;
use crate::value::ErrorInfo;
use crate::value::StructuredValue;
use crate::value::ValueModel;
use crate::value::WireModel;
use crate::value::WireValue;
use crate::value::wire_view;
use crate::value::wire_view_seq;
use crate::value::value_view;
use crate::value::value_view_seq;
use crate::value::lemma_value_view_seq_index;
use crate::value::lemma_value_view_seq_len;

verus! {

/// One column of the result set: its name, its position, and its wire-type
/// tag. The list of descriptors is established once, from the first page,
/// and reused for every subsequent page.
pub struct ColumnDescriptor {
    pub name: String,
    pub index: usize,
    pub wire_tag: u16,
}

/// Each descriptor sits at its own position.
pub open spec fn descriptors_wf(cols: Seq<ColumnDescriptor>) -> bool {
    forall|i: int| 0 <= i < cols.len() ==> #[trigger] cols[i].index == i
}

/// Builds the descriptor list from the column names and wire-type tags of
/// the first page's metadata.
pub fn build_descriptors(names: Vec<String>, tags: &Vec<u16>) -> (r: Vec<ColumnDescriptor>)
    requires
        names@.len() == tags@.len(),
    ensures
        r@.len() == names@.len(),
        descriptors_wf(r@),
        forall|i: int|
            0 <= i < r@.len() ==> #[trigger] r@[i].name == names@[i] && r@[i].wire_tag
                == tags@[i],
{
    let mut r: Vec<ColumnDescriptor> = Vec::new();
    let mut names = names;
    let mut i: usize = 0;
    let ghost names0 = names@;
    while i < tags.len()
        invariant
            i <= tags@.len(),
            names@ =~= names0.skip(i as int),
            names0.len() == tags@.len(),
            r@.len() == i,
            descriptors_wf(r@),
            forall|j: int|
                0 <= j < i ==> #[trigger] r@[j].name == names0[j] && r@[j].wire_tag == tags@[j],
        decreases tags@.len() - i,
    {
        let name = names.remove(0);
        r.push(ColumnDescriptor { name, index: i, wire_tag: tags[i] });
        i = i + 1;
    }
    r
}

/// One produced record: the column names with the converted value of each
/// column, in column order.
#[derive(PartialEq, Eq)]
pub struct RecordOut {
    pub names: Vec<String>,
    pub values: Vec<StructuredValue>,
}

/// Mathematical model of a record.
pub ghost struct RecordModel {
    pub names: Seq<Seq<char>>,
    pub values: Seq<ValueModel>,
}

/// One item of the produced stream: a record, or the single terminal error
/// of a failed page fetch.
#[derive(PartialEq, Eq)]
pub enum StreamItem {
    RecordItem(RecordOut),
    ErrorItem(ErrorInfo),
}

/// Mathematical model of a stream item.
pub ghost enum StreamItemModel {
    Rec(RecordModel),
    Fail(Seq<char>, Seq<char>),
}

/// One fetched page: its rows, and whether the cursor carried a
/// continuation token.
pub struct Page {
    pub rows: Vec<Vec<WireValue>>,
    pub has_more: bool,
}

/// Mathematical model of a page.
pub ghost struct PageModel {
    pub rows: Seq<Seq<WireModel>>,
    pub has_more: bool,
}

/// What one page fetch came back with.
pub enum FetchResult {
    Fetched(Page),
    FetchFailed(String),
}

/// Mathematical model of a fetch result.
pub ghost enum FetchModel {
    Fetched(PageModel),
    FetchFailed(Seq<char>),
}

pub open spec fn names_view(ns: Seq<String>) -> Seq<Seq<char>> {
    Seq::new(ns.len(), |i: int| ns[i]@)
}

pub open spec fn record_view(r: RecordOut) -> RecordModel {
    RecordModel { names: names_view(r.names@), values: value_view_seq(r.values@) }
}

pub open spec fn item_view(it: StreamItem) -> StreamItemModel {
    match it {
        StreamItem::RecordItem(r) => StreamItemModel::Rec(record_view(r)),
        StreamItem::ErrorItem(e) => StreamItemModel::Fail(e.message@, e.context@),
    }
}

pub open spec fn items_view(s: Seq<StreamItem>) -> Seq<StreamItemModel> {
    Seq::new(s.len(), |i: int| item_view(s[i]))
}

pub open spec fn rows_view(rs: Seq<Vec<WireValue>>) -> Seq<Seq<WireModel>> {
    Seq::new(rs.len(), |i: int| wire_view_seq(rs[i]@))
}

pub open spec fn page_view(p: Page) -> PageModel {
    PageModel { rows: rows_view(p.rows@), has_more: p.has_more }
}

pub open spec fn fetch_view(f: FetchResult) -> FetchModel {
    match f {
        FetchResult::Fetched(p) => FetchModel::Fetched(page_view(p)),
        FetchResult::FetchFailed(m) => FetchModel::FetchFailed(m@),
    }
}

pub open spec fn fetches_view(fs: Seq<FetchResult>) -> Seq<FetchModel> {
    Seq::new(fs.len(), |i: int| fetch_view(fs[i]))
}

/// The names of the descriptors, in order.
pub open spec fn names_of(cols: Seq<ColumnDescriptor>) -> Seq<Seq<char>> {
    Seq::new(cols.len(), |i: int| cols[i].name@)
}

/// The values of one record: one converted value per descriptor, an error
/// value where the row has no cell for the column.
pub open spec fn row_values(cols: Seq<ColumnDescriptor>, row: Seq<WireModel>) -> Seq<ValueModel> {
    Seq::new(
        cols.len(),
        |i: int|
            if i < row.len() {
                convert_model(row[i])
            } else {
                missing_err()
            },
    )
}

/// The record of one row under the given descriptors.
pub open spec fn record_of_row(cols: Seq<ColumnDescriptor>, row: Seq<WireModel>) -> RecordModel {
    RecordModel { names: names_of(cols), values: row_values(cols, row) }
}

/// The stream items of one page: one record per row, in row order.
pub open spec fn page_records(cols: Seq<ColumnDescriptor>, rows: Seq<Seq<WireModel>>) -> Seq<
    StreamItemModel,
> {
    Seq::new(rows.len(), |i: int| StreamItemModel::Rec(record_of_row(cols, rows[i])))
}

/// The terminal item of a failed page fetch.
pub open spec fn fail_item(msg: Seq<char>) -> StreamItemModel {
    StreamItemModel::Fail(msg, "page fetch"@)
}

/// The whole stream that the paging loop produces from a sequence of fetch
/// outcomes: page after page in fetch order, each page's rows in row order,
/// ending cleanly when a page carries no continuation, or with exactly one
/// terminal error item at the first failed fetch, after which nothing
/// follows.
pub open spec fn stream_model(cols: Seq<ColumnDescriptor>, fetches: Seq<FetchModel>) -> Seq<
    StreamItemModel,
>
    decreases fetches.len(),
{
    if fetches.len() == 0 {
        Seq::empty()
    } else {
        match fetches[0] {
            FetchModel::Fetched(p) => page_records(cols, p.rows) + (if p.has_more {
                stream_model(cols, fetches.drop_first())
            } else {
                Seq::empty()
            }),
            FetchModel::FetchFailed(msg) => seq![fail_item(msg)],
        }
    }
}

/// Builds the terminal stream item of a failed page fetch.
pub fn fetch_failure_item(msg: &str) -> (r: StreamItem)
    ensures
        item_view(r) == fail_item(msg@),
{
    StreamItem::ErrorItem(ErrorInfo { message: msg.to_owned(), context: "page fetch".to_owned() })
}

/// Builds the record of one row: exactly one value per column descriptor,
/// each either the converted cell or a column-scoped error value, never
/// absent.
pub fn build_record(cols: &Vec<ColumnDescriptor>, row: &Vec<WireValue>) -> (r: RecordOut)
    ensures
        r.values@.len() == cols@.len(),
        record_view(r) == record_of_row(cols@, wire_view_seq(row@)),
{
    let mut names: Vec<String> = Vec::new();
    let mut values: Vec<StructuredValue> = Vec::new();
    let mut i: usize = 0;
    while i < cols.len()
        invariant
            i <= cols@.len(),
            names@.len() == i,
            values@.len() == i,
            forall|j: int| 0 <= j < i ==> #[trigger] names@[j]@ == cols@[j].name@,
            forall|j: int|
                0 <= j < i ==> value_view(#[trigger] values@[j]) == (if j < row@.len() {
                    convert_model(wire_view(row@[j]))
                } else {
                    missing_err()
                }),
        decreases cols@.len() - i,
    {
        names.push(cols[i].name.clone());
        if i < row.len() {
            values.push(convert_value(&row[i]));
        } else {
            values.push(missing_error());
        }
        i = i + 1;
    }
    let r = RecordOut { names, values };
    proof {
        let rowv = wire_view_seq(row@);
        if row@.len() > 0 {
            assert forall|j: int| 0 <= j < row@.len() implies #[trigger] rowv[j] == wire_view(
                row@[j],
            ) by {
                lemma_wire_view_seq_index(row@, j);
            }
        }
        lemma_wire_view_seq_len(row@);
        lemma_value_view_seq_len(r.values@);
        assert forall|j: int|
            0 <= j < cols@.len() implies value_view_seq(r.values@)[j] == row_values(
            cols@,
            rowv,
        )[j] by {
            lemma_value_view_seq_index(r.values@, j);
        }
        assert(value_view_seq(r.values@) =~= row_values(cols@, rowv));
        assert(names_view(r.names@) =~= names_of(cols@));
    }
    r
}

proof fn lemma_wire_view_seq_len(s: Seq<WireValue>)
    ensures
        wire_view_seq(s).len() == s.len(),
    decreases s.len(),
{
    if s.len() > 0 {
        lemma_wire_view_seq_len(s.subrange(1, s.len() as int));
    }
}

/// The two live states of the paging loop; a page without a continuation
/// token, or a failed fetch, moves the controller to `Done`.
#[derive(PartialEq, Eq)]
pub enum PagingState {
    Draining,
    Fetching,
    Done,
}

/// Drives the page-by-page iteration: rows of the current page are turned
/// into records in order; a continuation token moves the controller to
/// `Fetching` until the next page is installed; a fetch failure produces
/// the single terminal error item and ends the stream.
pub struct PagingController {
    pub columns: Vec<ColumnDescriptor>,
    pub state: PagingState,
}

impl PagingController {
    /// A controller ready to drain the first page.
    pub fn new(columns: Vec<ColumnDescriptor>) -> (r: Self)
        ensures
            r.state == PagingState::Draining,
            r.columns@ == columns@,
    {
        PagingController { columns, state: PagingState::Draining }
    }

    pub fn is_done(&self) -> (r: bool)
        ensures
            r == (self.state == PagingState::Done),
    {
        match self.state {
            PagingState::Done => true,
            _ => false,
        }
    }

    /// Converts every row of the current page, in page-internal order. A
    /// continuation token means another fetch is owed; without one the
    /// stream ends cleanly.
    pub fn drain_page(&mut self, page: &Page) -> (out: Vec<StreamItem>)
        requires
            old(self).state == PagingState::Draining,
        ensures
            final(self).columns@ == old(self).columns@,
            items_view(out@) == page_records(old(self).columns@, rows_view(page.rows@)),
            final(self).state == (if page.has_more {
                PagingState::Fetching
            } else {
                PagingState::Done
            }),
    {
        let mut out: Vec<StreamItem> = Vec::new();
        let mut j: usize = 0;
        let rows = &page.rows;
        while j < rows.len()
            invariant
                j <= rows@.len(),
                out@.len() == j,
                forall|k: int|
                    0 <= k < j ==> item_view(#[trigger] out@[k]) == StreamItemModel::Rec(
                        record_of_row(self.columns@, wire_view_seq(rows@[k]@)),
                    ),
                *self == *old(self),
            decreases rows@.len() - j,
        {
            let rec = build_record(&self.columns, &rows[j]);
            out.push(StreamItem::RecordItem(rec));
            j = j + 1;
        }
        proof {
            assert(items_view(out@) =~= page_records(self.columns@, rows_view(rows@)));
        }
        self.state = if page.has_more {
            PagingState::Fetching
        } else {
            PagingState::Done
        };
        out
    }

    /// The next page arrived and is installed: back to draining.
    pub fn resume_after_fetch(&mut self)
        requires
            old(self).state == PagingState::Fetching,
        ensures
            final(self).columns@ == old(self).columns@,
            final(self).state == PagingState::Draining,
    {
        self.state = PagingState::Draining;
    }

    /// A fetch failed while the stream was live: exactly one terminal
    /// error item, then the stream is over. No retry is attempted.
    pub fn fetch_failed(&mut self, msg: &str) -> (r: StreamItem)
        requires
            old(self).state != PagingState::Done,
        ensures
            final(self).columns@ == old(self).columns@,
            final(self).state == PagingState::Done,
            item_view(r) == fail_item(msg@),
    {
        self.state = PagingState::Done;
        fetch_failure_item(msg)
    }
}

/// Runs the whole paging loop over a sequence of fetch outcomes, producing
/// the stream the consumer sees: pages in fetch order, rows in page order,
/// a clean end at the first page without a continuation, or exactly one
/// terminal error item at the first failed fetch.
#[verifier::loop_isolation(false)]
pub fn run_pages(columns: Vec<ColumnDescriptor>, fetches: &Vec<FetchResult>) -> (out: Vec<
    StreamItem,
>)
    ensures
        items_view(out@) == stream_model(columns@, fetches_view(fetches@)),
{
    let ghost colsv = columns@;
    let ghost fv = fetches_view(fetches@);
    let mut ctl = PagingController::new(columns);
    let mut out: Vec<StreamItem> = Vec::new();
    let mut i: usize = 0;
    proof {
        assert(fv.skip(0) =~= fv);
    }
    while !ctl.is_done() && i < fetches.len()
        invariant
            i <= fv.len(),
            ctl.columns@ == colsv,
            ctl.state == PagingState::Draining || ctl.state == PagingState::Done,
            ctl.state == PagingState::Draining ==> stream_model(colsv, fv) =~= items_view(out@)
                + stream_model(colsv, fv.skip(i as int)),
            ctl.state == PagingState::Done ==> stream_model(colsv, fv) =~= items_view(out@),
        decreases fv.len() - i,
    {
        match &fetches[i] {
            FetchResult::Fetched(p) => {
                let mut items = ctl.drain_page(p);
                proof {
                    assert(fv.skip(i as int)[0] == fetch_view(fetches@[i as int]));
                    assert(fv.skip(i as int).drop_first() =~= fv.skip(i + 1));
                    assert(items_view(out@ + items@) =~= items_view(out@) + items_view(items@));
                }
                out.append(&mut items);
                if !ctl.is_done() {
                    ctl.resume_after_fetch();
                }
            },
            FetchResult::FetchFailed(msg) => {
                proof {
                    assert(fv.skip(i as int)[0] == fetch_view(fetches@[i as int]));
                }
                let item = ctl.fetch_failed(msg.as_str());
                let ghost out0 = out@;
                out.push(item);
                proof {
                    assert(items_view(out@) =~= items_view(out0) + seq![item_view(item)]);
                }
            },
        }
        i = i + 1;
    }
    proof {
        if ctl.state == PagingState::Draining {
            assert(i == fv.len());
            assert(fv.skip(i as int) =~= Seq::empty());
            assert(stream_model(colsv, fv.skip(i as int)) =~= Seq::empty());
            assert(stream_model(colsv, fv) =~= items_view(out@));
        }
    }
    out
}

} // verus!
