//! The pipeline's global guarantees, stated and proved over the stream
//! model: every record is full width, row order is preserved across
//! pages, a fetch failure truncates the stream after exactly one terminal
//! error item, and conversion is a pure function of its input.
use vstd::prelude::*;
use crate::convert::convert_model;
use crate::paging::ColumnDescriptor;
use crate::paging::FetchModel;
use crate::paging::StreamItemModel;
use crate::paging::fail_item;
use crate::paging::page_records;
use crate::paging::record_of_row;
use crate::paging::row_values;
use crate::paging::stream_model;
use crate::value::WireModel;

verus! {

/// All the rows the fetches carry, in fetch order then row order.
pub open spec fn rows_of(fetches: Seq<FetchModel>) -> Seq<Seq<WireModel>>
    decreases fetches.len(),
{
    if fetches.len() == 0 {
        Seq::empty()
    } else {
        (match fetches[0] {
            FetchModel::Fetched(p) => p.rows,
            FetchModel::FetchFailed(_) => Seq::empty(),
        }) + rows_of(fetches.drop_first())
    }
}

/// A run of pages that keeps going: every fetch brought a page, and every
/// page but possibly the last carried a continuation token.
pub open spec fn pages_chained(fetches: Seq<FetchModel>) -> bool {
    forall|k: int|
        0 <= k < fetches.len() ==> (#[trigger] fetches[k]) is Fetched && (k < fetches.len() - 1
            ==> fetches[k]->Fetched_0.has_more)
}

proof fn lemma_page_records_concat(
    cols: Seq<ColumnDescriptor>,
    a: Seq<Seq<WireModel>>,
    b: Seq<Seq<WireModel>>,
)
    ensures
        page_records(cols, a + b) == page_records(cols, a) + page_records(cols, b),
{
    assert(page_records(cols, a + b) =~= page_records(cols, a) + page_records(cols, b));
}

/// Every record of the stream holds exactly one value per column
/// descriptor, whatever the pages brought.
pub proof fn lemma_record_width(
    cols: Seq<ColumnDescriptor>,
    fetches: Seq<FetchModel>,
    i: int,
)
    requires
        0 <= i < stream_model(cols, fetches).len(),
        stream_model(cols, fetches)[i] is Rec,
    ensures
        stream_model(cols, fetches)[i]->Rec_0.values.len() == cols.len(),
    decreases fetches.len(),
{
    let s = stream_model(cols, fetches);
    match fetches[0] {
        FetchModel::Fetched(p) => {
            let head = page_records(cols, p.rows);
            if i < head.len() {
                assert(s[i] == head[i]);
                assert(head[i]->Rec_0.values == row_values(cols, p.rows[i]));
            } else {
                lemma_record_width(cols, fetches.drop_first(), i - head.len());
            }
        },
        FetchModel::FetchFailed(_) => {},
    }
}

/// Row order is preserved: over a chained run of pages the stream is one
/// record per row, pages in fetch order, rows in page order, with nothing
/// dropped, repeated or added.
pub proof fn lemma_row_order(cols: Seq<ColumnDescriptor>, fetches: Seq<FetchModel>)
    requires
        pages_chained(fetches),
    ensures
        stream_model(cols, fetches) == page_records(cols, rows_of(fetches)),
    decreases fetches.len(),
{
    if fetches.len() == 0 {
        assert(stream_model(cols, fetches) =~= page_records(cols, rows_of(fetches)));
    } else {
        let p = fetches[0]->Fetched_0;
        let rest = fetches.drop_first();
        assert(pages_chained(rest)) by {
            assert forall|k: int| 0 <= k < rest.len() implies (#[trigger] rest[k]) is Fetched && (
            k < rest.len() - 1 ==> rest[k]->Fetched_0.has_more) by {
                assert(rest[k] == fetches[k + 1]);
            }
        }
        lemma_row_order(cols, rest);
        lemma_page_records_concat(cols, p.rows, rows_of(rest));
        if p.has_more {
        } else {
            assert(rest.len() == 0);
            assert(rows_of(rest) =~= Seq::<Seq<WireModel>>::empty());
            assert(p.rows + rows_of(rest) =~= p.rows);
        }
        assert(stream_model(cols, fetches) =~= page_records(cols, rows_of(fetches)));
    }
}

/// Partial failure: when the first `k` fetches bring chained pages and
/// fetch `k` fails, the stream is every record of those `k` pages, intact
/// and in order, then exactly one terminal error item, then nothing.
pub proof fn lemma_partial_failure(
    cols: Seq<ColumnDescriptor>,
    fetches: Seq<FetchModel>,
    k: int,
)
    requires
        0 <= k < fetches.len(),
        forall|j: int|
            0 <= j < k ==> (#[trigger] fetches[j]) is Fetched
                && fetches[j]->Fetched_0.has_more,
        fetches[k] is FetchFailed,
    ensures
        stream_model(cols, fetches) == page_records(cols, rows_of(fetches.take(k))) + seq![
            fail_item(fetches[k]->FetchFailed_0),
        ],
    decreases k,
{
    if k == 0 {
        assert(stream_model(cols, fetches) =~= page_records(cols, rows_of(fetches.take(0)))
            + seq![fail_item(fetches[0]->FetchFailed_0)]);
    } else {
        let p = fetches[0]->Fetched_0;
        let rest = fetches.drop_first();
        assert forall|j: int| 0 <= j < k - 1 implies (#[trigger] rest[j]) is Fetched
            && rest[j]->Fetched_0.has_more by {
            assert(rest[j] == fetches[j + 1]);
        }
        assert(rest[k - 1] == fetches[k]);
        lemma_partial_failure(cols, rest, k - 1);
        lemma_page_records_concat(cols, p.rows, rows_of(rest.take(k - 1)));
        assert(fetches.take(k).drop_first() =~= rest.take(k - 1));
        assert(rows_of(fetches.take(k)) == p.rows + rows_of(rest.take(k - 1))) by {
            assert(fetches.take(k)[0] == fetches[0]);
        }
        assert(stream_model(cols, fetches) =~= page_records(cols, rows_of(fetches.take(k)))
            + seq![fail_item(fetches[k]->FetchFailed_0)]);
    }
}

/// Conversion has no hidden state: it is a function of the wire value
/// alone, so converting the same encoded value twice gives equal results.
pub proof fn lemma_conversion_idempotent(a: WireModel, b: WireModel)
    requires
        a == b,
    ensures
        convert_model(a) == convert_model(b),
{
}

} // verus!
