//! Properties of order rebuilding that relate its parts or several runs.
use crate::aggregate::{
    customer_for, diagnostics_of, diagnostics_view, entry_of, keys_of, lines_for,
    meta_index_for, order_diagnostics, orders_of, orders_over, orders_view, outcome_for,
    record_diagnostics, Aggregation, DiagnosticView, EntryView, RecordErrorView, RecordView,
};
use crate::classify::{kind_of, Kind};
use crate::model::{line_total, total_in_range, AssemblyErrorView, OrderView};
use crate::record::{number_text_field, string_field};
use vstd::prelude::*;

verus! {

/// Whether a record reads as the customer of partition `pk`.
pub open spec fn is_customer_of(rec: RecordView, pk: Seq<char>) -> bool {
    match entry_of(rec) {
        Ok(EntryView::Customer(p, _)) => p == pk,
        _ => false,
    }
}

/// Whether a record reads as a line of partition `pk`.
pub open spec fn is_line_of(rec: RecordView, pk: Seq<char>) -> bool {
    match entry_of(rec) {
        Ok(EntryView::Product(p, _)) => p == pk,
        _ => false,
    }
}

proof fn lemma_orders_over_totals(rs: Seq<RecordView>, keys: Seq<Seq<char>>)
    ensures
        forall|i: int|
            0 <= i < orders_over(rs, keys).len() ==> (#[trigger] orders_over(rs, keys)[i]).total_amount
                == line_total(orders_over(rs, keys)[i].products),
    decreases keys.len(),
{
    if keys.len() > 0 {
        lemma_orders_over_totals(rs, keys.drop_last());
        let prev = orders_over(rs, keys.drop_last());
        match outcome_for(rs, keys.last()) {
            Some(Ok(o)) => {
                assert(o.total_amount == line_total(o.products));
                assert forall|i: int| 0 <= i < prev.len() implies prev.push(o)[i] == prev[i] by {}
            },
            _ => {},
        }
    }
}

/// Every order rebuilt carries as its total the exact sum of price times
/// quantity over its lines, added up in their order.
pub proof fn lemma_totals_exact(rs: Seq<RecordView>)
    ensures
        forall|i: int|
            0 <= i < orders_of(rs).len() ==> (#[trigger] orders_of(rs)[i]).total_amount
                == line_total(orders_of(rs)[i].products),
{
    lemma_orders_over_totals(rs, keys_of(rs));
}

proof fn lemma_customer_found(rs: Seq<RecordView>, i: int, pk: Seq<char>)
    requires
        0 <= i < rs.len(),
        is_customer_of(rs[i], pk),
    ensures
        customer_for(rs, pk) is Some,
    decreases rs.len(),
{
    if i < rs.len() - 1 {
        assert(rs.drop_last()[i] == rs[i]);
        lemma_customer_found(rs.drop_last(), i, pk);
    }
}

proof fn lemma_customer_absent(rs: Seq<RecordView>, pk: Seq<char>)
    requires
        forall|i: int| 0 <= i < rs.len() ==> !is_customer_of(#[trigger] rs[i], pk),
    ensures
        customer_for(rs, pk) is None,
    decreases rs.len(),
{
    if rs.len() > 0 {
        assert(!is_customer_of(rs[rs.len() - 1], pk));
        assert forall|i: int| 0 <= i < rs.len() - 1 implies !is_customer_of(
            #[trigger] rs.drop_last()[i],
            pk,
        ) by {
            assert(rs.drop_last()[i] == rs[i]);
        }
        lemma_customer_absent(rs.drop_last(), pk);
    }
}

proof fn lemma_line_found(rs: Seq<RecordView>, i: int, pk: Seq<char>)
    requires
        0 <= i < rs.len(),
        is_line_of(rs[i], pk),
    ensures
        lines_for(rs, pk).len() > 0,
    decreases rs.len(),
{
    if i < rs.len() - 1 {
        assert(rs.drop_last()[i] == rs[i]);
        lemma_line_found(rs.drop_last(), i, pk);
    }
}

proof fn lemma_lines_absent(rs: Seq<RecordView>, pk: Seq<char>)
    requires
        forall|i: int| 0 <= i < rs.len() ==> !is_line_of(#[trigger] rs[i], pk),
    ensures
        lines_for(rs, pk).len() == 0,
    decreases rs.len(),
{
    if rs.len() > 0 {
        assert(!is_line_of(rs[rs.len() - 1], pk));
        assert forall|i: int| 0 <= i < rs.len() - 1 implies !is_line_of(
            #[trigger] rs.drop_last()[i],
            pk,
        ) by {
            assert(rs.drop_last()[i] == rs[i]);
        }
        lemma_lines_absent(rs.drop_last(), pk);
    }
}

proof fn lemma_keys_grow(rs: Seq<RecordView>)
    ensures
        rs.len() > 0 ==> forall|i: int|
            0 <= i < keys_of(rs.drop_last()).len() ==> keys_of(rs)[i] == keys_of(
                rs.drop_last(),
            )[i],
        rs.len() > 0 ==> keys_of(rs.drop_last()).len() <= keys_of(rs).len(),
{
    if rs.len() > 0 {
        let k = keys_of(rs.drop_last());
        match entry_of(rs.last()) {
            Ok(e) => {
                if !k.contains(e.pk()) {
                    assert forall|i: int| 0 <= i < k.len() implies keys_of(rs)[i] == k[i] by {
                        assert(k.push(e.pk())[i] == k[i]);
                    }
                }
            },
            Err(_) => {},
        }
    }
}

proof fn lemma_meta_has_key(rs: Seq<RecordView>, pk: Seq<char>)
    requires
        meta_index_for(rs, pk) is Some,
    ensures
        keys_of(rs).contains(pk),
    decreases rs.len(),
{
    lemma_keys_grow(rs);
    let k = keys_of(rs.drop_last());
    match entry_of(rs.last()) {
        Ok(EntryView::Meta(p)) => {
            if p == pk {
                if !k.contains(pk) {
                    assert(keys_of(rs)[k.len() as int] == pk);
                }
            } else {
                lemma_meta_has_key(rs.drop_last(), pk);
            }
        },
        _ => {
            lemma_meta_has_key(rs.drop_last(), pk);
        },
    }
    if k.contains(pk) {
        let i = choose|i: int| 0 <= i < k.len() && k[i] == pk;
        assert(keys_of(rs)[i] == pk);
    }
}

proof fn lemma_orders_over_has(rs: Seq<RecordView>, keys: Seq<Seq<char>>, j: int, o: OrderView)
    requires
        0 <= j < keys.len(),
        outcome_for(rs, keys[j]) == Some(Ok::<OrderView, AssemblyErrorView>(o)),
    ensures
        orders_over(rs, keys).contains(o),
    decreases keys.len(),
{
    let prev = orders_over(rs, keys.drop_last());
    if j == keys.len() - 1 {
        assert(orders_over(rs, keys)[prev.len() as int] == o);
    } else {
        assert(keys.drop_last()[j] == keys[j]);
        lemma_orders_over_has(rs, keys.drop_last(), j, o);
        let i = choose|i: int| 0 <= i < prev.len() && prev[i] == o;
        match outcome_for(rs, keys.last()) {
            Some(Ok(x)) => {
                assert(prev.push(x)[i] == o);
            },
            _ => {},
        }
    }
}

proof fn lemma_order_diagnostics_has(
    rs: Seq<RecordView>,
    keys: Seq<Seq<char>>,
    j: int,
    e: AssemblyErrorView,
)
    requires
        0 <= j < keys.len(),
        outcome_for(rs, keys[j]) == Some(Err::<OrderView, AssemblyErrorView>(e)),
    ensures
        order_diagnostics(rs, keys).contains(DiagnosticView::Order { pk: keys[j], error: e }),
    decreases keys.len(),
{
    let d = DiagnosticView::Order { pk: keys[j], error: e };
    let prev = order_diagnostics(rs, keys.drop_last());
    if j == keys.len() - 1 {
        assert(order_diagnostics(rs, keys)[prev.len() as int] == d);
    } else {
        assert(keys.drop_last()[j] == keys[j]);
        lemma_order_diagnostics_has(rs, keys.drop_last(), j, e);
        let i = choose|i: int| 0 <= i < prev.len() && prev[i] == d;
        match outcome_for(rs, keys.last()) {
            Some(Err(x)) => {
                assert(prev.push(DiagnosticView::Order { pk: keys.last(), error: x })[i] == d);
            },
            _ => {},
        }
    }
}

/// A failed order of partition `pk` is reported among the diagnostics.
proof fn lemma_failure_reported(rs: Seq<RecordView>, pk: Seq<char>, e: AssemblyErrorView)
    requires
        outcome_for(rs, pk) == Some(Err::<OrderView, AssemblyErrorView>(e)),
    ensures
        diagnostics_of(rs).contains(DiagnosticView::Order { pk, error: e }),
{
    lemma_meta_has_key(rs, pk);
    let keys = keys_of(rs);
    let j = choose|j: int| 0 <= j < keys.len() && keys[j] == pk;
    lemma_order_diagnostics_has(rs, keys, j, e);
    let od = order_diagnostics(rs, keys);
    let i = choose|i: int| 0 <= i < od.len() && od[i] == DiagnosticView::Order { pk, error: e };
    assert(diagnostics_of(rs)[record_diagnostics(rs).len() + i] == od[i]);
}

/// A partition with a customer record, a meta record whose `id` and `date`
/// can be read, and at least one product record gives its order: the meta
/// record's id and date, the partition's customer, its lines in input order,
/// and their total. It is that partition's one outcome, and no other
/// partition shares its key.
pub proof fn lemma_complete_partition_gives_order(
    rs: Seq<RecordView>,
    pk: Seq<char>,
    c: int,
    p: int,
    m: int,
)
    requires
        0 <= c < rs.len(),
        is_customer_of(rs[c], pk),
        0 <= p < rs.len(),
        is_line_of(rs[p], pk),
        meta_index_for(rs, pk) == Some(m),
        number_text_field(rs[m], "id"@) is Ok,
        string_field(rs[m], "date"@) is Ok,
        total_in_range(lines_for(rs, pk)),
    ensures
        ({
            let o = OrderView {
                id: number_text_field(rs[m], "id"@)->Ok_0,
                date: string_field(rs[m], "date"@)->Ok_0,
                total_amount: line_total(lines_for(rs, pk)),
                customer: customer_for(rs, pk).unwrap(),
                products: lines_for(rs, pk),
            };
            &&& outcome_for(rs, pk) == Some(Ok::<OrderView, AssemblyErrorView>(o))
            &&& orders_of(rs).contains(o)
        }),
        keys_of(rs).no_duplicates(),
{
    crate::aggregate::lemma_keys_distinct(rs);
    lemma_customer_found(rs, c, pk);
    lemma_line_found(rs, p, pk);
    lemma_meta_has_key(rs, pk);
    let keys = keys_of(rs);
    let j = choose|j: int| 0 <= j < keys.len() && keys[j] == pk;
    let o = outcome_for(rs, pk)->Some_0->Ok_0;
    lemma_orders_over_has(rs, keys, j, o);
}

/// A partition with a meta record but no record that reads as its customer
/// gives no order: it is reported as missing its customer.
pub proof fn lemma_no_customer_no_order(rs: Seq<RecordView>, pk: Seq<char>)
    requires
        meta_index_for(rs, pk) is Some,
        forall|i: int| 0 <= i < rs.len() ==> !is_customer_of(#[trigger] rs[i], pk),
    ensures
        outcome_for(rs, pk) == Some(
            Err::<OrderView, AssemblyErrorView>(AssemblyErrorView::MissingCustomer),
        ),
        diagnostics_of(rs).contains(
            DiagnosticView::Order { pk, error: AssemblyErrorView::MissingCustomer },
        ),
{
    lemma_customer_absent(rs, pk);
    lemma_failure_reported(rs, pk, AssemblyErrorView::MissingCustomer);
}

/// A partition with a meta record but no record that reads as one of its
/// lines gives no order: it is reported as incomplete.
pub proof fn lemma_no_lines_no_order(rs: Seq<RecordView>, pk: Seq<char>)
    requires
        meta_index_for(rs, pk) is Some,
        forall|i: int| 0 <= i < rs.len() ==> !is_line_of(#[trigger] rs[i], pk),
    ensures
        outcome_for(rs, pk) matches Some(Err(e)) && (e == AssemblyErrorView::MissingCustomer
            || e == AssemblyErrorView::MissingProducts),
        diagnostics_of(rs).contains(DiagnosticView::Order { pk, error: outcome_for(rs, pk)->Some_0->Err_0 }),
{
    lemma_lines_absent(rs, pk);
    lemma_failure_reported(rs, pk, outcome_for(rs, pk)->Some_0->Err_0);
}

/// A record whose secondary key names no known kind contributes nothing: it
/// reads as an error, and is reported at its position.
pub proof fn lemma_unknown_kind_dropped(rs: Seq<RecordView>, i: int)
    requires
        0 <= i < rs.len(),
        string_field(rs[i], "PK"@) is Ok,
        string_field(rs[i], "SK"@) is Ok,
        kind_of(string_field(rs[i], "SK"@)->Ok_0) == Kind::Unknown,
    ensures
        entry_of(rs[i]) == Err::<EntryView, RecordErrorView>(
            RecordErrorView::UnknownRecordKind(string_field(rs[i], "SK"@)->Ok_0),
        ),
        !is_customer_of(rs[i], string_field(rs[i], "PK"@)->Ok_0),
        !is_line_of(rs[i], string_field(rs[i], "PK"@)->Ok_0),
        forall|pk: Seq<char>| meta_index_for(rs, pk) != Some(i),
        diagnostics_of(rs).contains(DiagnosticView::Record { index: i, error: entry_of(rs[i])->Err_0 }),
{
    assert forall|pk: Seq<char>| meta_index_for(rs, pk) != Some(i) by {
        lemma_meta_index_reads_meta(rs, pk);
    }
    lemma_record_reported(rs, i);
    let rd = record_diagnostics(rs);
    let k = choose|k: int| 0 <= k < rd.len() && rd[k] == DiagnosticView::Record { index: i, error: entry_of(rs[i])->Err_0 };
    assert(diagnostics_of(rs)[k] == rd[k]);
}

proof fn lemma_meta_index_reads_meta(rs: Seq<RecordView>, pk: Seq<char>)
    ensures
        meta_index_for(rs, pk) matches Some(j) ==> 0 <= j < rs.len() && entry_of(rs[j])
            == Ok::<EntryView, RecordErrorView>(EntryView::Meta(pk)),
    decreases rs.len(),
{
    if rs.len() > 0 {
        lemma_meta_index_reads_meta(rs.drop_last(), pk);
        if let Some(j) = meta_index_for(rs.drop_last(), pk) {
            assert(rs.drop_last()[j] == rs[j]);
        }
    }
}

proof fn lemma_record_reported(rs: Seq<RecordView>, i: int)
    requires
        0 <= i < rs.len(),
        entry_of(rs[i]) is Err,
    ensures
        record_diagnostics(rs).contains(DiagnosticView::Record { index: i, error: entry_of(rs[i])->Err_0 }),
    decreases rs.len(),
{
    let d = DiagnosticView::Record { index: i, error: entry_of(rs[i])->Err_0 };
    let prev = record_diagnostics(rs.drop_last());
    if i == rs.len() - 1 {
        assert(record_diagnostics(rs)[prev.len() as int] == d);
    } else {
        assert(rs.drop_last()[i] == rs[i]);
        lemma_record_reported(rs.drop_last(), i);
        let k = choose|k: int| 0 <= k < prev.len() && prev[k] == d;
        match entry_of(rs.last()) {
            Err(x) => {
                assert(prev.push(DiagnosticView::Record { index: rs.len() - 1, error: x })[k] == d);
            },
            _ => {},
        }
    }
}

/// Two runs on the same records give the same orders, lines in the same
/// order, and the same diagnostics.
pub proof fn lemma_aggregate_repeatable(
    records: Seq<crate::record::Record>,
    first: Aggregation,
    second: Aggregation,
)
    requires
        orders_view(first.orders@) == orders_of(crate::aggregate::records_view(records)),
        diagnostics_view(first.diagnostics@) == diagnostics_of(
            crate::aggregate::records_view(records),
        ),
        orders_view(second.orders@) == orders_of(crate::aggregate::records_view(records)),
        diagnostics_view(second.diagnostics@) == diagnostics_of(
            crate::aggregate::records_view(records),
        ),
    ensures
        orders_view(first.orders@) == orders_view(second.orders@),
        diagnostics_view(first.diagnostics@) == diagnostics_view(second.diagnostics@),
{
}

} // verus!
