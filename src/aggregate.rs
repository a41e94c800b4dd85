//! Rebuilding orders from the whole set of records.
use crate::classify::{classify, kind_of, Kind};
use crate::decimal::Amount;
use crate::model::{
    assemble, assembled, AssemblyError, AssemblyErrorView, Customer, CustomerView, Order,
    OrderView, Product, ProductQuantity, ProductQuantityView,
};
use crate::record::{
    get_number, get_string, number_field, string_field, AttrView, FieldError, FieldErrorView,
    Record,
};
use vstd::prelude::*;

verus! {

/// The view of a record: its fields.
pub type RecordView = Seq<(Seq<char>, AttrView)>;

/// What one record contributes to the order of its partition.
#[derive(Clone, Debug)]
pub enum Entry {
    Customer(String, Customer),
    Product(String, ProductQuantity),
    Meta(String),
}

pub ghost enum EntryView {
    Customer(Seq<char>, CustomerView),
    Product(Seq<char>, ProductQuantityView),
    Meta(Seq<char>),
}

impl View for Entry {
    type V = EntryView;

    open spec fn view(&self) -> EntryView {
        match self {
            Entry::Customer(pk, c) => EntryView::Customer(pk@, c@),
            Entry::Product(pk, pq) => EntryView::Product(pk@, pq@),
            Entry::Meta(pk) => EntryView::Meta(pk@),
        }
    }
}

impl EntryView {
    /// The partition key of the entry.
    pub open spec fn pk(self) -> Seq<char> {
        match self {
            EntryView::Customer(pk, _) => pk,
            EntryView::Product(pk, _) => pk,
            EntryView::Meta(pk) => pk,
        }
    }
}

/// Why a record was skipped.
#[derive(Clone, Debug)]
pub enum RecordError {
    /// A field that the record's kind needs could not be read.
    Field(FieldError),
    /// The secondary key names no known kind; it is given here.
    UnknownRecordKind(String),
}

pub ghost enum RecordErrorView {
    Field(FieldErrorView),
    UnknownRecordKind(Seq<char>),
}

impl View for RecordError {
    type V = RecordErrorView;

    open spec fn view(&self) -> RecordErrorView {
        match self {
            RecordError::Field(e) => RecordErrorView::Field(e@),
            RecordError::UnknownRecordKind(sk) => RecordErrorView::UnknownRecordKind(sk@),
        }
    }
}

pub open spec fn field_failure<T>(r: Result<T, FieldErrorView>) -> RecordErrorView {
    RecordErrorView::Field(r->Err_0)
}

/// What a record contributes: its kind, read from `SK`, decides which fields
/// it must carry; the first field that cannot be read makes it fail.
pub open spec fn entry_of(rec: RecordView) -> Result<EntryView, RecordErrorView> {
    let pk = string_field(rec, "PK"@);
    let sk = string_field(rec, "SK"@);
    if pk is Err {
        Err(field_failure(pk))
    } else if sk is Err {
        Err(field_failure(sk))
    } else {
        let pk = pk->Ok_0;
        let sk = sk->Ok_0;
        match kind_of(sk) {
            Kind::Customer => {
                let name = string_field(rec, "fullName"@);
                let email = string_field(rec, "email"@);
                if name is Err {
                    Err(field_failure(name))
                } else if email is Err {
                    Err(field_failure(email))
                } else {
                    Ok(
                        EntryView::Customer(
                            pk,
                            CustomerView { full_name: name->Ok_0, email: email->Ok_0 },
                        ),
                    )
                }
            },
            Kind::Product => {
                let name = string_field(rec, "name"@);
                let price = number_field(rec, "price"@);
                let quantity = number_field(rec, "quantity"@);
                if name is Err {
                    Err(field_failure(name))
                } else if price is Err {
                    Err(field_failure(price))
                } else if quantity is Err {
                    Err(field_failure(quantity))
                } else {
                    Ok(
                        EntryView::Product(
                            pk,
                            ProductQuantityView {
                                product: crate::model::ProductView {
                                    name: name->Ok_0,
                                    price: price->Ok_0,
                                },
                                quantity: quantity->Ok_0,
                            },
                        ),
                    )
                }
            },
            Kind::OrderMeta => Ok(EntryView::Meta(pk)),
            Kind::Unknown => Err(RecordErrorView::UnknownRecordKind(sk)),
        }
    }
}

/// Reads what one record contributes; see [`entry_of`].
pub fn read_record(record: &Record) -> (r: Result<Entry, RecordError>)
    ensures
        match r {
            Ok(e) => entry_of(record@) == Ok::<EntryView, RecordErrorView>(e@),
            Err(e) => entry_of(record@) == Err::<EntryView, RecordErrorView>(e@),
        },
{
    let pk = match get_string(record, "PK") {
        Ok(v) => v,
        Err(e) => return Err(RecordError::Field(e)),
    };
    let sk = match get_string(record, "SK") {
        Ok(v) => v,
        Err(e) => return Err(RecordError::Field(e)),
    };
    match classify(sk.as_str()) {
        Kind::Customer => {
            let full_name = match get_string(record, "fullName") {
                Ok(v) => v,
                Err(e) => return Err(RecordError::Field(e)),
            };
            let email = match get_string(record, "email") {
                Ok(v) => v,
                Err(e) => return Err(RecordError::Field(e)),
            };
            Ok(Entry::Customer(pk, Customer { full_name, email }))
        },
        Kind::Product => {
            let name = match get_string(record, "name") {
                Ok(v) => v,
                Err(e) => return Err(RecordError::Field(e)),
            };
            let price = match get_number(record, "price") {
                Ok(v) => v,
                Err(e) => return Err(RecordError::Field(e)),
            };
            let quantity = match get_number(record, "quantity") {
                Ok(v) => v,
                Err(e) => return Err(RecordError::Field(e)),
            };
            Ok(Entry::Product(pk, ProductQuantity { product: Product { name, price }, quantity }))
        },
        Kind::OrderMeta => Ok(Entry::Meta(pk)),
        Kind::Unknown => Err(RecordError::UnknownRecordKind(sk)),
    }
}

pub open spec fn records_view(v: Seq<Record>) -> Seq<RecordView> {
    v.map_values(|r: Record| r@)
}

/// The customer of partition `pk`: the last record that reads as one.
pub open spec fn customer_for(rs: Seq<RecordView>, pk: Seq<char>) -> Option<CustomerView>
    decreases rs.len(),
{
    if rs.len() == 0 {
        None
    } else {
        match entry_of(rs.last()) {
            Ok(EntryView::Customer(p, c)) => if p == pk {
                Some(c)
            } else {
                customer_for(rs.drop_last(), pk)
            },
            _ => customer_for(rs.drop_last(), pk),
        }
    }
}

/// The lines of partition `pk`: every record that reads as one, in order.
pub open spec fn lines_for(rs: Seq<RecordView>, pk: Seq<char>) -> Seq<ProductQuantityView>
    decreases rs.len(),
{
    if rs.len() == 0 {
        Seq::empty()
    } else {
        match entry_of(rs.last()) {
            Ok(EntryView::Product(p, pq)) => if p == pk {
                lines_for(rs.drop_last(), pk).push(pq)
            } else {
                lines_for(rs.drop_last(), pk)
            },
            _ => lines_for(rs.drop_last(), pk),
        }
    }
}

/// The position of the meta record of partition `pk`: the last one.
pub open spec fn meta_index_for(rs: Seq<RecordView>, pk: Seq<char>) -> Option<int>
    decreases rs.len(),
{
    if rs.len() == 0 {
        None
    } else {
        match entry_of(rs.last()) {
            Ok(EntryView::Meta(p)) => if p == pk {
                Some(rs.len() - 1)
            } else {
                meta_index_for(rs.drop_last(), pk)
            },
            _ => meta_index_for(rs.drop_last(), pk),
        }
    }
}

/// The partition keys of the records that could be read, each once, in the
/// order of their first occurrence.
pub open spec fn keys_of(rs: Seq<RecordView>) -> Seq<Seq<char>>
    decreases rs.len(),
{
    if rs.len() == 0 {
        Seq::empty()
    } else {
        let k = keys_of(rs.drop_last());
        match entry_of(rs.last()) {
            Ok(e) => if k.contains(e.pk()) {
                k
            } else {
                k.push(e.pk())
            },
            Err(_) => k,
        }
    }
}

/// A record or an order that was dropped, and why.
#[derive(Clone, Debug)]
pub enum Diagnostic {
    /// The record at `index` of the input was skipped.
    Record { index: usize, error: RecordError },
    /// Partition `pk` has a meta record but gave no order.
    Order { pk: String, error: AssemblyError },
}

pub ghost enum DiagnosticView {
    Record { index: int, error: RecordErrorView },
    Order { pk: Seq<char>, error: AssemblyErrorView },
}

impl View for Diagnostic {
    type V = DiagnosticView;

    open spec fn view(&self) -> DiagnosticView {
        match self {
            Diagnostic::Record { index, error } => DiagnosticView::Record {
                index: *index as int,
                error: error@,
            },
            Diagnostic::Order { pk, error } => DiagnosticView::Order { pk: pk@, error: error@ },
        }
    }
}

pub open spec fn diagnostics_view(v: Seq<Diagnostic>) -> Seq<DiagnosticView> {
    v.map_values(|d: Diagnostic| d@)
}

/// One diagnostic for each record that could not be read, in input order.
pub open spec fn record_diagnostics(rs: Seq<RecordView>) -> Seq<DiagnosticView>
    decreases rs.len(),
{
    if rs.len() == 0 {
        Seq::empty()
    } else {
        let d = record_diagnostics(rs.drop_last());
        match entry_of(rs.last()) {
            Ok(_) => d,
            Err(e) => d.push(DiagnosticView::Record { index: rs.len() - 1, error: e }),
        }
    }
}

/// What partition `pk` gives: nothing when it has no meta record, else the
/// assembly of its last meta record with its customer and its lines (none
/// when it has no line).
pub open spec fn outcome_for(rs: Seq<RecordView>, pk: Seq<char>) -> Option<
    Result<OrderView, AssemblyErrorView>,
> {
    match meta_index_for(rs, pk) {
        None => None,
        Some(j) => Some(
            assembled(
                rs[j],
                customer_for(rs, pk),
                if lines_for(rs, pk).len() > 0 {
                    Some(lines_for(rs, pk))
                } else {
                    None
                },
            ),
        ),
    }
}

/// The orders that the partitions `keys` give, in that order.
pub open spec fn orders_over(rs: Seq<RecordView>, keys: Seq<Seq<char>>) -> Seq<OrderView>
    decreases keys.len(),
{
    if keys.len() == 0 {
        Seq::empty()
    } else {
        let o = orders_over(rs, keys.drop_last());
        match outcome_for(rs, keys.last()) {
            Some(Ok(order)) => o.push(order),
            _ => o,
        }
    }
}

/// One diagnostic for each of the partitions `keys` whose order failed.
pub open spec fn order_diagnostics(rs: Seq<RecordView>, keys: Seq<Seq<char>>) -> Seq<
    DiagnosticView,
>
    decreases keys.len(),
{
    if keys.len() == 0 {
        Seq::empty()
    } else {
        let d = order_diagnostics(rs, keys.drop_last());
        match outcome_for(rs, keys.last()) {
            Some(Err(e)) => d.push(DiagnosticView::Order { pk: keys.last(), error: e }),
            _ => d,
        }
    }
}

/// The orders rebuilt from `rs`, one per partition key in order of first
/// occurrence, leaving out the partitions that give none.
pub open spec fn orders_of(rs: Seq<RecordView>) -> Seq<OrderView> {
    orders_over(rs, keys_of(rs))
}

/// Everything dropped from `rs`: the unreadable records, then the failed orders.
pub open spec fn diagnostics_of(rs: Seq<RecordView>) -> Seq<DiagnosticView> {
    record_diagnostics(rs) + order_diagnostics(rs, keys_of(rs))
}

/// The records of one partition, gathered while reading.
struct Group {
    pk: String,
    customer: Option<Customer>,
    meta: Option<usize>,
    lines: Vec<ProductQuantity>,
}

spec fn opt_customer(c: Option<Customer>) -> Option<CustomerView> {
    match c {
        Some(c) => Some(c@),
        None => None,
    }
}

spec fn opt_index(m: Option<usize>) -> Option<int> {
    match m {
        Some(j) => Some(j as int),
        None => None,
    }
}

/// `g` holds what `rs` has for partition `pk`.
spec fn group_holds(g: Group, rs: Seq<RecordView>, pk: Seq<char>) -> bool {
    &&& g.pk@ == pk
    &&& opt_customer(g.customer) == customer_for(rs, pk)
    &&& crate::model::lines_view(g.lines@) == lines_for(rs, pk)
    &&& opt_index(g.meta) == meta_index_for(rs, pk)
}

spec fn groups_hold(gs: Seq<Group>, rs: Seq<RecordView>) -> bool {
    &&& gs.len() == keys_of(rs).len()
    &&& forall|g: int| 0 <= g < gs.len() ==> group_holds(#[trigger] gs[g], rs, keys_of(rs)[g])
}

/// Each partition key is listed once.
pub proof fn lemma_keys_distinct(rs: Seq<RecordView>)
    ensures
        keys_of(rs).no_duplicates(),
    decreases rs.len(),
{
    if rs.len() > 0 {
        lemma_keys_distinct(rs.drop_last());
    }
}

/// Where `pk` stands among the groups, if anywhere.
fn find_group(groups: &Vec<Group>, pk: &String, Ghost(keys): Ghost<Seq<Seq<char>>>) -> (r: Option<
    usize,
>)
    requires
        groups@.len() == keys.len(),
        forall|g: int| 0 <= g < keys.len() ==> (#[trigger] groups@[g]).pk@ == keys[g],
    ensures
        match r {
            Some(g) => g < keys.len() && keys[g as int] == pk@,
            None => !keys.contains(pk@),
        },
{
    let mut g: usize = 0;
    while g < groups.len()
        invariant
            groups@.len() == keys.len(),
            forall|h: int| 0 <= h < keys.len() ==> (#[trigger] groups@[h]).pk@ == keys[h],
            g <= groups@.len(),
            forall|h: int| 0 <= h < g ==> keys[h] != pk@,
        decreases groups@.len() - g,
    {
        if groups[g].pk == *pk {
            return Some(g);
        }
        g += 1;
    }
    None
}

/// A key that no readable record carries has no customer, lines or meta.
proof fn lemma_absent_key(rs: Seq<RecordView>, pk: Seq<char>)
    requires
        !keys_of(rs).contains(pk),
    ensures
        customer_for(rs, pk) is None,
        lines_for(rs, pk) == Seq::<ProductQuantityView>::empty(),
        meta_index_for(rs, pk) is None,
    decreases rs.len(),
{
    if rs.len() > 0 {
        let k = keys_of(rs.drop_last());
        let all = keys_of(rs);
        assert forall|i: int| 0 <= i < k.len() implies all[i] == k[i] by {
            match entry_of(rs.last()) {
                Ok(e) => {
                    if !k.contains(e.pk()) {
                        assert(k.push(e.pk())[i] == k[i]);
                    }
                },
                Err(_) => {},
            }
        }
        match entry_of(rs.last()) {
            Ok(e) => {
                if !k.contains(e.pk()) {
                    assert(all[k.len() as int] == e.pk());
                } else {
                    let i = choose|i: int| 0 <= i < k.len() && k[i] == e.pk();
                    assert(all[i] == e.pk());
                }
                assert(e.pk() != pk);
            },
            Err(_) => {},
        }
        if k.contains(pk) {
            let i = choose|i: int| 0 <= i < k.len() && k[i] == pk;
            assert(all[i] == pk);
        }
        lemma_absent_key(rs.drop_last(), pk);
    }
}

proof fn lemma_meta_index_bound(rs: Seq<RecordView>, pk: Seq<char>)
    ensures
        meta_index_for(rs, pk) matches Some(j) ==> 0 <= j < rs.len(),
    decreases rs.len(),
{
    if rs.len() > 0 {
        lemma_meta_index_bound(rs.drop_last(), pk);
    }
}

/// Reads every record, gathering by partition key what the readable ones
/// contribute and listing the others.
fn gather(records: &Vec<Record>) -> (r: (Vec<Group>, Vec<Diagnostic>))
    ensures
        groups_hold(r.0@, records_view(records@)),
        diagnostics_view(r.1@) == record_diagnostics(records_view(records@)),
{
    let ghost rs = records_view(records@);
    let mut groups: Vec<Group> = Vec::new();
    let mut failures: Vec<Diagnostic> = Vec::new();
    let n = records.len();
    let mut i: usize = 0;
    while i < n
        invariant
            n == records@.len(),
            rs == records_view(records@),
            i <= n,
            groups_hold(groups@, rs.take(i as int)),
            diagnostics_view(failures@) == record_diagnostics(rs.take(i as int)),
        decreases n - i,
    {
        let ghost p = rs.take(i as int);
        let ghost q = rs.take(i + 1);
        let ghost keys = keys_of(p);
        assert(q.drop_last() =~= p);
        assert(q.last() == records@[i as int]@);
        proof {
            lemma_keys_distinct(p);
        }
        match read_record(&records[i]) {
            Err(e) => {
                let ghost before = failures@;
                failures.push(Diagnostic::Record { index: i, error: e });
                assert(diagnostics_view(failures@) =~= diagnostics_view(before).push(
                    DiagnosticView::Record { index: i as int, error: e@ },
                ));
            },
            Ok(Entry::Customer(pk, c)) => {
                match find_group(&groups, &pk, Ghost(keys)) {
                    Some(g) => {
                        groups[g].customer = Some(c);
                    },
                    None => {
                        proof {
                            lemma_absent_key(p, pk@);
                        }
                        groups.push(Group { pk, customer: Some(c), meta: None, lines: Vec::new() });
                        assert(crate::model::lines_view(groups@.last().lines@) =~= Seq::<ProductQuantityView>::empty());
                    },
                }
            },
            Ok(Entry::Product(pk, pq)) => {
                match find_group(&groups, &pk, Ghost(keys)) {
                    Some(g) => {
                        let ghost old_lines = groups@[g as int].lines@;
                        groups[g].lines.push(pq);
                        assert(crate::model::lines_view(groups@[g as int].lines@) =~= crate::model::lines_view(old_lines).push(pq@));
                    },
                    None => {
                        proof {
                            lemma_absent_key(p, pk@);
                        }
                        let mut lines: Vec<ProductQuantity> = Vec::new();
                        lines.push(pq);
                        assert(crate::model::lines_view(lines@) =~= Seq::<ProductQuantityView>::empty().push(pq@));
                        groups.push(Group { pk, customer: None, meta: None, lines });
                    },
                }
            },
            Ok(Entry::Meta(pk)) => {
                match find_group(&groups, &pk, Ghost(keys)) {
                    Some(g) => {
                        groups[g].meta = Some(i);
                    },
                    None => {
                        proof {
                            lemma_absent_key(p, pk@);
                        }
                        groups.push(Group { pk, customer: None, meta: Some(i), lines: Vec::new() });
                        assert(crate::model::lines_view(groups@.last().lines@) =~= Seq::<ProductQuantityView>::empty());
                    },
                }
            },
        }
        i += 1;
    }
    assert(rs.take(n as int) =~= rs);
    (groups, failures)
}

/// The orders rebuilt from `records`, and a diagnostic for each record or
/// order that was dropped.
pub struct Aggregation {
    pub orders: Vec<Order>,
    pub diagnostics: Vec<Diagnostic>,
}

pub open spec fn orders_view(v: Seq<Order>) -> Seq<OrderView> {
    v.map_values(|o: Order| o@)
}

/// Rebuilds the orders that `records` describe; see [`orders_of`] and
/// [`diagnostics_of`]. A record or an order that fails is dropped and
/// reported; the others are not affected.
pub fn aggregate(records: &Vec<Record>) -> (r: Aggregation)
    ensures
        orders_view(r.orders@) == orders_of(records_view(records@)),
        diagnostics_view(r.diagnostics@) == diagnostics_of(records_view(records@)),
{
    let ghost rs = records_view(records@);
    let (groups, mut diagnostics) = gather(records);
    let ghost keys = keys_of(rs);
    let ghost read_failures = diagnostics_view(diagnostics@);
    let mut orders: Vec<Order> = Vec::new();
    let mut g: usize = 0;
    while g < groups.len()
        invariant
            rs == records_view(records@),
            keys == keys_of(rs),
            groups_hold(groups@, rs),
            g <= groups@.len(),
            read_failures == record_diagnostics(rs),
            orders_view(orders@) == orders_over(rs, keys.take(g as int)),
            diagnostics_view(diagnostics@) == read_failures + order_diagnostics(
                rs,
                keys.take(g as int),
            ),
        decreases groups@.len() - g,
    {
        let group = &groups[g];
        let ghost pk = keys[g as int];
        assert(group_holds(groups@[g as int], rs, pk));
        assert(keys.take(g + 1).drop_last() =~= keys.take(g as int));
        assert(keys.take(g + 1).last() == pk);
        proof {
            lemma_meta_index_bound(rs, pk);
        }
        match group.meta {
            None => {},
            Some(j) => {
                let customer: Option<&Customer> = match &group.customer {
                    Some(c) => Some(c),
                    None => None,
                };
                let lines: Option<&Vec<ProductQuantity>> = if group.lines.len() > 0 {
                    Some(&group.lines)
                } else {
                    None
                };
                assert(records@[j as int]@ == rs[j as int]);
                match assemble(&records[j], customer, lines) {
                    Ok(order) => {
                        let ghost before = orders@;
                        orders.push(order);
                        assert(orders_view(orders@) =~= orders_view(before).push(order@));
                    },
                    Err(error) => {
                        let ghost before = diagnostics@;
                        diagnostics.push(Diagnostic::Order { pk: group.pk.clone(), error });
                        assert(diagnostics_view(diagnostics@) =~= diagnostics_view(before).push(
                            DiagnosticView::Order { pk, error: error@ },
                        ));
                    },
                }
            },
        }
        g += 1;
    }
    assert(keys.take(groups@.len() as int) =~= keys);
    Aggregation { orders, diagnostics }
}

} // verus!
