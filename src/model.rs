//! The aggregate types and the assembly of one order.
use crate::decimal::{
    checked_product, checked_sum, product, representable, sum, sum_in_range, Amount, Decimal,
};
use crate::record::{
    get_number_text, get_string, number_text_field, string_field, AttrView, FieldError,
    FieldErrorView,
};
use vstd::prelude::*;

verus! {

#[derive(Clone, Debug, PartialEq)]
pub struct Customer {
    pub full_name: String,
    pub email: String,
}

pub ghost struct CustomerView {
    pub full_name: Seq<char>,
    pub email: Seq<char>,
}

impl View for Customer {
    type V = CustomerView;

    open spec fn view(&self) -> CustomerView {
        CustomerView { full_name: self.full_name@, email: self.email@ }
    }
}

#[derive(Clone, Debug, PartialEq)]
pub struct Product {
    pub name: String,
    pub price: Decimal,
}

pub ghost struct ProductView {
    pub name: Seq<char>,
    pub price: Amount,
}

impl View for Product {
    type V = ProductView;

    open spec fn view(&self) -> ProductView {
        ProductView { name: self.name@, price: self.price@ }
    }
}

#[derive(Clone, Debug, PartialEq)]
pub struct ProductQuantity {
    pub product: Product,
    pub quantity: Decimal,
}

pub ghost struct ProductQuantityView {
    pub product: ProductView,
    pub quantity: Amount,
}

impl View for ProductQuantity {
    type V = ProductQuantityView;

    open spec fn view(&self) -> ProductQuantityView {
        ProductQuantityView { product: self.product@, quantity: self.quantity@ }
    }
}

/// An order with its customer and line items; `total_amount` is always the
/// exact sum of price times quantity over `products`.
#[derive(Clone, Debug, PartialEq)]
pub struct Order {
    pub id: String,
    pub date: String,
    pub total_amount: Decimal,
    pub customer: Customer,
    pub products: Vec<ProductQuantity>,
}

pub ghost struct OrderView {
    pub id: Seq<char>,
    pub date: Seq<char>,
    pub total_amount: Amount,
    pub customer: CustomerView,
    pub products: Seq<ProductQuantityView>,
}

impl View for Order {
    type V = OrderView;

    open spec fn view(&self) -> OrderView {
        OrderView {
            id: self.id@,
            date: self.date@,
            total_amount: self.total_amount@,
            customer: self.customer@,
            products: lines_view(self.products@),
        }
    }
}

pub open spec fn lines_view(v: Seq<ProductQuantity>) -> Seq<ProductQuantityView> {
    v.map_values(|pq: ProductQuantity| pq@)
}

/// Price times quantity of one line.
pub open spec fn line_amount(pq: ProductQuantityView) -> Amount {
    product(pq.product.price, pq.quantity)
}

/// The sum of the line amounts, added up in list order from zero.
pub open spec fn line_total(lines: Seq<ProductQuantityView>) -> Amount
    decreases lines.len(),
{
    if lines.len() == 0 {
        Amount { units: 0, scale: 0 }
    } else {
        sum(line_total(lines.drop_last()), line_amount(lines.last()))
    }
}

/// Whether every step of `line_total` can be held by a [`Decimal`].
pub open spec fn total_in_range(lines: Seq<ProductQuantityView>) -> bool
    decreases lines.len(),
{
    lines.len() == 0 || {
        &&& total_in_range(lines.drop_last())
        &&& representable(line_amount(lines.last()))
        &&& sum_in_range(line_total(lines.drop_last()), line_amount(lines.last()))
    }
}

proof fn lemma_total_in_range_prefix(lines: Seq<ProductQuantityView>, k: int)
    requires
        0 <= k <= lines.len(),
        total_in_range(lines),
    ensures
        total_in_range(lines.take(k)),
    decreases lines.len(),
{
    if k < lines.len() {
        lemma_total_in_range_prefix(lines.drop_last(), k);
        assert(lines.drop_last().take(k) =~= lines.take(k));
    } else {
        assert(lines.take(k) =~= lines);
    }
}

/// The exact total of `products`, or `None` when a step of it cannot be held.
pub fn compute_total_amount(products: &Vec<ProductQuantity>) -> (r: Option<Decimal>)
    ensures
        match r {
            Some(t) => total_in_range(lines_view(products@)) && t@ == line_total(
                lines_view(products@),
            ),
            None => !total_in_range(lines_view(products@)),
        },
{
    let ghost lines = lines_view(products@);
    let n = products.len();
    let mut acc = Decimal { units: 0, scale: 0 };
    let mut i: usize = 0;
    while i < n
        invariant
            n == products@.len(),
            lines == lines_view(products@),
            i <= n,
            total_in_range(lines.take(i as int)),
            acc@ == line_total(lines.take(i as int)),
        decreases n - i,
    {
        let pq = &products[i];
        let ghost next = lines.take(i + 1);
        assert(next.drop_last() =~= lines.take(i as int));
        assert(next.last() == pq@);
        let term = match checked_product(pq.product.price, pq.quantity) {
            Some(t) => t,
            None => {
                proof {
                    if total_in_range(lines) {
                        lemma_total_in_range_prefix(lines, i + 1);
                    }
                }
                return None;
            },
        };
        acc = match checked_sum(acc, term) {
            Some(t) => t,
            None => {
                proof {
                    if total_in_range(lines) {
                        lemma_total_in_range_prefix(lines, i + 1);
                    }
                }
                return None;
            },
        };
        i += 1;
    }
    assert(lines.take(n as int) =~= lines);
    Some(acc)
}

impl Customer {
    /// A copy of this customer.
    pub fn duplicate(&self) -> (r: Customer)
        ensures
            r@ == self@,
    {
        Customer { full_name: self.full_name.clone(), email: self.email.clone() }
    }
}

impl ProductQuantity {
    /// A copy of this line.
    pub fn duplicate(&self) -> (r: ProductQuantity)
        ensures
            r@ == self@,
    {
        ProductQuantity {
            product: Product { name: self.product.name.clone(), price: self.product.price },
            quantity: self.quantity,
        }
    }
}

/// A copy of a list of lines.
pub fn duplicate_lines(v: &Vec<ProductQuantity>) -> (r: Vec<ProductQuantity>)
    ensures
        lines_view(r@) == lines_view(v@),
{
    let mut r: Vec<ProductQuantity> = Vec::new();
    let mut i: usize = 0;
    while i < v.len()
        invariant
            i <= v@.len(),
            lines_view(r@) == lines_view(v@.take(i as int)),
        decreases v@.len() - i,
    {
        let ghost before = r@;
        r.push(v[i].duplicate());
        assert(v@.take(i + 1) =~= v@.take(i as int).push(v@[i as int]));
        assert(lines_view(r@) =~= lines_view(before).push(v@[i as int]@));
        assert(lines_view(v@.take(i + 1)) =~= lines_view(v@.take(i as int)).push(v@[i as int]@));
        i += 1;
    }
    assert(v@.take(v@.len() as int) =~= v@);
    r
}

/// Why an order could not be assembled.
#[derive(Clone, Debug)]
pub enum AssemblyError {
    /// No customer record shares the order's partition key.
    MissingCustomer,
    /// No product record shares the order's partition key.
    MissingProducts,
    /// A field of the order's meta record could not be read.
    Field(FieldError),
    /// The total cannot be held by a [`Decimal`].
    TotalOutOfRange,
}

pub ghost enum AssemblyErrorView {
    MissingCustomer,
    MissingProducts,
    Field(FieldErrorView),
    TotalOutOfRange,
}

impl View for AssemblyError {
    type V = AssemblyErrorView;

    open spec fn view(&self) -> AssemblyErrorView {
        match self {
            AssemblyError::MissingCustomer => AssemblyErrorView::MissingCustomer,
            AssemblyError::MissingProducts => AssemblyErrorView::MissingProducts,
            AssemblyError::Field(e) => AssemblyErrorView::Field(e@),
            AssemblyError::TotalOutOfRange => AssemblyErrorView::TotalOutOfRange,
        }
    }
}

/// The order that a meta record, its customer and its lines make: the id is
/// the meta record's numeric `id` field as written, the date its `date`
/// field, and the total the exact sum of the lines.
pub open spec fn assembled(
    meta: Seq<(Seq<char>, AttrView)>,
    customer: Option<CustomerView>,
    lines: Option<Seq<ProductQuantityView>>,
) -> Result<OrderView, AssemblyErrorView> {
    if customer is None {
        Err(AssemblyErrorView::MissingCustomer)
    } else if lines is None {
        Err(AssemblyErrorView::MissingProducts)
    } else if number_text_field(meta, "id"@) is Err {
        Err(AssemblyErrorView::Field(number_text_field(meta, "id"@)->Err_0))
    } else if string_field(meta, "date"@) is Err {
        Err(AssemblyErrorView::Field(string_field(meta, "date"@)->Err_0))
    } else if !total_in_range(lines.unwrap()) {
        Err(AssemblyErrorView::TotalOutOfRange)
    } else {
        Ok(
            OrderView {
                id: number_text_field(meta, "id"@)->Ok_0,
                date: string_field(meta, "date"@)->Ok_0,
                total_amount: line_total(lines.unwrap()),
                customer: customer.unwrap(),
                products: lines.unwrap(),
            },
        )
    }
}

pub open spec fn customer_view(c: Option<&Customer>) -> Option<CustomerView> {
    match c {
        Some(c) => Some(c@),
        None => None,
    }
}

pub open spec fn lines_of(p: Option<&Vec<ProductQuantity>>) -> Option<Seq<ProductQuantityView>> {
    match p {
        Some(v) => Some(lines_view(v@)),
        None => None,
    }
}

/// Builds the order of one partition from its meta record, its customer and
/// its product lines; see [`assembled`].
pub fn assemble(
    meta: &crate::record::Record,
    customer: Option<&Customer>,
    products: Option<&Vec<ProductQuantity>>,
) -> (r: Result<Order, AssemblyError>)
    ensures
        match r {
            Ok(o) => assembled(meta@, customer_view(customer), lines_of(products)) == Ok::<
                OrderView,
                AssemblyErrorView,
            >(o@),
            Err(e) => assembled(meta@, customer_view(customer), lines_of(products)) == Err::<
                OrderView,
                AssemblyErrorView,
            >(e@),
        },
{
    let customer = match customer {
        Some(c) => c,
        None => return Err(AssemblyError::MissingCustomer),
    };
    let products = match products {
        Some(p) => p,
        None => return Err(AssemblyError::MissingProducts),
    };
    let id = match get_number_text(meta, "id") {
        Ok(id) => id,
        Err(e) => return Err(AssemblyError::Field(e)),
    };
    let date = match get_string(meta, "date") {
        Ok(d) => d,
        Err(e) => return Err(AssemblyError::Field(e)),
    };
    let total_amount = match compute_total_amount(products) {
        Some(t) => t,
        None => return Err(AssemblyError::TotalOutOfRange),
    };
    let order = Order {
        id,
        date,
        total_amount,
        customer: customer.duplicate(),
        products: duplicate_lines(products),
    };
    Ok(order)
}

} // verus!
