//! Rebuilds order aggregates from the flat records of a single-table store.
//!
//! Records are routed by the leading segment of their secondary key, joined
//! by their partition key, and assembled into [`Order`]s whose total is
//! recomputed exactly from their line items. A malformed record or an
//! incomplete order is dropped with a diagnostic; the batch never fails.
pub mod aggregate;
pub mod classify;
pub mod decimal;
pub mod laws;
pub mod model;
pub mod record;
pub mod text;

pub use aggregate::{aggregate, read_record, Aggregation, Diagnostic, Entry, RecordError};
pub use classify::{classify, Kind};
pub use decimal::{checked_product, checked_sum, parse_decimal, Decimal};
pub use model::{
    assemble, compute_total_amount, AssemblyError, Customer, Order, Product, ProductQuantity,
};
pub use record::{
    get_number, get_number_text, get_string, lookup, AttrValue, FieldError, FieldErrorKind,
    Record,
};
