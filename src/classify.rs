//! Routing of records by the leading segment of their secondary key.
use crate::text::{before_first, find_char, prefix_is};
use vstd::prelude::*;

verus! {

/// The role of a record within its partition.
#[derive(Clone, Copy, Debug, PartialEq, Eq, Structural)]
pub enum Kind {
    Customer,
    Product,
    OrderMeta,
    Unknown,
}

/// The kind named by the part of `sk` before its first `#`.
pub open spec fn kind_of(sk: Seq<char>) -> Kind {
    let segment = before_first(sk, '#');
    if segment == "CUSTOMER"@ {
        Kind::Customer
    } else if segment == "PRODUCT"@ {
        Kind::Product
    } else if segment == "META"@ {
        Kind::OrderMeta
    } else {
        Kind::Unknown
    }
}

/// Classifies a record by its secondary key `sk`.
pub fn classify(sk: &str) -> (k: Kind)
    ensures
        k == kind_of(sk@),
{
    let end = find_char(sk, '#');
    if prefix_is(sk, end, "CUSTOMER") {
        Kind::Customer
    } else if prefix_is(sk, end, "PRODUCT") {
        Kind::Product
    } else if prefix_is(sk, end, "META") {
        Kind::OrderMeta
    } else {
        Kind::Unknown
    }
}

} // verus!
