//! Stored records and the typed reading of their fields.
use crate::decimal::{decimal_of, parse_decimal, Amount, Decimal};
use crate::text::same_text;
use vstd::prelude::*;

verus! {

/// One stored value, as tagged by the store.
#[derive(Clone, Debug)]
pub enum AttrValue {
    /// A string.
    Str(String),
    /// A number, kept as the store's decimal text.
    Num(String),
    /// Any other kind of value (lists, maps, binary data, ...).
    Unsupported,
}

pub ghost enum AttrView {
    Str(Seq<char>),
    Num(Seq<char>),
    Unsupported,
}

impl View for AttrValue {
    type V = AttrView;

    open spec fn view(&self) -> AttrView {
        match self {
            AttrValue::Str(s) => AttrView::Str(s@),
            AttrValue::Num(s) => AttrView::Num(s@),
            AttrValue::Unsupported => AttrView::Unsupported,
        }
    }
}

/// One stored item: its fields, each a name and a value.
///
/// Where a name occurs more than once, the first occurrence is the one read.
#[derive(Clone, Debug)]
pub struct Record {
    pub fields: Vec<(String, AttrValue)>,
}

impl View for Record {
    type V = Seq<(Seq<char>, AttrView)>;

    open spec fn view(&self) -> Seq<(Seq<char>, AttrView)> {
        self.fields@.map_values(|f: (String, AttrValue)| (f.0@, f.1@))
    }
}

/// Why a field could not be read.
#[derive(Clone, Copy, Debug, PartialEq, Eq, Structural)]
pub enum FieldErrorKind {
    /// The record has no field of that name.
    MissingField,
    /// The field holds another kind of value.
    TypeMismatch,
    /// The field is a number whose text is not a decimal number.
    ParseError,
}

/// A field that could not be read, and why.
#[derive(Clone, Debug)]
pub struct FieldError {
    pub kind: FieldErrorKind,
    pub field: String,
}

pub ghost struct FieldErrorView {
    pub kind: FieldErrorKind,
    pub field: Seq<char>,
}

impl View for FieldError {
    type V = FieldErrorView;

    open spec fn view(&self) -> FieldErrorView {
        FieldErrorView { kind: self.kind, field: self.field@ }
    }
}

pub open spec fn field_error(kind: FieldErrorKind, key: Seq<char>) -> FieldErrorView {
    FieldErrorView { kind, field: key }
}

/// The value of the first field named `key`.
pub open spec fn field_of(fields: Seq<(Seq<char>, AttrView)>, key: Seq<char>) -> Option<AttrView>
    decreases fields.len(),
{
    if fields.len() == 0 {
        None
    } else if fields[0].0 == key {
        Some(fields[0].1)
    } else {
        field_of(fields.drop_first(), key)
    }
}

/// Reading field `key` as a string.
pub open spec fn string_field(fields: Seq<(Seq<char>, AttrView)>, key: Seq<char>) -> Result<
    Seq<char>,
    FieldErrorView,
> {
    match field_of(fields, key) {
        None => Err(field_error(FieldErrorKind::MissingField, key)),
        Some(AttrView::Str(s)) => Ok(s),
        Some(_) => Err(field_error(FieldErrorKind::TypeMismatch, key)),
    }
}

/// Reading field `key` as the text of a well-formed number.
pub open spec fn number_text_field(fields: Seq<(Seq<char>, AttrView)>, key: Seq<char>) -> Result<
    Seq<char>,
    FieldErrorView,
> {
    match field_of(fields, key) {
        None => Err(field_error(FieldErrorKind::MissingField, key)),
        Some(AttrView::Num(s)) => if decimal_of(s) is Some {
            Ok(s)
        } else {
            Err(field_error(FieldErrorKind::ParseError, key))
        },
        Some(_) => Err(field_error(FieldErrorKind::TypeMismatch, key)),
    }
}

/// Reading field `key` as a number.
pub open spec fn number_field(fields: Seq<(Seq<char>, AttrView)>, key: Seq<char>) -> Result<
    Amount,
    FieldErrorView,
> {
    match number_text_field(fields, key) {
        Ok(s) => Ok(decimal_of(s).unwrap()),
        Err(e) => Err(e),
    }
}

proof fn lemma_field_of(fields: Seq<(Seq<char>, AttrView)>, key: Seq<char>, i: int)
    requires
        0 <= i <= fields.len(),
        forall|j: int| 0 <= j < i ==> fields[j].0 != key,
        i < fields.len() ==> fields[i].0 == key,
    ensures
        field_of(fields, key) == if i < fields.len() {
            Some(fields[i].1)
        } else {
            None
        },
    decreases fields.len(),
{
    if fields.len() > 0 && fields[0].0 != key {
        let rest = fields.drop_first();
        assert forall|j: int| 0 <= j < i - 1 implies rest[j].0 != key by {
            assert(rest[j] == fields[j + 1]);
        }
        if i < fields.len() {
            assert(rest[i - 1] == fields[i]);
        }
        lemma_field_of(rest, key, i - 1);
    }
}

/// The value of the first field named `key`, if any.
pub fn lookup<'a>(record: &'a Record, key: &str) -> (r: Option<&'a AttrValue>)
    ensures
        match r {
            Some(v) => field_of(record@, key@) == Some(v@),
            None => field_of(record@, key@) is None,
        },
{
    let n = record.fields.len();
    let mut i: usize = 0;
    while i < n
        invariant
            n == record.fields@.len(),
            i <= n,
            forall|j: int| 0 <= j < i ==> record@[j].0 != key@,
        decreases n - i,
    {
        if same_text(record.fields[i].0.as_str(), key) {
            proof {
                lemma_field_of(record@, key@, i as int);
            }
            return Some(&record.fields[i].1);
        }
        i += 1;
    }
    proof {
        lemma_field_of(record@, key@, n as int);
    }
    None
}

fn error_for(kind: FieldErrorKind, key: &str) -> (e: FieldError)
    ensures
        e@ == field_error(kind, key@),
{
    FieldError { kind, field: String::from_str(key) }
}

/// Reads field `key` of `record` as a string.
pub fn get_string(record: &Record, key: &str) -> (r: Result<String, FieldError>)
    ensures
        match r {
            Ok(v) => string_field(record@, key@) == Ok::<Seq<char>, FieldErrorView>(v@),
            Err(e) => string_field(record@, key@) == Err::<Seq<char>, FieldErrorView>(e@),
        },
{
    match lookup(record, key) {
        None => Err(error_for(FieldErrorKind::MissingField, key)),
        Some(AttrValue::Str(s)) => Ok(s.clone()),
        Some(_) => Err(error_for(FieldErrorKind::TypeMismatch, key)),
    }
}

/// Reads field `key` of `record` as the text of a number, which must be
/// well formed.
pub fn get_number_text(record: &Record, key: &str) -> (r: Result<String, FieldError>)
    ensures
        match r {
            Ok(v) => number_text_field(record@, key@) == Ok::<Seq<char>, FieldErrorView>(v@),
            Err(e) => number_text_field(record@, key@) == Err::<Seq<char>, FieldErrorView>(e@),
        },
{
    match lookup(record, key) {
        None => Err(error_for(FieldErrorKind::MissingField, key)),
        Some(AttrValue::Num(s)) => match parse_decimal(s.as_str()) {
            Some(_) => Ok(s.clone()),
            None => Err(error_for(FieldErrorKind::ParseError, key)),
        },
        Some(_) => Err(error_for(FieldErrorKind::TypeMismatch, key)),
    }
}

/// Reads field `key` of `record` as a number.
pub fn get_number(record: &Record, key: &str) -> (r: Result<Decimal, FieldError>)
    ensures
        match r {
            Ok(d) => number_field(record@, key@) == Ok::<Amount, FieldErrorView>(d@),
            Err(e) => number_field(record@, key@) == Err::<Amount, FieldErrorView>(e@),
        },
{
    match lookup(record, key) {
        None => Err(error_for(FieldErrorKind::MissingField, key)),
        Some(AttrValue::Num(s)) => match parse_decimal(s.as_str()) {
            Some(d) => Ok(d),
            None => Err(error_for(FieldErrorKind::ParseError, key)),
        },
        Some(_) => Err(error_for(FieldErrorKind::TypeMismatch, key)),
    }
}

} // verus!
