use orders_lambda::{
    aggregate, assemble, checked_product, checked_sum, classify, compute_total_amount,
    get_number, get_number_text, get_string, parse_decimal, AssemblyError, AttrValue, Customer,
    Decimal, Diagnostic, FieldErrorKind, Kind, Order, Product, ProductQuantity, Record,
    RecordError,
};

fn s(v: &str) -> AttrValue {
    AttrValue::Str(v.to_string())
}

fn n(v: &str) -> AttrValue {
    AttrValue::Num(v.to_string())
}

fn rec(fields: Vec<(&str, AttrValue)>) -> Record {
    Record { fields: fields.into_iter().map(|(k, v)| (k.to_string(), v)).collect() }
}

fn customer(pk: &str, name: &str, email: &str) -> Record {
    rec(vec![
        ("PK", s(pk)),
        ("SK", s(&format!("CUSTOMER#{}", pk))),
        ("fullName", s(name)),
        ("email", s(email)),
    ])
}

fn product(pk: &str, sk: &str, name: &str, price: AttrValue, quantity: &str) -> Record {
    rec(vec![
        ("PK", s(pk)),
        ("SK", s(sk)),
        ("name", s(name)),
        ("price", price),
        ("quantity", n(quantity)),
    ])
}

fn meta(pk: &str, id: &str, date: &str) -> Record {
    rec(vec![("PK", s(pk)), ("SK", s("META")), ("id", n(id)), ("date", s(date))])
}

fn dec(units: i128, scale: u32) -> Decimal {
    Decimal { units, scale }
}

fn example_records() -> Vec<Record> {
    vec![
        customer("1", "John Doe", "john@company.com"),
        product("1", "PRODUCT#1", "Milk", n("1.5"), "1"),
        meta("1", "1", "2021-01-01 12:24:00"),
    ]
}

#[test]
fn example_gives_one_order() {
    let result = aggregate(&example_records());
    let expected = Order {
        id: "1".to_string(),
        date: "2021-01-01 12:24:00".to_string(),
        total_amount: dec(15, 1),
        customer: Customer { full_name: "John Doe".to_string(), email: "john@company.com".to_string() },
        products: vec![ProductQuantity {
            product: Product { name: "Milk".to_string(), price: dec(15, 1) },
            quantity: dec(1, 0),
        }],
    };
    assert_eq!(result.orders, vec![expected]);
    assert!(result.diagnostics.is_empty());
}

#[test]
fn example_with_text_price_gives_nothing() {
    let records = vec![
        customer("1", "John Doe", "john@company.com"),
        product("1", "PRODUCT#1", "Milk", s("abc"), "1"),
        meta("1", "1", "2021-01-01 12:24:00"),
    ];
    let result = aggregate(&records);
    assert!(result.orders.is_empty());
    assert_eq!(result.diagnostics.len(), 2);
    match &result.diagnostics[0] {
        Diagnostic::Record { index, error: RecordError::Field(e) } => {
            assert_eq!(*index, 1);
            assert_eq!(e.kind, FieldErrorKind::TypeMismatch);
            assert_eq!(e.field, "price");
        }
        other => panic!("unexpected diagnostic {:?}", other),
    }
    match &result.diagnostics[1] {
        Diagnostic::Order { pk, error: AssemblyError::MissingProducts } => assert_eq!(pk, "1"),
        other => panic!("unexpected diagnostic {:?}", other),
    }
}

#[test]
fn malformed_numeric_price_is_a_parse_error() {
    let records = vec![
        customer("1", "John Doe", "john@company.com"),
        product("1", "PRODUCT#1", "Milk", n("abc"), "1"),
        meta("1", "1", "2021-01-01 12:24:00"),
    ];
    let result = aggregate(&records);
    assert!(result.orders.is_empty());
    match &result.diagnostics[0] {
        Diagnostic::Record { index: 1, error: RecordError::Field(e) } => {
            assert_eq!(e.kind, FieldErrorKind::ParseError);
        }
        other => panic!("unexpected diagnostic {:?}", other),
    }
}

#[test]
fn empty_input_gives_no_orders() {
    let result = aggregate(&Vec::new());
    assert!(result.orders.is_empty());
    assert!(result.diagnostics.is_empty());
}

#[test]
fn complete_partitions_each_give_one_order() {
    let records = vec![
        meta("2", "20", "2022-02-02"),
        customer("1", "Ann", "ann@x.org"),
        product("2", "PRODUCT#a", "Tea", n("2"), "3"),
        product("1", "PRODUCT#b", "Bread", n("0.75"), "2"),
        customer("2", "Bob", "bob@x.org"),
        meta("1", "10", "2021-01-01"),
    ];
    let result = aggregate(&records);
    assert_eq!(result.orders.len(), 2);
    let o2 = result.orders.iter().find(|o| o.id == "20").unwrap();
    assert_eq!(o2.date, "2022-02-02");
    assert_eq!(o2.customer.full_name, "Bob");
    assert_eq!(o2.total_amount, dec(6, 0));
    let o1 = result.orders.iter().find(|o| o.id == "10").unwrap();
    assert_eq!(o1.customer.email, "ann@x.org");
    assert_eq!(o1.products.len(), 1);
    assert_eq!(o1.total_amount, dec(150, 2));
}

#[test]
fn meta_without_customer_gives_no_order() {
    let records = vec![
        product("1", "PRODUCT#1", "Milk", n("1.5"), "1"),
        meta("1", "1", "2021-01-01"),
    ];
    let result = aggregate(&records);
    assert!(result.orders.is_empty());
    assert!(matches!(
        &result.diagnostics[..],
        [Diagnostic::Order { error: AssemblyError::MissingCustomer, .. }]
    ));
}

#[test]
fn meta_without_products_gives_no_order() {
    let records = vec![customer("1", "Ann", "ann@x.org"), meta("1", "1", "2021-01-01")];
    let result = aggregate(&records);
    assert!(result.orders.is_empty());
    assert!(matches!(
        &result.diagnostics[..],
        [Diagnostic::Order { error: AssemblyError::MissingProducts, .. }]
    ));
}

#[test]
fn unknown_kind_is_dropped_and_reported() {
    let mut records = example_records();
    records.insert(
        1,
        rec(vec![
            ("PK", s("1")),
            ("SK", s("INVOICE#1")),
            ("fullName", s("Mallory")),
            ("email", s("m@x.org")),
            ("name", s("Gold")),
            ("price", n("1000")),
            ("quantity", n("1")),
        ]),
    );
    let result = aggregate(&records);
    assert_eq!(result.orders.len(), 1);
    assert_eq!(result.orders[0].customer.full_name, "John Doe");
    assert_eq!(result.orders[0].products.len(), 1);
    match &result.diagnostics[..] {
        [Diagnostic::Record { index: 1, error: RecordError::UnknownRecordKind(sk) }] => {
            assert_eq!(sk, "INVOICE#1")
        }
        other => panic!("unexpected diagnostics {:?}", other),
    }
}

#[test]
fn running_twice_gives_the_same_orders() {
    let records = vec![
        customer("1", "Ann", "ann@x.org"),
        customer("2", "Bob", "bob@x.org"),
        product("1", "PRODUCT#1", "A", n("1.1"), "3"),
        product("1", "PRODUCT#2", "B", n("2"), "1"),
        product("2", "PRODUCT#3", "C", n("0.01"), "7"),
        meta("1", "1", "d1"),
        meta("2", "2", "d2"),
    ];
    let first = aggregate(&records);
    let second = aggregate(&records);
    assert_eq!(first.orders, second.orders);
    assert_eq!(first.orders.len(), 2);
}

#[test]
fn total_is_exact_sum_in_line_order() {
    let records = vec![
        customer("1", "Ann", "ann@x.org"),
        product("1", "PRODUCT#1", "A", n("1.25"), "2"),
        product("1", "PRODUCT#2", "B", n("0.5"), "3"),
        meta("1", "7", "d"),
    ];
    let result = aggregate(&records);
    let order = &result.orders[0];
    assert_eq!(order.total_amount, dec(400, 2));
    assert_eq!(order.products[0].product.name, "A");
    assert_eq!(order.products[1].product.name, "B");
}

#[test]
fn duplicate_customer_last_one_wins() {
    let records = vec![
        customer("1", "Old", "old@x.org"),
        product("1", "PRODUCT#1", "A", n("1"), "1"),
        customer("1", "New", "new@x.org"),
        meta("1", "1", "d"),
    ];
    let result = aggregate(&records);
    assert_eq!(result.orders[0].customer.full_name, "New");
}

#[test]
fn duplicate_meta_last_one_wins() {
    let mut records = example_records();
    records.push(meta("1", "2", "later"));
    let result = aggregate(&records);
    assert_eq!(result.orders.len(), 1);
    assert_eq!(result.orders[0].id, "2");
    assert_eq!(result.orders[0].date, "later");
}

#[test]
fn record_without_keys_is_reported() {
    let mut records = example_records();
    records.push(rec(vec![("SK", s("META"))]));
    records.push(rec(vec![("PK", s("1")), ("SK", n("3"))]));
    let result = aggregate(&records);
    assert_eq!(result.orders.len(), 1);
    match &result.diagnostics[..] {
        [Diagnostic::Record { index: 3, error: RecordError::Field(a) }, Diagnostic::Record { index: 4, error: RecordError::Field(b) }] => {
            assert_eq!(a.kind, FieldErrorKind::MissingField);
            assert_eq!(a.field, "PK");
            assert_eq!(b.kind, FieldErrorKind::TypeMismatch);
            assert_eq!(b.field, "SK");
        }
        other => panic!("unexpected diagnostics {:?}", other),
    }
}

#[test]
fn meta_with_text_id_is_reported() {
    let records = vec![
        customer("1", "Ann", "ann@x.org"),
        product("1", "PRODUCT#1", "A", n("1"), "1"),
        rec(vec![("PK", s("1")), ("SK", s("META")), ("id", s("1")), ("date", s("d"))]),
    ];
    let result = aggregate(&records);
    assert!(result.orders.is_empty());
    match &result.diagnostics[..] {
        [Diagnostic::Order { pk, error: AssemblyError::Field(e) }] => {
            assert_eq!(pk, "1");
            assert_eq!(e.kind, FieldErrorKind::TypeMismatch);
            assert_eq!(e.field, "id");
        }
        other => panic!("unexpected diagnostics {:?}", other),
    }
}

#[test]
fn meta_without_date_is_reported() {
    let records = vec![
        customer("1", "Ann", "ann@x.org"),
        product("1", "PRODUCT#1", "A", n("1"), "1"),
        rec(vec![("PK", s("1")), ("SK", s("META")), ("id", n("1"))]),
    ];
    let result = aggregate(&records);
    assert!(result.orders.is_empty());
    match &result.diagnostics[..] {
        [Diagnostic::Order { error: AssemblyError::Field(e), .. }] => {
            assert_eq!(e.kind, FieldErrorKind::MissingField);
            assert_eq!(e.field, "date");
        }
        other => panic!("unexpected diagnostics {:?}", other),
    }
}

#[test]
fn total_out_of_range_is_reported() {
    let records = vec![
        customer("1", "Ann", "ann@x.org"),
        product("1", "PRODUCT#1", "A", n("100000000000000000000"), "100000000000000000000"),
        meta("1", "1", "d"),
    ];
    let result = aggregate(&records);
    assert!(result.orders.is_empty());
    assert!(matches!(
        &result.diagnostics[..],
        [Diagnostic::Order { error: AssemblyError::TotalOutOfRange, .. }]
    ));
}

#[test]
fn classify_by_leading_segment() {
    assert_eq!(classify("CUSTOMER#1"), Kind::Customer);
    assert_eq!(classify("CUSTOMER"), Kind::Customer);
    assert_eq!(classify("PRODUCT#9#x"), Kind::Product);
    assert_eq!(classify("META"), Kind::OrderMeta);
    assert_eq!(classify("META#2"), Kind::OrderMeta);
    assert_eq!(classify("METADATA"), Kind::Unknown);
    assert_eq!(classify("customer#1"), Kind::Unknown);
    assert_eq!(classify(""), Kind::Unknown);
    assert_eq!(classify("#CUSTOMER"), Kind::Unknown);
}

#[test]
fn parse_plain_decimals() {
    assert_eq!(parse_decimal("1.5"), Some(dec(15, 1)));
    assert_eq!(parse_decimal("-3"), Some(dec(-3, 0)));
    assert_eq!(parse_decimal("+42"), Some(dec(42, 0)));
    assert_eq!(parse_decimal(".5"), Some(dec(5, 1)));
    assert_eq!(parse_decimal("1."), Some(dec(1, 0)));
    assert_eq!(parse_decimal("0.010"), Some(dec(10, 3)));
    assert_eq!(
        parse_decimal("170141183460469231731687303715884105727"),
        Some(dec(i128::MAX, 0))
    );
}

#[test]
fn parse_rejects_malformed_text() {
    assert_eq!(parse_decimal(""), None);
    assert_eq!(parse_decimal("-"), None);
    assert_eq!(parse_decimal("."), None);
    assert_eq!(parse_decimal("abc"), None);
    assert_eq!(parse_decimal("1.2.3"), None);
    assert_eq!(parse_decimal("1e5"), None);
    assert_eq!(parse_decimal(" 1"), None);
    assert_eq!(parse_decimal("170141183460469231731687303715884105728"), None);
    assert_eq!(parse_decimal("99999999999999999999999999999999999999999x"), None);
}

#[test]
fn field_extraction_errors() {
    let r = rec(vec![("a", s("x")), ("b", n("12")), ("c", AttrValue::Unsupported), ("d", n("1-"))]);
    assert_eq!(get_string(&r, "a").unwrap(), "x");
    assert_eq!(get_string(&r, "b").unwrap_err().kind, FieldErrorKind::TypeMismatch);
    assert_eq!(get_string(&r, "c").unwrap_err().kind, FieldErrorKind::TypeMismatch);
    let missing = get_string(&r, "z").unwrap_err();
    assert_eq!(missing.kind, FieldErrorKind::MissingField);
    assert_eq!(missing.field, "z");
    assert_eq!(get_number(&r, "b").unwrap(), dec(12, 0));
    assert_eq!(get_number(&r, "a").unwrap_err().kind, FieldErrorKind::TypeMismatch);
    assert_eq!(get_number(&r, "d").unwrap_err().kind, FieldErrorKind::ParseError);
    assert_eq!(get_number(&r, "z").unwrap_err().kind, FieldErrorKind::MissingField);
    assert_eq!(get_number_text(&r, "b").unwrap(), "12");
    assert_eq!(get_number_text(&r, "d").unwrap_err().kind, FieldErrorKind::ParseError);
}

#[test]
fn decimal_arithmetic_is_exact() {
    assert_eq!(checked_sum(dec(15, 1), dec(1, 0)), Some(dec(25, 1)));
    assert_eq!(checked_sum(dec(-3, 0), dec(5, 2)), Some(dec(-295, 2)));
    assert_eq!(checked_product(dec(15, 1), dec(3, 2)), Some(dec(45, 3)));
    assert_eq!(checked_product(dec(i128::MAX, 0), dec(2, 0)), None);
    assert_eq!(checked_sum(dec(i128::MAX, 0), dec(1, 0)), None);
    assert_eq!(checked_sum(dec(i128::MAX, 0), dec(0, 1)), None);
}

#[test]
fn assemble_checks_customer_then_products() {
    let m = meta("1", "5", "d");
    let c = Customer { full_name: "A".to_string(), email: "e".to_string() };
    let lines = vec![ProductQuantity {
        product: Product { name: "P".to_string(), price: dec(2, 0) },
        quantity: dec(3, 0),
    }];
    assert!(matches!(assemble(&m, None, Some(&lines)), Err(AssemblyError::MissingCustomer)));
    assert!(matches!(assemble(&m, Some(&c), None), Err(AssemblyError::MissingProducts)));
    let order = assemble(&m, Some(&c), Some(&lines)).unwrap();
    assert_eq!(order.id, "5");
    assert_eq!(order.total_amount, dec(6, 0));
    assert_eq!(compute_total_amount(&Vec::new()), Some(dec(0, 0)));
}
