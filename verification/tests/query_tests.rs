use model_store::{
    build_select_query, Error, FilterGroup, FilterGroups, FilterNode, ListOptions, OpVal,
    Operator, OrderBy, Value,
};

fn node(name: &str, opvals: Vec<(Operator, Value)>) -> FilterNode {
    FilterNode {
        name: name.to_string(),
        opvals: opvals.into_iter().map(|(op, value)| OpVal { op, value }).collect(),
    }
}

fn groups(groups: Vec<Vec<FilterNode>>) -> FilterGroups {
    FilterGroups { groups: groups.into_iter().map(|nodes| FilterGroup { nodes }).collect() }
}

fn no_options() -> ListOptions {
    ListOptions { limit: None, offset: None, order_bys: vec![] }
}

fn text(s: &str) -> Value {
    Value::Text(s.to_string())
}

fn people_filter() -> FilterGroups {
    groups(vec![
        vec![
            node("name", vec![(Operator::Eq, text("alice"))]),
            node("age", vec![(Operator::Gte, Value::Int(18)), (Operator::Lt, Value::Int(65))]),
        ],
        vec![node("admin", vec![(Operator::Eq, Value::Bool(true))])],
    ])
}

#[test]
fn empty_filter_and_options_select_everything() {
    let q = build_select_query(&groups(vec![]), &no_options()).unwrap();
    assert_eq!(q.text, "SELECT * FROM type::table($tb)");
    assert!(q.vars.is_empty());
}

#[test]
fn groups_and_comparisons_keep_their_places() {
    let q = build_select_query(&people_filter(), &no_options()).unwrap();
    assert_eq!(
        q.text,
        "SELECT * FROM type::table($tb) WHERE (name = $w0_0_0 AND age >= $w0_1_0 AND age < $w0_1_1) OR (admin = $w1_0_0)"
    );
    let names: Vec<&str> = q.vars.iter().map(|b| b.name.as_str()).collect();
    assert_eq!(names, vec!["w0_0_0", "w0_1_0", "w0_1_1", "w1_0_0"]);
    assert_eq!(q.vars[0].value, text("alice"));
    assert_eq!(q.vars[1].value, Value::Int(18));
    assert_eq!(q.vars[2].value, Value::Int(65));
    assert_eq!(q.vars[3].value, Value::Bool(true));
}

#[test]
fn every_supported_operator_has_its_symbol() {
    let table = vec![
        (Operator::Eq, "="),
        (Operator::Not, "!="),
        (Operator::Lt, "<"),
        (Operator::Lte, "<="),
        (Operator::Gt, ">"),
        (Operator::Gte, ">="),
    ];
    for (op, symbol) in table {
        assert_eq!(op.symbol(), Some(symbol));
        assert!(op.is_supported());
        let q = build_select_query(
            &groups(vec![vec![node("n", vec![(op, Value::Int(1))])]]),
            &no_options(),
        )
        .unwrap();
        assert_eq!(
            q.text,
            format!("SELECT * FROM type::table($tb) WHERE (n {} $w0_0_0)", symbol)
        );
    }
}

#[test]
fn every_other_operator_is_reported_by_name() {
    let others = vec![
        (Operator::In, "In"),
        (Operator::NotIn, "NotIn"),
        (Operator::Empty, "Empty"),
        (Operator::Contains, "Contains"),
        (Operator::NotContains, "NotContains"),
        (Operator::ContainsIn, "ContainsIn"),
        (Operator::NotContainsIn, "NotContainsIn"),
        (Operator::StartsWith, "StartsWith"),
        (Operator::NotStartsWith, "NotStartsWith"),
        (Operator::StartsWithIn, "StartsWithIn"),
        (Operator::NotStartsWithIn, "NotStartsWithIn"),
        (Operator::EndsWith, "EndsWith"),
        (Operator::NotEndsWith, "NotEndsWith"),
        (Operator::EndsWithIn, "EndsWithIn"),
        (Operator::NotEndsWithIn, "NotEndsWithIn"),
    ];
    for (op, name) in others {
        assert_eq!(op.symbol(), None);
        assert!(!op.is_supported());
        assert_eq!(op.name(), name);
        let r = build_select_query(
            &groups(vec![vec![node("n", vec![(op, text("x"))])]]),
            &no_options(),
        );
        match r {
            Err(Error::ModqlOperatorNotSupported(reported)) => assert_eq!(reported, name),
            other => panic!("expected an unsupported operator, got {:?}", other),
        }
    }
}

#[test]
fn the_first_unsupported_operator_in_reading_order_is_the_one_reported() {
    let filter = groups(vec![
        vec![
            node("a", vec![(Operator::Eq, Value::Int(1))]),
            node("b", vec![]),
            node("c", vec![(Operator::Gt, Value::Int(2)), (Operator::StartsWith, text("x"))]),
            node("d", vec![(Operator::Contains, text("y"))]),
        ],
        vec![node("e", vec![(Operator::In, Value::List(vec![Value::Int(1)]))])],
    ]);
    match build_select_query(&filter, &no_options()) {
        Err(Error::ModqlOperatorNotSupported(reported)) => assert_eq!(reported, "StartsWith"),
        other => panic!("expected an unsupported operator, got {:?}", other),
    }
}

#[test]
fn an_unsupported_operator_in_a_later_group_fails_the_whole_query() {
    let filter = groups(vec![
        vec![node("a", vec![(Operator::Eq, Value::Int(1))])],
        vec![node("b", vec![(Operator::EndsWith, text("z"))])],
    ]);
    let r = build_select_query(&filter, &no_options());
    assert!(matches!(r, Err(Error::ModqlOperatorNotSupported(ref n)) if n == "EndsWith"));
}

#[test]
fn groups_and_nodes_without_comparisons() {
    let filter = groups(vec![
        vec![],
        vec![node("a", vec![]), node("b", vec![(Operator::Not, Value::Null)])],
        vec![node("c", vec![])],
    ]);
    let q = build_select_query(&filter, &no_options()).unwrap();
    assert_eq!(
        q.text,
        "SELECT * FROM type::table($tb) WHERE (true) OR (b != $w1_1_0) OR (true)"
    );
    assert_eq!(q.vars.len(), 1);
    assert_eq!(q.vars[0].name, "w1_1_0");
    assert_eq!(q.vars[0].value, Value::Null);
}

#[test]
fn sort_fields_then_limit_then_offset() {
    let options = ListOptions {
        limit: Some(10),
        offset: Some(20),
        order_bys: vec![OrderBy::Asc("name".to_string()), OrderBy::Desc("age".to_string())],
    };
    let q = build_select_query(&groups(vec![]), &options).unwrap();
    assert_eq!(
        q.text,
        "SELECT * FROM type::table($tb) ORDER BY name ASC,age DESC LIMIT 10 START 20"
    );
    let q = build_select_query(&people_filter(), &options).unwrap();
    assert_eq!(
        q.text,
        "SELECT * FROM type::table($tb) WHERE (name = $w0_0_0 AND age >= $w0_1_0 AND age < $w0_1_1) OR (admin = $w1_0_0) ORDER BY name ASC,age DESC LIMIT 10 START 20"
    );
}

#[test]
fn each_option_alone() {
    let only_limit = ListOptions { limit: Some(0), offset: None, order_bys: vec![] };
    assert_eq!(
        build_select_query(&groups(vec![]), &only_limit).unwrap().text,
        "SELECT * FROM type::table($tb) LIMIT 0"
    );
    let only_offset = ListOptions { limit: None, offset: Some(7), order_bys: vec![] };
    assert_eq!(
        build_select_query(&groups(vec![]), &only_offset).unwrap().text,
        "SELECT * FROM type::table($tb) START 7"
    );
    let only_order =
        ListOptions { limit: None, offset: None, order_bys: vec![OrderBy::Desc("t".to_string())] };
    assert_eq!(
        build_select_query(&groups(vec![]), &only_order).unwrap().text,
        "SELECT * FROM type::table($tb) ORDER BY t DESC"
    );
}

#[test]
fn numbers_are_written_in_decimal() {
    let options =
        ListOptions { limit: Some(i64::MAX), offset: Some(i64::MIN), order_bys: vec![] };
    assert_eq!(
        build_select_query(&groups(vec![]), &options).unwrap().text,
        "SELECT * FROM type::table($tb) LIMIT 9223372036854775807 START -9223372036854775808"
    );
    let options = ListOptions { limit: Some(-1), offset: Some(1005), order_bys: vec![] };
    assert_eq!(
        build_select_query(&groups(vec![]), &options).unwrap().text,
        "SELECT * FROM type::table($tb) LIMIT -1 START 1005"
    );
}

#[test]
fn variables_of_far_places_are_numbered_by_place() {
    let mut nodes = vec![];
    for i in 0..12 {
        nodes.push(node(&format!("f{}", i), vec![]));
    }
    let mut opvals = vec![];
    for i in 0..11 {
        opvals.push((Operator::Eq, Value::Int(i)));
    }
    nodes.push(node("last", opvals));
    let q = build_select_query(&groups(vec![vec![], nodes]), &no_options()).unwrap();
    assert_eq!(q.vars.len(), 11);
    assert_eq!(q.vars[0].name, "w1_12_0");
    assert_eq!(q.vars[10].name, "w1_12_10");
    assert!(q.text.ends_with("AND last = $w1_12_10)"));
    assert!(q.text.starts_with("SELECT * FROM type::table($tb) WHERE (true) OR (last = $w1_12_0 AND "));
}

#[test]
fn the_same_inputs_give_the_same_text_byte_for_byte() {
    let options = ListOptions {
        limit: Some(3),
        offset: None,
        order_bys: vec![OrderBy::Asc("name".to_string())],
    };
    let first = build_select_query(&people_filter(), &options).unwrap();
    let second = build_select_query(&people_filter(), &options).unwrap();
    assert_eq!(first.text.as_bytes(), second.text.as_bytes());
    assert_eq!(first, second);
}

#[test]
fn values_travel_as_bindings_and_never_in_the_text() {
    let filter = groups(vec![vec![node(
        "note",
        vec![(Operator::Eq, text("x) OR (true")), (Operator::Not, Value::Float(1.5f64.to_bits()))],
    )]]);
    let q = build_select_query(&filter, &no_options()).unwrap();
    assert_eq!(
        q.text,
        "SELECT * FROM type::table($tb) WHERE (note = $w0_0_0 AND note != $w0_0_1)"
    );
    assert_eq!(q.vars[0].value, text("x) OR (true"));
    assert_eq!(q.vars[1].value, Value::Float(1.5f64.to_bits()));
}
