use model_store::{
    build_select_query, read_groups, FilterGroup, FilterGroups, FilterNode, ListOptions, OpVal,
    Operator, OrderBy, ReadComparison, Value,
};

fn node(name: &str, ops: Vec<Operator>) -> FilterNode {
    FilterNode {
        name: name.to_string(),
        opvals: ops.into_iter().map(|op| OpVal { op, value: Value::Int(0) }).collect(),
    }
}

fn groups(groups: Vec<Vec<FilterNode>>) -> FilterGroups {
    FilterGroups { groups: groups.into_iter().map(|nodes| FilterGroup { nodes }).collect() }
}

fn cmp(field: &str, symbol: &str, var: &str) -> ReadComparison {
    ReadComparison { field: field.to_string(), symbol: symbol.to_string(), var: var.to_string() }
}

fn options() -> ListOptions {
    ListOptions {
        limit: Some(4),
        offset: Some(8),
        order_bys: vec![OrderBy::Asc("a b (c) OR (d".to_string())],
    }
}

fn nested() -> FilterGroups {
    groups(vec![
        vec![node("name", vec![Operator::Eq]), node("age", vec![Operator::Gte, Operator::Lt])],
        vec![],
        vec![node("skipped", vec![]), node("AND", vec![Operator::Not])],
        vec![node("true", vec![Operator::Lte]), node("OR", vec![Operator::Gt])],
    ])
}

fn nested_shape() -> Vec<Vec<ReadComparison>> {
    vec![
        vec![cmp("name", "=", "w0_0_0"), cmp("age", ">=", "w0_1_0"), cmp("age", "<", "w0_1_1")],
        vec![],
        vec![cmp("AND", "!=", "w2_1_0")],
        vec![cmp("true", "<=", "w3_0_0"), cmp("OR", ">", "w3_1_0")],
    ]
}

#[test]
fn the_generated_text_reads_back_as_the_filter_is_grouped() {
    let q = build_select_query(&nested(), &options()).unwrap();
    assert_eq!(read_groups(&q.text), Some(nested_shape()));
    let no_options = ListOptions { limit: None, offset: None, order_bys: vec![] };
    let q = build_select_query(&nested(), &no_options).unwrap();
    assert_eq!(read_groups(&q.text), Some(nested_shape()));
}

#[test]
fn spacing_makes_no_difference_to_what_is_read() {
    let q = build_select_query(&nested(), &options()).unwrap();
    let spread = q
        .text
        .replace(" WHERE ", "\n  WHERE\t")
        .replace("(", " (  ")
        .replace(")", "\r\n ) ")
        .replace(" AND ", "   AND\n")
        .replace(" OR (", "\tOR   (");
    assert_ne!(spread, q.text);
    assert_eq!(read_groups(&spread), Some(nested_shape()));
    assert_eq!(read_groups(&format!("  \n{}", q.text)), Some(nested_shape()));
}

#[test]
fn a_query_without_filter_has_no_group() {
    let q = build_select_query(&groups(vec![]), &options()).unwrap();
    assert_eq!(read_groups(&q.text), Some(vec![]));
    assert_eq!(read_groups("SELECT * FROM type::table($tb)"), Some(vec![]));
    assert_eq!(read_groups("select"), None);
}

#[test]
fn groups_are_neither_merged_nor_reordered() {
    let one_group = groups(vec![vec![node("a", vec![Operator::Eq]), node("b", vec![Operator::Eq])]]);
    let two_groups =
        groups(vec![vec![node("a", vec![Operator::Eq])], vec![node("b", vec![Operator::Eq])]]);
    let swapped =
        groups(vec![vec![node("b", vec![Operator::Eq])], vec![node("a", vec![Operator::Eq])]]);
    let none = ListOptions { limit: None, offset: None, order_bys: vec![] };
    let read = |f: &FilterGroups| read_groups(&build_select_query(f, &none).unwrap().text).unwrap();
    assert_eq!(read(&one_group), vec![vec![cmp("a", "=", "w0_0_0"), cmp("b", "=", "w0_1_0")]]);
    assert_eq!(
        read(&two_groups),
        vec![vec![cmp("a", "=", "w0_0_0")], vec![cmp("b", "=", "w1_0_0")]]
    );
    assert_eq!(read(&swapped), vec![vec![cmp("b", "=", "w0_0_0")], vec![cmp("a", "=", "w1_0_0")]]);
}

#[test]
fn what_is_no_query_is_not_read() {
    for text in [
        "",
        "SELECT",
        "SELECT * FROM user",
        "SELECT * FROM type::table($tb",
        "SELECT * FROM type::table($tb) WHERE",
        "SELECT * FROM type::table($tb) WHERE a = $w0_0_0",
        "SELECT * FROM type::table($tb) WHERE (a = $w0_0_0",
        "SELECT * FROM type::table($tb) WHERE (a = w0_0_0)",
        "SELECT * FROM type::table($tb) WHERE (a = $)",
        "SELECT * FROM type::table($tb) WHERE (a = $w0_0_0 AND)",
        "SELECT * FROM type::table($tb) WHERE (a = $w0_0_0) OR",
        "SELECT * FROM type::table($tb) WHERE ()",
        "SELECT * FROM type::table($tb) WHERE (a b = $w0_0_0)",
        "SELECT * FROM type::table($tb) WHERE ((a = $w0_0_0))",
    ] {
        assert_eq!(read_groups(text), None, "{:?}", text);
    }
}

#[test]
fn a_field_name_with_a_blank_is_not_read_back() {
    let filter = groups(vec![vec![node("first name", vec![Operator::Eq])]]);
    let none = ListOptions { limit: None, offset: None, order_bys: vec![] };
    let q = build_select_query(&filter, &none).unwrap();
    assert_eq!(q.text, "SELECT * FROM type::table($tb) WHERE (first name = $w0_0_0)");
    assert_eq!(read_groups(&q.text), None);
}

#[test]
fn what_follows_the_filter_clause_is_not_looked_at() {
    assert_eq!(
        read_groups("SELECT * FROM type::table($tb) WHERE (true) ORDER BY ) ( LIMIT x"),
        Some(vec![vec![]])
    );
    assert_eq!(
        read_groups("SELECT * FROM type::table($tb) LIMIT ( WHERE"),
        Some(vec![])
    );
}
