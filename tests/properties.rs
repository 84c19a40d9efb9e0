use enrichr::{
    enrich, leaf_of, to_lower_case, ArrayTransformer, Enrichable, EnrichmentError, ErrorKind,
    FieldKind, FieldTable, JsonPath, JsonPathExtractor, JsonValue, MappingRule, PathExtractor,
    StringTransformer, Target, TemplateTransformer, Transform, TransformType, Transformer,
};

fn s(v: &str) -> JsonValue {
    JsonValue::String(v.to_string())
}

fn obj(members: Vec<(&str, JsonValue)>) -> JsonValue {
    JsonValue::Object(members.into_iter().map(|(k, v)| (k.to_string(), v)).collect())
}

fn text(v: &JsonValue) -> Option<&str> {
    match v {
        JsonValue::String(s) => Some(s.as_str()),
        _ => None,
    }
}

fn texts(v: &JsonValue) -> Vec<String> {
    match v {
        JsonValue::Array(items) => items.iter().map(|i| text(i).unwrap().to_string()).collect(),
        _ => panic!("not an array"),
    }
}

fn rule(source: JsonPath, target: Target, transform: Option<Transform>) -> MappingRule {
    MappingRule { source, target, transform, condition: None }
}

fn one(p: &str) -> JsonPath {
    JsonPath::Single(p.to_string())
}

fn to(p: &str) -> Target {
    Target::Single(p.to_string())
}

fn with(kind: TransformType, params: &[(&str, &str)]) -> Option<Transform> {
    Some(Transform {
        transform_type: kind,
        params: Some(params.iter().map(|(k, v)| (k.to_string(), v.to_string())).collect()),
    })
}

fn table(names: &[&str]) -> FieldTable {
    let mut t = FieldTable::new();
    for n in names {
        assert!(t.declare(n, FieldKind::Any));
    }
    t
}

fn field_text<'a>(t: &'a FieldTable, name: &str) -> Option<&'a str> {
    t.get(name).and_then(text)
}

#[test]
fn copy_rule_writes_the_node_at_the_path() {
    let data = obj(vec![("a", obj(vec![("b", s("x"))]))]);
    let mut t = table(&["b", "c"]);
    enrich(&mut t, &data, &vec![rule(one("$.a.b"), to("$.deep.c"), None)]).unwrap();
    assert_eq!(field_text(&t, "c"), Some("x"));
    assert!(t.get("b").is_none());
}

#[test]
fn split_on_comma() {
    let r = ArrayTransformer::new(",".to_string()).transform(&s("premium,verified,active")).unwrap();
    assert_eq!(texts(&r), vec!["premium", "verified", "active"]);
}

#[test]
fn split_keeps_empty_pieces() {
    let comma = ArrayTransformer::new(",".to_string());
    assert_eq!(texts(&comma.transform(&s("a,,b")).unwrap()), vec!["a", "", "b"]);
    assert_eq!(texts(&comma.transform(&s("")).unwrap()), vec![""]);
    let nothing = ArrayTransformer::new(String::new());
    assert_eq!(texts(&nothing.transform(&s("ab")).unwrap()), vec!["", "a", "b", ""]);
}

#[test]
fn template_replaces_every_occurrence() {
    let v = JsonValue::Array(vec![s("a"), s("b")]);
    let r = TemplateTransformer::new("{0} {1} {2}".to_string()).transform(&v).unwrap();
    assert_eq!(text(&r), Some("a b {2}"));
    let r = TemplateTransformer::new("{0}-{0}".to_string()).transform(&v).unwrap();
    assert_eq!(text(&r), Some("a-a"));
}

#[test]
fn split_refuses_a_non_string() {
    let e = ArrayTransformer::new(",".to_string()).transform(&JsonValue::Bool(true)).unwrap_err();
    assert_eq!(e.kind(), ErrorKind::Transform);
}

#[test]
fn template_fills_positions() {
    let v = JsonValue::Array(vec![s("123 Main St"), s("Springfield"), s("IL"), s("62701")]);
    let r = TemplateTransformer::new("{0}, {1}, {2} {3}".to_string()).transform(&v).unwrap();
    assert_eq!(text(&r), Some("123 Main St, Springfield, IL 62701"));
}

#[test]
fn template_leaves_unmatched_placeholders() {
    let v = JsonValue::Array(vec![s("a")]);
    let r = TemplateTransformer::new("{0}-{1}".to_string()).transform(&v).unwrap();
    assert_eq!(text(&r), Some("a-{1}"));
}

#[test]
fn template_refuses_non_strings() {
    let t = TemplateTransformer::new("{0}".to_string());
    let bad = JsonValue::Array(vec![s("a"), JsonValue::Number("1".to_string())]);
    assert_eq!(t.transform(&bad).unwrap_err().kind(), ErrorKind::Transform);
    assert_eq!(t.transform(&s("a")).unwrap_err().kind(), ErrorKind::Transform);
}

#[test]
fn split_into_two_targets() {
    let data = obj(vec![("user_data", obj(vec![("full_name", s("John Doe"))]))]);
    let mut t = table(&["first_name", "last_name"]);
    let r = rule(
        one("$.user_data.full_name"),
        Target::Multiple(vec!["$.first_name".into(), "$.last_name".into()]),
        with(TransformType::Split, &[("delimiter", " ")]),
    );
    enrich(&mut t, &data, &vec![r]).unwrap();
    assert_eq!(field_text(&t, "first_name"), Some("John"));
    assert_eq!(field_text(&t, "last_name"), Some("Doe"));
}

#[test]
fn short_array_leaves_extra_targets_unset() {
    let data = obj(vec![("n", s("John"))]);
    let mut t = table(&["first_name", "last_name"]);
    let r = rule(
        one("$.n"),
        Target::Multiple(vec!["$.first_name".into(), "$.last_name".into()]),
        with(TransformType::Split, &[("delimiter", " ")]),
    );
    enrich(&mut t, &data, &vec![r]).unwrap();
    assert_eq!(field_text(&t, "first_name"), Some("John"));
    assert!(t.get("last_name").is_none());
}

#[test]
fn several_targets_need_an_array() {
    let data = obj(vec![("n", s("John Doe")), ("m", s("x"))]);
    let mut t = table(&["first_name", "last_name", "z"]);
    let rules = vec![
        rule(
            one("$.n"),
            Target::Multiple(vec!["$.first_name".into(), "$.last_name".into()]),
            None,
        ),
        rule(one("$.m"), to("z"), None),
    ];
    let e = enrich(&mut t, &data, &rules).unwrap_err();
    assert_eq!(e.kind(), ErrorKind::Transform);
    assert!(t.get("first_name").is_none());
    assert!(t.get("z").is_none());
}

#[test]
fn errors_name_their_subject() {
    let data = obj(vec![("a", s("1"))]);
    let mut t = table(&["x"]);
    let e = enrich(&mut t, &data, &vec![rule(one("$.a"), to("$.deep.missing_field"), None)])
        .unwrap_err();
    assert!(e.message().contains("missing_field"));
    assert!(e.message().starts_with("rule 0: "));
    let rules = vec![
        rule(one("$.a"), to("x"), None),
        rule(one("$.a"), to("x"), with(TransformType::Concat, &[])),
    ];
    let e = enrich(&mut t, &data, &rules).unwrap_err();
    assert!(e.message().starts_with("rule 1: "));
    let e = JsonPathExtractor::extract(&data, "$.absent").unwrap_err();
    assert!(e.message().contains("$.absent"));
    let e = JsonPathExtractor::extract(&data, "$..bad").unwrap_err();
    assert!(e.message().contains("$..bad"));
}

#[test]
fn upper_case_and_refusal() {
    let up = StringTransformer::new();
    assert_eq!(text(&up.transform(&s("active")).unwrap()), Some("ACTIVE"));
    let e = up.transform(&JsonValue::Number("5".to_string())).unwrap_err();
    assert!(matches!(e, EnrichmentError::TransformError(_)));
    assert_eq!(text(&to_lower_case(&s("MiXeD")).unwrap()), Some("mixed"));
    assert_eq!(to_lower_case(&JsonValue::Null).unwrap_err().kind(), ErrorKind::Transform);
}

#[test]
fn missing_path_stops_the_run() {
    let data = obj(vec![("a", s("1")), ("b", s("2"))]);
    let mut t = table(&["x", "y", "z"]);
    let rules = vec![
        rule(one("$.a"), to("x"), None),
        rule(one("$.absent"), to("y"), None),
        rule(one("$.b"), to("z"), None),
    ];
    let e = enrich(&mut t, &data, &rules).unwrap_err();
    assert_eq!(e.kind(), ErrorKind::JsonPath);
    assert_eq!(field_text(&t, "x"), Some("1"));
    assert!(t.get("z").is_none());
}

#[test]
fn unknown_field_stops_the_run() {
    let data = obj(vec![("a", s("1")), ("b", s("2"))]);
    let mut t = table(&["x", "z"]);
    let rules = vec![
        rule(one("$.a"), to("x"), None),
        rule(one("$.a"), to("$.nowhere"), None),
        rule(one("$.b"), to("z"), None),
    ];
    let e = enrich(&mut t, &data, &rules).unwrap_err();
    assert_eq!(e.kind(), ErrorKind::Spec);
    assert_eq!(field_text(&t, "x"), Some("1"));
    assert!(t.get("z").is_none());
}

#[test]
fn same_rules_same_result() {
    let data = obj(vec![("a", s("1")), ("b", s("x,y"))]);
    let rules = vec![
        rule(one("$.a"), to("p"), None),
        rule(one("$.b"), to("q"), with(TransformType::Split, &[("delimiter", ",")])),
    ];
    let mut first = table(&["p", "q"]);
    let mut second = table(&["p", "q"]);
    enrich(&mut first, &data, &rules).unwrap();
    enrich(&mut second, &data, &rules).unwrap();
    assert_eq!(field_text(&first, "p"), field_text(&second, "p"));
    assert_eq!(texts(first.get("q").unwrap()), texts(second.get("q").unwrap()));
    assert_eq!(texts(first.get("q").unwrap()), vec!["x", "y"]);
}

#[test]
fn last_write_wins() {
    let data = obj(vec![("a", s("1")), ("b", s("2"))]);
    let mut t = table(&["x"]);
    let rules = vec![rule(one("$.a"), to("x"), None), rule(one("$.b"), to("$.x"), None)];
    enrich(&mut t, &data, &rules).unwrap();
    assert_eq!(field_text(&t, "x"), Some("2"));
}

#[test]
fn unimplemented_transforms_fail() {
    let data = obj(vec![("a", s("1"))]);
    for kind in [
        TransformType::ToString,
        TransformType::Concat,
        TransformType::Replace,
        TransformType::Substring,
    ] {
        let mut t = table(&["x"]);
        let e = enrich(&mut t, &data, &vec![rule(one("$.a"), to("x"), with(kind, &[]))]).unwrap_err();
        assert_eq!(e.kind(), ErrorKind::Transform);
        assert!(t.get("x").is_none());
    }
}

#[test]
fn missing_parameters_fail() {
    let data = obj(vec![("a", s("1"))]);
    for kind in [TransformType::Split, TransformType::Template] {
        let mut t = table(&["x"]);
        let no_params = Some(Transform { transform_type: kind, params: None });
        let e = enrich(&mut t, &data, &vec![rule(one("$.a"), to("x"), no_params)]).unwrap_err();
        assert_eq!(e.kind(), ErrorKind::Transform);
    }
}

#[test]
fn multiple_sources_form_an_array() {
    let data = obj(vec![("a", s("1")), ("b", JsonValue::Array(vec![s("2"), s("3")]))]);
    let ex = JsonPathExtractor::new();
    let vs = ex.extract_values(&data, &vec!["$.a".to_string(), "$.b[1]".to_string()]).unwrap();
    assert_eq!(vs.len(), 2);
    assert_eq!(text(&vs[0]), Some("1"));
    assert_eq!(text(&vs[1]), Some("3"));
    let e = ex
        .extract_values(&data, &vec!["$.a".to_string(), "$.c".to_string(), "bad".to_string()])
        .unwrap_err();
    assert_eq!(e.kind(), ErrorKind::JsonPath);
}

#[test]
fn path_syntax() {
    let data = obj(vec![("a", JsonValue::Array(vec![obj(vec![("b", s("deep"))])]))]);
    assert_eq!(text(&JsonPathExtractor::extract(&data, "$.a[0].b").unwrap()), Some("deep"));
    assert!(matches!(JsonPathExtractor::extract(&data, "$").unwrap(), JsonValue::Object(_)));
    let out_of_range = JsonPathExtractor::extract(&data, "$.a[1]").unwrap_err();
    assert_eq!(out_of_range.kind(), ErrorKind::JsonPath);
    for bad in ["a.b", "$..a", "$.a[", "$.a[x]", "$.a[0", "", "$.a[99999999999999999999999]"] {
        let e = JsonPathExtractor::extract(&data, bad).unwrap_err();
        assert_eq!(e.kind(), ErrorKind::Spec, "{}", bad);
    }
}

#[test]
fn first_member_with_a_key_counts() {
    let data = JsonValue::Object(vec![("k".to_string(), s("first")), ("k".to_string(), s("second"))]);
    assert_eq!(text(&JsonPathExtractor::extract(&data, "$.k").unwrap()), Some("first"));
}

#[test]
fn leaf_names() {
    assert_eq!(leaf_of("$.first_name"), "first_name");
    assert_eq!(leaf_of("$.address.street"), "street");
    assert_eq!(leaf_of("name"), "name");
    assert_eq!(leaf_of("$name"), "name");
    assert_eq!(leaf_of("$"), "");
}

#[test]
fn field_table_kinds() {
    let mut t = FieldTable::new();
    assert!(t.declare("age", FieldKind::Number));
    assert!(!t.declare("age", FieldKind::Text));
    assert_eq!(t.set_field("age", &s("thirty")).unwrap_err().kind(), ErrorKind::DataType);
    assert!(t.get("age").is_none());
    t.set_field("age", &JsonValue::Number("30".to_string())).unwrap();
    assert!(matches!(t.get("age"), Some(JsonValue::Number(n)) if n == "30"));
    assert_eq!(t.set_field("other", &s("x")).unwrap_err().kind(), ErrorKind::Spec);
}

#[test]
fn copy_value_is_deep() {
    let v = obj(vec![("a", JsonValue::Array(vec![s("x"), JsonValue::Null]))]);
    let c = v.copy_value();
    assert_eq!(format!("{:?}", v), format!("{:?}", c));
}
