use enrichr::{parse_rules, ErrorKind, JsonPath, JsonValue, Target, TransformType};

fn s(v: &str) -> JsonValue {
    JsonValue::String(v.to_string())
}

fn obj(members: Vec<(&str, JsonValue)>) -> JsonValue {
    JsonValue::Object(members.into_iter().map(|(k, v)| (k.to_string(), v)).collect())
}

#[test]
fn reads_the_documented_rule_shape() {
    let doc = JsonValue::Array(vec![
        obj(vec![
            ("source", s("$.user_data.full_name")),
            ("target", JsonValue::Array(vec![s("$.first_name"), s("$.last_name")])),
            (
                "transform",
                obj(vec![("type", s("split")), ("params", obj(vec![("delimiter", s(" "))]))]),
            ),
        ]),
        obj(vec![("source", s("$.user_data.contact.email")), ("target", s("$.email"))]),
    ]);
    let rules = parse_rules(&doc).unwrap();
    assert_eq!(rules.len(), 2);
    assert!(matches!(&rules[0].source, JsonPath::Single(p) if p == "$.user_data.full_name"));
    assert!(matches!(&rules[0].target, Target::Multiple(ps) if ps.len() == 2 && ps[1] == "$.last_name"));
    let t = rules[0].transform.as_ref().unwrap();
    assert_eq!(t.transform_type, TransformType::Split);
    assert_eq!(t.param("delimiter").map(|d| d.as_str()), Some(" "));
    assert!(rules[1].transform.is_none());
    assert!(matches!(&rules[1].target, Target::Single(p) if p == "$.email"));
}

#[test]
fn keeps_condition_and_reads_camel_case_kinds() {
    let doc = JsonValue::Array(vec![obj(vec![
        ("source", JsonValue::Array(vec![s("$.a"), s("$.b")])),
        ("target", s("x")),
        ("transform", obj(vec![("type", s("toUpperCase")), ("params", JsonValue::Null)])),
        ("condition", JsonValue::Bool(true)),
    ])]);
    let rules = parse_rules(&doc).unwrap();
    assert!(matches!(&rules[0].source, JsonPath::Multiple(ps) if ps.len() == 2));
    let t = rules[0].transform.as_ref().unwrap();
    assert_eq!(t.transform_type, TransformType::ToUpperCase);
    assert!(t.params.is_none());
    assert!(matches!(rules[0].condition, Some(JsonValue::Bool(true))));
}

#[test]
fn malformed_rule_documents_are_spec_errors() {
    let bad = [
        obj(vec![]),
        JsonValue::Array(vec![obj(vec![("source", s("$.a"))])]),
        JsonValue::Array(vec![obj(vec![("source", JsonValue::Bool(true)), ("target", s("x"))])]),
        JsonValue::Array(vec![obj(vec![
            ("source", s("$.a")),
            ("target", JsonValue::Array(vec![s("x"), JsonValue::Null])),
        ])]),
        JsonValue::Array(vec![obj(vec![
            ("source", s("$.a")),
            ("target", s("x")),
            ("transform", obj(vec![("type", s("Split"))])),
        ])]),
        JsonValue::Array(vec![obj(vec![
            ("source", s("$.a")),
            ("target", s("x")),
            ("transform", obj(vec![("type", s("split")), ("params", obj(vec![("delimiter", JsonValue::Bool(false))]))])),
        ])]),
    ];
    let duplicate_keys = JsonValue::Array(vec![obj(vec![
        ("source", s("$.a")),
        ("target", s("x")),
        (
            "transform",
            obj(vec![
                ("type", s("split")),
                ("params", obj(vec![("delimiter", s(",")), ("delimiter", s(";"))])),
            ]),
        ),
    ])]);
    assert_eq!(parse_rules(&duplicate_keys).unwrap_err().kind(), ErrorKind::Spec);
    let second_bad = JsonValue::Array(vec![
        obj(vec![("source", s("$.a")), ("target", s("x"))]),
        obj(vec![("source", s("$.a"))]),
    ]);
    assert!(parse_rules(&second_bad).unwrap_err().message().starts_with("rule 1: "));
    for doc in bad.iter() {
        assert_eq!(parse_rules(doc).unwrap_err().kind(), ErrorKind::Spec);
    }
}
