use enrichr::{
    enrich, EnrichmentError, FieldKind, FieldTable, JsonPath, JsonValue, MappingRule, Target,
};

#[derive(Default, Debug, PartialEq)]
struct SimpleUser {
    name: String,
    age: u32,
}

fn simple_user_table() -> FieldTable {
    let mut t = FieldTable::new();
    t.declare("name", FieldKind::Text);
    t.declare("age", FieldKind::Number);
    t
}

fn simple_user_from(t: &FieldTable) -> SimpleUser {
    SimpleUser {
        name: match t.get("name") {
            Some(JsonValue::String(s)) => s.clone(),
            _ => String::new(),
        },
        age: match t.get("age") {
            Some(JsonValue::Number(n)) => n.parse().unwrap_or(0),
            _ => 0,
        },
    }
}

fn obj(members: Vec<(&str, JsonValue)>) -> JsonValue {
    JsonValue::Object(members.into_iter().map(|(k, v)| (k.to_string(), v)).collect())
}

fn copy_rule(target: &str, source: &str) -> MappingRule {
    MappingRule {
        source: JsonPath::Single(source.to_string()),
        target: Target::Single(target.to_string()),
        transform: None,
        condition: None,
    }
}

#[test]
fn basic_tests_test_simple_enrichment() -> Result<(), EnrichmentError> {
    let data = obj(vec![(
        "user",
        obj(vec![
            ("name", JsonValue::String("John Doe".to_string())),
            ("details", obj(vec![("age", JsonValue::Number("30".to_string()))])),
        ]),
    )]);
    let rules = vec![copy_rule("name", "$.user.name"), copy_rule("age", "$.user.details.age")];

    let mut table = simple_user_table();
    enrich(&mut table, &data, &rules)?;

    assert_eq!(simple_user_from(&table), SimpleUser { name: "John Doe".to_string(), age: 30 });
    Ok(())
}
