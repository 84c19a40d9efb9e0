use enrichr::{
    enrich, EnrichmentError, FieldKind, FieldTable, JsonPath, JsonValue, MappingRule, Target,
    Transform, TransformType,
};

#[derive(Debug, PartialEq, Default)]
struct User {
    name: String,
    age: u32,
    location: String,
    tags: Vec<String>,
}

fn user_table() -> FieldTable {
    let mut t = FieldTable::new();
    t.declare("name", FieldKind::Text);
    t.declare("age", FieldKind::Number);
    t.declare("location", FieldKind::Text);
    t.declare("tags", FieldKind::List);
    t
}

fn text(t: &FieldTable, name: &str) -> String {
    match t.get(name) {
        Some(JsonValue::String(s)) => s.clone(),
        _ => String::new(),
    }
}

fn user_from(t: &FieldTable) -> User {
    User {
        name: text(t, "name"),
        age: match t.get("age") {
            Some(JsonValue::Number(n)) => n.parse().unwrap_or(0),
            _ => 0,
        },
        location: text(t, "location"),
        tags: match t.get("tags") {
            Some(JsonValue::Array(items)) => items
                .iter()
                .filter_map(|i| match i {
                    JsonValue::String(s) => Some(s.clone()),
                    _ => None,
                })
                .collect(),
            _ => Vec::new(),
        },
    }
}

fn s(v: &str) -> JsonValue {
    JsonValue::String(v.to_string())
}

fn n(v: &str) -> JsonValue {
    JsonValue::Number(v.to_string())
}

fn obj(members: Vec<(&str, JsonValue)>) -> JsonValue {
    JsonValue::Object(members.into_iter().map(|(k, v)| (k.to_string(), v)).collect())
}

fn rule(source: JsonPath, target: &str, transform: Option<Transform>) -> MappingRule {
    MappingRule { source, target: Target::Single(target.to_string()), transform, condition: None }
}

fn one(path: &str) -> JsonPath {
    JsonPath::Single(path.to_string())
}

fn with(kind: TransformType, params: &[(&str, &str)]) -> Option<Transform> {
    Some(Transform {
        transform_type: kind,
        params: Some(params.iter().map(|(k, v)| (k.to_string(), v.to_string())).collect()),
    })
}

#[test]
fn integration_test_simple_enrichment() -> Result<(), EnrichmentError> {
    let mut table = user_table();
    let data = obj(vec![(
        "user",
        obj(vec![
            ("first_name", s("John")),
            ("last_name", s("Doe")),
            (
                "details",
                obj(vec![("age", n("30")), ("city", s("New York")), ("country", s("USA"))]),
            ),
        ]),
    )]);
    // Joining several paths is a multiple source filled into a template.
    let rules = vec![
        rule(
            JsonPath::Multiple(vec!["$.user.first_name".into(), "$.user.last_name".into()]),
            "name",
            with(TransformType::Template, &[("template", "{0} {1}")]),
        ),
        rule(one("$.user.details.age"), "age", None),
        rule(
            JsonPath::Multiple(vec!["$.user.details.city".into(), "$.user.details.country".into()]),
            "location",
            with(TransformType::Template, &[("template", "{0}, {1}")]),
        ),
    ];

    enrich(&mut table, &data, &rules)?;
    let user = user_from(&table);

    assert_eq!(user.name, "John Doe");
    assert_eq!(user.age, 30);
    assert_eq!(user.location, "New York, USA");
    Ok(())
}

#[test]
fn test_transforms() -> Result<(), EnrichmentError> {
    let mut table = user_table();
    let data = obj(vec![(
        "profile",
        obj(vec![
            ("name", s("john doe")),
            ("age", n("25")),
            ("tags_string", s("developer,rust,backend")),
        ]),
    )]);
    let rules = vec![
        rule(one("$.profile.name"), "name", with(TransformType::ToUpperCase, &[])),
        rule(one("$.profile.age"), "age", None),
        rule(
            one("$.profile.tags_string"),
            "tags",
            with(TransformType::Split, &[("delimiter", ",")]),
        ),
    ];

    enrich(&mut table, &data, &rules)?;
    let user = user_from(&table);

    assert_eq!(user.name, "JOHN DOE");
    assert_eq!(user.age, 25);
    assert_eq!(user.tags, vec!["developer", "rust", "backend"]);
    Ok(())
}

#[test]
fn test_missing_path() {
    let mut table = user_table();
    let data = obj(vec![]);
    let rules = vec![rule(one("$.nonexistent.path"), "name", None)];

    let result = enrich(&mut table, &data, &rules);
    assert!(result.is_err());
    assert!(matches!(result.unwrap_err(), EnrichmentError::JsonPathError(_)));
}

#[test]
fn test_invalid_type() {
    let mut table = user_table();
    let data = obj(vec![("age", s("not a number"))]);
    let rules = vec![rule(one("$.age"), "age", None)];

    let result = enrich(&mut table, &data, &rules);
    assert!(result.is_err());
    assert!(matches!(result.unwrap_err(), EnrichmentError::DataTypeError(_)));
}
