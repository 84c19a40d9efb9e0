use enrichr::{
    enrich, EnrichmentError, FieldKind, FieldTable, JsonPath, JsonValue, MappingRule, Target,
};

#[derive(Default, Debug, PartialEq)]
struct ComplexUser {
    name: String,
    age: u32,
    emails: Vec<String>,
    address: Address,
    status: Option<Status>,
}

#[derive(Default, Debug, PartialEq)]
struct Address {
    street: String,
    city: String,
}

#[derive(Debug, PartialEq)]
enum Status {
    Active,
    Inactive,
}

fn text(t: &FieldTable, name: &str) -> String {
    match t.get(name) {
        Some(JsonValue::String(s)) => s.clone(),
        _ => String::new(),
    }
}

// The registration table of a `ComplexUser`.  The address's leaves are
// registered on the outer table, since the engine dispatches on the last
// segment of a target path.
fn complex_user_table() -> FieldTable {
    let mut t = FieldTable::new();
    t.declare("name", FieldKind::Text);
    t.declare("age", FieldKind::Number);
    t.declare("emails", FieldKind::List);
    t.declare("street", FieldKind::Text);
    t.declare("city", FieldKind::Text);
    t.declare("status", FieldKind::Text);
    t
}

fn complex_user_from(t: &FieldTable) -> ComplexUser {
    ComplexUser {
        name: text(t, "name"),
        age: match t.get("age") {
            Some(JsonValue::Number(n)) => n.parse().unwrap_or(0),
            _ => 0,
        },
        emails: match t.get("emails") {
            Some(JsonValue::Array(items)) => items
                .iter()
                .filter_map(|i| match i {
                    JsonValue::String(s) => Some(s.clone()),
                    _ => None,
                })
                .collect(),
            _ => Vec::new(),
        },
        address: Address { street: text(t, "street"), city: text(t, "city") },
        status: match text(t, "status").as_str() {
            "Active" => Some(Status::Active),
            "Inactive" => Some(Status::Inactive),
            _ => None,
        },
    }
}

fn s(v: &str) -> JsonValue {
    JsonValue::String(v.to_string())
}

fn obj(members: Vec<(&str, JsonValue)>) -> JsonValue {
    JsonValue::Object(members.into_iter().map(|(k, v)| (k.to_string(), v)).collect())
}

fn rules_from(pairs: &[(&str, &str)]) -> Vec<MappingRule> {
    pairs
        .iter()
        .map(|(target, source)| MappingRule {
            source: JsonPath::Single(source.to_string()),
            target: Target::Single(target.to_string()),
            transform: None,
            condition: None,
        })
        .collect()
}

#[test]
fn test_complex_enrichment() -> Result<(), EnrichmentError> {
    let data = obj(vec![(
        "user",
        obj(vec![
            ("name", s("John Doe")),
            (
                "details",
                obj(vec![
                    ("age", JsonValue::Number("30".to_string())),
                    (
                        "contact",
                        obj(vec![(
                            "emails",
                            JsonValue::Array(vec![s("john@example.com"), s("doe@example.com")]),
                        )]),
                    ),
                    (
                        "address",
                        obj(vec![("street", s("123 Main St")), ("city", s("New York"))]),
                    ),
                    ("account_status", s("Active")),
                ]),
            ),
        ]),
    )]);

    let rules = rules_from(&[
        ("name", "$.user.name"),
        ("age", "$.user.details.age"),
        ("emails", "$.user.details.contact.emails"),
        ("address.street", "$.user.details.address.street"),
        ("address.city", "$.user.details.address.city"),
        ("status", "$.user.details.account_status"),
    ]);

    let mut table = complex_user_table();
    enrich(&mut table, &data, &rules)?;
    let user = complex_user_from(&table);

    assert_eq!(user.name, "John Doe");
    assert_eq!(user.emails.len(), 2);
    assert_eq!(user.address.city, "New York");
    assert_eq!(user.age, 30);
    assert_eq!(user.status, Some(Status::Active));

    Ok(())
}

#[test]
fn nested_leaf_without_registration_is_unknown() {
    let data = obj(vec![("street", s("123 Main St"))]);
    let mut t = FieldTable::new();
    t.declare("address", FieldKind::Object);
    let e = enrich(&mut t, &data, &rules_from(&[("address.street", "$.street")])).unwrap_err();
    assert!(matches!(&e, EnrichmentError::SpecError(m) if m.contains("street")));
}
