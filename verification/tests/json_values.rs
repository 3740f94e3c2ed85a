use samskara_codegen::column_info::{from_columns_result, ColumnInfo};
use samskara_codegen::datavalue::{as_bool, as_i64, as_str};
use samskara_codegen::json::{JsonNumber, JsonValue};
use samskara_codegen::Error;

fn text(s: &str) -> JsonValue {
    JsonValue::String(s.to_string())
}

fn num(i: i64) -> JsonValue {
    JsonValue::Number(JsonNumber { int: Some(i), float_as_int: i, float_text: format!("{}", i as f64) })
}

fn float(f: f64) -> JsonValue {
    JsonValue::Number(JsonNumber { int: None, float_as_int: f as i64, float_text: f.to_string() })
}

fn obj(members: Vec<(&str, JsonValue)>) -> JsonValue {
    JsonValue::Object(members.into_iter().map(|(k, v)| (k.to_string(), v)).collect())
}

fn rows(rs: Vec<JsonValue>) -> JsonValue {
    obj(vec![("headers", JsonValue::Array(vec![])), ("rows", JsonValue::Array(rs))])
}

fn schema_detail(r: Result<Vec<ColumnInfo>, Error>) -> String {
    match r {
        Err(Error::Schema { detail }) => detail,
        Err(e) => panic!("expected a schema error, got {:?}", e),
        Ok(_) => panic!("expected a schema error"),
    }
}

#[test]
fn datavalue_strings() {
    assert_eq!(as_str(&obj(vec![("Str", text("hello"))])), Some("hello"));
    assert_eq!(as_str(&text("plain")), Some("plain"));
    assert_eq!(as_str(&obj(vec![("Str", JsonValue::Bool(true))])), None);
    assert_eq!(as_str(&JsonValue::Null), None);
    // "Null" is how the Null DataValue is serialized.
    assert_eq!(as_str(&text("Null")), None);
    assert_eq!(as_str(&obj(vec![("Str", text("Null"))])), Some("Null"));
    assert_eq!(as_str(&text("null")), Some("null"));
    assert_eq!(as_str(&obj(vec![("Other", text("x"))])), None);
}

#[test]
fn datavalue_bools() {
    assert_eq!(as_bool(&obj(vec![("Bool", JsonValue::Bool(true))])), Some(true));
    assert_eq!(as_bool(&obj(vec![("Bool", JsonValue::Bool(false))])), Some(false));
    assert_eq!(as_bool(&JsonValue::Bool(false)), Some(false));
    assert_eq!(as_bool(&text("true")), None);
}

#[test]
fn datavalue_integers() {
    assert_eq!(as_i64(&obj(vec![("Num", obj(vec![("Int", num(42))]))])), Some(42));
    assert_eq!(as_i64(&obj(vec![("Num", obj(vec![("Int", num(-7))]))])), Some(-7));
    assert_eq!(as_i64(&obj(vec![("Num", obj(vec![("Float", float(3.9))]))])), Some(3));
    assert_eq!(as_i64(&obj(vec![("Num", obj(vec![("Float", float(-2.5))]))])), Some(-2));
    assert_eq!(as_i64(&num(5)), Some(5));
    assert_eq!(as_i64(&float(5.5)), None);
    assert_eq!(as_i64(&obj(vec![("Num", text("1"))])), None);
    assert_eq!(as_i64(&JsonValue::Null), None);
}

#[test]
fn columns_are_read_from_tagged_and_plain_values() {
    let result = rows(vec![
        JsonValue::Array(vec![
            obj(vec![("Str", text("id"))]),
            obj(vec![("Bool", JsonValue::Bool(true))]),
            obj(vec![("Num", obj(vec![("Int", num(0))]))]),
            obj(vec![("Str", text("String"))]),
            text("extra"),
        ]),
        JsonValue::Array(vec![text("created_ts"), JsonValue::Bool(false), num(1), text("Int")]),
    ]);
    let cols = from_columns_result(&result).unwrap();
    assert_eq!(cols.len(), 2);
    assert_eq!(cols[0].name, "id");
    assert!(cols[0].is_key);
    assert_eq!(cols[0].index, 0);
    assert_eq!(cols[0].col_type, "String");
    assert_eq!(cols[1].name, "created_ts");
    assert!(!cols[1].is_key);
    assert_eq!(cols[1].index, 1);
    assert_eq!(cols[1].col_type, "Int");
}

#[test]
fn column_index_is_truncated_to_u32() {
    let result = rows(vec![JsonValue::Array(vec![
        text("c"),
        JsonValue::Bool(false),
        num((1i64 << 32) + 5),
        text("Int"),
    ])]);
    assert_eq!(from_columns_result(&result).unwrap()[0].index, 5);
    let negative = rows(vec![JsonValue::Array(vec![text("c"), JsonValue::Bool(false), num(-1), text("Int")])]);
    assert_eq!(from_columns_result(&negative).unwrap()[0].index, u32::MAX);
}

#[test]
fn empty_columns_result() {
    assert_eq!(from_columns_result(&rows(vec![])).unwrap().len(), 0);
}

#[test]
fn columns_result_errors() {
    assert_eq!(schema_detail(from_columns_result(&obj(vec![]))), "::columns result missing 'rows' array");
    assert_eq!(
        schema_detail(from_columns_result(&obj(vec![("rows", text("x"))]))),
        "::columns result missing 'rows' array"
    );
    let good = JsonValue::Array(vec![text("a"), JsonValue::Bool(true), num(0), text("Int")]);
    assert_eq!(
        schema_detail(from_columns_result(&rows(vec![good.clone_value(), text("x")]))),
        "row 1 is not an array"
    );
    assert_eq!(schema_detail(from_columns_result(&rows(vec![JsonValue::Array(vec![])]))), "row 0 missing column name");
    assert_eq!(
        schema_detail(from_columns_result(&rows(vec![JsonValue::Array(vec![text("a"), text("b")])]))),
        "row 0 missing is_key"
    );
    assert_eq!(
        schema_detail(from_columns_result(&rows(vec![JsonValue::Array(vec![
            text("a"),
            JsonValue::Bool(true),
            text("0")
        ])]))),
        "row 0 missing index"
    );
    let mut many = Vec::new();
    for _ in 0..12 {
        many.push(good.clone_value());
    }
    many.push(JsonValue::Array(vec![text("a"), JsonValue::Bool(true), num(0)]));
    assert_eq!(schema_detail(from_columns_result(&rows(many))), "row 12 missing type");
}

trait CloneValue {
    fn clone_value(&self) -> JsonValue;
}

impl CloneValue for JsonValue {
    fn clone_value(&self) -> JsonValue {
        match self {
            JsonValue::Null => JsonValue::Null,
            JsonValue::Bool(b) => JsonValue::Bool(*b),
            JsonValue::Number(n) => JsonValue::Number(JsonNumber {
                int: n.int,
                float_as_int: n.float_as_int,
                float_text: n.float_text.clone(),
            }),
            JsonValue::String(s) => JsonValue::String(s.clone()),
            JsonValue::Array(a) => JsonValue::Array(a.iter().map(|v| v.clone_value()).collect()),
            JsonValue::Object(m) => JsonValue::Object(m.iter().map(|(k, v)| (k.clone(), v.clone_value())).collect()),
        }
    }
}
