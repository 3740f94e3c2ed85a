use samskara_codegen::column_info::ColumnInfo;
use samskara_codegen::introspect::{SchemaScan, ScanStep};
use samskara_codegen::vocab_detect::{build_enum_schema, enum_schema_query};
use samskara_codegen::json::{JsonNumber, JsonValue};
use samskara_codegen::{Error, SchemaGenerator};

fn text(s: &str) -> JsonValue {
    JsonValue::String(s.to_string())
}

fn tagged(s: &str) -> JsonValue {
    JsonValue::Object(vec![("Str".to_string(), text(s))])
}

fn num(i: i64) -> JsonValue {
    JsonValue::Number(JsonNumber { int: Some(i), float_as_int: i, float_text: format!("{}", i as f64) })
}

fn rows(rs: Vec<Vec<JsonValue>>) -> JsonValue {
    JsonValue::Object(vec![(
        "rows".to_string(),
        JsonValue::Array(rs.into_iter().map(JsonValue::Array).collect()),
    )])
}

fn column(name: &str, key: bool, index: i64, ty: &str) -> Vec<JsonValue> {
    vec![tagged(name), JsonValue::Bool(key), num(index), tagged(ty)]
}

/// Runs a scan against canned answers, one per query, checking each query.
fn run(answers: Vec<(&str, Result<JsonValue, String>)>) -> Result<SchemaGenerator, Error> {
    let (mut scan, mut query) = SchemaScan::start();
    for (expected, answer) in answers {
        assert_eq!(query, expected);
        match scan.step(answer) {
            ScanStep::Query(next, q) => {
                scan = next;
                query = q;
            }
            ScanStep::Done(g) => return Ok(g),
            ScanStep::Failed(e) => return Err(e),
        }
    }
    panic!("scan wants more answers; next query: {query}");
}

#[test]
fn registry_decides_which_relations_are_enums() {
    let g = run(vec![
        ("?[name] := *Domain{name}", Ok(rows(vec![vec![tagged("Phase")], vec![text("dignity_vocab")]]))),
        ("::relations", Ok(rows(vec![
            vec![text("thought")],
            vec![text("Phase")],
            vec![text("dignity_vocab")],
            vec![text("Domain")],
        ]))),
        ("::columns Domain", Ok(rows(vec![column("name", true, 0, "String")]))),
        ("::columns Phase", Ok(rows(vec![column("name", true, 0, "String"), column("glyph", false, 1, "String")]))),
        ("?[val] := *Phase{name: val}", Ok(rows(vec![vec![text("sol")], vec![text("luna")], vec![text("saturnus")]]))),
        ("::columns dignity_vocab", Ok(rows(vec![column("name", true, 0, "String"), column("rank", false, 1, "Int")]))),
        ("?[val] := *dignity_vocab{name: val}", Ok(rows(vec![vec![tagged("fall")], vec![tagged("domicile")]]))),
        ("::columns thought", Ok(rows(vec![column("id", true, 0, "String"), column("created_ts", false, 1, "Int")]))),
    ])
    .unwrap();
    // "Domain" is PascalCase but not in the registry: a struct.
    let rel_names: Vec<&str> = g.relations.iter().map(|r| r.name.as_str()).collect();
    assert_eq!(rel_names, vec!["Domain", "thought"]);
    let enum_names: Vec<&str> = g.enums.iter().map(|e| e.name.as_str()).collect();
    assert_eq!(enum_names, vec!["Phase", "dignity_vocab"]);
    assert_eq!(g.enums[0].variants, vec!["luna", "saturnus", "sol"]);
    assert_eq!(g.enums[1].variants, vec!["domicile", "fall"]);
    assert_eq!(g.relations[1].columns.len(), 2);
    assert_eq!(g.relations[1].columns[1].name, "created_ts");
}

#[test]
fn pascal_case_is_the_fallback_without_registry() {
    let g = run(vec![
        ("?[name] := *Domain{name}", Err("no such relation: Domain".to_string())),
        ("::relations", Ok(rows(vec![vec![text("thought")], vec![text("Phase")], vec![text("Pair")]]))),
        ("::columns Pair", Ok(rows(vec![column("a", true, 0, "String"), column("b", true, 1, "String")]))),
        ("::columns Phase", Ok(rows(vec![column("name", true, 0, "String")]))),
        ("?[val] := *Phase{name: val}", Ok(rows(vec![vec![text("sol")]]))),
        ("::columns thought", Ok(rows(vec![column("id", true, 0, "String")]))),
    ])
    .unwrap();
    // Composite-key domains become structs.
    let rel_names: Vec<&str> = g.relations.iter().map(|r| r.name.as_str()).collect();
    assert_eq!(rel_names, vec!["Pair", "thought"]);
    assert_eq!(g.enums.len(), 1);
    assert_eq!(g.enums[0].name, "Phase");
}

#[test]
fn empty_registry_rows_fall_back_to_pascal_case() {
    let g = run(vec![
        ("?[name] := *Domain{name}", Ok(rows(vec![]))),
        ("::relations", Ok(rows(vec![vec![text("Phase")]]))),
        ("::columns Phase", Ok(rows(vec![column("name", true, 0, "String")]))),
        ("?[val] := *Phase{name: val}", Ok(rows(vec![]))),
    ])
    .unwrap();
    assert_eq!(g.relations.len(), 0);
    assert_eq!(g.enums[0].variants.len(), 0);
}

#[test]
fn no_relations_gives_an_empty_schema() {
    let g = run(vec![
        ("?[name] := *Domain{name}", Ok(rows(vec![]))),
        ("::relations", Ok(rows(vec![vec![JsonValue::Null], vec![]]))),
    ])
    .unwrap();
    assert_eq!(g.relations.len() + g.enums.len(), 0);
}

#[test]
fn introspection_errors() {
    match run(vec![
        ("?[name] := *Domain{name}", Ok(rows(vec![]))),
        ("::relations", Err("db closed".to_string())),
    ]) {
        Err(Error::Query { detail }) => assert_eq!(detail, "db closed"),
        other => panic!("unexpected {:?}", other.map(|_| ())),
    }
    match run(vec![
        ("?[name] := *Domain{name}", Ok(rows(vec![]))),
        ("::relations", Ok(JsonValue::Object(vec![]))),
    ]) {
        Err(Error::Schema { detail }) => assert_eq!(detail, "::relations missing 'rows'"),
        other => panic!("unexpected {:?}", other.map(|_| ())),
    }
    match run(vec![
        ("?[name] := *Domain{name}", Ok(rows(vec![]))),
        ("::relations", Ok(rows(vec![vec![text("t")]]))),
        ("::columns t", Ok(rows(vec![vec![text("id")]]))),
    ]) {
        Err(Error::Schema { detail }) => assert_eq!(detail, "row 0 missing is_key"),
        other => panic!("unexpected {:?}", other.map(|_| ())),
    }
    match run(vec![
        ("?[name] := *Domain{name}", Ok(rows(vec![]))),
        ("::relations", Ok(rows(vec![vec![text("Phase")]]))),
        ("::columns Phase", Ok(rows(vec![column("name", true, 0, "String")]))),
        ("?[val] := *Phase{name: val}", Ok(JsonValue::Null)),
    ]) {
        Err(Error::Schema { detail }) => assert_eq!(detail, "enum query missing 'rows'"),
        other => panic!("unexpected {:?}", other.map(|_| ())),
    }
    match run(vec![
        ("?[name] := *Domain{name}", Ok(rows(vec![]))),
        ("::relations", Ok(rows(vec![vec![text("t")]]))),
        ("::columns t", Err("timeout".to_string())),
    ]) {
        Err(Error::Query { detail }) => assert_eq!(detail, "timeout"),
        other => panic!("unexpected {:?}", other.map(|_| ())),
    }
}

#[test]
fn enum_query_and_schema() {
    let cols = vec![
        ColumnInfo { name: "glyph".to_string(), is_key: false, index: 1, col_type: "String".to_string() },
        ColumnInfo { name: "name".to_string(), is_key: true, index: 0, col_type: "String".to_string() },
    ];
    assert_eq!(enum_schema_query("Phase", &cols).unwrap(), "?[val] := *Phase{name: val}");
    match enum_schema_query("Phase", &cols[..1].iter().map(|c| ColumnInfo {
        name: c.name.clone(),
        is_key: c.is_key,
        index: c.index,
        col_type: c.col_type.clone(),
    }).collect()) {
        Err(Error::Schema { detail }) => assert_eq!(detail, "Phase has no key column"),
        other => panic!("unexpected {:?}", other),
    }
    let e = build_enum_schema("Phase", &rows(vec![vec![text("sol")], vec![num(3)], vec![tagged("luna")], vec![]])).unwrap();
    assert_eq!(e.name, "Phase");
    assert_eq!(e.variants, vec!["luna", "sol"]);
}
