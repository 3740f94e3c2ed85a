use samskara_codegen::column_info::ColumnInfo;
use samskara_codegen::cozo_text::{value_literal_of, InitStep, SeedStep};
use samskara_codegen::json::{JsonNumber, JsonValue};
use samskara_codegen::{EnumSchema, Error, RelationSchema, SchemaGenerator};

fn text(s: &str) -> JsonValue {
    JsonValue::String(s.to_string())
}

fn tagged(tag: &str, v: JsonValue) -> JsonValue {
    JsonValue::Object(vec![(tag.to_string(), v)])
}

fn num(i: i64) -> JsonValue {
    JsonValue::Number(JsonNumber { int: Some(i), float_as_int: i, float_text: format!("{}", i as f64) })
}

fn float(f: f64) -> JsonValue {
    JsonValue::Number(JsonNumber { int: None, float_as_int: f as i64, float_text: f.to_string() })
}

fn rows(rs: Vec<Vec<JsonValue>>) -> JsonValue {
    JsonValue::Object(vec![(
        "rows".to_string(),
        JsonValue::Array(rs.into_iter().map(JsonValue::Array).collect()),
    )])
}

fn column(name: &str, key: bool, index: i64, ty: &str) -> Vec<JsonValue> {
    vec![text(name), JsonValue::Bool(key), num(index), text(ty)]
}

fn col(name: &str, is_key: bool, index: u32, col_type: &str) -> ColumnInfo {
    ColumnInfo { name: name.to_string(), is_key, index, col_type: col_type.to_string() }
}

fn sample() -> SchemaGenerator {
    SchemaGenerator {
        relations: vec![RelationSchema {
            name: "thought".to_string(),
            columns: vec![col("id", true, 0, "String"), col("body", false, 1, "String")],
        }],
        enums: vec![EnumSchema { name: "Phase".to_string(), variants: vec!["sol".to_string()] }],
    }
}

fn header(g: &SchemaGenerator) -> String {
    let hash = blake3::hash(g.to_capnp_text().unwrap().as_bytes());
    format!("# Generated from live DB — do not edit manually\n# Schema hash: {hash}\n\n")
}

fn run_init(g: &SchemaGenerator, answers: Vec<(&str, Result<JsonValue, String>)>) -> Result<String, Error> {
    let (mut scan, mut query) = match g.cozo_init_scan() {
        InitStep::Query(s, q) => (s, q),
        InitStep::Done(t) => return Ok(t),
        InitStep::Failed(e) => return Err(e),
    };
    for (expected, answer) in answers {
        assert_eq!(query, expected);
        match scan.step(answer) {
            InitStep::Query(s, q) => {
                scan = s;
                query = q;
            }
            InitStep::Done(t) => return Ok(t),
            InitStep::Failed(e) => return Err(e),
        }
    }
    panic!("scan wants more answers; next query: {query}");
}

fn run_seed(g: &SchemaGenerator, answers: Vec<(&str, Result<JsonValue, String>)>) -> Result<String, Error> {
    let (mut scan, mut query) = match g.cozo_seed_scan() {
        SeedStep::Query(s, q) => (s, q),
        SeedStep::Done(t) => return Ok(t),
        SeedStep::Failed(e) => return Err(e),
    };
    for (expected, answer) in answers {
        assert_eq!(query, expected);
        match scan.step(answer) {
            SeedStep::Query(s, q) => {
                scan = s;
                query = q;
            }
            SeedStep::Done(t) => return Ok(t),
            SeedStep::Failed(e) => return Err(e),
        }
    }
    panic!("scan wants more answers; next query: {query}");
}

#[test]
fn create_statements_for_all_relations_sorted() {
    let g = sample();
    let out = run_init(&g, vec![
        ("::columns Phase", Ok(rows(vec![
            column("name", true, 0, "String"),
            column("glyph", false, 1, "String"),
            column("description", false, 2, "String"),
        ]))),
        ("::columns thought", Ok(rows(vec![column("a", true, 0, "String"), column("b", true, 1, "Int")]))),
    ])
    .unwrap();
    let expected = format!(
        "{}:create Phase {{\n  name: String =>\n  glyph: String,\n  description: String\n}}\n\n\
:create thought {{\n  a: String,\n  b: Int\n}}\n\n",
        header(&g)
    );
    assert_eq!(out, expected);
}

#[test]
fn create_separators_with_keys_first_and_last() {
    let g = SchemaGenerator {
        relations: vec![RelationSchema { name: "r".to_string(), columns: vec![] }],
        enums: vec![],
    };
    let out = run_init(&g, vec![(
        "::columns r",
        Ok(rows(vec![column("k1", true, 0, "String"), column("k2", true, 1, "Int"), column("v", false, 2, "Bool")])),
    )])
    .unwrap();
    assert!(out.ends_with(":create r {\n  k1: String,\n  k2: Int =>\n  v: Bool\n}\n\n"));
    let out = run_init(&g, vec![("::columns r", Ok(rows(vec![column("v", false, 0, "Bool")])))]).unwrap();
    assert!(out.ends_with(":create r {\n  v: Bool\n}\n\n"));
    let out = run_init(&g, vec![("::columns r", Ok(rows(vec![])))]).unwrap();
    assert!(out.ends_with(":create r {\n}\n\n"));
}

#[test]
fn projections_of_an_empty_schema_are_the_header() {
    let g = SchemaGenerator { relations: vec![], enums: vec![] };
    assert_eq!(run_init(&g, vec![]).unwrap(), header(&g));
    assert_eq!(run_seed(&g, vec![]).unwrap(), header(&g));
}

#[test]
fn projection_errors() {
    let bad = SchemaGenerator {
        relations: vec![RelationSchema { name: "r".to_string(), columns: vec![col("x", false, 0, "Weird")] }],
        enums: vec![],
    };
    match run_init(&bad, vec![]) {
        Err(Error::TypeMap { detail }) => assert_eq!(detail, "unknown CozoDB type: Weird"),
        other => panic!("unexpected {:?}", other),
    }
    match run_seed(&bad, vec![]) {
        Err(Error::TypeMap { detail }) => assert_eq!(detail, "unknown CozoDB type: Weird"),
        other => panic!("unexpected {:?}", other),
    }
    let g = sample();
    match run_init(&g, vec![("::columns Phase", Err("gone".to_string()))]) {
        Err(Error::Query { detail }) => assert_eq!(detail, "gone"),
        other => panic!("unexpected {:?}", other),
    }
    match run_seed(&g, vec![
        ("::columns Phase", Ok(rows(vec![column("name", true, 0, "String")]))),
        ("?[name] := *Phase{name} :order name", Err("parse error".to_string())),
    ]) {
        Err(Error::Query { detail }) => assert_eq!(detail, "seed query Phase: parse error"),
        other => panic!("unexpected {:?}", other),
    }
    match run_seed(&g, vec![("::columns Phase", Ok(JsonValue::Null))]) {
        Err(Error::Schema { detail }) => assert_eq!(detail, "::columns result missing 'rows' array"),
        other => panic!("unexpected {:?}", other),
    }
}

#[test]
fn seed_statements() {
    let g = sample();
    let out = run_seed(&g, vec![
        ("::columns Phase", Ok(rows(vec![column("name", true, 0, "String"), column("glyph", false, 1, "String")]))),
        ("?[name, glyph] := *Phase{name, glyph} :order name", Ok(rows(vec![
            vec![tagged("Str", text("luna")), tagged("Str", text("☽"))],
            vec![text("sol"), text("say \"hi\" \\o/")],
        ]))),
        ("::columns thought", Ok(rows(vec![
            column("id", true, 0, "String"),
            column("phase", false, 1, "String"),
            column("n", false, 2, "Int"),
        ]))),
        ("?[id, phase, n] := *thought{id, phase, n}, phase == \"manifest\" :order id", Ok(rows(vec![vec![
            text("t1"),
            tagged("Str", text("manifest")),
            tagged("Num", tagged("Int", num(-12))),
        ]]))),
    ])
    .unwrap();
    let expected = format!(
        "{}?[name, glyph] <- [\n  [\"luna\", \"☽\"],\n  [\"sol\", \"say \\\"hi\\\" \\o/\"],\n]\n:put Phase {{ name => glyph }}\n\n\
?[id, phase, n] <- [\n  [\"t1\", \"manifest\", -12],\n]\n:put thought {{ id => phase, n }}\n\n",
        header(&g)
    );
    assert_eq!(out, expected);
}

#[test]
fn relations_without_columns_or_rows_are_skipped() {
    let g = sample();
    let out = run_seed(&g, vec![
        ("::columns Phase", Ok(rows(vec![]))),
        ("::columns thought", Ok(rows(vec![column("id", true, 0, "String")]))),
        ("?[id] := *thought{id} :order id", Ok(rows(vec![]))),
    ])
    .unwrap();
    assert_eq!(out, header(&g));
    let out = run_seed(&g, vec![
        ("::columns Phase", Ok(rows(vec![]))),
        ("::columns thought", Ok(rows(vec![column("id", true, 0, "String")]))),
        ("?[id] := *thought{id} :order id", Ok(JsonValue::Object(vec![]))),
    ])
    .unwrap();
    assert_eq!(out, header(&g));
}

#[test]
fn seed_rows_that_are_not_arrays_are_left_out() {
    let g = SchemaGenerator {
        relations: vec![RelationSchema { name: "r".to_string(), columns: vec![] }],
        enums: vec![],
    };
    let result = JsonValue::Object(vec![(
        "rows".to_string(),
        JsonValue::Array(vec![text("oops"), JsonValue::Array(vec![num(1)])]),
    )]);
    let out = run_seed(&g, vec![
        ("::columns r", Ok(rows(vec![column("k", true, 0, "Int")]))),
        ("?[k] := *r{k} :order k", Ok(result)),
    ])
    .unwrap();
    assert!(out.ends_with("?[k] <- [\n  [1],\n]\n:put r { k }\n\n"));
}

#[test]
fn value_literals() {
    assert_eq!(value_literal_of(&tagged("Str", text("a\"b"))), "\"a\\\"b\"");
    assert_eq!(value_literal_of(&text("back\\slash")), "\"back\\slash\"");
    assert_eq!(value_literal_of(&tagged("Bool", JsonValue::Bool(true))), "true");
    assert_eq!(value_literal_of(&JsonValue::Bool(false)), "false");
    assert_eq!(value_literal_of(&tagged("Num", tagged("Int", num(i64::MIN)))), "-9223372036854775808");
    assert_eq!(value_literal_of(&tagged("Num", tagged("Float", float(2.5)))), "2.5");
    assert_eq!(value_literal_of(&tagged("Num", tagged("Other", num(1)))), "null");
    assert_eq!(value_literal_of(&num(0)), "0");
    assert_eq!(value_literal_of(&float(-0.125)), "-0.125");
    assert_eq!(value_literal_of(&JsonValue::Null), "null");
    // A plain string cell is written as a string, whatever it holds.
    assert_eq!(value_literal_of(&text("Null")), "\"Null\"");
    assert_eq!(value_literal_of(&tagged("Str", text("Null"))), "\"Null\"");
    assert_eq!(value_literal_of(&JsonValue::Array(vec![])), "null");
}

/// CozoScript reads `\"` as a quote and every other character as itself.
fn read_quoted(s: &str) -> String {
    let cs: Vec<char> = s.chars().collect();
    let mut out = String::new();
    let mut i = 0;
    while i < cs.len() {
        if cs[i] == '\\' && i + 1 < cs.len() && cs[i + 1] == '"' {
            out.push('"');
            i += 2;
        } else {
            out.push(cs[i]);
            i += 1;
        }
    }
    out
}

#[test]
fn escaped_strings_read_back() {
    for s in ["", "plain", "\"", "\\\"", "a\\\\\"b\"\"", "\\"] {
        let lit = value_literal_of(&text(s));
        assert!(lit.starts_with('"') && lit.ends_with('"'));
        assert_eq!(read_quoted(&lit[1..lit.len() - 1]), s);
    }
}
