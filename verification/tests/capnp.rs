use samskara_codegen::column_info::ColumnInfo;
use samskara_codegen::{EnumSchema, Error, RelationSchema, SchemaGenerator};

fn col(name: &str, is_key: bool, index: u32, col_type: &str) -> ColumnInfo {
    ColumnInfo { name: name.to_string(), is_key, index, col_type: col_type.to_string() }
}

fn enum_schema(name: &str, variants: &[&str]) -> EnumSchema {
    EnumSchema { name: name.to_string(), variants: variants.iter().map(|v| v.to_string()).collect() }
}

fn sample() -> SchemaGenerator {
    SchemaGenerator {
        relations: vec![
            RelationSchema {
                name: "agent_session".to_string(),
                columns: vec![col("id", true, 0, "String"), col("created_ts", false, 1, "Int")],
            },
            RelationSchema {
                name: "thought".to_string(),
                columns: vec![
                    col("id", true, 0, "String"),
                    col("parent_id", false, 1, "String"),
                    col("score", false, 2, "Float"),
                    col("payload", false, 3, "Bytes"),
                ],
            },
        ],
        enums: vec![
            enum_schema("Phase", &["luna", "saturnus", "sol"]),
            enum_schema("Dignity", &["domicile", "fall"]),
        ],
    }
}

/// BLAKE3 of the sorted relation names then the sorted enum names.
fn expected_file_id(relations: &[&str], enums: &[&str]) -> u64 {
    let mut rs: Vec<&str> = relations.to_vec();
    rs.sort();
    let mut es: Vec<&str> = enums.to_vec();
    es.sort();
    let mut bytes = Vec::new();
    for n in rs.iter().chain(es.iter()) {
        bytes.extend_from_slice(n.as_bytes());
    }
    let hash = blake3::hash(&bytes);
    let mut first = [0u8; 8];
    first.copy_from_slice(&hash.as_bytes()[..8]);
    u64::from_le_bytes(first) | 0x8000000000000000
}

#[test]
fn file_id_hashes_relation_then_enum_names() {
    let g = sample();
    let id = g.file_id();
    assert_eq!(id, expected_file_id(&["agent_session", "thought"], &["Phase", "Dignity"]));
    assert!(id >= 0x8000000000000000);
    let empty = SchemaGenerator { relations: vec![], enums: vec![] };
    assert_eq!(empty.file_id(), expected_file_id(&[], &[]));
}

#[test]
fn file_id_ignores_the_order_of_names() {
    let g = sample();
    let mut h = sample();
    h.relations.reverse();
    h.enums.reverse();
    assert_eq!(g.file_id(), h.file_id());
    // Sorting is by bytes, and relation names come before enum names.
    let a = SchemaGenerator {
        relations: vec![
            RelationSchema { name: "b".to_string(), columns: vec![] },
            RelationSchema { name: "B".to_string(), columns: vec![] },
        ],
        enums: vec![enum_schema("A", &[])],
    };
    assert_eq!(a.file_id(), expected_file_id(&["b", "B"], &["A"]));
    let mut bytes = Vec::new();
    bytes.extend_from_slice(b"BbA");
    let hash = blake3::hash(&bytes);
    let mut first = [0u8; 8];
    first.copy_from_slice(&hash.as_bytes()[..8]);
    assert_eq!(a.file_id(), u64::from_le_bytes(first) | 0x8000000000000000);
}

#[test]
fn capnp_text_exact() {
    let g = sample();
    let id = expected_file_id(&["agent_session", "thought"], &["Phase", "Dignity"]);
    let expected = format!(
        "@0x{id:016x};\n\n\
enum Dignity {{\n  domicile @0;\n  fall @1;\n}}\n\n\
enum Phase {{\n  luna @0;\n  saturnus @1;\n  sol @2;\n}}\n\n\
struct AgentSession {{\n  id @0 :Text;  # key\n  createdTs @1 :Int64;\n}}\n\n\
struct Thought {{\n  id @0 :Text;  # key\n  parentId @1 :Text;\n  score @2 :Float64;\n  payload @3 :Data;\n}}\n\n"
    );
    assert_eq!(g.to_capnp_text().unwrap(), expected);
}

#[test]
fn capnp_text_is_deterministic() {
    let g = sample();
    let a = g.to_capnp_text().unwrap();
    let b = g.to_capnp_text().unwrap();
    assert_eq!(a, b);
    assert_eq!(g.schema_hash().unwrap(), g.schema_hash().unwrap());
}

#[test]
fn schema_hash_is_blake3_of_the_text() {
    let g = sample();
    let text = g.to_capnp_text().unwrap();
    assert_eq!(g.schema_hash().unwrap(), *blake3::hash(text.as_bytes()).as_bytes());
}

#[test]
fn enums_are_sorted_by_bytes_and_stably() {
    let g = SchemaGenerator {
        relations: vec![],
        enums: vec![
            enum_schema("b", &["x"]),
            enum_schema("B", &["y"]),
            enum_schema("a", &["first"]),
            enum_schema("a", &["second"]),
            enum_schema("Ä", &[]),
        ],
    };
    let text = g.to_capnp_text().unwrap();
    let order: Vec<usize> = ["enum B", "enum a {\n  first", "enum a {\n  second", "enum b", "enum Ä"]
        .iter()
        .map(|needle| text.find(needle).expect(needle))
        .collect();
    for w in order.windows(2) {
        assert!(w[0] < w[1], "{text}");
    }
    assert!(text.contains("enum Ä {\n}\n\n"));
}

#[test]
fn enumerants_are_numbered_in_order() {
    let g = SchemaGenerator {
        relations: vec![],
        enums: vec![enum_schema("Mode", &["read-write", "read-only", "CommitType", "a", "b", "c", "d", "e", "f", "g", "k"])],
    };
    let text = g.to_capnp_text().unwrap();
    assert!(text.contains("  readWrite @0;\n  readOnly @1;\n  commitType @2;\n"));
    assert!(text.contains("  k @10;\n}"));
}

#[test]
fn unknown_column_type_is_reported_for_the_first_one() {
    let g = SchemaGenerator {
        relations: vec![
            RelationSchema { name: "a".to_string(), columns: vec![col("x", true, 0, "String")] },
            RelationSchema {
                name: "b".to_string(),
                columns: vec![col("y", true, 0, "Uuid"), col("z", false, 1, "Validity")],
            },
        ],
        enums: vec![enum_schema("Phase", &["sol"])],
    };
    match g.to_capnp_text() {
        Err(Error::TypeMap { detail }) => assert_eq!(detail, "unknown CozoDB type: Uuid"),
        other => panic!("unexpected {:?}", other.map(|_| ())),
    }
    match g.schema_hash() {
        Err(Error::TypeMap { detail }) => assert_eq!(detail, "unknown CozoDB type: Uuid"),
        other => panic!("unexpected {:?}", other.map(|_| ())),
    }
}

#[test]
fn structs_are_sorted_by_relation_name() {
    let g = SchemaGenerator {
        relations: vec![
            RelationSchema { name: "b".to_string(), columns: vec![] },
            RelationSchema { name: "a".to_string(), columns: vec![] },
        ],
        enums: vec![],
    };
    let expected = format!("@0x{:016x};\n\nstruct A {{\n}}\n\nstruct B {{\n}}\n\n", g.file_id());
    assert_eq!(g.to_capnp_text().unwrap(), expected);
    // Equal names keep their stored order.
    let h = SchemaGenerator {
        relations: vec![
            RelationSchema { name: "x".to_string(), columns: vec![col("second", false, 0, "Int")] },
            RelationSchema { name: "Z".to_string(), columns: vec![] },
            RelationSchema { name: "x".to_string(), columns: vec![col("third", false, 0, "Int")] },
        ],
        enums: vec![],
    };
    let text = h.to_capnp_text().unwrap();
    let z = text.find("struct Z").unwrap();
    let second = text.find("second").unwrap();
    let third = text.find("third").unwrap();
    assert!(z < second && second < third, "{text}");
}

#[test]
fn first_untyped_column_is_found_in_name_order() {
    let g = SchemaGenerator {
        relations: vec![
            RelationSchema { name: "zeta".to_string(), columns: vec![col("z", false, 0, "Late")] },
            RelationSchema { name: "alpha".to_string(), columns: vec![col("a", false, 0, "Early")] },
        ],
        enums: vec![],
    };
    match g.to_capnp_text() {
        Err(Error::TypeMap { detail }) => assert_eq!(detail, "unknown CozoDB type: Early"),
        other => panic!("unexpected {:?}", other.map(|_| ())),
    }
}

#[test]
fn field_index_is_printed_in_decimal() {
    let g = SchemaGenerator {
        relations: vec![RelationSchema {
            name: "r".to_string(),
            columns: vec![col("big", false, u32::MAX, "Json"), col("list", false, 10, "List"), col("flag", true, 0, "Bool")],
        }],
        enums: vec![],
    };
    let text = g.to_capnp_text().unwrap();
    assert!(text.ends_with(
        "struct R {\n  big @4294967295 :Text;\n  list @10 :Data;\n  flag @0 :Bool;  # key\n}\n\n"
    ));
}
