use samskara_codegen::schema_gen::{to_camel_case, to_capnp_enumerant, to_pascal_case};
use samskara_codegen::vocab_detect::is_pascal_case;

#[test]
fn test_to_pascal_case() {
    assert_eq!(to_pascal_case("thought"), "Thought");
    assert_eq!(to_pascal_case("agent_session"), "AgentSession");
    assert_eq!(to_pascal_case("world_commit_ref"), "WorldCommitRef");
    assert_eq!(to_pascal_case("annas-archive"), "AnnasArchive");
    assert_eq!(to_pascal_case("rust-analyzer"), "RustAnalyzer");
}

#[test]
fn test_to_camel_case() {
    assert_eq!(to_camel_case("created_ts"), "createdTs");
    assert_eq!(to_camel_case("name"), "name");
    assert_eq!(to_camel_case("ref_type"), "refType");
    assert_eq!(to_camel_case("read-write"), "readWrite");
    assert_eq!(to_camel_case("read-only"), "readOnly");
    assert_eq!(to_camel_case("rust-analyzer"), "rustAnalyzer");
}

#[test]
fn test_to_capnp_enumerant() {
    assert_eq!(to_capnp_enumerant("allowed"), "allowed");
    assert_eq!(to_capnp_enumerant("read-write"), "readWrite");
    assert_eq!(to_capnp_enumerant("read-only"), "readOnly");
    assert_eq!(to_capnp_enumerant("commit_type"), "commitType");
    assert_eq!(to_capnp_enumerant("CommitType"), "commitType");
}

#[test]
fn test_is_pascal_case() {
    assert!(is_pascal_case("Phase"));
    assert!(is_pascal_case("Dignity"));
    assert!(is_pascal_case("Domain"));
    assert!(!is_pascal_case("thought"));
    assert!(!is_pascal_case("agent_session"));
    assert!(!is_pascal_case("samskrta"));
}

#[test]
fn naming_edge_cases() {
    // Empty names and names made of delimiters only.
    assert_eq!(to_pascal_case(""), "");
    assert_eq!(to_camel_case(""), "");
    assert_eq!(to_capnp_enumerant(""), "");
    assert_eq!(to_pascal_case("__"), "");
    assert_eq!(to_camel_case("-"), "");
    // Empty parts between delimiters vanish.
    assert_eq!(to_pascal_case("a__b"), "AB");
    assert_eq!(to_camel_case("a--b"), "aB");
    // A leading delimiter capitalizes the first part in camelCase too.
    assert_eq!(to_camel_case("_id"), "Id");
    assert_eq!(to_pascal_case("_id"), "Id");
    // Mixed delimiters.
    assert_eq!(to_camel_case("a_b-c"), "aBC");
    // Non-ASCII first characters go through the Unicode case mapping.
    assert_eq!(to_pascal_case("ßeta"), "SSeta");
    assert_eq!(to_capnp_enumerant("Ärger"), "ärger");
    assert!(is_pascal_case("Ärger"));
    assert!(!is_pascal_case(""));
    assert!(!is_pascal_case("_Phase"));
}

#[test]
fn enumerants_start_lowercase() {
    assert_eq!(to_capnp_enumerant("Read_Write"), "readWrite");
    assert_eq!(to_capnp_enumerant("COMMIT-TYPE"), "cOMMITTYPE");
    assert_eq!(to_capnp_enumerant("_Id"), "id");
    assert_eq!(to_capnp_enumerant("__"), "");
    assert_eq!(to_capnp_enumerant("Sol"), "sol");
}

#[test]
fn camel_case_keeps_plain_names() {
    for name in ["name", "Name", "x", "already_camel"] {
        if !name.contains('_') && !name.contains('-') {
            assert_eq!(to_camel_case(name), name);
        }
    }
    assert_eq!(to_camel_case("plainName"), "plainName");
}

#[test]
fn pascal_and_camel_differ_in_the_first_character() {
    for name in ["agent_session", "world_commit_ref", "rust-analyzer", "x"] {
        let pascal = to_pascal_case(name);
        let camel = to_camel_case(name);
        let first = name.chars().next().unwrap();
        let upper: String = first.to_uppercase().collect();
        assert_eq!(pascal, format!("{}{}", upper, &camel[first.len_utf8()..]));
    }
    assert_eq!(to_pascal_case("_id"), to_camel_case("_id"));
    // For ASCII names, PascalCase is camelCase with its first character uppercased.
    for name in ["_id", "__x_y", "a_b", "", "-", "Already"] {
        let camel = to_camel_case(name);
        let upper_first = match camel.chars().next() {
            Some(c) => format!("{}{}", c.to_ascii_uppercase(), &camel[c.len_utf8()..]),
            None => String::new(),
        };
        assert_eq!(to_pascal_case(name), upper_first);
    }
}

#[test]
fn converted_names_have_no_delimiters() {
    for name in ["a_b-c", "__x__", "-y-", "snake_case_name"] {
        for out in [to_pascal_case(name), to_camel_case(name), to_capnp_enumerant(name)] {
            assert!(!out.contains('_') && !out.contains('-'), "{out}");
        }
    }
}
