use samskara_codegen::{CapnpType, Error};

fn type_map_detail(r: Result<CapnpType, Error>) -> String {
    match r {
        Err(Error::TypeMap { detail }) => detail,
        other => panic!("expected a type map error, got {:?}", other),
    }
}

#[test]
fn cozo_types_map_to_legacy_capnp_types() {
    assert_eq!(CapnpType::from_cozo_type("String").unwrap(), CapnpType::LegacyText);
    assert_eq!(CapnpType::from_cozo_type("Int").unwrap(), CapnpType::LegacyInt64);
    assert_eq!(CapnpType::from_cozo_type("Float").unwrap(), CapnpType::LegacyFloat64);
    assert_eq!(CapnpType::from_cozo_type("Bool").unwrap(), CapnpType::Bool);
    assert_eq!(CapnpType::from_cozo_type("Bytes").unwrap(), CapnpType::Data);
    assert_eq!(CapnpType::from_cozo_type("Json").unwrap(), CapnpType::LegacyText);
    assert_eq!(CapnpType::from_cozo_type("List").unwrap(), CapnpType::Data);
}

#[test]
fn unknown_cozo_type_is_a_type_map_error() {
    assert_eq!(type_map_detail(CapnpType::from_cozo_type("Uuid")), "unknown CozoDB type: Uuid");
    assert_eq!(type_map_detail(CapnpType::from_cozo_type("string")), "unknown CozoDB type: string");
    assert_eq!(type_map_detail(CapnpType::from_cozo_type("")), "unknown CozoDB type: ");
}

#[test]
fn field_types_resolve() {
    assert_eq!(
        CapnpType::from_field_type("domain", "Phase").unwrap(),
        CapnpType::DomainRef("Phase".to_string())
    );
    assert_eq!(CapnpType::from_field_type("bool", "").unwrap(), CapnpType::Bool);
    assert_eq!(CapnpType::from_field_type("int", "ignored").unwrap(), CapnpType::TypedInt);
    assert_eq!(CapnpType::from_field_type("data", "").unwrap(), CapnpType::Data);
}

#[test]
fn field_type_errors() {
    assert_eq!(
        type_map_detail(CapnpType::from_field_type("domain", "")),
        "kind=domain but target_domain is empty"
    );
    assert_eq!(type_map_detail(CapnpType::from_field_type("float", "x")), "unknown ScalarKind: float");
}

#[test]
fn capnp_type_text() {
    assert_eq!(CapnpType::DomainRef("Element".to_string()).to_capnp_text(), "Element");
    assert_eq!(CapnpType::TypedInt.to_capnp_text(), "TypedInt");
    assert_eq!(CapnpType::Bool.to_capnp_text(), "Bool");
    assert_eq!(CapnpType::Data.to_capnp_text(), "Data");
    assert_eq!(CapnpType::LegacyText.to_capnp_text(), "Text");
    assert_eq!(CapnpType::LegacyInt64.to_capnp_text(), "Int64");
    assert_eq!(CapnpType::LegacyFloat64.to_capnp_text(), "Float64");
}

#[test]
fn domain_reference_text_is_the_target_domain() {
    for target in ["Phase", "Dignity", "x"] {
        let t = CapnpType::from_field_type("domain", target).unwrap();
        assert_eq!(t.to_capnp_text(), target);
    }
}

#[test]
fn error_messages() {
    assert_eq!(Error::Query { detail: "boom".to_string() }.message(), "query error: boom");
    assert_eq!(Error::Schema { detail: "bad".to_string() }.message(), "schema error: bad");
    assert_eq!(Error::TypeMap { detail: "t".to_string() }.message(), "type map error: t");
}
