//! The schema model and the deterministic `.capnp` generator.
use vstd::prelude::*;
use vstd::utf8::encode_utf8;
use crate::case::{lower_mapping, lowercase_of, upper_mapping, uppercase_of};
use crate::column_info::ColumnInfo;
use crate::digest::{blake3_digest, blake3_hash, push_bytes};
use crate::error::{is_type_map_error, Error};
use crate::order::{
    lemma_sorted_keys, lemma_sorted_keys_rearranged, names_sorted, sorted_keys, sorted_strings, stable_order,
    stable_order_of,
};
use crate::text::{chars_of, contains_char, decimal, hex_fixed, push_char, push_decimal, push_hex, views};
use crate::type_map::{cozo_column_type, unknown_cozo_type_text, CapnpType};

verus! {

/// A full relation schema ready for Cap'n Proto struct generation.
pub struct RelationSchema {
    pub name: String,
    pub columns: Vec<ColumnInfo>,
}

/// An enum derived from a domain relation.
pub struct EnumSchema {
    pub name: String,
    pub variants: Vec<String>,
}

/// The core codegen object: holds all relation schemas and enums discovered
/// from a CozoDB instance, and generates deterministic `.capnp` output.
pub struct SchemaGenerator {
    pub relations: Vec<RelationSchema>,
    pub enums: Vec<EnumSchema>,
}

/// The names of some relations.
pub open spec fn relation_names(rs: Seq<RelationSchema>) -> Seq<Seq<char>> {
    rs.map_values(|r: RelationSchema| r.name@)
}

/// The names of some enums.
pub open spec fn enum_names(es: Seq<EnumSchema>) -> Seq<Seq<char>> {
    es.map_values(|e: EnumSchema| e.name@)
}

/// The UTF-8 bytes of some names, one after the other.
pub open spec fn concat_utf8(names: Seq<Seq<char>>) -> Seq<u8>
    decreases names.len(),
{
    if names.len() == 0 {
        seq![]
    } else {
        concat_utf8(names.drop_last()) + encode_utf8(names.last())
    }
}

/// The bytes the file ID is computed from: the relation names sorted, then
/// the enum names sorted.
pub open spec fn file_id_input(g: SchemaGenerator) -> Seq<u8> {
    concat_utf8(sorted_keys(relation_names(g.relations@)) + sorted_keys(enum_names(g.enums@)))
}

/// The first eight bytes of `b` read as a little-endian `u64`.
pub open spec fn le_u64(b: Seq<u8>) -> u64 {
    (b[0] as u64) | ((b[1] as u64) << 8u64) | ((b[2] as u64) << 16u64) | ((b[3] as u64) << 24u64)
        | ((b[4] as u64) << 32u64) | ((b[5] as u64) << 40u64) | ((b[6] as u64) << 48u64) | ((
    b[7] as u64) << 56u64)
}

/// The Cap'n Proto file ID: the BLAKE3 digest of the sorted names, truncated to a
/// little-endian `u64`, with the high bit set as Cap'n Proto requires.
pub open spec fn file_id_of(g: SchemaGenerator) -> u64 {
    le_u64(blake3_digest(file_id_input(g))) | 0x8000000000000000u64
}

/// The line of one enum variant at position `i`.
pub open spec fn variant_line(v: Seq<char>, i: nat) -> Seq<char> {
    "  "@ + capnp_enumerant(v) + " @"@ + decimal(i) + ";\n"@
}

/// The lines of the variants, numbered from 0.
pub open spec fn variant_lines(vs: Seq<Seq<char>>) -> Seq<char>
    decreases vs.len(),
{
    if vs.len() == 0 {
        seq![]
    } else {
        variant_lines(vs.drop_last()) + variant_line(vs.last(), (vs.len() - 1) as nat)
    }
}

/// The `enum` block of one enum.
pub open spec fn enum_block(e: EnumSchema) -> Seq<char> {
    "enum "@ + e.name@ + " {\n"@ + variant_lines(views(e.variants@)) + "}\n\n"@
}

/// The `enum` blocks of some enums, in the given order.
pub open spec fn enum_blocks(es: Seq<EnumSchema>) -> Seq<char>
    decreases es.len(),
{
    if es.len() == 0 {
        seq![]
    } else {
        enum_blocks(es.drop_last()) + enum_block(es.last())
    }
}

/// The enums sorted by name, keeping equal names in their order.
pub open spec fn enums_by_name(es: Seq<EnumSchema>) -> Seq<EnumSchema> {
    stable_order(enum_names(es)).map_values(|i: usize| es[i as int])
}

/// A column's type has a Cap'n Proto mapping.
pub open spec fn column_typed(c: ColumnInfo) -> bool {
    cozo_column_type(c.col_type@) is Some
}

/// The field line of a column whose type has a mapping.
pub open spec fn field_line(c: ColumnInfo) -> Seq<char> {
    "  "@ + camel_case(c.name@) + " @"@ + decimal(c.index as nat) + " :"@
        + cozo_column_type(c.col_type@).unwrap().spec_text() + ";"@ + (if c.is_key {
        "  # key"@
    } else {
        seq![]
    }) + "\n"@
}

/// The variants of an enum are numbered from zero in their order: adding a
/// variant adds one line, with its enumerant and its position.
pub proof fn lemma_variant_numbering(vs: Seq<Seq<char>>, v: Seq<char>)
    ensures
        variant_lines(vs.push(v)) == variant_lines(vs) + "  "@ + capnp_enumerant(v) + " @"@ + decimal(
            vs.len(),
        ) + ";\n"@,
        variant_lines(seq![v]) == "  "@ + capnp_enumerant(v) + " @0;\n"@,
{
    assert(vs.push(v).drop_last() =~= vs);
    reveal_strlit(" @");
    reveal_strlit(";\n");
    reveal_strlit(" @0;\n");
    assert(seq![v].drop_last() =~= Seq::<Seq<char>>::empty());
    assert(variant_lines(Seq::<Seq<char>>::empty()) == Seq::<char>::empty());
    assert(seq![v].last() == v);
    assert(variant_lines(seq![v]) == variant_lines(seq![v].drop_last()) + variant_line(v, 0));
    assert(variant_lines(seq![v]) =~= variant_line(v, 0));
    assert(decimal(0) == seq!['0']);
    assert(" @"@ + decimal(0) + ";\n"@ =~= " @0;\n"@);
    assert("  "@ + capnp_enumerant(v) + " @"@ + decimal(0) + ";\n"@ =~= "  "@ + capnp_enumerant(v)
        + (" @"@ + decimal(0) + ";\n"@));
}

/// `s` ends with `t`.
pub open spec fn ends_with(s: Seq<char>, t: Seq<char>) -> bool {
    t.len() <= s.len() && s.skip(s.len() - t.len()) == t
}

/// A field line ends with the key marker `  # key` (before its newline)
/// exactly when its column is a key column, whatever the column's index,
/// name or type.
pub proof fn lemma_field_line_key_marker(c: ColumnInfo)
    ensures
        field_line(c).len() > 0 && field_line(c).last() == '\n',
        ends_with(field_line(c).drop_last(), "  # key"@) <==> c.is_key,
{
    reveal_strlit("  # key");
    reveal_strlit(";");
    reveal_strlit("\n");
    let head = "  "@ + camel_case(c.name@) + " @"@ + decimal(c.index as nat) + " :"@
        + cozo_column_type(c.col_type@).unwrap().spec_text() + ";"@;
    let marker: Seq<char> = if c.is_key {
        "  # key"@
    } else {
        seq![]
    };
    let line = field_line(c);
    assert(line == head + marker + "\n"@);
    assert(line.drop_last() =~= head + marker);
    assert(head.last() == ';');
    if c.is_key {
        assert((head + marker).skip((head + marker).len() - 7) =~= marker);
    } else {
        assert(head + marker =~= head);
        if ends_with(head, "  # key"@) {
            assert(head.skip(head.len() - 7)[6] == head.last());
        }
    }
}

/// The field lines of some columns.
pub open spec fn field_lines(cols: Seq<ColumnInfo>) -> Seq<char>
    decreases cols.len(),
{
    if cols.len() == 0 {
        seq![]
    } else {
        field_lines(cols.drop_last()) + field_line(cols.last())
    }
}

/// The `struct` block of one relation.
pub open spec fn struct_block(r: RelationSchema) -> Seq<char> {
    "struct "@ + pascal_case(r.name@) + " {\n"@ + field_lines(r.columns@) + "}\n\n"@
}

/// The `struct` blocks of some relations, in the given order.
pub open spec fn struct_blocks(rs: Seq<RelationSchema>) -> Seq<char>
    decreases rs.len(),
{
    if rs.len() == 0 {
        seq![]
    } else {
        struct_blocks(rs.drop_last()) + struct_block(rs.last())
    }
}

/// Every column of every relation has a type with a mapping.
pub open spec fn all_columns_typed(rs: Seq<RelationSchema>) -> bool {
    forall|j: int, k: int|
        0 <= j < rs.len() && 0 <= k < rs[j].columns@.len() ==> column_typed(
            #[trigger] rs[j].columns@[k],
        )
}

/// Column `ci` of relation `ri` is the first one, in relation order and then
/// column order, whose type has no mapping.
pub open spec fn first_untyped_column(rs: Seq<RelationSchema>, ri: int, ci: int) -> bool {
    &&& 0 <= ri < rs.len()
    &&& 0 <= ci < rs[ri].columns@.len()
    &&& !column_typed(rs[ri].columns@[ci])
    &&& forall|j: int, k: int|
        0 <= j < ri && 0 <= k < rs[j].columns@.len() ==> column_typed(#[trigger] rs[j].columns@[k])
    &&& forall|k: int| 0 <= k < ci ==> column_typed(#[trigger] rs[ri].columns@[k])
}

/// The relations sorted by name, keeping equal names in their order.
pub open spec fn relations_by_name(rs: Seq<RelationSchema>) -> Seq<RelationSchema> {
    stable_order(relation_names(rs)).map_values(|i: usize| rs[i as int])
}

/// The `.capnp` text: the file ID line, the enums sorted by name, then the
/// structs sorted by relation name.
pub open spec fn capnp_text(g: SchemaGenerator) -> Seq<char> {
    "@0x"@ + hex_fixed(file_id_of(g) as nat, 16) + ";\n\n"@ + enum_blocks(enums_by_name(g.enums@))
        + struct_blocks(relations_by_name(g.relations@))
}

/// The error `to_capnp_text` reports: the first column, with the relations
/// sorted by name, whose type has no mapping.
pub open spec fn capnp_error(g: SchemaGenerator, e: Error) -> bool {
    let rs = relations_by_name(g.relations@);
    exists|ri: int, ci: int|
        #[trigger] first_untyped_column(rs, ri, ci) && is_type_map_error(
            e,
            unknown_cozo_type_text(rs[ri].columns@[ci].col_type@),
        )
}

/// Underscores and hyphens separate the parts of a delimited name.
pub open spec fn is_delimiter(c: char) -> bool {
    c == '_' || c == '-'
}

/// `s` with its delimiters dropped and the first character of each part
/// after a delimiter replaced by its uppercase mapping; `at_start` says
/// whether the first part is treated as following a delimiter.
pub open spec fn capitalize_parts(s: Seq<char>, at_start: bool) -> Seq<char>
    decreases s.len(),
{
    if s.len() == 0 {
        seq![]
    } else if is_delimiter(s[0]) {
        capitalize_parts(s.drop_first(), true)
    } else {
        (if at_start {
            upper_mapping(s[0])
        } else {
            seq![s[0]]
        }) + capitalize_parts(s.drop_first(), false)
    }
}

/// PascalCase: every part capitalized, delimiters dropped.
pub open spec fn pascal_case(s: Seq<char>) -> Seq<char> {
    capitalize_parts(s, true)
}

/// camelCase: the first part kept, the later ones capitalized, delimiters
/// dropped.
pub open spec fn camel_case(s: Seq<char>) -> Seq<char> {
    capitalize_parts(s, false)
}

/// `t` with its first character replaced by its lowercase mapping.
pub open spec fn lower_first(t: Seq<char>) -> Seq<char> {
    if t.len() == 0 {
        seq![]
    } else {
        lower_mapping(t[0]) + t.drop_first()
    }
}

/// `t` with its first character replaced by its uppercase mapping.
pub open spec fn upper_first(t: Seq<char>) -> Seq<char> {
    if t.len() == 0 {
        seq![]
    } else {
        upper_mapping(t[0]) + t.drop_first()
    }
}

/// A Cap'n Proto enumerant starts lowercase: delimited names go to
/// camelCase first, and then the first character is lowercased.
pub open spec fn capnp_enumerant(s: Seq<char>) -> Seq<char> {
    if s.contains('_') || s.contains('-') {
        lower_first(camel_case(s))
    } else {
        lower_first(s)
    }
}

/// A name without delimiters keeps its characters in camelCase.
pub proof fn lemma_camel_case_plain(s: Seq<char>)
    requires
        !s.contains('_'),
        !s.contains('-'),
    ensures
        camel_case(s) == s,
    decreases s.len(),
{
    if s.len() > 0 {
        assert(!is_delimiter(s[0])) by {
            assert(s.contains(s[0]));
        }
        let rest = s.drop_first();
        assert(!rest.contains('_') && !rest.contains('-')) by {
            if rest.contains('_') {
                let k = choose|k: int| 0 <= k < rest.len() && rest[k] == '_';
                assert(s[k + 1] == '_');
            }
            if rest.contains('-') {
                let k = choose|k: int| 0 <= k < rest.len() && rest[k] == '-';
                assert(s[k + 1] == '-');
            }
        }
        lemma_camel_case_plain(rest);
        assert(seq![s[0]] + rest =~= s);
    }
}

/// PascalCase and camelCase differ only in the first part: after its first
/// character they agree, and a name that starts with a delimiter has no
/// first part.
pub proof fn lemma_pascal_camel(s: Seq<char>)
    requires
        s.len() > 0,
    ensures
        !is_delimiter(s[0]) ==> pascal_case(s) == upper_mapping(s[0]) + camel_case(s.drop_first())
            && camel_case(s) == seq![s[0]] + camel_case(s.drop_first()),
        is_delimiter(s[0]) ==> pascal_case(s) == camel_case(s),
{
}

/// The uppercase mapping of `c` is one character, which its own uppercase
/// mapping keeps.
pub open spec fn upper_mapping_stable(c: char) -> bool {
    upper_mapping(c).len() == 1 && upper_mapping(upper_mapping(c)[0]) == upper_mapping(c)
}

/// Uppercasing the first character of a PascalCase name changes nothing,
/// for ASCII names whose characters' uppercase mappings are stable.
proof fn lemma_pascal_upper_first(t: Seq<char>)
    requires
        forall|i: int| 0 <= i < t.len() ==> (t[i] as u32) < 128,
        forall|c: char| (c as u32) < 128 ==> #[trigger] upper_mapping_stable(c),
    ensures
        pascal_case(t) == upper_first(pascal_case(t)),
    decreases t.len(),
{
    if t.len() > 0 {
        let rest = t.drop_first();
        if is_delimiter(t[0]) {
            assert forall|i: int| 0 <= i < rest.len() implies (rest[i] as u32) < 128 by {
                assert(rest[i] == t[i + 1]);
            }
            lemma_pascal_upper_first(rest);
        } else {
            assert(upper_mapping_stable(t[0]));
            let u = upper_mapping(t[0]);
            let p = u + camel_case(rest);
            assert(pascal_case(t) == p);
            assert(p[0] == u[0]);
            assert(p.drop_first() =~= u.drop_first() + camel_case(rest));
            assert(u.drop_first() =~= Seq::<char>::empty());
            assert(u =~= seq![u[0]]);
        }
    }
}

/// For ASCII names, PascalCase is camelCase with its first character
/// uppercased, given that each ASCII character's uppercase mapping is one
/// character that its own mapping keeps (as std's Unicode tables have it).
pub proof fn lemma_pascal_is_upper_first_camel(s: Seq<char>)
    requires
        forall|i: int| 0 <= i < s.len() ==> (s[i] as u32) < 128,
        forall|c: char| (c as u32) < 128 ==> #[trigger] upper_mapping_stable(c),
    ensures
        pascal_case(s) == upper_first(camel_case(s)),
{
    if s.len() > 0 {
        let rest = s.drop_first();
        if is_delimiter(s[0]) {
            assert forall|i: int| 0 <= i < rest.len() implies (rest[i] as u32) < 128 by {
                assert(rest[i] == s[i + 1]);
            }
            assert(camel_case(s) == pascal_case(rest));
            lemma_pascal_upper_first(rest);
        } else {
            let c = camel_case(s);
            assert(c == seq![s[0]] + camel_case(rest));
            assert(c[0] == s[0]);
            assert(c.drop_first() =~= camel_case(rest));
        }
    }
}

/// Cap'n Proto identifiers cannot contain underscores or hyphens: the
/// converted names hold none, as long as the uppercase mapping of no
/// character of the name brings one in.
pub proof fn lemma_no_delimiters(s: Seq<char>, at_start: bool)
    requires
        forall|i: int|
            0 <= i < s.len() ==> !(#[trigger] upper_mapping(s[i])).contains('_') && !upper_mapping(
                s[i],
            ).contains('-'),
    ensures
        !capitalize_parts(s, at_start).contains('_'),
        !capitalize_parts(s, at_start).contains('-'),
    decreases s.len(),
{
    if s.len() > 0 {
        let rest = s.drop_first();
        assert forall|i: int| 0 <= i < rest.len() implies !(#[trigger] upper_mapping(rest[i])).contains(
            '_',
        ) && !upper_mapping(rest[i]).contains('-') by {
            assert(rest[i] == s[i + 1]);
        }
        lemma_no_delimiters(rest, true);
        lemma_no_delimiters(rest, false);
        if !is_delimiter(s[0]) {
            let head = if at_start {
                upper_mapping(s[0])
            } else {
                seq![s[0]]
            };
            let tail = capitalize_parts(rest, false);
            assert(!upper_mapping(s[0]).contains('_') && !upper_mapping(s[0]).contains('-'));
            assert forall|c: char| (head + tail).contains(c) implies head.contains(c) || tail.contains(c) by {
                let k = choose|k: int| 0 <= k < (head + tail).len() && (head + tail)[k] == c;
                if k < head.len() {
                    assert(head[k] == c);
                } else {
                    assert(tail[k - head.len()] == c);
                }
            }
        }
    }
}

/// The enums come out sorted by name: each name sorts no earlier than the
/// one before it, and every enum appears once.
pub proof fn lemma_enums_by_name_sorted(es: Seq<EnumSchema>)
    requires
        es.len() <= usize::MAX,
    ensures
        enums_by_name(es).len() == es.len(),
        enum_names(enums_by_name(es)) == sorted_keys(enum_names(es)),
        names_sorted(enum_names(enums_by_name(es))),
        forall|a: int, b: int|
            0 <= a < b < es.len() ==> #[trigger] stable_order(enum_names(es))[a] != #[trigger] stable_order(
                enum_names(es),
            )[b],
{
    let keys = enum_names(es);
    lemma_sorted_keys(keys);
    crate::order::lemma_stable_order_exists(keys);
    let sorted = enums_by_name(es);
    assert(enum_names(sorted) =~= sorted_keys(keys)) by {
        assert forall|a: int| 0 <= a < sorted.len() implies enum_names(sorted)[a] == sorted_keys(keys)[a] by {
            assert(stable_order(keys)[a] < es.len());
        }
    }
}

/// Two columns read the same.
pub open spec fn same_column(a: ColumnInfo, b: ColumnInfo) -> bool {
    a.name@ == b.name@ && a.is_key == b.is_key && a.index == b.index && a.col_type@ == b.col_type@
}

/// Two relations have the same name and the same columns.
pub open spec fn same_relation(a: RelationSchema, b: RelationSchema) -> bool {
    &&& a.name@ == b.name@
    &&& a.columns@.len() == b.columns@.len()
    &&& forall|k: int| 0 <= k < a.columns@.len() ==> same_column(#[trigger] a.columns@[k], b.columns@[k])
}

/// Two enums have the same name and the same variants.
pub open spec fn same_enum(a: EnumSchema, b: EnumSchema) -> bool {
    a.name@ == b.name@ && views(a.variants@) == views(b.variants@)
}

/// Two schemas hold the same relations and enums, in the same order.
pub open spec fn same_schema(g1: SchemaGenerator, g2: SchemaGenerator) -> bool {
    &&& g1.relations@.len() == g2.relations@.len()
    &&& forall|j: int| 0 <= j < g1.relations@.len() ==> same_relation(#[trigger] g1.relations@[j], g2.relations@[j])
    &&& g1.enums@.len() == g2.enums@.len()
    &&& forall|j: int| 0 <= j < g1.enums@.len() ==> same_enum(#[trigger] g1.enums@[j], g2.enums@[j])
}

proof fn lemma_field_lines_same(c1: Seq<ColumnInfo>, c2: Seq<ColumnInfo>)
    requires
        c1.len() == c2.len(),
        forall|k: int| 0 <= k < c1.len() ==> same_column(#[trigger] c1[k], c2[k]),
    ensures
        field_lines(c1) == field_lines(c2),
    decreases c1.len(),
{
    if c1.len() > 0 {
        lemma_field_lines_same(c1.drop_last(), c2.drop_last());
        assert(same_column(c1[c1.len() - 1], c2[c2.len() - 1]));
    }
}

proof fn lemma_struct_blocks_same(r1: Seq<RelationSchema>, r2: Seq<RelationSchema>)
    requires
        r1.len() == r2.len(),
        forall|j: int| 0 <= j < r1.len() ==> same_relation(#[trigger] r1[j], r2[j]),
    ensures
        struct_blocks(r1) == struct_blocks(r2),
    decreases r1.len(),
{
    if r1.len() > 0 {
        lemma_struct_blocks_same(r1.drop_last(), r2.drop_last());
        let a = r1.last();
        let b = r2.last();
        assert(same_relation(r1[r1.len() - 1], r2[r2.len() - 1]));
        lemma_field_lines_same(a.columns@, b.columns@);
    }
}

proof fn lemma_enum_blocks_same(e1: Seq<EnumSchema>, e2: Seq<EnumSchema>)
    requires
        e1.len() == e2.len(),
        forall|j: int| 0 <= j < e1.len() ==> same_enum(#[trigger] e1[j], e2[j]),
    ensures
        enum_blocks(e1) == enum_blocks(e2),
    decreases e1.len(),
{
    if e1.len() > 0 {
        lemma_enum_blocks_same(e1.drop_last(), e2.drop_last());
        assert(same_enum(e1[e1.len() - 1], e2[e2.len() - 1]));
    }
}

/// The generated text is deterministic: two schemas with the same content
/// give the same `.capnp` text, and so the same file ID and hash.
pub proof fn lemma_capnp_text_deterministic(g1: SchemaGenerator, g2: SchemaGenerator)
    requires
        same_schema(g1, g2),
        g1.enums@.len() <= usize::MAX,
        g1.relations@.len() <= usize::MAX,
    ensures
        file_id_of(g1) == file_id_of(g2),
        capnp_text(g1) == capnp_text(g2),
        all_columns_typed(g1.relations@) == all_columns_typed(g2.relations@),
{
    let rn1 = relation_names(g1.relations@);
    let rn2 = relation_names(g2.relations@);
    assert(rn1 =~= rn2) by {
        assert forall|j: int| 0 <= j < rn1.len() implies rn1[j] == rn2[j] by {
            assert(same_relation(g1.relations@[j], g2.relations@[j]));
        }
    }
    let en1 = enum_names(g1.enums@);
    let en2 = enum_names(g2.enums@);
    assert(en1 =~= en2) by {
        assert forall|j: int| 0 <= j < en1.len() implies en1[j] == en2[j] by {
            assert(same_enum(g1.enums@[j], g2.enums@[j]));
        }
    }
    assert(file_id_input(g1) == file_id_input(g2));
    let s1 = enums_by_name(g1.enums@);
    let s2 = enums_by_name(g2.enums@);
    let o = stable_order(en1);
    crate::order::lemma_stable_order_exists(en1);
    assert forall|j: int| 0 <= j < s1.len() implies same_enum(#[trigger] s1[j], s2[j]) by {
        let i = o[j] as int;
        assert(0 <= i < g1.enums@.len());
        assert(same_enum(g1.enums@[i], g2.enums@[i]));
    }
    lemma_enum_blocks_same(s1, s2);
    let r1 = relations_by_name(g1.relations@);
    let r2 = relations_by_name(g2.relations@);
    let ro = stable_order(rn1);
    crate::order::lemma_stable_order_exists(rn1);
    assert forall|j: int| 0 <= j < r1.len() implies same_relation(#[trigger] r1[j], r2[j]) by {
        let i = ro[j] as int;
        assert(0 <= i < g1.relations@.len());
        assert(same_relation(g1.relations@[i], g2.relations@[i]));
    }
    lemma_struct_blocks_same(r1, r2);
    assert(all_columns_typed(g1.relations@) == all_columns_typed(g2.relations@)) by {
        assert forall|j: int, k: int|
            0 <= j < g1.relations@.len() && 0 <= k < g1.relations@[j].columns@.len()
            implies column_typed(g1.relations@[j].columns@[k]) == column_typed(g2.relations@[j].columns@[k]) by {
            assert(same_relation(g1.relations@[j], g2.relations@[j]));
            assert(same_column(g1.relations@[j].columns@[k], g2.relations@[j].columns@[k]));
        }
        if all_columns_typed(g1.relations@) {
            assert forall|j: int, k: int|
                0 <= j < g2.relations@.len() && 0 <= k < g2.relations@[j].columns@.len()
                implies column_typed(#[trigger] g2.relations@[j].columns@[k]) by {
                assert(same_relation(g1.relations@[j], g2.relations@[j]));
                assert(same_column(g1.relations@[j].columns@[k], g2.relations@[j].columns@[k]));
                assert(column_typed(g1.relations@[j].columns@[k]));
            }
        }
        if all_columns_typed(g2.relations@) {
            assert forall|j: int, k: int|
                0 <= j < g1.relations@.len() && 0 <= k < g1.relations@[j].columns@.len()
                implies column_typed(#[trigger] g1.relations@[j].columns@[k]) by {
                assert(same_relation(g1.relations@[j], g2.relations@[j]));
                assert(same_column(g1.relations@[j].columns@[k], g2.relations@[j].columns@[k]));
                assert(column_typed(g2.relations@[j].columns@[k]));
            }
        }
    }
}

/// The structs come out sorted by relation name: each name sorts no
/// earlier than the one before it, and every relation appears once.
pub proof fn lemma_relations_by_name_sorted(rs: Seq<RelationSchema>)
    requires
        rs.len() <= usize::MAX,
    ensures
        relations_by_name(rs).len() == rs.len(),
        relation_names(relations_by_name(rs)) == sorted_keys(relation_names(rs)),
        names_sorted(relation_names(relations_by_name(rs))),
        forall|a: int, b: int|
            0 <= a < b < rs.len() ==> #[trigger] stable_order(relation_names(rs))[a]
                != #[trigger] stable_order(relation_names(rs))[b],
{
    let keys = relation_names(rs);
    lemma_sorted_keys(keys);
    crate::order::lemma_stable_order_exists(keys);
    let sorted = relations_by_name(rs);
    assert(relation_names(sorted) =~= sorted_keys(keys)) by {
        assert forall|a: int| 0 <= a < sorted.len() implies relation_names(sorted)[a] == sorted_keys(
            keys,
        )[a] by {
            assert(stable_order(keys)[a] < rs.len());
        }
    }
}

/// The file ID depends only on which relation names and which enum names
/// there are, not on their order.
pub proof fn lemma_file_id_order_independent(g1: SchemaGenerator, g2: SchemaGenerator)
    requires
        relation_names(g1.relations@).to_multiset() == relation_names(g2.relations@).to_multiset(),
        enum_names(g1.enums@).to_multiset() == enum_names(g2.enums@).to_multiset(),
        g1.relations@.len() <= usize::MAX,
        g2.relations@.len() <= usize::MAX,
        g1.enums@.len() <= usize::MAX,
        g2.enums@.len() <= usize::MAX,
    ensures
        file_id_of(g1) == file_id_of(g2),
{
    lemma_sorted_keys_rearranged(relation_names(g1.relations@), relation_names(g2.relations@));
    lemma_sorted_keys_rearranged(enum_names(g1.enums@), enum_names(g2.enums@));
    assert(file_id_input(g1) == file_id_input(g2));
}

fn capitalize(s: &str, at_start: bool) -> (r: String)
    ensures
        r@ == capitalize_parts(s@, at_start),
{
    let cs = chars_of(s);
    let mut out = String::new();
    let mut start = at_start;
    let mut i: usize = 0;
    assert(cs@.skip(0) =~= cs@);
    while i < cs.len()
        invariant
            cs@ == s@,
            i <= cs.len(),
            out@ + capitalize_parts(cs@.skip(i as int), start) == capitalize_parts(s@, at_start),
        decreases cs.len() - i,
    {
        let c = cs[i];
        proof {
            let rest = cs@.skip(i as int);
            assert(rest[0] == c);
            assert(rest.drop_first() =~= cs@.skip(i + 1));
        }
        if c == '_' || c == '-' {
            start = true;
        } else {
            if start {
                let up = uppercase_of(c);
                out.append(up.as_str());
            } else {
                push_char(&mut out, c);
            }
            start = false;
        }
        proof {
            assert(out@ + capitalize_parts(cs@.skip(i + 1), start) == capitalize_parts(s@, at_start)) by {
                let rest = cs@.skip(i as int);
                assert(rest.drop_first() =~= cs@.skip(i + 1));
            }
        }
        i = i + 1;
    }
    assert(cs@.skip(cs.len() as int) =~= Seq::<char>::empty());
    out
}

/// Convert delimited names to PascalCase: `agent_session` → `AgentSession`,
/// `annas-archive` → `AnnasArchive`.
pub fn to_pascal_case(s: &str) -> (r: String)
    ensures
        r@ == pascal_case(s@),
{
    capitalize(s, true)
}

/// Convert delimited names to camelCase: `created_ts` → `createdTs`,
/// `read-write` → `readWrite`. Splits on both underscores and hyphens
/// (Cap'n Proto identifiers cannot contain either).
pub fn to_camel_case(s: &str) -> (r: String)
    ensures
        r@ == camel_case(s@),
{
    capitalize(s, false)
}

/// `t` with its first character lowercased.
fn lowercase_first(t: &str) -> (r: String)
    ensures
        r@ == lower_first(t@),
{
    let cs = chars_of(t);
    if cs.len() == 0 {
        return String::new();
    }
    let mut out = lowercase_of(cs[0]);
    let mut i: usize = 1;
    while i < cs.len()
        invariant
            cs@ == t@,
            1 <= i <= cs.len(),
            out@ == lower_mapping(t@[0]) + t@.subrange(1, i as int),
        decreases cs.len() - i,
    {
        push_char(&mut out, cs[i]);
        assert(t@.subrange(1, i + 1) =~= t@.subrange(1, i as int).push(cs@[i as int]));
        i = i + 1;
    }
    assert(t@.subrange(1, cs.len() as int) =~= t@.drop_first());
    out
}

/// Convert enum variant to capnp enumerant: lowercase first char.
/// Handles snake_case (`commit_type` → `commitType`), PascalCase
/// (`CommitType` → `commitType`), and plain lowercase (`sol` → `sol`).
pub fn to_capnp_enumerant(s: &str) -> (r: String)
    ensures
        r@ == capnp_enumerant(s@),
{
    // If it contains separators (underscores or hyphens), treat as delimited → camelCase
    if contains_char(s, '_') || contains_char(s, '-') {
        let camel = to_camel_case(s);
        return lowercase_first(camel.as_str());
    }
    // Otherwise, lowercase the first character
    lowercase_first(s)
}

/// The names of the enums.
fn enum_name_list(es: &Vec<EnumSchema>) -> (r: Vec<String>)
    ensures
        views(r@) == enum_names(es@),
        r.len() == es.len(),
{
    let mut names: Vec<String> = Vec::new();
    let mut k: usize = 0;
    while k < es.len()
        invariant
            k <= es.len(),
            names.len() == k,
            views(names@) == enum_names(es@.take(k as int)),
        decreases es.len() - k,
    {
        let nm = es[k].name.clone();
        let ghost before = names@;
        names.push(nm);
        assert(views(names@) =~= enum_names(es@.take(k + 1))) by {
            assert forall|a: int| 0 <= a < names.len() implies views(names@)[a] == enum_names(
                es@.take(k + 1),
            )[a] by {
                if a < k {
                    assert(names@[a] == before[a]);
                    assert(views(before)[a] == enum_names(es@.take(k as int))[a]);
                }
            }
        }
        k = k + 1;
    }
    assert(es@.take(es.len() as int) =~= es@);
    names
}

/// The names of the relations.
fn relation_name_list(rs: &Vec<RelationSchema>) -> (r: Vec<String>)
    ensures
        views(r@) == relation_names(rs@),
        r.len() == rs.len(),
{
    let mut names: Vec<String> = Vec::new();
    let mut k: usize = 0;
    while k < rs.len()
        invariant
            k <= rs.len(),
            names.len() == k,
            views(names@) == relation_names(rs@.take(k as int)),
        decreases rs.len() - k,
    {
        let nm = rs[k].name.clone();
        let ghost before = names@;
        names.push(nm);
        assert(views(names@) =~= relation_names(rs@.take(k + 1))) by {
            assert forall|a: int| 0 <= a < names.len() implies views(names@)[a] == relation_names(
                rs@.take(k + 1),
            )[a] by {
                if a < k {
                    assert(names@[a] == before[a]);
                    assert(views(before)[a] == relation_names(rs@.take(k as int))[a]);
                }
            }
        }
        k = k + 1;
    }
    assert(rs@.take(rs.len() as int) =~= rs@);
    names
}

/// Appends the UTF-8 bytes of some names, one after the other.
fn push_names_bytes(bytes: &mut Vec<u8>, names: &Vec<String>)
    ensures
        final(bytes)@ == old(bytes)@ + concat_utf8(views(names@)),
{
    let ghost start = bytes@;
    let mut i: usize = 0;
    while i < names.len()
        invariant
            i <= names.len(),
            bytes@ == start + concat_utf8(views(names@.take(i as int))),
        decreases names.len() - i,
    {
        assert(views(names@.take(i + 1)).drop_last() =~= views(names@.take(i as int)));
        assert(views(names@.take(i + 1)).last() == names@[i as int]@);
        push_bytes(bytes, names[i].as_str().as_bytes());
        i = i + 1;
    }
    assert(names@.take(names.len() as int) =~= names@);
}

proof fn lemma_concat_utf8_append(a: Seq<Seq<char>>, b: Seq<Seq<char>>)
    ensures
        concat_utf8(a + b) == concat_utf8(a) + concat_utf8(b),
    decreases b.len(),
{
    if b.len() == 0 {
        assert(a + b =~= a);
    } else {
        lemma_concat_utf8_append(a, b.drop_last());
        assert((a + b).drop_last() =~= a + b.drop_last());
        assert(concat_utf8(a) + (concat_utf8(b.drop_last()) + encode_utf8(b.last())) =~= (concat_utf8(a)
            + concat_utf8(b.drop_last())) + encode_utf8(b.last()));
    }
}

fn push_enum_block(out: &mut String, e: &EnumSchema)
    ensures
        final(out)@ == old(out)@ + enum_block(*e),
{
    let ghost start = old(out)@;
    out.append("enum ");
    out.append(e.name.as_str());
    out.append(" {\n");
    let ghost head = out@;
    let mut i: usize = 0;
    while i < e.variants.len()
        invariant
            i <= e.variants.len(),
            out@ == head + variant_lines(views(e.variants@.take(i as int))),
        decreases e.variants.len() - i,
    {
        proof {
            let t = views(e.variants@.take(i + 1));
            assert(t.drop_last() =~= views(e.variants@.take(i as int)));
            assert(t.last() == e.variants@[i as int]@);
        }
        out.append("  ");
        let en = to_capnp_enumerant(e.variants[i].as_str());
        out.append(en.as_str());
        out.append(" @");
        push_decimal(out, i as u64);
        out.append(";\n");
        i = i + 1;
    }
    assert(e.variants@.take(e.variants.len() as int) =~= e.variants@);
    out.append("}\n\n");
}

fn push_field_line(out: &mut String, c: &ColumnInfo) -> (r: Result<(), Error>)
    ensures
        match r {
            Ok(()) => column_typed(*c) && final(out)@ == old(out)@ + field_line(*c),
            Err(e) => !column_typed(*c) && is_type_map_error(e, unknown_cozo_type_text(c.col_type@)),
        },
{
    let capnp_type = match CapnpType::from_cozo_type(c.col_type.as_str()) {
        Ok(t) => t,
        Err(e) => return Err(e),
    };
    let field_name = to_camel_case(c.name.as_str());
    out.append("  ");
    out.append(field_name.as_str());
    out.append(" @");
    push_decimal(out, c.index as u64);
    out.append(" :");
    let type_text = capnp_type.to_capnp_text();
    out.append(type_text.as_str());
    out.append(";");
    if c.is_key {
        out.append("  # key");
    }
    out.append("\n");
    Ok(())
}

fn push_struct_block(out: &mut String, rel: &RelationSchema) -> (r: Result<(), Error>)
    ensures
        match r {
            Ok(()) => (forall|k: int| 0 <= k < rel.columns@.len() ==> column_typed(#[trigger] rel.columns@[k]))
                && final(out)@ == old(out)@ + struct_block(*rel),
            Err(e) => exists|ci: int| 0 <= ci < rel.columns@.len()
                && !column_typed(#[trigger] rel.columns@[ci])
                && (forall|k: int| 0 <= k < ci ==> column_typed(#[trigger] rel.columns@[k]))
                && is_type_map_error(e, unknown_cozo_type_text(rel.columns@[ci].col_type@)),
        },
{
    let struct_name = to_pascal_case(rel.name.as_str());
    out.append("struct ");
    out.append(struct_name.as_str());
    out.append(" {\n");
    let ghost head = out@;
    let mut i: usize = 0;
    while i < rel.columns.len()
        invariant
            i <= rel.columns.len(),
            out@ == head + field_lines(rel.columns@.take(i as int)),
            forall|k: int| 0 <= k < i ==> column_typed(#[trigger] rel.columns@[k]),
        decreases rel.columns.len() - i,
    {
        assert(rel.columns@.take(i + 1).drop_last() =~= rel.columns@.take(i as int));
        match push_field_line(out, &rel.columns[i]) {
            Ok(()) => {},
            Err(e) => return Err(e),
        }
        i = i + 1;
    }
    assert(rel.columns@.take(rel.columns.len() as int) =~= rel.columns@);
    out.append("}\n\n");
    Ok(())
}

impl SchemaGenerator {
    /// Generate deterministic `.capnp` schema text.
    pub fn to_capnp_text(&self) -> (r: Result<String, Error>)
        ensures
            match r {
                Ok(text) => all_columns_typed(self.relations@) && text@ == capnp_text(*self),
                Err(e) => capnp_error(*self, e),
            },
    {
        let mut out = String::new();

        // File ID: blake3 of the sorted relation names and enum names, truncated to u64
        let file_id = self.file_id();
        out.append("@0x");
        push_hex(&mut out, file_id, 16);
        out.append(";\n\n");

        // Enums first (sorted alphabetically by name)
        let names = enum_name_list(&self.enums);
        let order = stable_order_of(&names);
        let ghost sorted = enums_by_name(self.enums@);
        let ghost head = out@;
        let mut p: usize = 0;
        while p < order.len()
            invariant
                order@ == stable_order(enum_names(self.enums@)),
                order.len() == self.enums.len(),
                forall|a: int| 0 <= a < order.len() ==> #[trigger] order@[a] < self.enums.len(),
                sorted == enums_by_name(self.enums@),
                sorted.len() == order.len(),
                p <= order.len(),
                out@ == head + enum_blocks(sorted.take(p as int)),
            decreases order.len() - p,
        {
            assert(sorted.take(p + 1).drop_last() =~= sorted.take(p as int));
            assert(sorted[p as int] == self.enums@[order@[p as int] as int]);
            push_enum_block(&mut out, &self.enums[order[p]]);
            p = p + 1;
        }
        assert(sorted.take(order.len() as int) =~= sorted);

        // Structs (sorted alphabetically by relation name)
        let relation_list = relation_name_list(&self.relations);
        let rorder = stable_order_of(&relation_list);
        let ghost srt = relations_by_name(self.relations@);
        let ghost mid = out@;
        let mut i: usize = 0;
        while i < rorder.len()
            invariant
                rorder@ == stable_order(relation_names(self.relations@)),
                rorder.len() == self.relations.len(),
                forall|a: int| 0 <= a < rorder.len() ==> #[trigger] rorder@[a] < self.relations.len(),
                srt == relations_by_name(self.relations@),
                srt.len() == rorder.len(),
                i <= rorder.len(),
                out@ == mid + struct_blocks(srt.take(i as int)),
                forall|j: int, c: int|
                    0 <= j < i && 0 <= c < srt[j].columns@.len() ==> column_typed(
                        #[trigger] srt[j].columns@[c],
                    ),
            decreases rorder.len() - i,
        {
            assert(srt.take(i + 1).drop_last() =~= srt.take(i as int));
            assert(srt[i as int] == self.relations@[rorder@[i as int] as int]);
            match push_struct_block(&mut out, &self.relations[rorder[i]]) {
                Ok(()) => {},
                Err(e) => {
                    proof {
                        let ci = choose|ci: int| 0 <= ci < srt[i as int].columns@.len()
                            && !column_typed(#[trigger] srt[i as int].columns@[ci])
                            && (forall|k: int| 0 <= k < ci ==> column_typed(#[trigger] srt[i as int].columns@[k]))
                            && is_type_map_error(e, unknown_cozo_type_text(srt[i as int].columns@[ci].col_type@));
                        assert(first_untyped_column(srt, i as int, ci));
                    }
                    return Err(e);
                },
            }
            i = i + 1;
        }
        assert(srt.take(rorder.len() as int) =~= srt);
        proof {
            let keys = relation_names(self.relations@);
            assert forall|j: int, c: int|
                0 <= j < self.relations@.len() && 0 <= c < self.relations@[j].columns@.len()
                implies column_typed(#[trigger] self.relations@[j].columns@[c]) by {
                assert(rorder@.contains(j as usize));
                let a = choose|a: int| 0 <= a < rorder@.len() && rorder@[a] == j as usize;
                assert(srt[a] == self.relations@[j]);
            }
        }
        Ok(out)
    }

    /// Compute the blake3 hash of the generated schema for content addressing.
    pub fn schema_hash(&self) -> (r: Result<[u8; 32], Error>)
        ensures
            match r {
                Ok(h) => all_columns_typed(self.relations@) && h@ == blake3_digest(
                    encode_utf8(capnp_text(*self)),
                ),
                Err(e) => capnp_error(*self, e),
            },
    {
        let text = match self.to_capnp_text() {
            Ok(t) => t,
            Err(e) => return Err(e),
        };
        Ok(blake3_hash(text.as_str().as_bytes()))
    }

    /// Compute the file ID: blake3 of the sorted relation names then the
    /// sorted enum names, truncated to u64, with the high bit set.
    pub fn file_id(&self) -> (r: u64)
        ensures
            r == file_id_of(*self),
            r >= 0x8000000000000000u64,
    {
        // Relation names sorted, then enum names sorted
        let relation_list = relation_name_list(&self.relations);
        let enum_list = enum_name_list(&self.enums);
        let sorted_relations = sorted_strings(&relation_list);
        let sorted_enums = sorted_strings(&enum_list);
        let mut bytes: Vec<u8> = Vec::new();
        push_names_bytes(&mut bytes, &sorted_relations);
        push_names_bytes(&mut bytes, &sorted_enums);
        proof {
            lemma_concat_utf8_append(views(sorted_relations@), views(sorted_enums@));
        }
        let hash = blake3_hash(bytes.as_slice());
        let v: u64 = (hash[0] as u64) | ((hash[1] as u64) << 8u64) | ((hash[2] as u64) << 16u64) | ((
        hash[3] as u64) << 24u64) | ((hash[4] as u64) << 32u64) | ((hash[5] as u64) << 40u64) | ((
        hash[6] as u64) << 48u64) | ((hash[7] as u64) << 56u64);
        // Cap'n Proto requires the high bit set in file IDs
        let id = v | 0x8000000000000000u64;
        assert(id >= 0x8000000000000000u64) by (bit_vector)
            requires
                id == v | 0x8000000000000000u64,
        ;
        id
    }
}

} // verus!
