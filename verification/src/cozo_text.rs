//! The CozoScript projections of a live database: `:create` statements for
//! every relation and `:put` statements for the seed data.
//!
//! Both read the columns (and rows) of each relation from the database, one
//! query at a time. The scans here take each answer and say which query to
//! run next; whoever holds the database runs the queries.
use vstd::prelude::*;
use crate::column_info::{
    columns_error, columns_parsed, count_keys, from_columns_result, key_count,
    lemma_key_count_keys_first, result_rows, ColumnInfo,
};
use crate::datavalue::{self, datavalue_bool};
use crate::digest::{blake3_digest, hex_bytes, push_hex_bytes};
use crate::error::{is_query_error, Error};
use crate::introspect::columns_query;
use crate::json::JsonValue;
use crate::order::sorted_keys;
use crate::schema_gen::{
    all_columns_typed, capnp_error, capnp_text, enum_names, relation_names, SchemaGenerator,
};
use crate::text::{join, push_char, push_joined, push_signed_decimal, signed_decimal, str_equal, views};
use crate::order::sorted_strings;
use vstd::utf8::encode_utf8;

verus! {

/// The names of some columns.
pub open spec fn column_names(cols: Seq<ColumnInfo>) -> Seq<Seq<char>> {
    cols.map_values(|c: ColumnInfo| c.name@)
}

/// `s` with each double quote preceded by a backslash. CozoScript has no
/// escape sequences except `\"` in double-quoted strings; backslashes are
/// literal.
pub open spec fn escape_quotes(s: Seq<char>) -> Seq<char>
    decreases s.len(),
{
    if s.len() == 0 {
        seq![]
    } else {
        escape_quotes(s.drop_last()) + if s.last() == '"' {
            seq!['\\', '"']
        } else {
            seq![s.last()]
        }
    }
}

/// How CozoScript reads the inside of a double-quoted string: `\"` is a
/// double quote, every other character stands for itself.
pub open spec fn read_quoted(s: Seq<char>) -> Seq<char>
    decreases s.len(),
{
    if s.len() == 0 {
        seq![]
    } else if s.len() >= 2 && s[0] == '\\' && s[1] == '"' {
        seq!['"'] + read_quoted(s.skip(2))
    } else {
        seq![s[0]] + read_quoted(s.drop_first())
    }
}

/// The string of a seed cell: the string under a `Str` tag, else the cell
/// itself when it is a plain string.
pub open spec fn cell_str(v: JsonValue) -> Option<Seq<char>> {
    let tagged = match v.spec_get("Str"@) {
        Some(inner) => inner.spec_as_str(),
        None => None,
    };
    if tagged is Some {
        tagged
    } else {
        v.spec_as_str()
    }
}

/// The CozoScript literal of a `DataValue`: a double-quoted string, `true`
/// or `false`, an integer, the text of a float, or `null`.
pub open spec fn value_literal(v: JsonValue) -> Seq<char> {
    match cell_str(v) {
        Some(s) => "\""@ + escape_quotes(s) + "\""@,
        None => match datavalue_bool(v) {
            Some(b) => if b {
                "true"@
            } else {
                "false"@
            },
            None => match v.spec_get("Num"@) {
                Some(n) => match n.spec_get("Int"@) {
                    Some(iv) if iv.spec_as_i64() is Some => signed_decimal(
                        iv.spec_as_i64().unwrap() as int,
                    ),
                    _ => match n.spec_get("Float"@) {
                        Some(fv) if fv.spec_float_text() is Some => fv.spec_float_text().unwrap(),
                        _ => "null"@,
                    },
                },
                None => match v.spec_as_i64() {
                    Some(i) => signed_decimal(i as int),
                    None => match v.spec_float_text() {
                        Some(t) => t,
                        None => "null"@,
                    },
                },
            },
        },
    }
}

/// The literals of some values.
pub open spec fn value_literals(vs: Seq<JsonValue>) -> Seq<Seq<char>> {
    vs.map_values(|v: JsonValue| value_literal(v))
}

/// The seed line of one row; rows that are not arrays give none.
pub open spec fn row_line(row: JsonValue) -> Seq<char> {
    match row.spec_as_array() {
        Some(arr) => "  ["@ + join(value_literals(arr), ", "@) + "],\n"@,
        None => seq![],
    }
}

/// The seed lines of some rows.
pub open spec fn row_lines(rows: Seq<JsonValue>) -> Seq<char>
    decreases rows.len(),
{
    if rows.len() == 0 {
        seq![]
    } else {
        row_lines(rows.drop_last()) + row_line(rows.last())
    }
}

/// The key/value split of a `:put`: the first `key_count` columns, `=>`,
/// the others; all columns when every one is a key.
pub open spec fn kv_clause(cols: Seq<ColumnInfo>) -> Seq<char> {
    let names = column_names(cols);
    let kc = key_count(cols);
    if kc < names.len() {
        join(names.take(kc as int), ", "@) + " => "@ + join(names.skip(kc as int), ", "@)
    } else {
        join(names, ", "@)
    }
}

/// The query for the rows of relation `name`, restricted to the manifest
/// phase when the relation has a `phase` column, ordered by its first column.
pub open spec fn seed_query(name: Seq<char>, cols: Seq<ColumnInfo>) -> Seq<char> {
    let names = column_names(cols);
    let list = join(names, ", "@);
    if names.contains("phase"@) {
        "?["@ + list + "] := *"@ + name + "{"@ + list + "}, phase == \"manifest\" :order "@ + names[0]
    } else {
        "?["@ + list + "] := *"@ + name + "{"@ + list + "} :order "@ + names[0]
    }
}

/// The seed statements of relation `name`: its rows, then a `:put`.
pub open spec fn seed_block(name: Seq<char>, cols: Seq<ColumnInfo>, rows: Seq<JsonValue>) -> Seq<char> {
    "?["@ + join(column_names(cols), ", "@) + "] <- [\n"@ + row_lines(rows) + "]\n:put "@ + name
        + " { "@ + kv_clause(cols) + " }\n\n"@
}

/// What follows the column at position `i` of `n` in a `:create`: `=>`
/// after the last key column when there are value columns, a comma between
/// columns, nothing after the last.
pub open spec fn create_separator(is_key: bool, i: int, kc: int, n: int) -> Seq<char> {
    if is_key && i == kc - 1 && kc < n {
        " =>"@
    } else if i < n - 1 {
        ","@
    } else {
        seq![]
    }
}

/// The `:create` line of column `i`.
pub open spec fn create_line(c: ColumnInfo, i: int, kc: int, n: int) -> Seq<char> {
    "  "@ + c.name@ + ": "@ + c.col_type@ + create_separator(c.is_key, i, kc, n) + "\n"@
}

/// The `:create` lines of the first `upto` columns.
pub open spec fn create_lines(cols: Seq<ColumnInfo>, upto: nat) -> Seq<char>
    decreases upto,
{
    if upto == 0 {
        seq![]
    } else {
        create_lines(cols, (upto - 1) as nat) + create_line(
            cols[upto - 1],
            upto - 1,
            key_count(cols) as int,
            cols.len() as int,
        )
    }
}

/// The `:create` statement of relation `name`.
pub open spec fn create_block(name: Seq<char>, cols: Seq<ColumnInfo>) -> Seq<char> {
    ":create "@ + name + " {\n"@ + create_lines(cols, cols.len()) + "}\n\n"@
}

/// The hash of the `.capnp` text of `g`.
pub open spec fn schema_digest(g: SchemaGenerator) -> Seq<u8> {
    blake3_digest(encode_utf8(capnp_text(g)))
}

/// The first lines of both projections.
pub open spec fn text_header(digest: Seq<u8>) -> Seq<char> {
    "# Generated from live DB — do not edit manually\n"@ + "# Schema hash: "@ + hex_bytes(digest)
        + "\n\n"@
}

/// Every relation name, enums and structs together, sorted.
pub open spec fn all_relation_names(g: SchemaGenerator) -> Seq<Seq<char>> {
    sorted_keys(enum_names(g.enums@) + relation_names(g.relations@))
}

/// The `:put` clause of a relation whose key columns are listed first, `m`
/// of them: the names before `=>` are exactly those of the key columns and
/// the names after it exactly those of the value columns; with no value
/// column, all the names without `=>`. The seed statements end with this
/// clause.
pub proof fn lemma_put_clause_splits_keys(name: Seq<char>, cols: Seq<ColumnInfo>, rows: Seq<JsonValue>, m: int)
    requires
        0 <= m <= cols.len(),
        forall|i: int| 0 <= i < cols.len() ==> ((#[trigger] cols[i]).is_key <==> i < m),
    ensures
        m < cols.len() ==> kv_clause(cols) == join(column_names(cols.take(m)), ", "@) + " => "@ + join(
            column_names(cols.skip(m)),
            ", "@,
        ),
        m == cols.len() ==> kv_clause(cols) == join(column_names(cols), ", "@),
        seed_block(name, cols, rows) == "?["@ + join(column_names(cols), ", "@) + "] <- [\n"@
            + row_lines(rows) + "]\n:put "@ + name + " { "@ + kv_clause(cols) + " }\n\n"@,
{
    lemma_key_count_keys_first(cols, m);
    assert(column_names(cols).take(m) =~= column_names(cols.take(m)));
    assert(column_names(cols).skip(m) =~= column_names(cols.skip(m)));
}

/// The `:create` lines of a relation whose key columns are listed first, `m`
/// of them: the last key column is followed by `=>` when there are value
/// columns, every other column but the last by a comma, and the last by
/// nothing.
pub proof fn lemma_create_separators(cols: Seq<ColumnInfo>, m: int, i: int)
    requires
        0 <= m <= cols.len(),
        forall|j: int| 0 <= j < cols.len() ==> ((#[trigger] cols[j]).is_key <==> j < m),
        0 <= i < cols.len(),
    ensures
        create_line(cols[i], i, key_count(cols) as int, cols.len() as int) == "  "@ + cols[i].name@
            + ": "@ + cols[i].col_type@ + (if 0 < m < cols.len() && i == m - 1 {
            " =>"@
        } else if i < cols.len() - 1 {
            ","@
        } else {
            seq![]
        }) + "\n"@,
        create_lines(cols, (i + 1) as nat) == create_lines(cols, i as nat) + create_line(
            cols[i],
            i,
            key_count(cols) as int,
            cols.len() as int,
        ),
{
    lemma_key_count_keys_first(cols, m);
    assert(cols[i].is_key <==> i < m);
}

/// Escaping a string and reading it back gives the string.
pub proof fn lemma_read_quoted_escape(s: Seq<char>)
    ensures
        read_quoted(escape_quotes(s)) == s,
    decreases s.len(),
{
    if s.len() > 0 {
        lemma_escape_front(s);
        let rest = s.drop_first();
        lemma_escape_head(rest);
        lemma_read_quoted_escape(rest);
        let e = escape_quotes(s);
        if s[0] == '"' {
            assert(e.skip(2) =~= escape_quotes(rest));
        } else {
            assert(e.drop_first() =~= escape_quotes(rest));
        }
        assert(seq![s[0]] + rest =~= s);
    }
}

/// Escaping works from the front too.
proof fn lemma_escape_front(s: Seq<char>)
    requires
        s.len() > 0,
    ensures
        escape_quotes(s) == (if s[0] == '"' {
            seq!['\\', '"']
        } else {
            seq![s[0]]
        }) + escape_quotes(s.drop_first()),
    decreases s.len(),
{
    if s.len() == 1 {
        assert(s.drop_first() =~= Seq::<char>::empty());
        assert(s.drop_last() =~= Seq::<char>::empty());
    } else {
        lemma_escape_front(s.drop_last());
        assert(s.drop_last().drop_first() =~= s.drop_first().drop_last());
        assert(s.drop_first().last() == s.last());
    }
}

/// An escaped string never starts with a double quote.
proof fn lemma_escape_head(s: Seq<char>)
    ensures
        escape_quotes(s).len() > 0 ==> escape_quotes(s)[0] != '"',
        escape_quotes(s).len() == 0 <==> s.len() == 0,
{
    if s.len() > 0 {
        lemma_escape_front(s);
    }
}

fn push_escaped(out: &mut String, s: &str)
    ensures
        final(out)@ == old(out)@ + escape_quotes(s@),
{
    let cs = crate::text::chars_of(s);
    let ghost start = out@;
    let mut i: usize = 0;
    while i < cs.len()
        invariant
            cs@ == s@,
            i <= cs.len(),
            out@ == start + escape_quotes(s@.take(i as int)),
        decreases cs.len() - i,
    {
        assert(s@.take(i + 1).drop_last() =~= s@.take(i as int));
        if cs[i] == '"' {
            push_char(out, '\\');
            push_char(out, '"');
        } else {
            push_char(out, cs[i]);
        }
        i = i + 1;
    }
    assert(s@.take(cs.len() as int) =~= s@);
}

/// The CozoScript literal of a `DataValue`.
pub fn value_literal_of(v: &JsonValue) -> (r: String)
    ensures
        r@ == value_literal(*v),
{
    let mut out = String::new();
    let tagged = match v.get("Str") {
        Some(inner) => inner.as_str(),
        None => None,
    };
    let cell = match tagged {
        Some(t) => Some(t),
        None => v.as_str(),
    };
    if let Some(s) = cell {
        // CozoScript has no escape sequences except \" in double-quoted
        // and \' in single-quoted strings. Backslashes are literal.
        // Use double quotes; only escape embedded double quotes.
        out.append("\"");
        push_escaped(&mut out, s);
        out.append("\"");
    } else if let Some(b) = datavalue::as_bool(v) {
        if b {
            out.append("true");
        } else {
            out.append("false");
        }
    } else if let Some(n) = v.get("Num") {
        let int_val = match n.get("Int") {
            Some(iv) => iv.as_i64(),
            None => None,
        };
        if let Some(i) = int_val {
            push_signed_decimal(&mut out, i);
        } else {
            let text = match n.get("Float") {
                Some(fv) => fv.float_text(),
                None => None,
            };
            match text {
                Some(t) => out.append(t),
                None => out.append("null"),
            }
        }
    } else if let Some(i) = v.as_i64() {
        push_signed_decimal(&mut out, i);
    } else if let Some(t) = v.float_text() {
        out.append(t);
    } else {
        out.append("null");
    }
    out
}

/// The names of the columns.
fn column_name_list(cols: &Vec<ColumnInfo>) -> (r: Vec<String>)
    ensures
        views(r@) == column_names(cols@),
        r.len() == cols.len(),
{
    let mut r: Vec<String> = Vec::new();
    let mut i: usize = 0;
    while i < cols.len()
        invariant
            i <= cols.len(),
            r.len() == i,
            views(r@) == column_names(cols@.take(i as int)),
        decreases cols.len() - i,
    {
        let ghost before = r@;
        r.push(cols[i].name.clone());
        assert(views(r@) =~= column_names(cols@.take(i + 1))) by {
            assert forall|a: int| 0 <= a < i + 1 implies views(r@)[a] == column_names(
                cols@.take(i + 1),
            )[a] by {
                if a < i {
                    assert(r@[a] == before[a]);
                    assert(views(before)[a] == column_names(cols@.take(i as int))[a]);
                }
            }
        }
        i = i + 1;
    }
    assert(cols@.take(cols.len() as int) =~= cols@);
    r
}

/// Whether one of the names is `phase`.
fn has_phase(names: &Vec<String>) -> (r: bool)
    ensures
        r == views(names@).contains("phase"@),
{
    let mut i: usize = 0;
    while i < names.len()
        invariant
            i <= names.len(),
            forall|j: int| 0 <= j < i ==> names@[j]@ != "phase"@,
        decreases names.len() - i,
    {
        if str_equal(names[i].as_str(), "phase") {
            assert(views(names@)[i as int] == "phase"@);
            return true;
        }
        i = i + 1;
    }
    proof {
        if views(names@).contains("phase"@) {
            let j = choose|j: int| 0 <= j < views(names@).len() && views(names@)[j] == "phase"@;
            assert(names@[j]@ == "phase"@);
        }
    }
    false
}

/// The first `k` strings, cloned.
fn take_strings(v: &Vec<String>, from: usize, to: usize) -> (r: Vec<String>)
    requires
        from <= to <= v.len(),
    ensures
        views(r@) == views(v@).subrange(from as int, to as int),
{
    let mut r: Vec<String> = Vec::new();
    let mut i: usize = from;
    while i < to
        invariant
            from <= i <= to,
            to <= v.len(),
            r.len() == i - from,
            views(r@) == views(v@).subrange(from as int, i as int),
        decreases to - i,
    {
        let ghost before = r@;
        r.push(v[i].clone());
        assert(views(r@) =~= views(v@).subrange(from as int, i + 1)) by {
            assert forall|a: int| 0 <= a < i + 1 - from implies views(r@)[a] == views(v@).subrange(
                from as int,
                i + 1,
            )[a] by {
                if a < i - from {
                    assert(r@[a] == before[a]);
                    assert(views(before)[a] == views(v@).subrange(from as int, i as int)[a]);
                }
            }
        }
        i = i + 1;
    }
    r
}

/// The `:create` line of column `i` of `n`, `kc` of them keys.
fn create_line_of(col: &ColumnInfo, i: usize, kc: usize, n: usize) -> (r: String)
    requires
        i < n,
        kc <= n,
    ensures
        r@ == create_line(*col, i as int, kc as int, n as int),
{
    let mut line = "  ".to_owned();
    line.append(col.name.as_str());
    line.append(": ");
    line.append(col.col_type.as_str());
    if col.is_key && i + 1 == kc && kc < n {
        line.append(" =>");
    } else if i + 1 < n {
        line.append(",");
    }
    line.append("\n");
    line
}

/// Appends the `:create` statement of a relation.
fn push_create_block(out: &mut String, name: &str, cols: &Vec<ColumnInfo>)
    ensures
        final(out)@ == old(out)@ + create_block(name@, cols@),
{
    out.append(":create ");
    out.append(name);
    out.append(" {\n");
    let key_total = count_keys(cols);
    proof { lemma_key_count_bound(cols@); }
    let n = cols.len();
    let ghost head = out@;
    let mut i: usize = 0;
    while i < n
        invariant
            n == cols.len(),
            key_total == key_count(cols@),
            key_total <= n,
            i <= n,
            out@ == head + create_lines(cols@, i as nat),
        decreases n - i,
    {
        let line = create_line_of(&cols[i], i, key_total, n);
        out.append(line.as_str());
        i = i + 1;
    }
    out.append("}\n\n");
}

/// Appends the seed query of a relation with at least one column.
fn push_seed_query(out: &mut String, name: &str, cols: &Vec<ColumnInfo>)
    requires
        cols.len() > 0,
    ensures
        final(out)@ == old(out)@ + seed_query(name@, cols@),
{
    let names = column_name_list(cols);
    let phase = has_phase(&names);
    out.append("?[");
    push_joined(out, &names, ", ");
    out.append("] := *");
    out.append(name);
    out.append("{");
    push_joined(out, &names, ", ");
    if phase {
        out.append("}, phase == \"manifest\" :order ");
    } else {
        out.append("} :order ");
    }
    out.append(names[0].as_str());
}

/// Appends the seed lines of some rows.
fn push_row_lines(out: &mut String, rows: &Vec<JsonValue>)
    ensures
        final(out)@ == old(out)@ + row_lines(rows@),
{
    let ghost start = out@;
    let mut i: usize = 0;
    while i < rows.len()
        invariant
            i <= rows.len(),
            out@ == start + row_lines(rows@.take(i as int)),
        decreases rows.len() - i,
    {
        assert(rows@.take(i + 1).drop_last() =~= rows@.take(i as int));
        assert(rows@.take(i + 1).last() == rows@[i as int]);
        if let Some(arr) = rows[i].as_array() {
            let mut vals: Vec<String> = Vec::new();
            let mut k: usize = 0;
            while k < arr.len()
                invariant
                    k <= arr.len(),
                    vals.len() == k,
                    views(vals@) == value_literals(arr@.take(k as int)),
                decreases arr.len() - k,
            {
                let ghost before = vals@;
                vals.push(value_literal_of(&arr[k]));
                assert(views(vals@) =~= value_literals(arr@.take(k + 1))) by {
                    assert forall|a: int| 0 <= a < k + 1 implies views(vals@)[a] == value_literals(
                        arr@.take(k + 1),
                    )[a] by {
                        if a < k {
                            assert(vals@[a] == before[a]);
                            assert(views(before)[a] == value_literals(arr@.take(k as int))[a]);
                        }
                    }
                }
                k = k + 1;
            }
            assert(arr@.take(arr.len() as int) =~= arr@);
            out.append("  [");
            push_joined(out, &vals, ", ");
            out.append("],\n");
        }
        i = i + 1;
    }
    assert(rows@.take(rows.len() as int) =~= rows@);
}

/// Appends the seed statements of a relation.
fn push_seed_block(out: &mut String, name: &str, cols: &Vec<ColumnInfo>, rows: &Vec<JsonValue>)
    ensures
        final(out)@ == old(out)@ + seed_block(name@, cols@, rows@),
{
    let names = column_name_list(cols);
    let key_total = count_keys(cols);
    proof { lemma_key_count_bound(cols@); }
    out.append("?[");
    push_joined(out, &names, ", ");
    out.append("] <- [\n");
    push_row_lines(out, rows);
    out.append("]\n:put ");
    out.append(name);
    out.append(" { ");
    // Build key => value clause
    if key_total < names.len() {
        let keys = take_strings(&names, 0, key_total);
        let vals = take_strings(&names, key_total, names.len());
        assert(views(names@).subrange(0, key_total as int) =~= column_names(cols@).take(key_total as int));
        assert(views(names@).subrange(key_total as int, names.len() as int) =~= column_names(cols@).skip(key_total as int));
        push_joined(out, &keys, ", ");
        out.append(" => ");
        push_joined(out, &vals, ", ");
    } else {
        push_joined(out, &names, ", ");
    }
    out.append(" }\n\n");
}

/// The state of a `:create` projection: the relations to read, the one
/// being read, and the text so far.
pub struct InitScan {
    pub names: Vec<String>,
    pub pos: usize,
    pub out: String,
}

/// What to do after a step of the `:create` projection.
pub enum InitStep {
    /// Run the query and hand its answer to the scan.
    Query(InitScan, String),
    /// The text is complete.
    Done(String),
    /// The projection failed.
    Failed(Error),
}

/// The state of a seed projection: the relations to read, the one being
/// read, whether its columns or its rows are awaited, and the text so far.
pub struct SeedScan {
    pub names: Vec<String>,
    pub pos: usize,
    pub out: String,
    /// The columns of the relation being read, once known.
    pub columns: Option<Vec<ColumnInfo>>,
}

/// What to do after a step of the seed projection.
pub enum SeedStep {
    /// Run the query and hand its answer to the scan.
    Query(SeedScan, String),
    /// The text is complete.
    Done(String),
    /// The projection failed.
    Failed(Error),
}

/// The text an init step leaves: in the next state, or finished.
pub open spec fn init_out(r: InitStep) -> Seq<char> {
    match r {
        InitStep::Query(s, _) => s.out@,
        InitStep::Done(t) => t@,
        InitStep::Failed(_) => seq![],
    }
}

/// The text a seed step leaves: in the next state, or finished.
pub open spec fn seed_out(r: SeedStep) -> Seq<char> {
    match r {
        SeedStep::Query(s, _) => s.out@,
        SeedStep::Done(t) => t@,
        SeedStep::Failed(_) => seq![],
    }
}

/// The header and the sorted relation names that both projections start
/// from, or the error of the schema hash.
fn projection_start(g: &SchemaGenerator) -> (r: Result<(String, Vec<String>), Error>)
    ensures
        match r {
            Ok((out, names)) => all_columns_typed(g.relations@) && out@ == text_header(
                schema_digest(*g),
            ) && views(names@) == all_relation_names(*g) && names.len() == g.enums.len()
                + g.relations.len(),
            Err(e) => capnp_error(*g, e),
        },
{
    let hash = match g.schema_hash() {
        Ok(h) => h,
        Err(e) => return Err(e),
    };
    let mut out = String::new();
    out.append("# Generated from live DB — do not edit manually\n");
    out.append("# Schema hash: ");
    push_hex_bytes(&mut out, &hash);
    out.append("\n\n");

    // Collect all relation names (enums + non-enums), sorted
    let mut all: Vec<String> = Vec::new();
    let ghost en = enum_names(g.enums@);
    let mut i: usize = 0;
    while i < g.enums.len()
        invariant
            i <= g.enums.len(),
            en == enum_names(g.enums@),
            all.len() == i,
            views(all@) == en.take(i as int),
        decreases g.enums.len() - i,
    {
        let ghost before = all@;
        all.push(g.enums[i].name.clone());
        assert(views(all@) =~= en.take(i + 1)) by {
            assert forall|a: int| 0 <= a < i + 1 implies views(all@)[a] == en.take(i + 1)[a] by {
                if a < i {
                    assert(all@[a] == before[a]);
                    assert(views(before)[a] == en.take(i as int)[a]);
                }
            }
        }
        i = i + 1;
    }
    assert(en.take(g.enums.len() as int) =~= en);
    let ghost rn = relation_names(g.relations@);
    let mut j: usize = 0;
    while j < g.relations.len()
        invariant
            j <= g.relations.len(),
            en == enum_names(g.enums@),
            rn == relation_names(g.relations@),
            all.len() == g.enums.len() + j,
            views(all@) == en + rn.take(j as int),
        decreases g.relations.len() - j,
    {
        let ghost before = all@;
        all.push(g.relations[j].name.clone());
        assert(views(all@) =~= en + rn.take(j + 1)) by {
            assert forall|a: int| 0 <= a < all.len() implies views(all@)[a] == (en + rn.take(
                j + 1,
            ))[a] by {
                if a < all.len() - 1 {
                    assert(all@[a] == before[a]);
                    assert(views(before)[a] == (en + rn.take(j as int))[a]);
                }
            }
        }
        j = j + 1;
    }
    assert(rn.take(g.relations.len() as int) =~= rn);
    let names = sorted_strings(&all);
    Ok((out, names))
}

impl InitScan {
    /// The position is in range.
    pub open spec fn wf(self) -> bool {
        self.pos < self.names.len()
    }

    /// `r` moves past the relation at `pos`: to the columns of the next one,
    /// or, after the last, to the finished text.
    pub open spec fn advanced(self, r: InitStep) -> bool {
        if self.pos + 1 == self.names.len() {
            r is Done
        } else {
            r matches InitStep::Query(s, q) && s.pos == self.pos + 1 && s.names == self.names
                && q@ == columns_query(self.names@[self.pos + 1]@)
        }
    }

    fn advance(self) -> (r: InitStep)
        requires
            self.wf(),
        ensures
            self.advanced(r),
            init_out(r) == self.out@,
            r matches InitStep::Query(s, _) ==> s.wf(),
    {
        let next = self.pos + 1;
        if next == self.names.len() {
            InitStep::Done(self.out)
        } else {
            let mut q = "::columns ".to_owned();
            q.append(self.names[next].as_str());
            InitStep::Query(InitScan { pos: next, ..self }, q)
        }
    }

    /// Takes the columns of the relation at `pos` (or the text of the
    /// query's error) and appends its `:create` statement.
    pub fn step(self, reply: Result<JsonValue, String>) -> (r: InitStep)
        requires
            self.wf(),
        ensures
            r matches InitStep::Query(s, _) ==> s.wf(),
            match reply {
                Err(msg) => r matches InitStep::Failed(e) && is_query_error(e, msg@),
                Ok(v) => (r matches InitStep::Failed(e) && columns_error(v, e)) || exists|
                    cols: Seq<ColumnInfo>,
                | #[trigger] columns_parsed(v, cols) && self.advanced(r) && init_out(r) == self.out@
                    + create_block(self.names@[self.pos as int]@, cols),
            },
    {
        let v = match reply {
            Ok(v) => v,
            Err(msg) => return InitStep::Failed(Error::Query { detail: msg }),
        };
        let columns = match from_columns_result(&v) {
            Ok(c) => c,
            Err(e) => return InitStep::Failed(e),
        };
        let mut next = self;
        push_create_block(&mut next.out, next.names[next.pos].as_str(), &columns);
        next.advance()
    }
}

impl SeedScan {
    /// The position is in range, and known columns are not empty.
    pub open spec fn wf(self) -> bool {
        &&& self.pos < self.names.len()
        &&& self.columns matches Some(c) ==> c.len() > 0
    }

    /// `r` moves past the relation at `pos`: to the columns of the next one,
    /// or, after the last, to the finished text.
    pub open spec fn advanced(self, r: SeedStep) -> bool {
        if self.pos + 1 == self.names.len() {
            r is Done
        } else {
            r matches SeedStep::Query(s, q) && s.pos == self.pos + 1 && s.names == self.names
                && s.columns is None && q@ == columns_query(self.names@[self.pos + 1]@)
        }
    }

    fn advance(self) -> (r: SeedStep)
        requires
            self.pos < self.names.len(),
        ensures
            self.advanced(r),
            seed_out(r) == self.out@,
            r matches SeedStep::Query(s, _) ==> s.wf(),
    {
        let next = self.pos + 1;
        if next == self.names.len() {
            SeedStep::Done(self.out)
        } else {
            let mut q = "::columns ".to_owned();
            q.append(self.names[next].as_str());
            SeedStep::Query(SeedScan { pos: next, columns: None, ..self }, q)
        }
    }

    /// Takes the answer to the last query (or the text of its error): the
    /// columns of the relation at `pos`, then its rows, whose seed
    /// statements it appends.
    pub fn step(self, reply: Result<JsonValue, String>) -> (r: SeedStep)
        requires
            self.wf(),
        ensures
            r matches SeedStep::Query(s, _) ==> s.wf(),
            self.columns is None ==> match reply {
                Err(msg) => r matches SeedStep::Failed(e) && is_query_error(e, msg@),
                Ok(v) => (r matches SeedStep::Failed(e) && columns_error(v, e)) || exists|
                    cols: Seq<ColumnInfo>,
                | #[trigger] columns_parsed(v, cols) && if cols.len() == 0 {
                    self.advanced(r) && seed_out(r) == self.out@
                } else {
                    r matches SeedStep::Query(s, q) && s.pos == self.pos && s.names == self.names
                        && s.out == self.out && s.columns is Some && s.columns.unwrap()@ == cols && q@
                        == seed_query(self.names@[self.pos as int]@, cols)
                },
            },
            self.columns matches Some(cols) ==> match reply {
                Err(msg) => r matches SeedStep::Failed(e) && is_query_error(
                    e,
                    "seed query "@ + self.names@[self.pos as int]@ + ": "@ + msg@,
                ),
                Ok(v) => self.advanced(r) && seed_out(r) == self.out@ + match result_rows(v) {
                    Some(rows) if rows.len() > 0 => seed_block(
                        self.names@[self.pos as int]@,
                        cols@,
                        rows,
                    ),
                    _ => seq![],
                },
            },
    {
        match self.columns {
            None => {
                let v = match reply {
                    Ok(v) => v,
                    Err(msg) => return SeedStep::Failed(Error::Query { detail: msg }),
                };
                let columns = match from_columns_result(&v) {
                    Ok(c) => c,
                    Err(e) => return SeedStep::Failed(e),
                };
                if columns.len() == 0 {
                    return self.advance();
                }
                // Query rows — filter to manifest phase if applicable
                let mut q = String::new();
                push_seed_query(&mut q, self.names[self.pos].as_str(), &columns);
                SeedStep::Query(SeedScan { columns: Some(columns), ..self }, q)
            },
            Some(columns) => {
                let v = match reply {
                    Ok(v) => v,
                    Err(msg) => {
                        let mut detail = "seed query ".to_owned();
                        detail.append(self.names[self.pos].as_str());
                        detail.append(": ");
                        detail.append(msg.as_str());
                        return SeedStep::Failed(Error::Query { detail });
                    },
                };
                let mut next = SeedScan { columns: None, ..self };
                if let Some(r) = v.get("rows") {
                    if let Some(rows) = r.as_array() {
                        if rows.len() > 0 {
                            push_seed_block(&mut next.out, next.names[next.pos].as_str(), &columns, rows);
                        }
                    }
                }
                next.advance()
            },
        }
    }
}

impl SchemaGenerator {
    /// Starts the `:create` projection of the database: the header, then
    /// (through `InitScan::step`) a `:create` statement for every relation,
    /// enums and structs together, in sorted order. Fails as
    /// `to_capnp_text` does.
    pub fn cozo_init_scan(&self) -> (r: InitStep)
        ensures
            match r {
                InitStep::Failed(e) => capnp_error(*self, e),
                InitStep::Done(out) => all_columns_typed(self.relations@) && self.enums.len()
                    + self.relations.len() == 0 && out@ == text_header(schema_digest(*self)),
                InitStep::Query(s, q) => all_columns_typed(self.relations@) && s.wf() && s.pos == 0
                    && views(s.names@) == all_relation_names(*self) && s.out@ == text_header(
                    schema_digest(*self),
                ) && q@ == columns_query(s.names@[0]@),
            },
    {
        let (out, names) = match projection_start(self) {
            Ok(p) => p,
            Err(e) => return InitStep::Failed(e),
        };
        if names.len() == 0 {
            return InitStep::Done(out);
        }
        let mut q = "::columns ".to_owned();
        q.append(names[0].as_str());
        InitStep::Query(InitScan { names, pos: 0, out }, q)
    }

    /// Starts the seed projection of the database: the header, then
    /// (through `SeedScan::step`) the rows of every relation with columns
    /// and rows, enums and structs together, in sorted order. Fails as
    /// `to_capnp_text` does.
    pub fn cozo_seed_scan(&self) -> (r: SeedStep)
        ensures
            match r {
                SeedStep::Failed(e) => capnp_error(*self, e),
                SeedStep::Done(out) => all_columns_typed(self.relations@) && self.enums.len()
                    + self.relations.len() == 0 && out@ == text_header(schema_digest(*self)),
                SeedStep::Query(s, q) => all_columns_typed(self.relations@) && s.wf() && s.pos == 0
                    && s.columns is None && views(s.names@) == all_relation_names(*self) && s.out@
                    == text_header(schema_digest(*self)) && q@ == columns_query(s.names@[0]@),
            },
    {
        let (out, names) = match projection_start(self) {
            Ok(p) => p,
            Err(e) => return SeedStep::Failed(e),
        };
        if names.len() == 0 {
            return SeedStep::Done(out);
        }
        let mut q = "::columns ".to_owned();
        q.append(names[0].as_str());
        SeedStep::Query(SeedScan { names, pos: 0, out, columns: None }, q)
    }
}

proof fn lemma_key_count_bound(cols: Seq<ColumnInfo>)
    ensures
        key_count(cols) <= cols.len(),
    decreases cols.len(),
{
    if cols.len() > 0 {
        lemma_key_count_bound(cols.drop_last());
    }
}

} // verus!
