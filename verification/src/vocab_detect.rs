//! Detection of domain relations, which become Cap'n Proto enums.
use vstd::prelude::*;
use crate::case::{is_uppercase, uppercase_property};
use crate::column_info::{item_str, result_rows, ColumnInfo};
use crate::datavalue;
use crate::error::{is_schema_error, Error};
use crate::json::JsonValue;
use crate::order::{sorted_keys, sorted_strings};
use crate::schema_gen::EnumSchema;
use crate::text::{chars_of, views};

verus! {

/// A name is PascalCase when its first character is uppercase.
pub open spec fn pascal_name(name: Seq<char>) -> bool {
    name.len() > 0 && uppercase_property(name[0])
}

/// The string in the first cell of a result row.
pub open spec fn row_first_str(row: JsonValue) -> Option<Seq<char>> {
    match row.spec_as_array() {
        Some(arr) => item_str(arr, 0),
        None => None,
    }
}

/// The strings in the first cells of the rows, skipping rows without one.
pub open spec fn first_strs(rows: Seq<JsonValue>) -> Seq<Seq<char>>
    decreases rows.len(),
{
    if rows.len() == 0 {
        seq![]
    } else {
        let rest = first_strs(rows.drop_last());
        match row_first_str(rows.last()) {
            Some(s) => rest.push(s),
            None => rest,
        }
    }
}

/// Column `k` is the first key column.
pub open spec fn first_key_column(cols: Seq<ColumnInfo>, k: int) -> bool {
    &&& 0 <= k < cols.len()
    &&& cols[k].is_key
    &&& forall|j: int| 0 <= j < k ==> !(#[trigger] cols[j]).is_key
}

/// Some column is a key column.
pub open spec fn has_key_column(cols: Seq<ColumnInfo>) -> bool {
    exists|k: int| 0 <= k < cols.len() && (#[trigger] cols[k]).is_key
}

/// The query for the values of key column `key` of relation `name`.
pub open spec fn enum_rows_query(name: Seq<char>, key: Seq<char>) -> Seq<char> {
    "?[val] := *"@ + name + "{"@ + key + ": val}"@
}

/// Check if a relation name follows the PascalCase convention.
/// This is the fast visual signal — the domain registry is the authority.
pub fn is_pascal_case(name: &str) -> (r: bool)
    ensures
        r == pascal_name(name@),
{
    let cs = chars_of(name);
    if cs.len() == 0 {
        false
    } else {
        is_uppercase(cs[0])
    }
}

/// The strings in the first cells of the rows, skipping rows without one.
pub fn first_strings(rows: &Vec<JsonValue>) -> (r: Vec<String>)
    ensures
        views(r@) == first_strs(rows@),
{
    let mut r: Vec<String> = Vec::new();
    let mut i: usize = 0;
    while i < rows.len()
        invariant
            i <= rows.len(),
            views(r@) == first_strs(rows@.take(i as int)),
        decreases rows.len() - i,
    {
        assert(rows@.take(i + 1).drop_last() =~= rows@.take(i as int));
        assert(rows@.take(i + 1).last() == rows@[i as int]);
        if let Some(arr) = rows[i].as_array() {
            if arr.len() > 0 {
                if let Some(s) = datavalue::as_str(&arr[0]) {
                    let ghost before = r@;
                    r.push(s.to_owned());
                    assert(views(r@) =~= views(before).push(s@));
                }
            }
        }
        i = i + 1;
    }
    assert(rows@.take(rows.len() as int) =~= rows@);
    r
}

/// The query for the variants of the domain relation `relation_name`: the
/// values of its first key column.
pub fn enum_schema_query(relation_name: &str, columns: &Vec<ColumnInfo>) -> (r: Result<String, Error>)
    ensures
        match r {
            Ok(q) => exists|k: int| #[trigger] first_key_column(columns@, k)
                && q@ == enum_rows_query(relation_name@, columns@[k].name@),
            Err(e) => !has_key_column(columns@) && is_schema_error(
                e,
                relation_name@ + " has no key column"@,
            ),
        },
{
    let mut k: usize = 0;
    while k < columns.len()
        invariant
            k <= columns.len(),
            forall|j: int| 0 <= j < k ==> !(#[trigger] columns@[j]).is_key,
        decreases columns.len() - k,
    {
        if columns[k].is_key {
            let mut q = "?[val] := *".to_owned();
            q.append(relation_name);
            q.append("{");
            q.append(columns[k].name.as_str());
            q.append(": val}");
            assert(first_key_column(columns@, k as int));
            return Ok(q);
        }
        k = k + 1;
    }
    let mut detail = relation_name.to_owned();
    detail.append(" has no key column");
    Err(Error::Schema { detail })
}

/// Build an EnumSchema from the answer to `enum_schema_query`: the variants
/// are the strings of the rows, sorted alphabetically.
pub fn build_enum_schema(relation_name: &str, result: &JsonValue) -> (r: Result<EnumSchema, Error>)
    ensures
        match r {
            Ok(es) => result_rows(*result) matches Some(rows) && es.name@ == relation_name@
                && views(es.variants@) == sorted_keys(first_strs(rows)),
            Err(e) => result_rows(*result) is None && is_schema_error(
                e,
                "enum query missing 'rows'"@,
            ),
        },
{
    let rows = match result.get("rows") {
        Some(v) => match v.as_array() {
            Some(a) => a,
            None => return Err(Error::Schema { detail: "enum query missing 'rows'".to_owned() }),
        },
        None => return Err(Error::Schema { detail: "enum query missing 'rows'".to_owned() }),
    };
    let found = first_strings(rows);
    let variants = sorted_strings(&found);
    Ok(EnumSchema { name: relation_name.to_owned(), variants })
}

} // verus!
