//! Columns of a relation, as CozoDB's `::columns` introspection lists them.
use vstd::prelude::*;
use crate::datavalue::{self, datavalue_bool, datavalue_i64, datavalue_str};
use crate::error::{is_schema_error, Error};
use crate::json::JsonValue;
use crate::text::{decimal, push_decimal};

verus! {

/// One column from CozoDB's `::columns` introspection result.
pub struct ColumnInfo {
    pub name: String,
    pub is_key: bool,
    pub index: u32,
    pub col_type: String,
}

/// What is wrong with a row of a `::columns` result.
pub enum RowFault {
    NotArray,
    MissingName,
    MissingIsKey,
    MissingIndex,
    MissingType,
}

/// The `rows` array of a query result.
pub open spec fn result_rows(json: JsonValue) -> Option<Seq<JsonValue>> {
    match json.spec_get("rows"@) {
        Some(rows) => rows.spec_as_array(),
        None => None,
    }
}

/// The `k`-th element of an array, when there is one.
pub open spec fn item(arr: Seq<JsonValue>, k: int) -> Option<JsonValue> {
    if 0 <= k < arr.len() {
        Some(arr[k])
    } else {
        None
    }
}

pub open spec fn item_str(arr: Seq<JsonValue>, k: int) -> Option<Seq<char>> {
    match item(arr, k) {
        Some(v) => datavalue_str(v),
        None => None,
    }
}

pub open spec fn item_bool(arr: Seq<JsonValue>, k: int) -> Option<bool> {
    match item(arr, k) {
        Some(v) => datavalue_bool(v),
        None => None,
    }
}

pub open spec fn item_i64(arr: Seq<JsonValue>, k: int) -> Option<i64> {
    match item(arr, k) {
        Some(v) => datavalue_i64(v),
        None => None,
    }
}

/// The first thing wrong with a row: it must be an array holding the column
/// name, the key flag, the index and the type, in that order.
pub open spec fn row_fault(row: JsonValue) -> Option<RowFault> {
    match row.spec_as_array() {
        None => Some(RowFault::NotArray),
        Some(arr) => if item_str(arr, 0) is None {
            Some(RowFault::MissingName)
        } else if item_bool(arr, 1) is None {
            Some(RowFault::MissingIsKey)
        } else if item_i64(arr, 2) is None {
            Some(RowFault::MissingIndex)
        } else if item_str(arr, 3) is None {
            Some(RowFault::MissingType)
        } else {
            None
        },
    }
}

/// The error text for a faulty row at position `idx`.
pub open spec fn row_fault_text(idx: nat, fault: RowFault) -> Seq<char> {
    "row "@ + decimal(idx) + match fault {
        RowFault::NotArray => " is not an array"@,
        RowFault::MissingName => " missing column name"@,
        RowFault::MissingIsKey => " missing is_key"@,
        RowFault::MissingIndex => " missing index"@,
        RowFault::MissingType => " missing type"@,
    }
}

/// `col` is what a sound row says: the index is the row's integer truncated
/// to `u32`.
pub open spec fn column_from_row(col: ColumnInfo, row: JsonValue) -> bool {
    let arr = row.spec_as_array().unwrap();
    &&& col.name@ == item_str(arr, 0).unwrap()
    &&& col.is_key == item_bool(arr, 1).unwrap()
    &&& col.index == item_i64(arr, 2).unwrap() as u32
    &&& col.col_type@ == item_str(arr, 3).unwrap()
}

/// The position of the first faulty row, if any.
pub open spec fn first_faulty_row(rows: Seq<JsonValue>, k: int) -> bool {
    &&& 0 <= k < rows.len()
    &&& row_fault(rows[k]) is Some
    &&& forall|j: int| 0 <= j < k ==> row_fault(#[trigger] rows[j]) is None
}

pub open spec fn missing_rows_text() -> Seq<char> {
    "::columns result missing 'rows' array"@
}

/// `cols` are the columns that the `::columns` result `json` lists: it has
/// rows, none of them faulty, and each column is read from its row.
pub open spec fn columns_parsed(json: JsonValue, cols: Seq<ColumnInfo>) -> bool {
    result_rows(json) matches Some(rows) && cols.len() == rows.len() && forall|j: int|
        0 <= j < rows.len() ==> row_fault(#[trigger] rows[j]) is None && column_from_row(
            cols[j],
            rows[j],
        )
}

/// The error that reading the `::columns` result `json` reports: its rows
/// are missing, or the first faulty row is named.
pub open spec fn columns_error(json: JsonValue, e: Error) -> bool {
    match result_rows(json) {
        None => is_schema_error(e, missing_rows_text()),
        Some(rows) => exists|k: int| #[trigger] first_faulty_row(rows, k)
            && is_schema_error(e, row_fault_text(k as nat, row_fault(rows[k]).unwrap())),
    }
}

/// The element `k` of `arr` if there is one.
fn get_item(arr: &Vec<JsonValue>, k: usize) -> (r: Option<&JsonValue>)
    ensures
        r matches Some(v) ==> item(arr@, k as int) == Some(*v),
        r is None ==> item(arr@, k as int) is None,
{
    if k < arr.len() {
        Some(&arr[k])
    } else {
        None
    }
}

fn row_error(idx: usize, fault: RowFault) -> (e: Error)
    ensures
        e matches Error::Schema { detail } && detail@ == row_fault_text(idx as nat, fault),
{
    let mut d = String::new();
    d.append("row ");
    push_decimal(&mut d, idx as u64);
    match fault {
        RowFault::NotArray => d.append(" is not an array"),
        RowFault::MissingName => d.append(" missing column name"),
        RowFault::MissingIsKey => d.append(" missing is_key"),
        RowFault::MissingIndex => d.append(" missing index"),
        RowFault::MissingType => d.append(" missing type"),
    }
    Error::Schema { detail: d }
}

/// Reads one row of a `::columns` result.
fn column_of_row(row: &JsonValue, idx: usize) -> (r: Result<ColumnInfo, Error>)
    ensures
        match r {
            Ok(col) => row_fault(*row) is None && column_from_row(col, *row),
            Err(e) => row_fault(*row) matches Some(f) && e matches Error::Schema { detail }
                && detail@ == row_fault_text(idx as nat, f),
        },
{
    let arr = match row.as_array() {
        Some(a) => a,
        None => return Err(row_error(idx, RowFault::NotArray)),
    };
    let name = match get_item(arr, 0) {
        Some(v) => match datavalue::as_str(v) {
            Some(s) => s.to_owned(),
            None => return Err(row_error(idx, RowFault::MissingName)),
        },
        None => return Err(row_error(idx, RowFault::MissingName)),
    };
    let is_key = match get_item(arr, 1) {
        Some(v) => match datavalue::as_bool(v) {
            Some(b) => b,
            None => return Err(row_error(idx, RowFault::MissingIsKey)),
        },
        None => return Err(row_error(idx, RowFault::MissingIsKey)),
    };
    // index is at position 2, type is at position 3
    let index = match get_item(arr, 2) {
        Some(v) => match datavalue::as_i64(v) {
            Some(i) => i as u32,
            None => return Err(row_error(idx, RowFault::MissingIndex)),
        },
        None => return Err(row_error(idx, RowFault::MissingIndex)),
    };
    let col_type = match get_item(arr, 3) {
        Some(v) => match datavalue::as_str(v) {
            Some(s) => s.to_owned(),
            None => return Err(row_error(idx, RowFault::MissingType)),
        },
        None => return Err(row_error(idx, RowFault::MissingType)),
    };
    Ok(ColumnInfo { name, is_key, index, col_type })
}

/// Parse the JSON result of `::columns <relation>` into a vec of ColumnInfo.
///
/// CozoDB `::columns` returns headers: `["column", "is_key", "index", "type", ...]`
/// Values are wrapped in DataValue tags: `{"Str": "..."}`, `{"Bool": ...}`, etc.
pub fn from_columns_result(json: &JsonValue) -> (r: Result<Vec<ColumnInfo>, Error>)
    ensures
        match r {
            Ok(cols) => columns_parsed(*json, cols@),
            Err(e) => columns_error(*json, e),
        },
{
    let rows = match json.get("rows") {
        Some(v) => match v.as_array() {
            Some(a) => a,
            None => return Err(Error::Schema { detail: "::columns result missing 'rows' array".to_owned() }),
        },
        None => return Err(Error::Schema { detail: "::columns result missing 'rows' array".to_owned() }),
    };
    let mut columns: Vec<ColumnInfo> = Vec::new();
    let mut idx: usize = 0;
    while idx < rows.len()
        invariant
            result_rows(*json) == Some(rows@),
            idx <= rows.len(),
            columns.len() == idx,
            forall|j: int| 0 <= j < idx ==> row_fault(#[trigger] rows@[j]) is None
                && column_from_row(columns@[j], rows@[j]),
        decreases rows.len() - idx,
    {
        match column_of_row(&rows[idx], idx) {
            Ok(col) => columns.push(col),
            Err(e) => {
                assert(first_faulty_row(rows@, idx as int));
                return Err(e);
            },
        }
        idx = idx + 1;
    }
    Ok(columns)
}

/// The number of key columns.
pub open spec fn key_count(cols: Seq<ColumnInfo>) -> nat
    decreases cols.len(),
{
    if cols.len() == 0 {
        0
    } else {
        key_count(cols.drop_last()) + if cols.last().is_key {
            1nat
        } else {
            0nat
        }
    }
}

/// The number of key columns.
pub fn count_keys(cols: &Vec<ColumnInfo>) -> (r: usize)
    ensures
        r == key_count(cols@),
{
    let mut n: usize = 0;
    let mut i: usize = 0;
    while i < cols.len()
        invariant
            i <= cols.len(),
            n == key_count(cols@.take(i as int)),
            n <= i,
        decreases cols.len() - i,
    {
        assert(cols@.take(i + 1).drop_last() =~= cols@.take(i as int));
        if cols[i].is_key {
            n = n + 1;
        }
        i = i + 1;
    }
    assert(cols@.take(cols.len() as int) =~= cols@);
    n
}

/// No column is a key exactly when the key count is zero.
pub proof fn lemma_key_count_zero(cols: Seq<ColumnInfo>)
    ensures
        key_count(cols) == 0 <==> forall|j: int| 0 <= j < cols.len() ==> !(#[trigger] cols[j]).is_key,
    decreases cols.len(),
{
    if cols.len() > 0 {
        let init = cols.drop_last();
        lemma_key_count_zero(init);
        if key_count(cols) == 0 {
            assert forall|j: int| 0 <= j < cols.len() implies !(#[trigger] cols[j]).is_key by {
                if j < cols.len() - 1 {
                    assert(init[j] == cols[j]);
                }
            }
        }
        if forall|j: int| 0 <= j < cols.len() ==> !(#[trigger] cols[j]).is_key {
            assert(!cols[cols.len() - 1].is_key);
            assert forall|j: int| 0 <= j < init.len() implies !(#[trigger] init[j]).is_key by {
                assert(init[j] == cols[j]);
            }
        }
    }
}

/// Column `k` is a key, and no other column is.
pub open spec fn only_key(cols: Seq<ColumnInfo>, k: int) -> bool {
    &&& 0 <= k < cols.len()
    &&& cols[k].is_key
    &&& forall|j: int| 0 <= j < cols.len() && j != k ==> !(#[trigger] cols[j]).is_key
}

proof fn lemma_only_key_count(cols: Seq<ColumnInfo>, k: int)
    requires
        only_key(cols, k),
    ensures
        key_count(cols) == 1,
    decreases cols.len(),
{
    let n = cols.len() - 1;
    let init = cols.drop_last();
    if k == n {
        assert forall|j: int| 0 <= j < init.len() implies !(#[trigger] init[j]).is_key by {
            assert(init[j] == cols[j]);
        }
        lemma_key_count_zero(init);
    } else {
        assert(!cols[n].is_key);
        assert(init[k] == cols[k]);
        assert forall|j: int| 0 <= j < init.len() && j != k implies !(#[trigger] init[j]).is_key by {
            assert(init[j] == cols[j]);
        }
        lemma_only_key_count(init, k);
    }
}

proof fn lemma_count_only_key(cols: Seq<ColumnInfo>) -> (k: int)
    requires
        key_count(cols) == 1,
    ensures
        only_key(cols, k),
    decreases cols.len(),
{
    let n = cols.len() - 1;
    let init = cols.drop_last();
    if cols[n].is_key {
        lemma_key_count_zero(init);
        assert forall|j: int| 0 <= j < cols.len() && j != n implies !(#[trigger] cols[j]).is_key by {
            assert(init[j] == cols[j]);
        }
        n
    } else {
        let k = lemma_count_only_key(init);
        assert(cols[k] == init[k]);
        assert forall|j: int| 0 <= j < cols.len() && j != k implies !(#[trigger] cols[j]).is_key by {
            if j < n {
                assert(init[j] == cols[j]);
            }
        }
        k
    }
}

/// The key count is one exactly when one column, and no other, is a key.
pub proof fn lemma_key_count_one(cols: Seq<ColumnInfo>)
    ensures
        key_count(cols) == 1 <==> exists|k: int| #[trigger] only_key(cols, k),
{
    if key_count(cols) == 1 {
        let k = lemma_count_only_key(cols);
    }
    if exists|k: int| #[trigger] only_key(cols, k) {
        let k = choose|k: int| #[trigger] only_key(cols, k);
        lemma_only_key_count(cols, k);
    }
}

/// With the key columns listed first, `m` of them, the key count is `m`.
pub proof fn lemma_key_count_keys_first(cols: Seq<ColumnInfo>, m: int)
    requires
        0 <= m <= cols.len(),
        forall|i: int| 0 <= i < cols.len() ==> ((#[trigger] cols[i]).is_key <==> i < m),
    ensures
        key_count(cols) == m,
    decreases cols.len(),
{
    if cols.len() > 0 {
        let init = cols.drop_last();
        assert(cols[cols.len() - 1].is_key <==> cols.len() - 1 < m);
        let m2 = if m == cols.len() { m - 1 } else { m };
        assert forall|i: int| 0 <= i < init.len() implies ((#[trigger] init[i]).is_key <==> i < m2) by {
            assert(init[i] == cols[i]);
        }
        lemma_key_count_keys_first(init, m2);
    }
}

/// A column's key flag is the boolean in the second cell of its row, whether
/// tagged as `{"Bool": b}` or plain, and its name and type are the strings in
/// the first and fourth cells, tagged as `{"Str": s}`.
pub proof fn lemma_column_cells(json: JsonValue, cols: Seq<ColumnInfo>, j: int)
    requires
        columns_parsed(json, cols),
        0 <= j < cols.len(),
    ensures
        ({
            let arr = result_rows(json).unwrap()[j].spec_as_array().unwrap();
            &&& forall|b: bool| #[trigger] tagged_bool(arr[1], b) ==> cols[j].is_key == b
            &&& forall|b: bool| arr[1] == JsonValue::Bool(b) ==> cols[j].is_key == b
            &&& forall|s: Seq<char>| #[trigger] tagged_str(arr[0], s) ==> cols[j].name@ == s
            &&& forall|s: Seq<char>| #[trigger] tagged_str(arr[3], s) ==> cols[j].col_type@ == s
            &&& forall|i: i64| #[trigger] tagged_int(arr[2], i) ==> cols[j].index == i as u32
        }),
{
    let rows = result_rows(json).unwrap();
    assert(row_fault(rows[j]) is None && column_from_row(cols[j], rows[j]));
    let arr = rows[j].spec_as_array().unwrap();
    assert(arr.len() >= 4) by {
        if arr.len() < 4 {
            assert(item_str(arr, 3) is None);
        }
    }
}

/// `v` is `{"Bool": b}`.
pub open spec fn tagged_bool(v: JsonValue, b: bool) -> bool {
    v matches JsonValue::Object(e) && e@.len() == 1 && e@[0].0@ == "Bool"@ && e@[0].1
        == JsonValue::Bool(b)
}

/// `v` is `{"Str": s}`.
pub open spec fn tagged_str(v: JsonValue, s: Seq<char>) -> bool {
    v matches JsonValue::Object(e) && e@.len() == 1 && e@[0].0@ == "Str"@ && e@[0].1.spec_as_str()
        == Some(s)
}

/// `v` is `{"Num": {"Int": i}}`.
pub open spec fn tagged_int(v: JsonValue, i: i64) -> bool {
    v matches JsonValue::Object(e) && e@.len() == 1 && e@[0].0@ == "Num"@ && match e@[0].1 {
        JsonValue::Object(f) => f@.len() == 1 && f@[0].0@ == "Int"@ && f@[0].1.spec_as_i64() == Some(
            i,
        ),
        _ => false,
    }
}

} // verus!
