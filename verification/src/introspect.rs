//! Introspection of a CozoDB instance, as a sequence of queries.
//!
//! Building the schema alternates queries and decisions. The decisions live
//! here: `SchemaScan::step` takes the answer to the last query and says which
//! query to run next, or gives the finished schema or the error. Whoever
//! holds the database runs the queries.
use vstd::prelude::*;
use crate::column_info::{
    columns_error, columns_parsed, count_keys, from_columns_result, key_count, lemma_key_count_one,
    lemma_key_count_zero, only_key, result_rows, ColumnInfo,
};
use crate::case::uppercase_property;
use crate::error::{is_query_error, is_schema_error, Error};
use crate::json::JsonValue;
use crate::order::{sorted_strings, lemma_not_lt_transitive, lemma_sorted_keys_sorted, names_sorted, sorted_keys, str_lt};
use crate::schema_gen::{enum_names, relation_names, EnumSchema, RelationSchema, SchemaGenerator};
use crate::text::{str_equal, views};
use crate::vocab_detect::{
    build_enum_schema, enum_rows_query, enum_schema_query, first_key_column, first_strings,
    first_strs, is_pascal_case, pascal_name,
};

verus! {

/// The query that lists the domain registry.
pub open spec fn registry_query() -> Seq<char> {
    "?[name] := *Domain{name}"@
}

/// The query that lists the relations.
pub open spec fn relations_query() -> Seq<char> {
    "::relations"@
}

/// The query that lists the columns of relation `name`.
pub open spec fn columns_query(name: Seq<char>) -> Seq<char> {
    "::columns "@ + name
}

/// The domain names the registry query answered with; none when it failed
/// or had no rows.
pub open spec fn reply_registry(reply: Result<JsonValue, String>) -> Seq<Seq<char>> {
    match reply {
        Ok(v) => match result_rows(v) {
            Some(rows) => first_strs(rows),
            None => seq![],
        },
        Err(_) => seq![],
    }
}

/// A relation is a domain: the registry is authoritative when it has any
/// entry; without one, PascalCase names are domains.
pub open spec fn in_domain(registry: Seq<Seq<char>>, name: Seq<char>) -> bool {
    if registry.len() > 0 {
        registry.contains(name)
    } else {
        pascal_name(name)
    }
}

/// Single-key domains become enums (their variants are the key values);
/// composite-key domains and other relations become structs.
pub open spec fn is_enum_relation(registry: Seq<Seq<char>>, name: Seq<char>, cols: Seq<ColumnInfo>) -> bool {
    in_domain(registry, name) && key_count(cols) == 1
}

/// A relation becomes an enum exactly when it is a domain and exactly one of
/// its columns is a key. Relations with no key column, or with two or more,
/// stay structs, with or without a registry. The registry, when it has any
/// entry, alone decides which relations are domains; without one, names
/// starting with an uppercase letter are.
pub proof fn lemma_enum_iff_single_key(registry: Seq<Seq<char>>, name: Seq<char>, cols: Seq<ColumnInfo>)
    ensures
        is_enum_relation(registry, name, cols) <==> in_domain(registry, name) && exists|k: int|
            #[trigger] only_key(cols, k),
        (exists|j: int, k: int|
            0 <= j < k < cols.len() && (#[trigger] cols[j]).is_key && (#[trigger] cols[k]).is_key)
            ==> !is_enum_relation(registry, name, cols),
        (forall|j: int| 0 <= j < cols.len() ==> !(#[trigger] cols[j]).is_key) ==> !is_enum_relation(
            registry,
            name,
            cols,
        ),
        registry.len() > 0 ==> (in_domain(registry, name) <==> registry.contains(name)),
        registry.len() == 0 ==> (in_domain(registry, name) <==> name.len() > 0 && uppercase_property(
            name[0],
        )),
{
    lemma_key_count_one(cols);
    lemma_key_count_zero(cols);
    if exists|j: int, k: int|
        0 <= j < k < cols.len() && (#[trigger] cols[j]).is_key && (#[trigger] cols[k]).is_key {
        let (j, k) = choose|j: int, k: int|
            0 <= j < k < cols.len() && (#[trigger] cols[j]).is_key && (#[trigger] cols[k]).is_key;
        if exists|m: int| #[trigger] only_key(cols, m) {
            let m = choose|m: int| #[trigger] only_key(cols, m);
            assert(j == m || !cols[j].is_key);
            assert(k == m || !cols[k].is_key);
        }
    }
}

/// Which answer the scan waits for.
pub enum ScanStage {
    /// The domain registry.
    Registry,
    /// The list of relations.
    Relations,
    /// The columns of relation `names[pos]`.
    Columns,
    /// The variants of the domain relation `names[pos]`.
    EnumRows,
}

/// The state of a schema introspection.
pub struct SchemaScan {
    pub stage: ScanStage,
    /// The names in the domain registry.
    pub registry: Vec<String>,
    /// The relation names, sorted.
    pub names: Vec<String>,
    /// The position in `names` of the relation being read.
    pub pos: usize,
    /// The relations read so far that become structs.
    pub relations: Vec<RelationSchema>,
    /// The relations read so far that become enums.
    pub enums: Vec<EnumSchema>,
}

/// What to do after a step.
pub enum ScanStep {
    /// Run the query and hand its answer to the scan.
    Query(SchemaScan, String),
    /// The schema is complete.
    Done(SchemaGenerator),
    /// Introspection failed.
    Failed(Error),
}

/// The relations a step leaves: in the next state, or in the schema.
pub open spec fn step_relations(r: ScanStep) -> Seq<RelationSchema> {
    match r {
        ScanStep::Query(s, _) => s.relations@,
        ScanStep::Done(g) => g.relations@,
        ScanStep::Failed(_) => seq![],
    }
}

/// The enums a step leaves: in the next state, or in the schema.
pub open spec fn step_enums(r: ScanStep) -> Seq<EnumSchema> {
    match r {
        ScanStep::Query(s, _) => s.enums@,
        ScanStep::Done(g) => g.enums@,
        ScanStep::Failed(_) => seq![],
    }
}

impl SchemaScan {
    /// Before the relations are listed nothing is read; while a relation is
    /// being read, its position is in range, every relation before it has
    /// become exactly one struct or enum, and the structs and enums so far
    /// are sorted by name and sort no later than it.
    pub open spec fn wf(self) -> bool {
        &&& (self.stage is Registry || self.stage is Relations) ==> self.pos == 0
            && self.relations.len() == 0 && self.enums.len() == 0
        &&& (self.stage is Columns || self.stage is EnumRows) ==> self.reading_wf()
    }

    /// The part of `wf` that holds while relation `pos` is being read.
    pub open spec fn reading_wf(self) -> bool {
        &&& self.pos < self.names.len()
        &&& names_sorted(views(self.names@))
        &&& self.relations.len() + self.enums.len() == self.pos
        &&& names_sorted(relation_names(self.relations@))
        &&& names_sorted(enum_names(self.enums@))
        &&& forall|k: int|
            0 <= k < self.relations.len() ==> !str_lt(
                self.current(),
                #[trigger] self.relations@[k].name@,
            )
        &&& forall|k: int|
            0 <= k < self.enums.len() ==> !str_lt(self.current(), #[trigger] self.enums@[k].name@)
    }

    /// When the scan finishes, the structs and the enums are each sorted by
    /// name, and there is one of them for each relation.
    pub open spec fn finished_wf(g: SchemaGenerator, total: nat) -> bool {
        &&& names_sorted(relation_names(g.relations@))
        &&& names_sorted(enum_names(g.enums@))
        &&& g.relations.len() + g.enums.len() == total
    }

    /// The name of the relation being read.
    pub open spec fn current(self) -> Seq<char> {
        self.names@[self.pos as int]@
    }

    /// `r` moves past the current relation: to the columns of the next
    /// one, or, after the last, to the finished schema.
    pub open spec fn advanced(self, r: ScanStep) -> bool {
        if self.pos + 1 == self.names.len() {
            r is Done
        } else {
            r matches ScanStep::Query(s, q) && s.stage is Columns && s.pos == self.pos + 1
                && s.names == self.names && s.registry == self.registry && q@ == columns_query(
                self.names@[self.pos + 1]@,
            )
        }
    }

    /// The first state, and the first query: the domain registry.
    pub fn start() -> (r: (SchemaScan, String))
        ensures
            r.0.wf(),
            r.0.stage is Registry,
            r.0.registry@.len() == 0,
            r.0.names@.len() == 0,
            r.0.pos == 0,
            r.0.relations@.len() == 0,
            r.0.enums@.len() == 0,
            r.1@ == registry_query(),
    {
        // Query the Domain registry — the authority for which relations are domains.
        (
            SchemaScan {
                stage: ScanStage::Registry,
                registry: Vec::new(),
                names: Vec::new(),
                pos: 0,
                relations: Vec::new(),
                enums: Vec::new(),
            },
            "?[name] := *Domain{name}".to_owned(),
        )
    }

    fn advance(self) -> (r: ScanStep)
        requires
            self.stage is Columns || self.stage is EnumRows,
            self.pos < self.names.len(),
            names_sorted(views(self.names@)),
            self.relations.len() + self.enums.len() == self.pos + 1,
            names_sorted(relation_names(self.relations@)),
            names_sorted(enum_names(self.enums@)),
            forall|k: int|
                0 <= k < self.relations.len() ==> !str_lt(
                    self.current(),
                    #[trigger] self.relations@[k].name@,
                ),
            forall|k: int|
                0 <= k < self.enums.len() ==> !str_lt(self.current(), #[trigger] self.enums@[k].name@),
        ensures
            self.advanced(r),
            r matches ScanStep::Query(s, _) ==> s.wf(),
            r matches ScanStep::Done(g) ==> Self::finished_wf(g, self.names.len() as nat),
            step_relations(r) == self.relations@,
            step_enums(r) == self.enums@,
    {
        let next = self.pos + 1;
        proof {
            if next < self.names.len() {
                let nv = views(self.names@);
                assert(!str_lt(nv[next as int], nv[self.pos as int]));
                assert forall|k: int| 0 <= k < self.relations.len() implies !str_lt(
                    self.names@[next as int]@,
                    #[trigger] self.relations@[k].name@,
                ) by {
                    lemma_not_lt_transitive(self.relations@[k].name@, self.current(), nv[next as int]);
                }
                assert forall|k: int| 0 <= k < self.enums.len() implies !str_lt(
                    self.names@[next as int]@,
                    #[trigger] self.enums@[k].name@,
                ) by {
                    lemma_not_lt_transitive(self.enums@[k].name@, self.current(), nv[next as int]);
                }
            }
        }
        if next == self.names.len() {
            ScanStep::Done(SchemaGenerator { relations: self.relations, enums: self.enums })
        } else {
            let mut q = "::columns ".to_owned();
            q.append(self.names[next].as_str());
            ScanStep::Query(SchemaScan { stage: ScanStage::Columns, pos: next, ..self }, q)
        }
    }

    /// Takes the answer to the last query (or the text of its error) and
    /// says what comes next.
    pub fn step(self, reply: Result<JsonValue, String>) -> (r: ScanStep)
        requires
            self.wf(),
        ensures
            r matches ScanStep::Query(s, _) ==> s.wf(),
            r matches ScanStep::Done(g) ==> Self::finished_wf(g, self.names.len() as nat) || (
            self.stage is Relations && g.relations.len() + g.enums.len() == 0),
            // The registry query may fail: then there is no registry.
            self.stage is Registry ==> (r matches ScanStep::Query(s, q) && q@ == relations_query()
                && s.stage is Relations && views(s.registry@) == reply_registry(reply)
                && s.names == self.names && s.relations == self.relations && s.enums == self.enums),
            self.stage is Relations ==> match reply {
                Err(msg) => r matches ScanStep::Failed(e) && is_query_error(e, msg@),
                Ok(v) => match result_rows(v) {
                    None => r matches ScanStep::Failed(e) && is_schema_error(
                        e,
                        "::relations missing 'rows'"@,
                    ),
                    Some(rows) => if first_strs(rows).len() == 0 {
                        r matches ScanStep::Done(g) && g.relations == self.relations && g.enums
                            == self.enums
                    } else {
                        r matches ScanStep::Query(s, q) && s.stage is Columns && s.pos == 0
                            && views(s.names@) == sorted_keys(first_strs(rows)) && s.registry
                            == self.registry && s.relations == self.relations && s.enums
                            == self.enums && q@ == columns_query(s.names@[0]@)
                    },
                },
            },
            self.stage is Columns ==> match reply {
                Err(msg) => r matches ScanStep::Failed(e) && is_query_error(e, msg@),
                Ok(v) => (r matches ScanStep::Failed(e) && columns_error(v, e)) || exists|
                    cols: Seq<ColumnInfo>,
                | #[trigger] columns_parsed(v, cols) && if is_enum_relation(
                    views(self.registry@),
                    self.current(),
                    cols,
                ) {
                    r matches ScanStep::Query(s, q) && s.stage is EnumRows && s.pos == self.pos
                        && s.names == self.names && s.registry == self.registry && s.relations
                        == self.relations && s.enums == self.enums && exists|k: int|
                        #[trigger] first_key_column(cols, k) && q@ == enum_rows_query(
                            self.current(),
                            cols[k].name@,
                        )
                } else {
                    self.advanced(r) && step_enums(r) == self.enums@ && step_relations(r).len()
                        == self.relations@.len() + 1 && step_relations(r).drop_last()
                        == self.relations@ && step_relations(r).last().name@ == self.current()
                        && step_relations(r).last().columns@ == cols
                },
            },
            self.stage is EnumRows ==> match reply {
                Err(msg) => r matches ScanStep::Failed(e) && is_query_error(e, msg@),
                Ok(v) => match result_rows(v) {
                    None => r matches ScanStep::Failed(e) && is_schema_error(
                        e,
                        "enum query missing 'rows'"@,
                    ),
                    Some(rows) => self.advanced(r) && step_relations(r) == self.relations@
                        && step_enums(r).len() == self.enums@.len() + 1 && step_enums(r).drop_last()
                        == self.enums@ && step_enums(r).last().name@ == self.current() && views(
                        step_enums(r).last().variants@,
                    ) == sorted_keys(first_strs(rows)),
                },
            },
    {
        match self.stage {
            ScanStage::Registry => {
                // A failed registry query means no registry.
                let registry = match &reply {
                    Ok(v) => match v.get("rows") {
                        Some(rows) => match rows.as_array() {
                            Some(a) => first_strings(a),
                            None => Vec::new(),
                        },
                        None => Vec::new(),
                    },
                    Err(_) => Vec::new(),
                };
                assert(views(registry@) =~= reply_registry(reply));
                ScanStep::Query(
                    SchemaScan { stage: ScanStage::Relations, registry, ..self },
                    "::relations".to_owned(),
                )
            },
            ScanStage::Relations => {
                let v = match reply {
                    Ok(v) => v,
                    Err(msg) => return ScanStep::Failed(Error::Query { detail: msg }),
                };
                let rows = match v.get("rows") {
                    Some(r) => match r.as_array() {
                        Some(a) => a,
                        None => return ScanStep::Failed(
                            Error::Schema { detail: "::relations missing 'rows'".to_owned() },
                        ),
                    },
                    None => return ScanStep::Failed(
                        Error::Schema { detail: "::relations missing 'rows'".to_owned() },
                    ),
                };
                let found = first_strings(rows);
                let names = sorted_strings(&found);
                let found_len = found.len();
                proof {
                    assert(views(found@).len() == found_len);
                    lemma_sorted_keys_sorted(views(found@));
                }
                if names.len() == 0 {
                    return ScanStep::Done(
                        SchemaGenerator { relations: self.relations, enums: self.enums },
                    );
                }
                let mut q = "::columns ".to_owned();
                q.append(names[0].as_str());
                ScanStep::Query(SchemaScan { stage: ScanStage::Columns, names, pos: 0, ..self }, q)
            },
            ScanStage::Columns => {
                let v = match reply {
                    Ok(v) => v,
                    Err(msg) => return ScanStep::Failed(Error::Query { detail: msg }),
                };
                let columns = match from_columns_result(&v) {
                    Ok(c) => c,
                    Err(e) => return ScanStep::Failed(e),
                };
                let ghost cols = columns@;
                let name = self.names[self.pos].as_str();
                let registered = self.contains_registry(name);
                // Registry is authoritative when it exists.
                // PascalCase alone is the fallback when no registry.
                let domain = if self.registry.len() > 0 {
                    registered
                } else {
                    is_pascal_case(name)
                };
                let keys = count_keys(&columns);
                if domain && keys == 1 {
                    let q = match enum_schema_query(name, &columns) {
                        Ok(q) => q,
                        Err(e) => {
                            proof { lemma_key_count_positive(cols); }
                            return ScanStep::Failed(e);
                        },
                    };
                    ScanStep::Query(SchemaScan { stage: ScanStage::EnumRows, ..self }, q)
                } else {
                    let rel = RelationSchema { name: name.to_owned(), columns };
                    let mut next = self;
                    next.relations.push(rel);
                    proof {
                        let rn = relation_names(next.relations@);
                        let old_rn = relation_names(self.relations@);
                        assert(rn.drop_last() =~= old_rn);
                        lemma_str_lt_irreflexive(self.current());
                        assert forall|a: int, b: int| 0 <= a < b < rn.len() implies !str_lt(
                            #[trigger] rn[b],
                            #[trigger] rn[a],
                        ) by {
                            assert(rn[a] == next.relations@[a].name@);
                            if b == rn.len() - 1 {
                                assert(rn[b] == self.current());
                                assert(next.relations@[a] == self.relations@[a]);
                            } else {
                                assert(rn[a] == old_rn[a] && rn[b] == old_rn[b]);
                            }
                        }
                    }
                    next.advance()
                }
            },
            ScanStage::EnumRows => {
                let v = match reply {
                    Ok(v) => v,
                    Err(msg) => return ScanStep::Failed(Error::Query { detail: msg }),
                };
                let schema = match build_enum_schema(self.names[self.pos].as_str(), &v) {
                    Ok(s) => s,
                    Err(e) => return ScanStep::Failed(e),
                };
                let mut next = self;
                next.enums.push(schema);
                proof {
                    let en = enum_names(next.enums@);
                    let old_en = enum_names(self.enums@);
                    assert(en.drop_last() =~= old_en);
                    lemma_str_lt_irreflexive(self.current());
                    assert forall|a: int, b: int| 0 <= a < b < en.len() implies !str_lt(
                        #[trigger] en[b],
                        #[trigger] en[a],
                    ) by {
                        assert(en[a] == next.enums@[a].name@);
                        if b == en.len() - 1 {
                            assert(en[b] == self.current());
                            assert(next.enums@[a] == self.enums@[a]);
                        } else {
                            assert(en[a] == old_en[a] && en[b] == old_en[b]);
                        }
                    }
                }
                next.advance()
            },
        }
    }

    fn contains_registry(&self, name: &str) -> (r: bool)
        ensures
            r == views(self.registry@).contains(name@),
    {
        let mut i: usize = 0;
        while i < self.registry.len()
            invariant
                i <= self.registry.len(),
                forall|j: int| 0 <= j < i ==> self.registry@[j]@ != name@,
            decreases self.registry.len() - i,
        {
            if str_equal(self.registry[i].as_str(), name) {
                assert(views(self.registry@)[i as int] == name@);
                return true;
            }
            i = i + 1;
        }
        proof {
            if views(self.registry@).contains(name@) {
                let j = choose|j: int| 0 <= j < views(self.registry@).len() && views(self.registry@)[j] == name@;
                assert(self.registry@[j]@ == name@);
            }
        }
        false
    }
}

proof fn lemma_str_lt_irreflexive(a: Seq<char>)
    ensures
        !str_lt(a, a),
{
    crate::order::lemma_str_lt_strict_total(a, a, a);
}

proof fn lemma_key_count_positive(cols: Seq<ColumnInfo>)
    requires
        key_count(cols) > 0,
    ensures
        exists|k: int| 0 <= k < cols.len() && (#[trigger] cols[k]).is_key,
    decreases cols.len(),
{
    if cols.last().is_key {
        assert(cols[cols.len() - 1].is_key);
    } else {
        lemma_key_count_positive(cols.drop_last());
        let k = choose|k: int| 0 <= k < cols.drop_last().len() && (#[trigger] cols.drop_last()[k]).is_key;
        assert(cols[k].is_key);
    }
}

} // verus!
