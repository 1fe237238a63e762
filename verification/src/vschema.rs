//! The sharding schema: which tables are sharded, by what key, with which sequences.
use crate::shardfn;
use crate::shardfn::ScalarType;
use crate::text;
use vstd::prelude::*;
use vstd::string::*;

verus! {

/// Fully qualified table name.
#[derive(Debug, Clone, PartialEq, Eq, PartialOrd, Ord, Hash)]
pub struct TableName {
    pub schema: String,
    pub name: String,
}

/// A table name as text: its schema and its name in it.
pub type TableKey = (Seq<char>, Seq<char>);

impl View for TableName {
    type V = TableKey;

    open spec fn view(&self) -> TableKey {
        (self.schema@, self.name@)
    }
}

/// The text `schema.name`.
pub open spec fn table_text(t: TableKey) -> Seq<char> {
    t.0 + seq!['.'] + t.1
}

/// The order of table names: by schema, then by name.
pub open spec fn table_before(a: TableKey, b: TableKey) -> bool {
    text::before(a.0, b.0) || (a.0 == b.0 && text::before(a.1, b.1))
}

impl TableName {
    pub fn new(schema: &str, name: &str) -> (r: TableName)
        ensures
            r@ == (schema@, name@),
    {
        TableName { schema: schema.to_owned(), name: name.to_owned() }
    }

    pub fn to_string(&self) -> (r: String)
        ensures
            r@ == table_text(self@),
    {
        let mut out = self.schema.clone();
        out.push('.');
        out.append(self.name.as_str());
        proof {
            assert(out@ =~= table_text(self@));
        }
        out
    }

    /// A copy of the name.
    pub fn copy(&self) -> (r: TableName)
        ensures
            r == *self,
    {
        TableName { schema: self.schema.clone(), name: self.name.clone() }
    }

    /// Whether both names are the same.
    pub fn same(&self, other: &TableName) -> (r: bool)
        ensures
            r == (self@ == other@),
    {
        text::same(self.schema.as_str(), other.schema.as_str()) && text::same(
            self.name.as_str(),
            other.name.as_str(),
        )
    }

    fn is_before(&self, other: &TableName) -> (r: bool)
        ensures
            r == table_before(self@, other@),
    {
        text::is_before(self.schema.as_str(), other.schema.as_str()) || (text::same(
            self.schema.as_str(),
            other.schema.as_str(),
        ) && text::is_before(self.name.as_str(), other.name.as_str()))
    }
}

#[derive(Debug, Clone, PartialEq, Eq)]
pub struct SequenceBinding {
    pub column: String,
    pub sequence: String,
}

#[derive(Debug, Clone, PartialEq, Eq)]
pub enum TableDef {
    Sharded {
        shard_key_column: String,
        shard_function: String,
        /// The declared type of the shard-key column, where it is known.
        shard_key_type: Option<ScalarType>,
        sequences: Vec<SequenceBinding>,
    },
    /// Lives in the system (unsharded) database.
    Global,
}

#[derive(Debug, PartialEq, Eq)]
pub enum VSchemaError {
    EmptyTableName(String, String),
    DuplicateTable(TableName),
    EmptyShardKey(TableName),
    UnknownShardFunction(TableName, String),
    DuplicateSequenceColumn(TableName, String),
}

/// The sharding schema: which tables are sharded, by what key, with which
/// sequence bindings. The tables stand in the order of their names, each once.
#[derive(Debug, PartialEq, Eq)]
pub struct VSchema {
    tables: Vec<(TableName, TableDef)>,
}

/// Whether a column is bound before position `j`.
pub open spec fn bound_before(sequences: Seq<SequenceBinding>, j: int) -> bool {
    exists|i: int| 0 <= i < j && (#[trigger] sequences[i]).column@ == sequences[j].column@
}

/// Whether no column is bound to two sequences.
pub open spec fn columns_distinct(sequences: Seq<SequenceBinding>) -> bool {
    forall|j: int| 0 <= j < sequences.len() ==> !#[trigger] bound_before(sequences, j)
}

/// Whether a definition can stand in a schema.
pub open spec fn valid_def(def: TableDef) -> bool {
    match def {
        TableDef::Global => true,
        TableDef::Sharded { shard_key_column, shard_function, shard_key_type, sequences } => {
            &&& shard_key_column@.len() > 0
            &&& shard_function@ == "xxhash64_v1"@
            &&& columns_distinct(sequences@)
        },
    }
}

impl Default for VSchema {
    fn default() -> (r: VSchema)
        ensures
            r.entries().len() == 0,
    {
        VSchema { tables: Vec::new() }
    }
}

impl VSchema {
    /// The tables with their definitions, in the order of the names.
    pub closed spec fn entries(self) -> Seq<(TableName, TableDef)> {
        self.tables@
    }

    #[verifier::type_invariant]
    pub closed spec fn wf(self) -> bool {
        &&& forall|i: int, j: int|
            0 <= i < j < self.tables@.len() ==> table_before(
                (#[trigger] self.tables@[i]).0@,
                (#[trigger] self.tables@[j]).0@,
            )
        &&& forall|i: int| 0 <= i < self.tables@.len() ==> valid_def((#[trigger] self.tables@[i]).1)
    }

    /// Whether the schema has the table.
    pub open spec fn has(self, t: TableKey) -> bool {
        exists|i: int| 0 <= i < self.entries().len() && (#[trigger] self.entries()[i]).0@ == t
    }

    /// Whether the schema gives the table this definition.
    pub open spec fn defines(self, t: TableKey, def: TableDef) -> bool {
        exists|i: int|
            0 <= i < self.entries().len() && (#[trigger] self.entries()[i]).0@ == t
                && self.entries()[i].1 == def
    }

    /// Where the table stands.
    pub open spec fn place(self, t: TableKey) -> int {
        choose|i: int| 0 <= i < self.entries().len() && (#[trigger] self.entries()[i]).0@ == t
    }

    /// The definition that the schema gives the table, where it has it.
    pub open spec fn definition(self, t: TableKey) -> Option<TableDef> {
        if self.has(t) {
            Some(self.entries()[self.place(t)].1)
        } else {
            None
        }
    }

    /// Adds a table. It is refused where its name has an empty part, where it is there
    /// already, or where its definition is not valid.
    pub fn insert(&mut self, table: TableName, def: TableDef) -> (r: Result<(), VSchemaError>)
        ensures
            r is Ok <==> table.schema@.len() > 0 && table.name@.len() > 0 && !old(self).has(table@)
                && valid_def(def),
            r is Ok ==> {
                &&& final(self).defines(table@, def)
                &&& forall|t: TableKey, d: TableDef|
                    t != table@ ==> (#[trigger] final(self).defines(t, d) <==> old(self).defines(
                        t,
                        d,
                    ))
                &&& final(self).entries().len() == old(self).entries().len() + 1
            },
            r is Err ==> final(self).entries() == old(self).entries(),
            match r {
                Ok(_) => true,
                Err(VSchemaError::EmptyTableName(s, n)) => s == table.schema && n == table.name && (
                s@.len() == 0 || n@.len() == 0),
                Err(VSchemaError::DuplicateTable(t)) => t == table && table.schema@.len() > 0
                    && table.name@.len() > 0 && old(self).has(table@),
                Err(VSchemaError::EmptyShardKey(t)) => t == table && table.schema@.len() > 0
                    && table.name@.len() > 0 && !old(self).has(table@) && (def matches TableDef::Sharded {
                    shard_key_column,
                    ..
                } && shard_key_column@.len() == 0),
                Err(VSchemaError::UnknownShardFunction(t, f)) => t == table && table.schema@.len()
                    > 0 && table.name@.len() > 0 && !old(self).has(table@) && (def matches TableDef::Sharded {
                    shard_key_column,
                    shard_function,
                    ..
                } && shard_key_column@.len() > 0 && f == shard_function && f@ != "xxhash64_v1"@),
                Err(VSchemaError::DuplicateSequenceColumn(t, c)) => t == table
                    && table.schema@.len() > 0 && table.name@.len() > 0 && !old(self).has(table@)
                    && (def matches TableDef::Sharded {
                    shard_key_column,
                    shard_function,
                    sequences,
                    ..
                } && shard_key_column@.len() > 0 && shard_function@ == "xxhash64_v1"@ && exists|
                    j: int,
                |
                    0 <= j < sequences@.len() && #[trigger] bound_before(sequences@, j) && c
                        == sequences@[j].column && forall|k: int|
                        0 <= k < j ==> !#[trigger] bound_before(sequences@, k)),
            },
    {
        proof {
            use_type_invariant(&*self);
        }
        if table.schema.as_str().is_empty() || table.name.as_str().is_empty() {
            return Err(VSchemaError::EmptyTableName(table.schema, table.name));
        }
        let at: usize = self.lower_bound(&table);
        if at < self.tables.len() && self.tables[at].0.same(&table) {
            proof {
                assert(self.entries()[at as int].0@ == table@);
            }
            return Err(VSchemaError::DuplicateTable(table));
        }
        proof {
            assert forall|i: int| 0 <= i < self.entries().len() implies (
            #[trigger] self.entries()[i]).0@ != table@ by {
                lemma_table_before_irreflexive(table@);
                if i > at {
                    assert(table_before(self.tables@[at as int].0@, self.tables@[i].0@));
                    assert(!table_before(self.tables@[at as int].0@, table@));
                }
            }
        }
        if let TableDef::Sharded { shard_key_column, shard_function, shard_key_type, sequences } =
            &def {
            if shard_key_column.as_str().is_empty() {
                return Err(VSchemaError::EmptyShardKey(table));
            }
            if shardfn::shard_function(shard_function.as_str()).is_err() {
                return Err(VSchemaError::UnknownShardFunction(table, shard_function.clone()));
            }
            if let Some(j) = first_repeated_column(sequences) {
                let column = sequences[j].column.clone();
                return Err(VSchemaError::DuplicateSequenceColumn(table, column));
            }
        }
        let ghost before = self.entries();
        let ghost key = table@;
        let mut tables: Vec<(TableName, TableDef)> = Vec::new();
        std::mem::swap(&mut tables, &mut self.tables);
        proof {
            lemma_insert_keeps_order(before, at as int, (table, def));
        }
        tables.insert(at, (table, def));
        self.tables = tables;
        proof {
            let after = self.entries();
            assert(after == before.insert(at as int, (table, def)));
            assert(after[at as int] == (table, def));
            assert(self.defines(key, def));
            assert forall|t: TableKey, d: TableDef| t != key implies (#[trigger] self.defines(t, d)
                <==> old(self).defines(t, d)) by {
                if self.defines(t, d) {
                    let i = choose|i: int|
                        0 <= i < after.len() && (#[trigger] after[i]).0@ == t && after[i].1 == d;
                    if i < at {
                        assert(before[i] == after[i]);
                    } else {
                        assert(before[i - 1] == after[i]);
                    }
                }
                if old(self).defines(t, d) {
                    let i = choose|i: int|
                        0 <= i < before.len() && (#[trigger] before[i]).0@ == t && before[i].1 == d;
                    if i < at {
                        assert(after[i] == before[i]);
                    } else {
                        assert(after[i + 1] == before[i]);
                    }
                }
            }
        }
        Ok(())
    }

    /// The number of tables before `table`.
    fn lower_bound(&self, table: &TableName) -> (r: usize)
        ensures
            r <= self.tables@.len(),
            forall|i: int| 0 <= i < r ==> table_before((#[trigger] self.tables@[i]).0@, table@),
            r < self.tables@.len() ==> !table_before(self.tables@[r as int].0@, table@),
    {
        let mut i: usize = 0;
        while i < self.tables.len() && self.tables[i].0.is_before(table)
            invariant
                i <= self.tables@.len(),
                forall|k: int|
                    0 <= k < i ==> table_before((#[trigger] self.tables@[k]).0@, table@),
            decreases self.tables@.len() - i,
        {
            i += 1;
        }
        i
    }

    /// The definition of the table, where the schema has it.
    pub fn get(&self, table: &TableName) -> (r: Option<&TableDef>)
        ensures
            match r {
                Some(d) => self.definition(table@) == Some(*d) && self.defines(table@, *d)
                    && valid_def(*d),
                None => self.definition(table@) is None && !self.has(table@),
            },
    {
        proof {
            use_type_invariant(&*self);
        }
        let mut i: usize = 0;
        while i < self.tables.len()
            invariant
                i <= self.tables@.len(),
                self.wf(),
                forall|k: int| 0 <= k < i ==> (#[trigger] self.tables@[k]).0@ != table@,
            decreases self.tables@.len() - i,
        {
            if self.tables[i].0.same(table) {
                proof {
                    let t = table@;
                    assert(self.entries()[i as int].0@ == t);
                    let k = self.place(t);
                    assert(self.entries()[k].0@ == t);
                    assert(self.defines(t, self.entries()[k].1));
                    assert(self.defines(t, self.entries()[i as int].1));
                    law_one_definition(*self, t, self.entries()[k].1, self.entries()[i as int].1);
                }
                return Some(&self.tables[i].1);
            }
            i += 1;
        }
        None
    }

    /// The tables with their definitions, in the order of the names.
    pub fn tables(&self) -> (r: &Vec<(TableName, TableDef)>)
        ensures
            r@ == self.entries(),
            forall|i: int, j: int|
                0 <= i < j < r@.len() ==> table_before((#[trigger] r@[i]).0@, (#[trigger] r@[j]).0@),
    {
        proof {
            use_type_invariant(&*self);
        }
        &self.tables
    }
}

/// The first position whose column is bound before it.
fn first_repeated_column(sequences: &Vec<SequenceBinding>) -> (r: Option<usize>)
    ensures
        match r {
            Some(j) => j < sequences@.len() && bound_before(sequences@, j as int) && forall|k: int|
                0 <= k < j ==> !#[trigger] bound_before(sequences@, k),
            None => columns_distinct(sequences@),
        },
{
    let mut j: usize = 0;
    while j < sequences.len()
        invariant
            j <= sequences@.len(),
            forall|k: int| 0 <= k < j ==> !#[trigger] bound_before(sequences@, k),
        decreases sequences@.len() - j,
    {
        let mut i: usize = 0;
        while i < j
            invariant
                i <= j < sequences@.len(),
                forall|k: int| 0 <= k < j ==> !#[trigger] bound_before(sequences@, k),
                forall|k: int|
                    0 <= k < i ==> (#[trigger] sequences@[k]).column@ != sequences@[j as int].column@,
            decreases j - i,
        {
            if text::same(sequences[i].column.as_str(), sequences[j].column.as_str()) {
                assert(sequences@[i as int].column@ == sequences@[j as int].column@);
                return Some(j);
            }
            i += 1;
        }
        assert(!bound_before(sequences@, j as int));
        j += 1;
    }
    None
}

pub proof fn lemma_table_before_irreflexive(a: TableKey)
    ensures
        !table_before(a, a),
{
    text::lemma_before_irreflexive(a.0);
    text::lemma_before_irreflexive(a.1);
}

pub proof fn lemma_table_before_transitive(a: TableKey, b: TableKey, c: TableKey)
    requires
        table_before(a, b),
        table_before(b, c),
    ensures
        table_before(a, c),
{
    if text::before(a.0, b.0) && text::before(b.0, c.0) {
        text::lemma_before_transitive(a.0, b.0, c.0);
    }
    if text::before(a.1, b.1) && text::before(b.1, c.1) {
        text::lemma_before_transitive(a.1, b.1, c.1);
    }
}

pub proof fn lemma_table_before_total(a: TableKey, b: TableKey)
    ensures
        table_before(a, b) || table_before(b, a) || a == b,
{
    text::lemma_before_total(a.0, b.0);
    text::lemma_before_total(a.1, b.1);
}

proof fn lemma_insert_keeps_order(
    s: Seq<(TableName, TableDef)>,
    at: int,
    e: (TableName, TableDef),
)
    requires
        0 <= at <= s.len(),
        forall|i: int, j: int|
            0 <= i < j < s.len() ==> table_before((#[trigger] s[i]).0@, (#[trigger] s[j]).0@),
        forall|i: int| 0 <= i < at ==> table_before((#[trigger] s[i]).0@, e.0@),
        at < s.len() ==> !table_before(s[at].0@, e.0@) && s[at].0@ != e.0@,
    ensures
        forall|i: int, j: int|
            0 <= i < j < s.insert(at, e).len() ==> table_before(
                (#[trigger] s.insert(at, e)[i]).0@,
                (#[trigger] s.insert(at, e)[j]).0@,
            ),
{
    let t = s.insert(at, e);
    if at < s.len() {
        lemma_table_before_total(s[at].0@, e.0@);
    }
    assert forall|i: int, j: int| 0 <= i < j < t.len() implies table_before(
        (#[trigger] t[i]).0@,
        (#[trigger] t[j]).0@,
    ) by {
        if i == at {
            assert(t[j] == s[j - 1]);
            if j - 1 > at {
                assert(table_before(s[at].0@, s[j - 1].0@));
                lemma_table_before_transitive(e.0@, s[at].0@, s[j - 1].0@);
            }
        } else if j == at {
            assert(t[i] == s[i]);
        } else {
            let p = if i < at {
                i
            } else {
                i - 1
            };
            let q = if j < at {
                j
            } else {
                j - 1
            };
            assert(t[i] == s[p] && t[j] == s[q]);
        }
    }
}

/// A table has one definition.
pub proof fn law_one_definition(schema: VSchema, t: TableKey, a: TableDef, b: TableDef)
    requires
        schema.wf(),
        schema.defines(t, a),
        schema.defines(t, b),
    ensures
        a == b,
{
    let s = schema.entries();
    let i = choose|i: int| 0 <= i < s.len() && (#[trigger] s[i]).0@ == t && s[i].1 == a;
    let j = choose|j: int| 0 <= j < s.len() && (#[trigger] s[j]).0@ == t && s[j].1 == b;
    lemma_table_before_irreflexive(t);
    if i < j {
        assert(table_before(schema.tables@[i].0@, schema.tables@[j].0@));
    } else if j < i {
        assert(table_before(schema.tables@[j].0@, schema.tables@[i].0@));
    }
}

/// What an error says.
pub open spec fn fault_text(e: VSchemaError) -> Seq<char> {
    match e {
        VSchemaError::EmptyTableName(s, t) => "empty schema or table name in "@ + text::debug_text(
            s@,
        ) + "."@ + text::debug_text(t@),
        VSchemaError::DuplicateTable(t) => "table "@ + table_text(t@) + " declared twice"@,
        VSchemaError::EmptyShardKey(t) => "table "@ + table_text(t@) + ": shard key column is empty"@,
        VSchemaError::UnknownShardFunction(t, f) => "table "@ + table_text(t@)
            + ": unknown shard function "@ + text::debug_text(f@),
        VSchemaError::DuplicateSequenceColumn(t, c) => "table "@ + table_text(t@) + ": column "@
            + text::debug_text(c@) + " bound to multiple sequences"@,
    }
}

impl VSchemaError {
    pub fn to_string(&self) -> (r: String)
        ensures
            r@ == fault_text(*self),
    {
        match self {
            VSchemaError::EmptyTableName(s, t) => text::concat4(
                "empty schema or table name in ",
                text::debug_string(s.as_str()).as_str(),
                ".",
                text::debug_string(t.as_str()).as_str(),
            ),
            VSchemaError::DuplicateTable(t) => text::concat3(
                "table ",
                t.to_string().as_str(),
                " declared twice",
            ),
            VSchemaError::EmptyShardKey(t) => text::concat3(
                "table ",
                t.to_string().as_str(),
                ": shard key column is empty",
            ),
            VSchemaError::UnknownShardFunction(t, f) => text::concat4(
                "table ",
                t.to_string().as_str(),
                ": unknown shard function ",
                text::debug_string(f.as_str()).as_str(),
            ),
            VSchemaError::DuplicateSequenceColumn(t, c) => text::concat5(
                "table ",
                t.to_string().as_str(),
                ": column ",
                text::debug_string(c.as_str()).as_str(),
                " bound to multiple sequences",
            ),
        }
    }
}

/// A table has the definition under its own schema and name, and none where no entry has
/// both.
pub proof fn law_definitions_are_found_by_name(v: VSchema, t: TableKey, i: int)
    requires
        v.wf(),
    ensures
        0 <= i < v.entries().len() && v.entries()[i].0.schema@ == t.0 && v.entries()[i].0.name@
            == t.1 ==> v.definition(t) == Some(v.entries()[i].1),
        (forall|k: int|
            0 <= k < v.entries().len() ==> (#[trigger] v.entries()[k]).0.schema@ != t.0
                || v.entries()[k].0.name@ != t.1) ==> v.definition(t) is None,
{
    if 0 <= i < v.entries().len() && v.entries()[i].0.schema@ == t.0 && v.entries()[i].0.name@
        == t.1 {
        assert(v.entries()[i].0@ == t);
        let k = v.place(t);
        assert(v.entries()[k].0@ == t);
        assert(v.defines(t, v.entries()[i].1));
        assert(v.defines(t, v.entries()[k].1));
        law_one_definition(v, t, v.entries()[i].1, v.entries()[k].1);
    }
}

/// A sharded definition names its key and a known function, and binds no column twice.
pub proof fn law_sharded_definitions_are_sound(
    key: String,
    function: String,
    kind: Option<ScalarType>,
    sequences: Vec<SequenceBinding>,
    i: int,
    j: int,
)
    requires
        valid_def(
            TableDef::Sharded {
                shard_key_column: key,
                shard_function: function,
                shard_key_type: kind,
                sequences,
            },
        ),
        0 <= i < j < sequences@.len(),
    ensures
        key@.len() > 0,
        function@ == "xxhash64_v1"@,
        sequences@[i].column@ != sequences@[j].column@,
{
    assert(!bound_before(sequences@, j));
}

/// Tables are ordered by schema, and within one by name.
pub proof fn law_tables_are_ordered_by_schema(a: TableKey, b: TableKey)
    ensures
        a.0 != b.0 ==> (table_before(a, b) <==> text::before(a.0, b.0)),
        a.0 == b.0 ==> (table_before(a, b) <==> text::before(a.1, b.1)),
        table_text(a) == a.0 + seq!['.'] + a.1,
{
    text::lemma_before_irreflexive(a.0);
}

} // verus!
