use vstd::prelude::*;

use crate::error::SQLRiteError;
use crate::sql::db::store::{
    lemma_pm_get_entry, lemma_pm_get_set, lemma_pm_get_unique_at, lemma_pm_set_unique,
    lemma_st_set, lemma_sv_from_pm, lemma_tm_get_entry, lemma_tm_get_set, lemma_tm_get_unique_at,
    lemma_tm_set_unique, sv_get, IntIndex, Store, TextIndex,
};
use crate::sql::parser::create::CreateQuery;
use crate::strconv::{
    eq_lower, int_literal_val, is_real_literal, lower_seq, parses_as_bool, parses_as_i32,
    parses_as_i64, strs_view,
};

verus! {

/// The storage affinities of the engine, modeled on SQLite's storage
/// classes.  `None` is an unconstrained affinity; `Invalid` marks a type
/// name the engine does not recognize and is never storable.
#[derive(Debug, PartialEq, Eq, Structural, Clone, Copy)]
pub enum DataType {
    Integer,
    Text,
    Real,
    Bool,
    NoneType,
    Invalid,
}

/// The affinity that a lower-case type name denotes.
pub open spec fn spec_datatype(s: Seq<char>) -> DataType {
    if s == "integer"@ {
        DataType::Integer
    } else if s == "text"@ {
        DataType::Text
    } else if s == "real"@ {
        DataType::Real
    } else if s == "bool"@ {
        DataType::Bool
    } else if s == "none"@ {
        DataType::NoneType
    } else {
        DataType::Invalid
    }
}

impl DataType {
    /// Reads an affinity from a type name, folding ASCII case first.  All
    /// recognized names are ASCII, so ASCII folding decides the match.
    pub fn new(cmd: String) -> (dt: DataType)
        ensures
            dt == spec_datatype(lower_seq(cmd@)),
    {
        proof {
            reveal_strlit("integer");
            reveal_strlit("text");
            reveal_strlit("real");
            reveal_strlit("bool");
            reveal_strlit("none");
            assert(lower_seq("integer"@) =~= "integer"@);
            assert(lower_seq("text"@) =~= "text"@);
            assert(lower_seq("real"@) =~= "real"@);
            assert(lower_seq("bool"@) =~= "bool"@);
            assert(lower_seq("none"@) =~= "none"@);
        }
        if eq_lower(cmd.as_str(), "integer") {
            DataType::Integer
        } else if eq_lower(cmd.as_str(), "text") {
            DataType::Text
        } else if eq_lower(cmd.as_str(), "real") {
            DataType::Real
        } else if eq_lower(cmd.as_str(), "bool") {
            DataType::Bool
        } else if eq_lower(cmd.as_str(), "none") {
            DataType::NoneType
        } else {
            DataType::Invalid
        }
    }

    /// The display name of the affinity.
    pub fn display_text(&self) -> (r: String)
        ensures
            *self matches DataType::Integer ==> r@ == "Integer"@,
            *self matches DataType::Text ==> r@ == "Text"@,
            *self matches DataType::Real ==> r@ == "Real"@,
            *self matches DataType::Bool ==> r@ == "Boolean"@,
            *self matches DataType::NoneType ==> r@ == "None"@,
            *self matches DataType::Invalid ==> r@ == "Invalid"@,
    {
        match self {
            DataType::Integer => String::from_str("Integer"),
            DataType::Text => String::from_str("Text"),
            DataType::Real => String::from_str("Real"),
            DataType::Bool => String::from_str("Boolean"),
            DataType::NoneType => String::from_str("None"),
            DataType::Invalid => String::from_str("Invalid"),
        }
    }
}

/// The index attached to one column: column value to rowid.  Only
/// `Integer` and `Text` columns carry a usable index; the other
/// affinities carry none, which restricts the constraints they support.
pub enum Index {
    Integer(IntIndex),
    Text(TextIndex),
    NoIndex,
}

/// The row store of one column: rowid to stored value, ordered by rowid.
/// A `Real` value is kept as its validated numeric text, since the engine
/// itself never computes with it; `None` marks a column that cannot store
/// values.
pub enum Row {
    Integer(Store<i32>),
    Text(Store<String>),
    Real(Store<String>),
    Bool(Store<bool>),
    NoStore,
}

/// Does the index shape fit the affinity?
pub open spec fn index_matches(idx: Index, dt: DataType) -> bool {
    match dt {
        DataType::Integer => idx matches Index::Integer(_),
        DataType::Text => idx matches Index::Text(_),
        _ => idx matches Index::NoIndex,
    }
}

/// Does the row-store shape fit the affinity?
pub open spec fn row_matches(r: Row, dt: DataType) -> bool {
    match dt {
        DataType::Integer => r matches Row::Integer(_),
        DataType::Text => r matches Row::Text(_),
        DataType::Real => r matches Row::Real(_),
        DataType::Bool => r matches Row::Bool(_),
        _ => r matches Row::NoStore,
    }
}

/// Is the row store internally well formed?
pub open spec fn row_wf(r: Row) -> bool {
    match r {
        Row::Integer(st) => st.wf(),
        Row::Text(st) => st.wf(),
        Row::Real(st) => st.wf(),
        Row::Bool(st) => st.wf(),
        Row::NoStore => true,
    }
}

/// Is the index internally well formed?
pub open spec fn index_wf(idx: Index) -> bool {
    match idx {
        Index::Integer(ix) => ix.wf(),
        Index::Text(tx) => tx.wf(),
        Index::NoIndex => true,
    }
}

/// How many rowids the row store binds; a storeless column binds none.
pub open spec fn row_count(r: Row) -> nat {
    match r {
        Row::Integer(st) => st.entries@.len(),
        Row::Text(st) => st.entries@.len(),
        Row::Real(st) => st.entries@.len(),
        Row::Bool(st) => st.entries@.len(),
        Row::NoStore => 0,
    }
}

/// Every rowid that the index mentions is bound in the row store.
pub open spec fn col_consistent(idx: Index, r: Row) -> bool {
    match (idx, r) {
        (Index::Integer(ix), Row::Integer(st)) => forall|i: int|
            0 <= i < ix.entries@.len() ==> st.spec_get((#[trigger] ix.entries@[i]).1) is Some,
        (Index::Text(tx), Row::Text(st)) => forall|i: int|
            0 <= i < tx.entries@.len() ==> st.spec_get((#[trigger] tx.entries@[i]).1) is Some,
        _ => true,
    }
}

/// The schema and constraints of one column.
pub struct Column {
    pub column_name: String,
    pub datatype: DataType,
    pub is_pk: bool,
    pub not_null: bool,
    pub is_unique: bool,
    pub is_indexed: bool,
    pub index: Index,
}

impl Column {
    /// Builds a column from its schema fields.  The index shape follows
    /// the affinity: `Integer` and `Text` columns get an empty index,
    /// every other affinity gets none.
    pub fn new(name: String, datatype: String, is_pk: bool, not_null: bool, is_unique: bool) -> (c:
        Column)
        ensures
            c.column_name == name,
            c.datatype == spec_datatype(lower_seq(datatype@)),
            c.is_pk == is_pk,
            c.not_null == not_null,
            c.is_unique == is_unique,
            c.is_indexed == is_pk,
            index_matches(c.index, c.datatype),
            index_wf(c.index),
            match c.index {
                Index::Integer(ix) => ix.entries@.len() == 0,
                Index::Text(tx) => tx.entries@.len() == 0,
                Index::NoIndex => true,
            },
    {
        let dt = DataType::new(datatype);
        let index = match dt {
            DataType::Integer => Index::Integer(IntIndex::new()),
            DataType::Bool => Index::NoIndex,
            DataType::Text => Index::Text(TextIndex::new()),
            DataType::Real => Index::NoIndex,
            DataType::Invalid => Index::NoIndex,
            DataType::NoneType => Index::NoIndex,
        };
        Column {
            column_name: name,
            datatype: dt,
            is_pk,
            not_null,
            is_unique,
            is_indexed: if is_pk {
                true
            } else {
                false
            },
            index,
        }
    }

    /// A mutable borrow of the column's index.
    pub fn get_mut_index(&mut self) -> (r: &mut Index)
        ensures
            *r == old(self).index,
            final(self).column_name == old(self).column_name,
            final(self).datatype == old(self).datatype,
            final(self).is_pk == old(self).is_pk,
            final(self).not_null == old(self).not_null,
            final(self).is_unique == old(self).is_unique,
            final(self).is_indexed == old(self).is_indexed,
            final(self).index == *final(r),
    {
        &mut self.index
    }
}

/// An in-memory table: its schema in declaration order, one row store
/// per column in the same order, an auxiliary named-index registry, the
/// rowid of the most recent insert, and the primary-key column name
/// (`"-1"` when the table has none).
pub struct Table {
    pub tb_name: String,
    pub columns: Vec<Column>,
    pub rows: Vec<Row>,
    pub indexes: Vec<(String, String)>,
    pub last_rowid: i64,
    pub primary_key: String,
}

impl Table {
    /// Is there a column at `i` whose name reads `name`?
    pub open spec fn has_column(self, name: Seq<char>) -> bool {
        exists|i: int| 0 <= i < self.columns@.len() && (#[trigger] self.columns@[i]).column_name@
            == name
    }

    /// The position of the column named `name`.
    pub open spec fn col_idx(self, name: Seq<char>) -> int {
        choose|i: int| 0 <= i < self.columns@.len() && (#[trigger] self.columns@[i]).column_name@
            == name
    }

    /// The table invariant: column names are unique; at most one column
    /// is the key and the `primary_key` field names it; each column's row
    /// store and index fit its affinity, are well formed, and every
    /// indexed rowid is bound in its row store.
    pub open spec fn wf(self) -> bool {
        &&& self.rows@.len() == self.columns@.len()
        &&& forall|i: int, j: int|
            0 <= i < j < self.columns@.len() ==> (#[trigger] self.columns@[i]).column_name@ != (
            #[trigger] self.columns@[j]).column_name@
        &&& forall|i: int|
            0 <= i < self.columns@.len() ==> ((#[trigger] self.columns@[i]).is_pk
                ==> self.columns@[i].column_name@ == self.primary_key@)
        &&& (self.primary_key@ != "-1"@ ==> self.has_column(self.primary_key@))
        &&& forall|i: int|
            0 <= i < self.columns@.len() ==> {
                &&& row_matches(#[trigger] self.rows@[i], self.columns@[i].datatype)
                &&& row_wf(self.rows@[i])
                &&& index_matches(self.columns@[i].index, self.columns@[i].datatype)
                &&& index_wf(self.columns@[i].index)
                &&& col_consistent(self.columns@[i].index, self.rows@[i])
            }
    }

    /// Does column `i` of the table carry exactly the schema of parsed
    /// column `i`, with an empty store and index?
    pub open spec fn col_matches_schema(self, cq: CreateQuery, i: int) -> bool {
        let pc = cq.columns@[i];
        let c = self.columns@[i];
        &&& c.column_name@ == pc.name@
        &&& c.datatype == spec_datatype(lower_seq(pc.datatype@))
        &&& c.is_pk == pc.is_pk
        &&& c.not_null == pc.not_null
        &&& c.is_unique == pc.is_unique
        &&& c.is_indexed == pc.is_pk
        &&& row_count(self.rows@[i]) == 0
    }

    /// Does the whole table carry exactly the translated schema, with no
    /// rows yet?
    pub open spec fn matches_schema(self, cq: CreateQuery) -> bool {
        &&& self.tb_name == cq.table_name
        &&& self.columns@.len() == cq.columns@.len()
        &&& self.rows@.len() == cq.columns@.len()
        &&& forall|i: int| 0 <= i < cq.columns@.len() ==> self.col_matches_schema(cq, i)
        &&& self.indexes@.len() == 0
        &&& self.last_rowid == 0
        &&& (forall|i: int|
            0 <= i < cq.columns@.len() ==> ((#[trigger] cq.columns@[i]).is_pk
                ==> self.primary_key@ == cq.columns@[i].name@))
        &&& ((forall|i: int| 0 <= i < cq.columns@.len() ==> !(#[trigger] cq.columns@[i]).is_pk)
            ==> self.primary_key@ == "-1"@)
    }

    /// Builds an empty table from a validated schema.
    pub fn new(create_query: CreateQuery) -> (t: Table)
        requires
            create_query.wf(),
        ensures
            t.wf(),
            t.matches_schema(create_query),
    {
        let table_name = create_query.table_name;
        let mut primary_key: String = String::from_str("-1");
        let columns = create_query.columns;

        let mut table_cols: Vec<Column> = Vec::new();
        let mut table_rows: Vec<Row> = Vec::new();
        let n = columns.len();
        let mut i: usize = 0;
        proof {
            reveal_strlit("-1");
        }
        while i < n
            invariant
                0 <= i <= n,
                n == columns@.len(),
                table_cols@.len() == i,
                table_rows@.len() == i,
                forall|k: int, j: int|
                    0 <= k < j < columns@.len() ==> (#[trigger] columns@[k]).name@ != (
                    #[trigger] columns@[j]).name@,
                forall|k: int, j: int|
                    0 <= k < j < columns@.len() && (#[trigger] columns@[k]).is_pk && (
                    #[trigger] columns@[j]).is_pk ==> false,
                forall|k: int|
                    0 <= k < i ==> {
                        let pc = columns@[k];
                        let c = #[trigger] table_cols@[k];
                        &&& c.column_name@ == pc.name@
                        &&& c.datatype == spec_datatype(lower_seq(pc.datatype@))
                        &&& c.is_pk == pc.is_pk
                        &&& c.not_null == pc.not_null
                        &&& c.is_unique == pc.is_unique
                        &&& c.is_indexed == pc.is_pk
                        &&& row_matches(table_rows@[k], c.datatype)
                        &&& row_wf(table_rows@[k])
                        &&& row_count(table_rows@[k]) == 0
                        &&& index_matches(c.index, c.datatype)
                        &&& index_wf(c.index)
                        &&& col_consistent(c.index, table_rows@[k])
                    },
                forall|k: int|
                    0 <= k < i ==> ((#[trigger] columns@[k]).is_pk ==> primary_key@
                        == columns@[k].name@),
                (forall|k: int| 0 <= k < i ==> !(#[trigger] columns@[k]).is_pk) ==> primary_key@
                    == "-1"@,
                primary_key@ == "-1"@ || exists|k: int|
                    0 <= k < i && (#[trigger] columns@[k]).is_pk && primary_key@
                        == columns@[k].name@,
            decreases n - i,
        {
            let col_name = columns[i].name.clone();
            if columns[i].is_pk {
                primary_key = col_name.clone();
            }
            let dtype = DataType::new(columns[i].datatype.clone());
            table_cols.push(
                Column::new(
                    col_name,
                    columns[i].datatype.clone(),
                    columns[i].is_pk,
                    columns[i].not_null,
                    columns[i].is_unique,
                ),
            );
            let row = match dtype {
                DataType::Integer => Row::Integer(Store::new()),
                DataType::Real => Row::Real(Store::new()),
                DataType::Text => Row::Text(Store::new()),
                DataType::Bool => Row::Bool(Store::new()),
                DataType::Invalid => Row::NoStore,
                DataType::NoneType => Row::NoStore,
            };
            table_rows.push(row);
            i = i + 1;
        }
        let t = Table {
            tb_name: table_name,
            columns: table_cols,
            rows: table_rows,
            indexes: Vec::new(),
            last_rowid: 0,
            primary_key,
        };
        proof {
            assert forall|a: int, b: int| 0 <= a < b < t.columns@.len() implies (
            #[trigger] t.columns@[a]).column_name@ != (#[trigger] t.columns@[b]).column_name@ by {
                assert(columns@[a].name@ != columns@[b].name@);
            }
            assert forall|a: int|
                0 <= a < t.columns@.len() && (#[trigger] t.columns@[a]).is_pk implies t.columns@[a].column_name@
                == t.primary_key@ by {
                assert(columns@[a].is_pk);
                assert(primary_key@ == columns@[a].name@);
            }
            if t.primary_key@ != "-1"@ {
                let k = choose|k: int|
                    0 <= k < columns@.len() && (#[trigger] columns@[k]).is_pk && t.primary_key@
                        == columns@[k].name@;
                assert(t.columns@[k].column_name@ == t.primary_key@);
                assert(t.has_column(t.primary_key@));
            }
        }
        t
    }

    /// Is there a column with the given name?
    pub fn contains_column(&self, column: String) -> (r: bool)
        ensures
            r == self.has_column(column@),
    {
        let n = self.columns.len();
        let mut i: usize = 0;
        while i < n
            invariant
                0 <= i <= n,
                n == self.columns@.len(),
                forall|j: int| 0 <= j < i ==> (#[trigger] self.columns@[j]).column_name@
                    != column@,
            decreases n - i,
        {
            if self.columns[i].column_name == column {
                return true;
            }
            i = i + 1;
        }
        false
    }

    /// The position of the column named `name`, or `None` when the table
    /// has no such column.
    pub fn find_column(&self, name: &String) -> (r: Option<usize>)
        requires
            self.wf(),
        ensures
            r is Some <==> self.has_column(name@),
            r matches Some(j) ==> 0 <= j < self.columns@.len() && self.columns@[
                j as int
            ].column_name@ == name@ && j == self.col_idx(name@),
    {
        let n = self.columns.len();
        let mut i: usize = 0;
        while i < n
            invariant
                0 <= i <= n,
                n == self.columns@.len(),
                self.wf(),
                forall|j: int| 0 <= j < i ==> (#[trigger] self.columns@[j]).column_name@
                    != name@,
            decreases n - i,
        {
            if self.columns[i].column_name == *name {
                proof {
                    assert(self.columns@[i as int].column_name@ == name@);
                    assert(self.has_column(name@));
                    let c = self.col_idx(name@);
                    assert(0 <= c < self.columns@.len() && self.columns@[c].column_name@
                        == name@);
                    if c != i {
                        assert(self.columns@[c].column_name@ != self.columns@[
                            i as int
                        ].column_name@);
                    }
                }
                return Some(i);
            }
            i = i + 1;
        }
        None
    }

    /// A borrow of the column with the given name, or a `General` error
    /// naming the failure when there is none.
    pub fn get_column(&self, column_name: String) -> (r: Result<&Column, SQLRiteError>)
        ensures
            r is Ok <==> self.has_column(column_name@),
            r matches Ok(c) ==> c.column_name@ == column_name@ && exists|i: int|
                0 <= i < self.columns@.len() && *c == (#[trigger] self.columns@[i]),
            r matches Err(e) ==> (e matches SQLRiteError::General(m) && m@
                == "Column not found."@),
    {
        let n = self.columns.len();
        let mut i: usize = 0;
        while i < n
            invariant
                0 <= i <= n,
                n == self.columns@.len(),
                forall|j: int| 0 <= j < i ==> (#[trigger] self.columns@[j]).column_name@
                    != column_name@,
            decreases n - i,
        {
            if self.columns[i].column_name == column_name {
                return Ok(&self.columns[i]);
            }
            i = i + 1;
        }
        Err(SQLRiteError::General(String::from_str("Column not found.")))
    }

    /// A mutable borrow of the column with the given name, or a `General`
    /// error naming the failure when there is none.
    pub fn get_column_mut(&mut self, column_name: String) -> (r: Result<&mut Column, SQLRiteError>)
        requires
            old(self).wf(),
        ensures
            r is Ok <==> old(self).has_column(column_name@),
            r matches Ok(c) ==> {
                let i = old(self).col_idx(column_name@);
                &&& *c == old(self).columns@[i]
                &&& final(self).columns@ == old(self).columns@.update(i, *final(c))
                &&& final(self).tb_name == old(self).tb_name
                &&& final(self).rows == old(self).rows
                &&& final(self).indexes == old(self).indexes
                &&& final(self).last_rowid == old(self).last_rowid
                &&& final(self).primary_key == old(self).primary_key
            },
            r is Err ==> *final(self) == *old(self),
            r matches Err(e) ==> (e matches SQLRiteError::General(m) && m@
                == "Column not found."@),
    {
        match self.find_column(&column_name) {
            Some(i) => Ok(&mut self.columns[i]),
            None => Err(SQLRiteError::General(String::from_str("Column not found."))),
        }
    }
}

// ---------------------------------------------------------------------------
// Uniqueness validation
// ---------------------------------------------------------------------------

/// The outcome of checking one column/value pair against the unique
/// constraint: it passes, it collides with an indexed value, the column
/// has no index to check against, or the value cannot be read in the
/// column's type.
pub enum UniqueCheck {
    Pass,
    Violation,
    MissingIndex,
    Unparsed,
}

/// Checks value `i` of an insertion against the unique constraint of the
/// column it names.
pub open spec fn unique_check_at(t: Table, cs: Seq<Seq<char>>, vs: Seq<Seq<char>>, i: int)
    -> UniqueCheck {
    let c = t.columns@[t.col_idx(cs[i])];
    if !c.is_unique {
        UniqueCheck::Pass
    } else {
        match c.index {
            Index::Integer(ix) => if !parses_as_i32(vs[i]) {
                UniqueCheck::Unparsed
            } else if ix.spec_get(int_literal_val(vs[i]) as i32) is Some {
                UniqueCheck::Violation
            } else {
                UniqueCheck::Pass
            },
            Index::Text(tx) => if tx.spec_get(vs[i]) is Some {
                UniqueCheck::Violation
            } else {
                UniqueCheck::Pass
            },
            Index::NoIndex => UniqueCheck::MissingIndex,
        }
    }
}

/// The first position at or after `from` whose check does not pass, or
/// the length when every check passes.
pub open spec fn first_unique_problem(t: Table, cs: Seq<Seq<char>>, vs: Seq<Seq<char>>, from: int)
    -> int
    decreases cs.len() - from,
{
    if from < 0 || from >= cs.len() {
        cs.len() as int
    } else if !(unique_check_at(t, cs, vs, from) matches UniqueCheck::Pass) {
        from
    } else {
        first_unique_problem(t, cs, vs, from + 1)
    }
}

/// The message reported for the first unique-constraint problem of an
/// insertion.
pub open spec fn unique_err_text(t: Table, cs: Seq<Seq<char>>, vs: Seq<Seq<char>>) -> Seq<char> {
    let b = first_unique_problem(t, cs, vs, 0);
    match unique_check_at(t, cs, vs, b) {
        UniqueCheck::Violation => "Error: unique constraint violation for column "@ + cs[b]
            + ".\n                        Value "@ + vs[b] + " already exists for column "@
            + cs[b],
        UniqueCheck::MissingIndex => "Error: cannot find index for column "@ + cs[b],
        UniqueCheck::Unparsed => "Error: cannot parse value "@ + vs[b] + " for column "@
            + cs[b],
        UniqueCheck::Pass => Seq::empty(),
    }
}

/// When the checks before `i` pass and `i` does not, `i` is the first
/// problem.
proof fn lemma_first_unique_problem(t: Table, cs: Seq<Seq<char>>, vs: Seq<Seq<char>>, i: int)
    requires
        0 <= i < cs.len(),
        forall|j: int| 0 <= j < i ==> (#[trigger] unique_check_at(t, cs, vs, j)) matches UniqueCheck::Pass,
        !(unique_check_at(t, cs, vs, i) matches UniqueCheck::Pass),
    ensures
        first_unique_problem(t, cs, vs, 0) == i,
{
    lemma_first_unique_problem_from(t, cs, vs, 0, i);
}

/// Helper induction for `lemma_first_unique_problem`.
proof fn lemma_first_unique_problem_from(
    t: Table,
    cs: Seq<Seq<char>>,
    vs: Seq<Seq<char>>,
    k: int,
    i: int,
)
    requires
        0 <= k <= i < cs.len(),
        forall|j: int| k <= j < i ==> (#[trigger] unique_check_at(t, cs, vs, j)) matches UniqueCheck::Pass,
        !(unique_check_at(t, cs, vs, i) matches UniqueCheck::Pass),
    ensures
        first_unique_problem(t, cs, vs, k) == i,
    decreases i - k,
{
    if k < i {
        lemma_first_unique_problem_from(t, cs, vs, k + 1, i);
    }
}

impl Table {
    /// Validates the UNIQUE constraint for an insertion before any state
    /// changes: each value whose column is unique must be absent from
    /// that column's index.  A unique column without an index is a hard
    /// error, as is a value that cannot be read in the indexed type (the
    /// latter is reported rather than aborting the process).  The table
    /// is never modified here.
    pub fn validate_unique_constraint(&mut self, cols: &Vec<String>, values: &Vec<String>) -> (r:
        Result<(), SQLRiteError>)
        requires
            old(self).wf(),
            cols@.len() <= values@.len(),
            forall|i: int|
                0 <= i < cols@.len() ==> old(self).has_column((#[trigger] cols@[i])@),
        ensures
            *final(self) == *old(self),
            ({
                let cs = strs_view(cols@);
                let vs = strs_view(values@);
                &&& (r is Ok <==> forall|i: int|
                    0 <= i < cs.len() ==> (#[trigger] unique_check_at(*old(self), cs, vs, i))
                        matches UniqueCheck::Pass)
                &&& (r matches Err(e) ==> {
                    let b = first_unique_problem(*old(self), cs, vs, 0);
                    &&& 0 <= b < cs.len()
                    &&& (e matches SQLRiteError::General(m) && m@ == unique_err_text(
                        *old(self),
                        cs,
                        vs,
                    ))
                })
            }),
    {
        let ghost cs = strs_view(cols@);
        let ghost vs = strs_view(values@);
        let n = cols.len();
        let mut idx: usize = 0;
        while idx < n
            invariant
                0 <= idx <= n,
                n == cols@.len(),
                cols@.len() <= values@.len(),
                self.wf(),
                *self == *old(self),
                cs == strs_view(cols@),
                vs == strs_view(values@),
                forall|i: int| 0 <= i < cols@.len() ==> self.has_column((#[trigger] cols@[i])@),
                forall|j: int|
                    0 <= j < idx ==> (#[trigger] unique_check_at(*self, cs, vs, j)) matches
                        UniqueCheck::Pass,
            decreases n - idx,
        {
            let jopt = self.find_column(&cols[idx]);
            let j = match jopt {
                Some(j) => j,
                None => {
                    proof {
                        assert(self.has_column(cs[idx as int]));
                        assert(false);
                    }
                    0
                },
            };
            if self.columns[j].is_unique {
                match &self.columns[j].index {
                    Index::Integer(ix) => {
                        match crate::strconv::parse_i32(values[idx].as_str()) {
                            Some(v) => {
                                if ix.contains_key(v) {
                                    proof {
                                        assert(unique_check_at(*self, cs, vs, idx as int)
                                            matches UniqueCheck::Violation);
                                        lemma_first_unique_problem(*self, cs, vs, idx as int);
                                    }
                                    return Err(
                                        SQLRiteError::General(
                                            String::from_str(
                                                "Error: unique constraint violation for column ",
                                            ).concat(cols[idx].as_str()).concat(
                                                ".\n                        Value ",
                                            ).concat(values[idx].as_str()).concat(
                                                " already exists for column ",
                                            ).concat(cols[idx].as_str()),
                                        ),
                                    );
                                }
                            },
                            None => {
                                proof {
                                    assert(unique_check_at(*self, cs, vs, idx as int) matches
                                        UniqueCheck::Unparsed);
                                    lemma_first_unique_problem(*self, cs, vs, idx as int);
                                }
                                return Err(
                                    SQLRiteError::General(
                                        String::from_str("Error: cannot parse value ").concat(
                                            values[idx].as_str(),
                                        ).concat(" for column ").concat(cols[idx].as_str()),
                                    ),
                                );
                            },
                        }
                    },
                    Index::Text(tx) => {
                        if tx.contains_key(&values[idx]) {
                            proof {
                                assert(unique_check_at(*self, cs, vs, idx as int) matches
                                    UniqueCheck::Violation);
                                lemma_first_unique_problem(*self, cs, vs, idx as int);
                            }
                            return Err(
                                SQLRiteError::General(
                                    String::from_str(
                                        "Error: unique constraint violation for column ",
                                    ).concat(cols[idx].as_str()).concat(
                                        ".\n                        Value ",
                                    ).concat(values[idx].as_str()).concat(
                                        " already exists for column ",
                                    ).concat(cols[idx].as_str()),
                                ),
                            );
                        }
                    },
                    Index::NoIndex => {
                        proof {
                            assert(unique_check_at(*self, cs, vs, idx as int) matches
                                UniqueCheck::MissingIndex);
                            lemma_first_unique_problem(*self, cs, vs, idx as int);
                        }
                        return Err(
                            SQLRiteError::General(
                                String::from_str("Error: cannot find index for column ").concat(
                                    cols[idx].as_str(),
                                ),
                            ),
                        );
                    },
                }
            }
            proof {
                assert(unique_check_at(*self, cs, vs, idx as int) matches UniqueCheck::Pass);
            }
            idx = idx + 1;
        }
        Ok(())
    }
}

// ---------------------------------------------------------------------------
// Row insertion
// ---------------------------------------------------------------------------

/// The names of the table's columns, in declaration order.
pub open spec fn spec_colnames(t: Table) -> Seq<Seq<char>> {
    t.columns@.map_values(|c: Column| c.column_name@)
}

/// The position in the caller's column list that the lockstep walk has
/// reached before declared column `i`: a name is consumed exactly when it
/// matches the declared column at the cursor.
pub open spec fn cursor(names: Seq<Seq<char>>, cs: Seq<Seq<char>>, i: int) -> int
    decreases i,
{
    if i <= 0 {
        0
    } else {
        let j = cursor(names, cs, i - 1);
        if j < cs.len() && cs[j] == names[i - 1] {
            j + 1
        } else {
            j
        }
    }
}

/// The cursor never runs past the caller's list.
pub proof fn lemma_cursor_bounds(names: Seq<Seq<char>>, cs: Seq<Seq<char>>, i: int)
    requires
        i >= 0,
    ensures
        0 <= cursor(names, cs, i) <= cs.len(),
    decreases i,
{
    if i > 0 {
        lemma_cursor_bounds(names, cs, i - 1);
    }
}

/// The text resolved for declared column `i`: the caller's value when the
/// cursor matches, nothing when the column is the primary key, and the
/// sentinel text `Null` otherwise.
pub open spec fn resolved_at(
    names: Seq<Seq<char>>,
    pk: Seq<char>,
    cs: Seq<Seq<char>>,
    vs: Seq<Seq<char>>,
    i: int,
) -> Option<Seq<char>> {
    let j = cursor(names, cs, i);
    if j < cs.len() && cs[j] == names[i] {
        Some(vs[j])
    } else if names[i] == pk {
        None
    } else {
        Some("Null"@)
    }
}

/// Is the primary key named in the caller's column list?
pub open spec fn pk_supplied(cs: Seq<Seq<char>>, pk: Seq<char>) -> bool {
    exists|i: int| 0 <= i < cs.len() && cs[i] == pk
}

/// The last position naming the primary key; the last value given for it
/// wins.
pub open spec fn pk_last_idx(cs: Seq<Seq<char>>, pk: Seq<char>) -> int
    decreases cs.len(),
{
    if cs.len() == 0 {
        -1
    } else if cs.last() == pk {
        cs.len() - 1
    } else {
        pk_last_idx(cs.drop_last(), pk)
    }
}

/// Does the primary-key column hold Integer values?
pub open spec fn pk_row_integer(t: Table) -> bool {
    t.rows@[t.col_idx(t.primary_key@)] matches Row::Integer(_)
}

/// Does the engine auto-assign the key for this insertion: the table has
/// a primary key and the caller did not name it?
pub open spec fn auto_assigns(t: Table, cs: Seq<Seq<char>>) -> bool {
    t.primary_key@ != "-1"@ && !pk_supplied(cs, t.primary_key@)
}

/// The rowid of the inserted row: the explicitly supplied key value when
/// the table's Integer primary key is named in the column list, and the
/// successor of the last rowid otherwise.  Nothing when the supplied
/// value does not read as an integer or the rowid space is exhausted.
pub open spec fn spec_rowid(t: Table, cs: Seq<Seq<char>>, vs: Seq<Seq<char>>) -> Option<i64> {
    if t.primary_key@ != "-1"@ && pk_supplied(cs, t.primary_key@) && pk_row_integer(t) {
        let k = pk_last_idx(cs, t.primary_key@);
        if 0 <= k < vs.len() && parses_as_i64(vs[k]) {
            Some(int_literal_val(vs[k]) as i64)
        } else {
            None
        }
    } else if t.last_rowid < i64::MAX {
        Some((t.last_rowid + 1) as i64)
    } else {
        None
    }
}

/// Can this row store accept the resolved text?
pub open spec fn can_store(r: Row, v: Seq<char>) -> bool {
    match r {
        Row::Integer(_) => parses_as_i32(v),
        Row::Text(_) => true,
        Row::Real(_) => is_real_literal(v),
        Row::Bool(_) => parses_as_bool(v),
        Row::NoStore => false,
    }
}

/// Row store `after` is `before` with rowid `rid` bound to the value that
/// the text `v` reads as.
pub open spec fn row_after_write(before: Row, after: Row, rid: i64, v: Seq<char>) -> bool {
    match (before, after) {
        (Row::Integer(b), Row::Integer(a)) => {
            &&& a.wf()
            &&& forall|q: i64| #[trigger] a.spec_get(q) == if q == rid {
                Some((int_literal_val(v) as i32))
            } else {
                b.spec_get(q)
            }
            &&& a.entries@.len() == b.entries@.len() + (if b.spec_get(rid) is Some {
                0int
            } else {
                1int
            })
        },
        (Row::Text(b), Row::Text(a)) => {
            &&& a.wf()
            &&& forall|q: i64| #[trigger] sv_get(a.entries@, q) == if q == rid {
                Some(v)
            } else {
                sv_get(b.entries@, q)
            }
            &&& a.entries@.len() == b.entries@.len() + (if b.spec_get(rid) is Some {
                0int
            } else {
                1int
            })
        },
        (Row::Real(b), Row::Real(a)) => {
            &&& a.wf()
            &&& forall|q: i64| #[trigger] sv_get(a.entries@, q) == if q == rid {
                Some(v)
            } else {
                sv_get(b.entries@, q)
            }
            &&& a.entries@.len() == b.entries@.len() + (if b.spec_get(rid) is Some {
                0int
            } else {
                1int
            })
        },
        (Row::Bool(b), Row::Bool(a)) => {
            &&& a.wf()
            &&& forall|q: i64| #[trigger] a.spec_get(q) == if q == rid {
                Some(v == "true"@)
            } else {
                b.spec_get(q)
            }
            &&& a.entries@.len() == b.entries@.len() + (if b.spec_get(rid) is Some {
                0int
            } else {
                1int
            })
        },
        _ => false,
    }
}

/// Index `after` is `before` with the value that `v` reads as bound to
/// rowid `rid`; columns without an index stay without one.
pub open spec fn index_after_write(before: Index, after: Index, rid: i64, v: Seq<char>) -> bool {
    match (before, after) {
        (Index::Integer(b), Index::Integer(a)) => {
            &&& a.wf()
            &&& forall|q: i32| #[trigger] a.spec_get(q) == if q == int_literal_val(v) as i32 {
                Some(rid)
            } else {
                b.spec_get(q)
            }
        },
        (Index::Text(b), Index::Text(a)) => {
            &&& a.wf()
            &&& forall|q: Seq<char>| #[trigger] a.spec_get(q) == if q == v {
                Some(rid)
            } else {
                b.spec_get(q)
            }
        },
        (Index::NoIndex, Index::NoIndex) => true,
        _ => false,
    }
}

/// Row store `after` is `before` with the auto-assigned key: rowid `rid`
/// bound to `rid` itself, narrowed to the column type.
pub open spec fn row_after_auto(before: Row, after: Row, rid: i64) -> bool {
    match (before, after) {
        (Row::Integer(b), Row::Integer(a)) => {
            &&& a.wf()
            &&& forall|q: i64| #[trigger] a.spec_get(q) == if q == rid {
                Some((rid as i32))
            } else {
                b.spec_get(q)
            }
            &&& a.entries@.len() == b.entries@.len() + (if b.spec_get(rid) is Some {
                0int
            } else {
                1int
            })
        },
        _ => false,
    }
}

/// Index `after` is `before` with the auto-assigned key bound to its
/// rowid.
pub open spec fn index_after_auto(before: Index, after: Index, rid: i64) -> bool {
    match (before, after) {
        (Index::Integer(b), Index::Integer(a)) => {
            &&& a.wf()
            &&& forall|q: i32| #[trigger] a.spec_get(q) == if q == rid as i32 {
                Some(rid)
            } else {
                b.spec_get(q)
            }
        },
        _ => false,
    }
}

/// What the insertion does to column `i`: writes the resolved text, or
/// auto-assigns the key at the primary-key column, or leaves the column
/// alone.
pub open spec fn col_result(
    t0: Table,
    t1: Table,
    cs: Seq<Seq<char>>,
    vs: Seq<Seq<char>>,
    rid: i64,
    i: int,
) -> bool {
    match resolved_at(spec_colnames(t0), t0.primary_key@, cs, vs, i) {
        Some(v) => row_after_write(t0.rows@[i], t1.rows@[i], rid, v) && index_after_write(
            t0.columns@[i].index,
            t1.columns@[i].index,
            rid,
            v,
        ),
        None => if auto_assigns(t0, cs) && t0.rows@[i] matches Row::Integer(_) {
            row_after_auto(t0.rows@[i], t1.rows@[i], rid) && index_after_auto(
                t0.columns@[i].index,
                t1.columns@[i].index,
                rid,
            )
        } else {
            t1.rows@[i] == t0.rows@[i] && t1.columns@[i].index == t0.columns@[i].index
        },
    }
}

/// Is the whole insertion accepted: the rowid is available, an
/// auto-assigned key fits its column type, and every resolved text reads
/// in its column's type?
pub open spec fn insert_ok(t: Table, cs: Seq<Seq<char>>, vs: Seq<Seq<char>>) -> bool {
    match spec_rowid(t, cs, vs) {
        None => false,
        Some(rid) => {
            &&& (auto_assigns(t, cs) && t.has_column(t.primary_key@) && pk_row_integer(t)
                ==> i32::MIN <= rid <= i32::MAX)
            &&& forall|i: int|
                0 <= i < t.columns@.len() ==> match resolved_at(
                    spec_colnames(t),
                    t.primary_key@,
                    cs,
                    vs,
                    i,
                ) {
                    Some(v) => can_store(#[trigger] t.rows@[i], v),
                    None => true,
                }
        },
    }
}

/// Do the two tables agree on everything but row stores, index contents
/// and the last rowid?
pub open spec fn same_schema(t0: Table, t1: Table) -> bool {
    &&& t1.tb_name == t0.tb_name
    &&& t1.columns@.len() == t0.columns@.len()
    &&& t1.rows@.len() == t0.rows@.len()
    &&& t1.indexes == t0.indexes
    &&& t1.primary_key == t0.primary_key
    &&& forall|i: int|
        0 <= i < t0.columns@.len() ==> {
            let c0 = t0.columns@[i];
            let c1 = #[trigger] t1.columns@[i];
            &&& c1.column_name == c0.column_name
            &&& c1.datatype == c0.datatype
            &&& c1.is_pk == c0.is_pk
            &&& c1.not_null == c0.not_null
            &&& c1.is_unique == c0.is_unique
            &&& c1.is_indexed == c0.is_indexed
        }
}

/// A well-formed table stays well formed across an insertion whose
/// per-column results hold.
proof fn lemma_insert_preserves_wf(
    t0: Table,
    t1: Table,
    cs: Seq<Seq<char>>,
    vs: Seq<Seq<char>>,
    rid: i64,
)
    requires
        t0.wf(),
        same_schema(t0, t1),
        forall|i: int| 0 <= i < t0.columns@.len() ==> col_result(t0, t1, cs, vs, rid, i),
    ensures
        t1.wf(),
{
    assert forall|i: int, j: int|
        0 <= i < j < t1.columns@.len() implies (#[trigger] t1.columns@[i]).column_name@ != (
    #[trigger] t1.columns@[j]).column_name@ by {
        assert(t1.columns@[i].column_name == t0.columns@[i].column_name);
        assert(t1.columns@[j].column_name == t0.columns@[j].column_name);
    }
    assert forall|i: int|
        0 <= i < t1.columns@.len() && (#[trigger] t1.columns@[i]).is_pk implies t1.columns@[i].column_name@
        == t1.primary_key@ by {
        assert(t1.columns@[i].is_pk == t0.columns@[i].is_pk);
    }
    if t1.primary_key@ != "-1"@ {
        let w = t0.col_idx(t0.primary_key@);
        assert(t0.has_column(t0.primary_key@));
        assert(0 <= w < t0.columns@.len() && t0.columns@[w].column_name@ == t0.primary_key@);
        assert(t1.columns@[w].column_name == t0.columns@[w].column_name);
        assert(t1.has_column(t1.primary_key@));
    }
    assert forall|i: int| 0 <= i < t1.columns@.len() implies {
        &&& row_matches(#[trigger] t1.rows@[i], t1.columns@[i].datatype)
        &&& row_wf(t1.rows@[i])
        &&& index_matches(t1.columns@[i].index, t1.columns@[i].datatype)
        &&& index_wf(t1.columns@[i].index)
        &&& col_consistent(t1.columns@[i].index, t1.rows@[i])
    } by {
        assert(col_result(t0, t1, cs, vs, rid, i));
        assert(t1.columns@[i].datatype == t0.columns@[i].datatype);
        assert(row_matches(t0.rows@[i], t0.columns@[i].datatype));
        assert(index_matches(t0.columns@[i].index, t0.columns@[i].datatype));
        lemma_col_consistent_after(t0, t1, cs, vs, rid, i);
    }
}

/// Consistency of one column's index with its row store survives the
/// insertion.
proof fn lemma_col_consistent_after(
    t0: Table,
    t1: Table,
    cs: Seq<Seq<char>>,
    vs: Seq<Seq<char>>,
    rid: i64,
    i: int,
)
    requires
        t0.wf(),
        0 <= i < t0.columns@.len(),
        t0.columns@.len() == t1.columns@.len(),
        t0.rows@.len() == t0.columns@.len(),
        t1.rows@.len() == t1.columns@.len(),
        col_result(t0, t1, cs, vs, rid, i),
    ensures
        row_matches(t1.rows@[i], t0.columns@[i].datatype),
        row_wf(t1.rows@[i]),
        index_matches(t1.columns@[i].index, t0.columns@[i].datatype),
        index_wf(t1.columns@[i].index),
        col_consistent(t1.columns@[i].index, t1.rows@[i]),
{
    assert(row_matches(t0.rows@[i], t0.columns@[i].datatype));
    assert(row_wf(t0.rows@[i]));
    assert(index_matches(t0.columns@[i].index, t0.columns@[i].datatype));
    assert(index_wf(t0.columns@[i].index));
    assert(col_consistent(t0.columns@[i].index, t0.rows@[i]));
    match (t1.columns@[i].index, t1.rows@[i]) {
        (Index::Integer(a_ix), Row::Integer(a_st)) => {
            match (t0.columns@[i].index, t0.rows@[i]) {
                (Index::Integer(b_ix), Row::Integer(b_st)) => {
                    assert forall|p: int| 0 <= p < a_ix.entries@.len() implies a_st.spec_get(
                        (#[trigger] a_ix.entries@[p]).1,
                    ) is Some by {
                        lemma_pm_get_unique_at(a_ix.entries@, p);
                        let k = a_ix.entries@[p].0;
                        let r = a_ix.entries@[p].1;
                        assert(a_ix.spec_get(k) == Some(r));
                        if b_ix.spec_get(k) == Some(r) {
                            lemma_pm_get_entry(b_ix.entries@, k);
                            let p0 = choose|p0: int|
                                0 <= p0 < b_ix.entries@.len() && (#[trigger] b_ix.entries@[p0]).0
                                    == k && b_ix.entries@[p0].1 == b_ix.spec_get(k)->0;
                            assert(b_st.spec_get(b_ix.entries@[p0].1) is Some);
                        }
                    }
                },
                _ => {},
            }
        },
        (Index::Text(a_ix), Row::Text(a_st)) => {
            match (t0.columns@[i].index, t0.rows@[i]) {
                (Index::Text(b_ix), Row::Text(b_st)) => {
                    assert forall|p: int| 0 <= p < a_ix.entries@.len() implies a_st.spec_get(
                        (#[trigger] a_ix.entries@[p]).1,
                    ) is Some by {
                        lemma_tm_get_unique_at(a_ix.entries@, p);
                        let k = a_ix.entries@[p].0@;
                        let r = a_ix.entries@[p].1;
                        assert(a_ix.spec_get(k) == Some(r));
                        if b_ix.spec_get(k) == Some(r) {
                            lemma_tm_get_entry(b_ix.entries@, k);
                            let p0 = choose|p0: int|
                                0 <= p0 < b_ix.entries@.len() && (#[trigger] b_ix.entries@[p0]).0@
                                    == k && b_ix.entries@[p0].1 == b_ix.spec_get(k)->0;
                            assert(b_st.spec_get(b_ix.entries@[p0].1) is Some);
                        }
                        lemma_sv_from_pm(a_st.entries@, r);
                        lemma_sv_from_pm(b_st.entries@, r);
                    }
                },
                _ => {},
            }
        },
        _ => {},
    }
}

/// When the caller does not name the primary key, the walk resolves
/// nothing at the key column.
pub proof fn lemma_pk_resolved_none(t0: Table, cs: Seq<Seq<char>>, vs: Seq<Seq<char>>, p: int)
    requires
        !pk_supplied(cs, t0.primary_key@),
        0 <= p < t0.columns@.len(),
        t0.columns@[p].column_name@ == t0.primary_key@,
    ensures
        resolved_at(spec_colnames(t0), t0.primary_key@, cs, vs, p) is None,
{
    let names = spec_colnames(t0);
    assert(names[p] == t0.columns@[p].column_name@);
    lemma_cursor_bounds(names, cs, p);
    let j = cursor(names, cs, p);
    if j < cs.len() && cs[j] == names[p] {
        assert(pk_supplied(cs, t0.primary_key@));
    }
}

/// Does the saved resolution hold the resolved text?
pub open spec fn opt_matches(o: Option<String>, r: Option<Seq<char>>) -> bool {
    match (o, r) {
        (Some(s), Some(v)) => s@ == v,
        (None, None) => true,
        _ => false,
    }
}

impl Table {
    /// Inserts one row, after `validate_unique_constraint` has passed.
    /// The rowid is the explicitly supplied key value when the Integer
    /// primary key is named in the column list, and `last_rowid + 1`
    /// otherwise; an omitted Integer key is auto-assigned the rowid as
    /// its value.  `last_rowid` advances to the row's rowid when that is
    /// larger and never decreases, so a supplied key below it stores the
    /// row without moving the rowid sequence backwards.  The remaining values are matched to declared columns
    /// with a single forward cursor over the caller's list, so a column
    /// list given out of declaration order leaves unmatched columns with
    /// the sentinel text `Null`; this positional behaviour is part of the
    /// engine's caller contract.  Every value is checked before any state
    /// changes, so a rejected insertion reports an error and leaves the
    /// table untouched.
    pub fn insert_row(&mut self, cols: &Vec<String>, values: &Vec<String>) -> (r: Result<
        (),
        SQLRiteError,
    >)
        requires
            old(self).wf(),
            cols@.len() == values@.len(),
        ensures
            final(self).wf(),
            same_schema(*old(self), *final(self)),
            r is Err ==> *final(self) == *old(self),
            r matches Err(e) ==> (e matches SQLRiteError::General(_)),
            (r is Ok <==> insert_ok(*old(self), strs_view(cols@), strs_view(values@))),
            r is Ok ==> ({
                let cs = strs_view(cols@);
                let vs = strs_view(values@);
                let rid = spec_rowid(*old(self), cs, vs)->0;
                &&& final(self).last_rowid == (if rid > old(self).last_rowid {
                    rid
                } else {
                    old(self).last_rowid
                })
                &&& forall|i: int|
                    0 <= i < old(self).columns@.len() ==> col_result(
                        *old(self),
                        *final(self),
                        cs,
                        vs,
                        rid,
                        i,
                    )
            }),
    {
        let ghost t0 = *self;
        let ghost cs = strs_view(cols@);
        let ghost vs = strs_view(values@);
        let ghost names = spec_colnames(t0);
        let ncols = self.columns.len();
        let cols_len = cols.len();
        proof {
            reveal_strlit("-1");
        }

        // Is there a primary key, and does the caller name it?
        let has_pk = !crate::strconv::str_eq(self.primary_key.as_str(), "-1");
        let mut supplied = false;
        let mut pk_k: usize = 0;
        let mut j0: usize = 0;
        while j0 < cols_len
            invariant
                0 <= j0 <= cols_len,
                cols_len == cs.len(),
                cs == strs_view(cols@),
                *self == t0,
                supplied == pk_supplied(cs.take(j0 as int), t0.primary_key@),
                supplied ==> 0 <= pk_k < j0 && pk_k as int == pk_last_idx(
                    cs.take(j0 as int),
                    t0.primary_key@,
                ),
            decreases cols_len - j0,
        {
            let ghost pre = cs.take(j0 as int);
            let ghost pre1 = cs.take((j0 + 1) as int);
            proof {
                assert(pre1.drop_last() =~= pre);
                assert(pre1.last() == cs[j0 as int]);
            }
            if cols[j0] == self.primary_key {
                supplied = true;
                pk_k = j0;
                proof {
                    assert(pre1[j0 as int] == t0.primary_key@);
                    assert(pk_supplied(pre1, t0.primary_key@));
                }
            } else {
                proof {
                    assert forall|w: int|
                        0 <= w < pre1.len() && pre1[w] == t0.primary_key@ implies 0 <= w
                        < pre.len() && pre[w] == t0.primary_key@ by {}
                    assert(pk_supplied(pre1, t0.primary_key@) == pk_supplied(
                        pre,
                        t0.primary_key@,
                    ));
                }
            }
            j0 = j0 + 1;
        }
        proof {
            assert(cs.take(cols_len as int) =~= cs);
        }

        // Locate the primary-key column.
        let mut pidx: usize = 0;
        let mut pk_is_int = false;
        if has_pk {
            match self.find_column(&self.primary_key) {
                Some(p) => {
                    pidx = p;
                },
                None => {
                    proof {
                        assert(t0.has_column(t0.primary_key@));
                        assert(false);
                    }
                },
            }
            pk_is_int = match &self.rows[pidx] {
                Row::Integer(_) => true,
                _ => false,
            };
            proof {
                assert(pk_is_int == pk_row_integer(t0));
            }
        }

        // Settle the rowid for this row.
        let next_rowid: i64;
        if has_pk && supplied && pk_is_int {
            match crate::strconv::parse_i64(values[pk_k].as_str()) {
                Some(v) => {
                    next_rowid = v;
                },
                None => {
                    proof {
                        assert(spec_rowid(t0, cs, vs) is None);
                    }
                    return Err(
                        SQLRiteError::General(
                            String::from_str(
                                "Error: cannot read the supplied primary key value as an integer",
                            ),
                        ),
                    );
                },
            }
        } else {
            if self.last_rowid == i64::MAX {
                proof {
                    assert(spec_rowid(t0, cs, vs) is None);
                }
                return Err(
                    SQLRiteError::General(
                        String::from_str("Error: the rowid space is exhausted"),
                    ),
                );
            }
            next_rowid = self.last_rowid + 1;
        }
        proof {
            assert(spec_rowid(t0, cs, vs) == Some(next_rowid));
        }

        // Resolve the caller's values against the declared columns and
        // check every resolved text before changing anything.
        let mut resolved: Vec<Option<String>> = Vec::new();
        let mut j: usize = 0;
        let mut i: usize = 0;
        proof {
            reveal_strlit("Null");
        }
        while i < ncols
            invariant
                0 <= i <= ncols,
                ncols == t0.columns@.len(),
                t0.wf(),
                *self == t0,
                cols_len == cs.len(),
                cs == strs_view(cols@),
                vs == strs_view(values@),
                values@.len() == cols@.len(),
                names == spec_colnames(t0),
                t0.rows@.len() == ncols,
                j as int == cursor(names, cs, i as int),
                0 <= j <= cols_len,
                resolved@.len() == i,
                spec_rowid(t0, cs, vs) == Some(next_rowid),
                forall|k: int|
                    0 <= k < i ==> opt_matches(
                        #[trigger] resolved@[k],
                        resolved_at(names, t0.primary_key@, cs, vs, k),
                    ),
                forall|k: int|
                    0 <= k < i ==> (resolved_at(names, t0.primary_key@, cs, vs, k) matches Some(
                        v,
                    ) ==> can_store(#[trigger] t0.rows@[k], v)),
            decreases ncols - i,
        {
            proof {
                assert(names[i as int] == t0.columns@[i as int].column_name@);
            }
            let matched = j < cols_len && cols[j] == self.columns[i].column_name;
            let val: Option<String>;
            if matched {
                val = Some(values[j].clone());
                j = j + 1;
            } else if self.columns[i].column_name == self.primary_key {
                val = None;
            } else {
                val = Some(String::from_str("Null"));
            }
            proof {
                assert(cursor(names, cs, i + 1) == j as int);
                assert(opt_matches(val, resolved_at(names, t0.primary_key@, cs, vs, i as int)));
            }
            match &val {
                Some(s) => {
                    let ok = match &self.rows[i] {
                        Row::Integer(_) => crate::strconv::parse_i32(s.as_str()).is_some(),
                        Row::Text(_) => true,
                        Row::Real(_) => crate::strconv::real_accepts(s.as_str()),
                        Row::Bool(_) => crate::strconv::parse_bool(s.as_str()).is_some(),
                        Row::NoStore => false,
                    };
                    if !ok {
                        proof {
                            assert(resolved_at(names, t0.primary_key@, cs, vs, i as int)
                                matches Some(v) && !can_store(t0.rows@[i as int], v));
                            assert(!insert_ok(t0, cs, vs));
                        }
                        return Err(
                            SQLRiteError::General(
                                String::from_str("Error: cannot store value ").concat(
                                    s.as_str(),
                                ).concat(" in column ").concat(
                                    self.columns[i].column_name.as_str(),
                                ),
                            ),
                        );
                    }
                },
                None => {},
            }
            resolved.push(val);
            i = i + 1;
        }

        // An auto-assigned key must fit the column's 32-bit value type.
        let do_auto = has_pk && !supplied;
        proof {
            assert(do_auto == auto_assigns(t0, cs));
        }
        if do_auto && pk_is_int {
            if next_rowid < -2147483648i64 || next_rowid > 2147483647i64 {
                proof {
                    assert(t0.has_column(t0.primary_key@));
                    assert(!insert_ok(t0, cs, vs));
                }
                return Err(
                    SQLRiteError::General(
                        String::from_str(
                            "Error: the assigned rowid does not fit the key column",
                        ),
                    ),
                );
            }
        }
        proof {
            assert(insert_ok(t0, cs, vs));
        }

        // Auto-assign the key before walking the columns.
        if do_auto && pk_is_int {
            let ghost pre_row = t0.rows@[pidx as int];
            match &mut self.rows[pidx] {
                Row::Integer(st) => {
                    st.set_value(next_rowid, next_rowid as i32);
                },
                _ => {
                    proof {
                        assert(false);
                    }
                },
            }
            proof {
                match (pre_row, self.rows@[pidx as int]) {
                    (Row::Integer(b), Row::Integer(a)) => {
                        lemma_st_set(b.entries@, next_rowid, next_rowid as i32);
                        assert(row_after_auto(pre_row, self.rows@[pidx as int], next_rowid));
                    },
                    _ => {},
                }
            }
            let ghost pre_ix = t0.columns@[pidx as int].index;
            match &mut self.columns[pidx].index {
                Index::Integer(ix) => {
                    ix.set(next_rowid as i32, next_rowid);
                },
                _ => {
                    proof {
                        assert(row_matches(t0.rows@[pidx as int], t0.columns@[
                            pidx as int
                        ].datatype));
                        assert(index_matches(pre_ix, t0.columns@[pidx as int].datatype));
                        assert(false);
                    }
                },
            }
            proof {
                match (pre_ix, self.columns@[pidx as int].index) {
                    (Index::Integer(b), Index::Integer(a)) => {
                        lemma_pm_set_unique(b.entries@, next_rowid as i32, next_rowid);
                        assert forall|q: i32| true implies #[trigger] a.spec_get(q) == (if q
                            == next_rowid as i32 {
                            Some(next_rowid)
                        } else {
                            b.spec_get(q)
                        }) by {
                            lemma_pm_get_set(b.entries@, next_rowid as i32, next_rowid, q);
                        }
                        assert(index_after_auto(
                            pre_ix,
                            self.columns@[pidx as int].index,
                            next_rowid,
                        ));
                    },
                    _ => {},
                }
                lemma_pk_resolved_none(t0, cs, vs, pidx as int);
                assert(col_result(t0, *self, cs, vs, next_rowid, pidx as int));
            }
        }

        // Walk the declared columns and store each resolved value, with
        // its index entry where the column carries an index.
        let ghost pkc = t0.primary_key@;
        let mut i2: usize = 0;
        while i2 < ncols
            invariant
                0 <= i2 <= ncols,
                ncols == t0.columns@.len(),
                t0.wf(),
                same_schema(t0, *self),
                self.rows@.len() == ncols,
                self.columns@.len() == ncols,
                self.last_rowid == t0.last_rowid,
                cols_len == cs.len(),
                cs == strs_view(cols@),
                vs == strs_view(values@),
                names == spec_colnames(t0),
                pkc == t0.primary_key@,
                resolved@.len() == ncols,
                spec_rowid(t0, cs, vs) == Some(next_rowid),
                insert_ok(t0, cs, vs),
                do_auto == auto_assigns(t0, cs),
                has_pk == (t0.primary_key@ != "-1"@),
                has_pk ==> 0 <= pidx < ncols && pidx as int == t0.col_idx(pkc)
                    && t0.columns@[pidx as int].column_name@ == pkc,
                has_pk ==> pk_is_int == pk_row_integer(t0),
                forall|k: int|
                    0 <= k < ncols ==> opt_matches(
                        #[trigger] resolved@[k],
                        resolved_at(names, pkc, cs, vs, k),
                    ),
                forall|k: int|
                    0 <= k < ncols ==> (resolved_at(names, pkc, cs, vs, k) matches Some(v)
                        ==> can_store(#[trigger] t0.rows@[k], v)),
                do_auto && pk_is_int ==> col_result(t0, *self, cs, vs, next_rowid, pidx as int),
                forall|k: int|
                    0 <= k < i2 ==> col_result(t0, *self, cs, vs, next_rowid, k),
                forall|k: int|
                    i2 <= k < ncols && !(do_auto && pk_is_int && k == pidx as int) ==> (
                    #[trigger] self.rows@[k]) == t0.rows@[k] && self.columns@[k].index
                        == t0.columns@[k].index,
            decreases ncols - i2,
        {
            let ghost prev = *self;
            let ghost res_i = resolved_at(names, pkc, cs, vs, i2 as int);
            let is_none = match &resolved[i2] {
                Some(_) => false,
                None => true,
            };
            if is_none {
                proof {
                    assert(opt_matches(resolved@[i2 as int], res_i));
                    assert(res_i is None);
                    assert(names[i2 as int] == t0.columns@[i2 as int].column_name@);
                    if do_auto && pk_is_int && i2 != pidx {
                        // The key column is the only one resolved to nothing.
                        assert(t0.columns@[i2 as int].column_name@ == pkc);
                        assert(t0.columns@[pidx as int].column_name@ == pkc);
                        if (i2 as int) < pidx as int {
                            assert(t0.columns@[i2 as int].column_name@ != t0.columns@[
                                pidx as int
                            ].column_name@);
                        } else {
                            assert(t0.columns@[pidx as int].column_name@ != t0.columns@[
                                i2 as int
                            ].column_name@);
                        }
                        assert(false);
                    }
                    if !(do_auto && pk_is_int) {
                        if auto_assigns(t0, cs) && t0.rows@[i2 as int] matches Row::Integer(_) {
                            assert(has_pk);
                            assert(t0.columns@[i2 as int].column_name@ == pkc);
                            if i2 != pidx {
                                if (i2 as int) < pidx as int {
                                    assert(t0.columns@[i2 as int].column_name@ != t0.columns@[
                                        pidx as int
                                    ].column_name@);
                                } else {
                                    assert(t0.columns@[pidx as int].column_name@ != t0.columns@[
                                        i2 as int
                                    ].column_name@);
                                }
                                assert(false);
                            }
                            assert(pk_row_integer(t0));
                            assert(false);
                        }
                        assert(self.rows@[i2 as int] == t0.rows@[i2 as int]);
                        assert(col_result(t0, *self, cs, vs, next_rowid, i2 as int));
                    }
                }
            } else {
                proof {
                    assert(opt_matches(resolved@[i2 as int], res_i));
                    if do_auto && pk_is_int && i2 == pidx {
                        lemma_pk_resolved_none(t0, cs, vs, pidx as int);
                        assert(false);
                    }
                }
                let s = match &resolved[i2] {
                    Some(s) => s.clone(),
                    None => String::new(),
                };
                let ghost v = res_i->0;
                proof {
                    assert(s@ == v);
                    assert(can_store(t0.rows@[i2 as int], v));
                    assert(self.rows@[i2 as int] == t0.rows@[i2 as int]);
                    assert(self.columns@[i2 as int].index == t0.columns@[i2 as int].index);
                }
                let ghost pre_row = t0.rows@[i2 as int];
                match &mut self.rows[i2] {
                    Row::Integer(st) => {
                        let pv = match crate::strconv::parse_i32(s.as_str()) {
                            Some(pv) => pv,
                            None => {
                                proof {
                                    assert(false);
                                }
                                0
                            },
                        };
                        st.set_value(next_rowid, pv);
                    },
                    Row::Text(st) => {
                        st.set_value(next_rowid, s.clone());
                    },
                    Row::Real(st) => {
                        st.set_value(next_rowid, s.clone());
                    },
                    Row::Bool(st) => {
                        let pv = match crate::strconv::parse_bool(s.as_str()) {
                            Some(pv) => pv,
                            None => {
                                proof {
                                    assert(false);
                                }
                                false
                            },
                        };
                        st.set_value(next_rowid, pv);
                    },
                    Row::NoStore => {
                        proof {
                            assert(false);
                        }
                    },
                }
                proof {
                    match (pre_row, self.rows@[i2 as int]) {
                        (Row::Integer(b), Row::Integer(a)) => {
                            lemma_st_set(b.entries@, next_rowid, (int_literal_val(v) as i32));
                        },
                        (Row::Text(b), Row::Text(a)) => {
                            lemma_st_set(b.entries@, next_rowid, s);
                            assert forall|q: i64| true implies #[trigger] sv_get(a.entries@, q)
                                == (if q == next_rowid {
                                Some(v)
                            } else {
                                sv_get(b.entries@, q)
                            }) by {
                                lemma_sv_from_pm(a.entries@, q);
                                lemma_sv_from_pm(b.entries@, q);
                            }
                        },
                        (Row::Real(b), Row::Real(a)) => {
                            lemma_st_set(b.entries@, next_rowid, s);
                            assert forall|q: i64| true implies #[trigger] sv_get(a.entries@, q)
                                == (if q == next_rowid {
                                Some(v)
                            } else {
                                sv_get(b.entries@, q)
                            }) by {
                                lemma_sv_from_pm(a.entries@, q);
                                lemma_sv_from_pm(b.entries@, q);
                            }
                        },
                        (Row::Bool(b), Row::Bool(a)) => {
                            lemma_st_set(b.entries@, next_rowid, v == "true"@);
                        },
                        _ => {},
                    }
                    assert(row_after_write(pre_row, self.rows@[i2 as int], next_rowid, v));
                }
                let ghost pre_ix = t0.columns@[i2 as int].index;
                match &mut self.columns[i2].index {
                    Index::Integer(ix) => {
                        let pv = match crate::strconv::parse_i32(s.as_str()) {
                            Some(pv) => pv,
                            None => {
                                proof {
                                    assert(row_matches(pre_row, t0.columns@[
                                        i2 as int
                                    ].datatype));
                                    assert(index_matches(pre_ix, t0.columns@[
                                        i2 as int
                                    ].datatype));
                                    assert(false);
                                }
                                0
                            },
                        };
                        ix.set(pv, next_rowid);
                    },
                    Index::Text(tx) => {
                        tx.set(s.clone(), next_rowid);
                    },
                    Index::NoIndex => {},
                }
                proof {
                    match (pre_ix, self.columns@[i2 as int].index) {
                        (Index::Integer(b), Index::Integer(a)) => {
                            lemma_pm_set_unique(
                                b.entries@,
                                (int_literal_val(v) as i32),
                                next_rowid,
                            );
                            assert forall|q: i32| true implies #[trigger] a.spec_get(q) == (if q
                                == int_literal_val(v) as i32 {
                                Some(next_rowid)
                            } else {
                                b.spec_get(q)
                            }) by {
                                lemma_pm_get_set(
                                    b.entries@,
                                    (int_literal_val(v) as i32),
                                    next_rowid,
                                    q,
                                );
                            }
                        },
                        (Index::Text(b), Index::Text(a)) => {
                            lemma_tm_set_unique(b.entries@, s, next_rowid);
                            assert forall|q: Seq<char>| true implies #[trigger] a.spec_get(q)
                                == (if q == v {
                                Some(next_rowid)
                            } else {
                                b.spec_get(q)
                            }) by {
                                lemma_tm_get_set(b.entries@, s, next_rowid, q);
                            }
                        },
                        _ => {},
                    }
                    assert(index_after_write(
                        pre_ix,
                        self.columns@[i2 as int].index,
                        next_rowid,
                        v,
                    ));
                    assert(col_result(t0, *self, cs, vs, next_rowid, i2 as int));
                }
            }
            proof {
                // Columns other than this one kept their state, so the
                // results settled so far still hold.
                assert forall|k: int|
                    0 <= k < ncols && k != i2 as int implies self.rows@[k] == prev.rows@[k]
                    && self.columns@[k] == prev.columns@[k] by {}
                assert forall|k: int| 0 <= k < i2 as int implies col_result(
                    t0,
                    *self,
                    cs,
                    vs,
                    next_rowid,
                    k,
                ) by {
                    assert(col_result(t0, prev, cs, vs, next_rowid, k));
                    assert(self.rows@[k] == prev.rows@[k]);
                    assert(self.columns@[k].index == prev.columns@[k].index);
                }
                if do_auto && pk_is_int && pidx != i2 {
                    assert(col_result(t0, prev, cs, vs, next_rowid, pidx as int));
                    assert(self.rows@[pidx as int] == prev.rows@[pidx as int]);
                    assert(col_result(t0, *self, cs, vs, next_rowid, pidx as int));
                }
            }
            i2 = i2 + 1;
        }
        let ghost done = *self;
        if next_rowid > self.last_rowid {
            self.last_rowid = next_rowid;
        }
        proof {
            assert(self.rows@ == done.rows@);
            assert(self.columns@ == done.columns@);
            assert forall|k: int| 0 <= k < ncols implies col_result(
                t0,
                *self,
                cs,
                vs,
                next_rowid,
                k,
            ) by {
                assert(col_result(t0, done, cs, vs, next_rowid, k));
                assert(self.rows@[k] == done.rows@[k]);
                assert(self.columns@[k].index == done.columns@[k].index);
            }
            lemma_insert_preserves_wf(t0, *self, cs, vs, next_rowid);
        }
        Ok(())
    }
}

// ---------------------------------------------------------------------------
// Presentation
// ---------------------------------------------------------------------------

/// The display text of entry `i` of a row store: integers in decimal,
/// booleans as `true` / `false`, texts and numeric texts as stored.
pub open spec fn row_cell(r: Row, i: int) -> Seq<char> {
    match r {
        Row::Integer(st) => crate::strconv::int_str(st.entries@[i].1 as int),
        Row::Text(st) => st.entries@[i].1@,
        Row::Real(st) => st.entries@[i].1@,
        Row::Bool(st) => if st.entries@[i].1 {
            "true"@
        } else {
            "false"@
        },
        Row::NoStore => Seq::empty(),
    }
}

/// A boolean as display text.
fn bool_str(b: bool) -> (r: &'static str)
    ensures
        b ==> r@ == "true"@,
        !b ==> r@ == "false"@,
{
    if b {
        "true"
    } else {
        "false"
    }
}

impl Row {
    /// The stored values as display texts, in rowid order.  A column
    /// without a store has no data to render.
    pub fn get_serialized_col_data(&self) -> (r: Vec<String>)
        requires
            !(*self matches Row::NoStore),
        ensures
            r@.len() == row_count(*self),
            forall|i: int| 0 <= i < r@.len() ==> (#[trigger] r@[i])@ == row_cell(*self, i),
    {
        let mut out: Vec<String> = Vec::new();
        match self {
            Row::Integer(st) => {
                let n = st.entries.len();
                let mut i: usize = 0;
                while i < n
                    invariant
                        0 <= i <= n,
                        n == st.entries@.len(),
                        out@.len() == i,
                        forall|k: int| 0 <= k < i ==> (#[trigger] out@[k])@ == row_cell(
                            Row::Integer(*st),
                            k,
                        ),
                    decreases n - i,
                {
                    out.push(crate::strconv::i64_to_string(st.entries[i].1 as i64));
                    i = i + 1;
                }
            },
            Row::Text(st) => {
                let n = st.entries.len();
                let mut i: usize = 0;
                while i < n
                    invariant
                        0 <= i <= n,
                        n == st.entries@.len(),
                        out@.len() == i,
                        forall|k: int| 0 <= k < i ==> (#[trigger] out@[k])@ == row_cell(
                            Row::Text(*st),
                            k,
                        ),
                    decreases n - i,
                {
                    out.push(st.entries[i].1.clone());
                    i = i + 1;
                }
            },
            Row::Real(st) => {
                let n = st.entries.len();
                let mut i: usize = 0;
                while i < n
                    invariant
                        0 <= i <= n,
                        n == st.entries@.len(),
                        out@.len() == i,
                        forall|k: int| 0 <= k < i ==> (#[trigger] out@[k])@ == row_cell(
                            Row::Real(*st),
                            k,
                        ),
                    decreases n - i,
                {
                    out.push(st.entries[i].1.clone());
                    i = i + 1;
                }
            },
            Row::Bool(st) => {
                let n = st.entries.len();
                let mut i: usize = 0;
                while i < n
                    invariant
                        0 <= i <= n,
                        n == st.entries@.len(),
                        out@.len() == i,
                        forall|k: int| 0 <= k < i ==> (#[trigger] out@[k])@ == row_cell(
                            Row::Bool(*st),
                            k,
                        ),
                    decreases n - i,
                {
                    out.push(bool_str(st.entries[i].1).to_owned());
                    i = i + 1;
                }
            },
            Row::NoStore => {},
        }
        out
    }

    /// How many rowids the store binds.
    pub fn count(&self) -> (r: usize)
        requires
            !(*self matches Row::NoStore),
        ensures
            r == row_count(*self),
    {
        match self {
            Row::Integer(st) => st.len(),
            Row::Text(st) => st.len(),
            Row::Real(st) => st.len(),
            Row::Bool(st) => st.len(),
            Row::NoStore => 0,
        }
    }
}

impl Table {
    /// The schema as display rows: a header followed by one row per
    /// column with its name, affinity and constraint flags.  The caller
    /// renders these rows; this keeps the table's presentation derived
    /// entirely from its state.
    pub fn schema_rows(&self) -> (r: Vec<Vec<String>>)
        ensures
            r@.len() == 1 + self.columns@.len(),
            r@[0]@.len() == 5,
            forall|i: int|
                0 < i <= self.columns@.len() ==> {
                    let c = self.columns@[i - 1];
                    &&& (#[trigger] r@[i])@.len() == 5
                    &&& r@[i]@[0]@ == c.column_name@
                    &&& r@[i]@[2]@ == (if c.is_pk {
                        "true"@
                    } else {
                        "false"@
                    })
                    &&& r@[i]@[3]@ == (if c.is_unique {
                        "true"@
                    } else {
                        "false"@
                    })
                    &&& r@[i]@[4]@ == (if c.not_null {
                        "true"@
                    } else {
                        "false"@
                    })
                },
    {
        let mut rows: Vec<Vec<String>> = Vec::new();
        let mut header: Vec<String> = Vec::new();
        header.push(String::from_str("Column Name"));
        header.push(String::from_str("Data Type"));
        header.push(String::from_str("PRIMARY KEY"));
        header.push(String::from_str("UNIQUE"));
        header.push(String::from_str("NOT NULL"));
        rows.push(header);
        let n = self.columns.len();
        let mut i: usize = 0;
        while i < n
            invariant
                0 <= i <= n,
                n == self.columns@.len(),
                rows@.len() == 1 + i,
                rows@[0]@.len() == 5,
                forall|k: int|
                    0 < k <= i ==> {
                        let c = self.columns@[k - 1];
                        &&& (#[trigger] rows@[k])@.len() == 5
                        &&& rows@[k]@[0]@ == c.column_name@
                        &&& rows@[k]@[2]@ == (if c.is_pk {
                            "true"@
                        } else {
                            "false"@
                        })
                        &&& rows@[k]@[3]@ == (if c.is_unique {
                            "true"@
                        } else {
                            "false"@
                        })
                        &&& rows@[k]@[4]@ == (if c.not_null {
                            "true"@
                        } else {
                            "false"@
                        })
                    },
            decreases n - i,
        {
            let mut line: Vec<String> = Vec::new();
            line.push(self.columns[i].column_name.clone());
            line.push(self.columns[i].datatype.display_text());
            line.push(bool_str(self.columns[i].is_pk).to_owned());
            line.push(bool_str(self.columns[i].is_unique).to_owned());
            line.push(bool_str(self.columns[i].not_null).to_owned());
            rows.push(line);
            i = i + 1;
        }
        rows
    }

    /// The stored data as display rows: a header of column names, then
    /// one row per rowid of the first column's store.  Columns holding
    /// fewer values than that contribute empty cells; the rows of each
    /// column appear in its own rowid order.
    pub fn data_rows(&self) -> (r: Vec<Vec<String>>)
        requires
            self.columns@.len() > 0,
            self.rows@.len() == self.columns@.len(),
            forall|i: int| 0 <= i < self.rows@.len() ==> !((#[trigger] self.rows@[i])
                matches Row::NoStore),
        ensures
            r@.len() == 1 + row_count(self.rows@[0]),
            r@[0]@.len() == self.columns@.len(),
            forall|c: int| 0 <= c < self.columns@.len() ==> (#[trigger] r@[0]@[c])@
                == self.columns@[c].column_name@,
            forall|i: int|
                0 < i <= row_count(self.rows@[0]) ==> (#[trigger] r@[i])@.len()
                    == self.columns@.len(),
            forall|i: int, c: int|
                0 < i <= row_count(self.rows@[0]) && 0 <= c < self.columns@.len() ==> (
                #[trigger] r@[i]@[c])@ == (if i - 1 < row_count(self.rows@[c]) {
                    row_cell(self.rows@[c], i - 1)
                } else {
                    Seq::<char>::empty()
                }),
    {
        let mut out: Vec<Vec<String>> = Vec::new();
        let ncols = self.columns.len();
        let mut header: Vec<String> = Vec::new();
        let mut c0: usize = 0;
        while c0 < ncols
            invariant
                0 <= c0 <= ncols,
                ncols == self.columns@.len(),
                header@.len() == c0,
                forall|c: int| 0 <= c < c0 ==> (#[trigger] header@[c])@ == self.columns@[
                    c
                ].column_name@,
            decreases ncols - c0,
        {
            header.push(self.columns[c0].column_name.clone());
            c0 = c0 + 1;
        }
        out.push(header);
        let num_rows = self.rows[0].count();
        let mut i: usize = 0;
        while i < num_rows
            invariant
                0 <= i <= num_rows,
                ncols == self.columns@.len(),
                self.rows@.len() == self.columns@.len(),
                ncols > 0,
                forall|k: int| 0 <= k < self.rows@.len() ==> !((#[trigger] self.rows@[k])
                    matches Row::NoStore),
                num_rows == row_count(self.rows@[0]),
                out@.len() == 1 + i,
                out@[0]@.len() == ncols,
                forall|c: int| 0 <= c < ncols ==> (#[trigger] out@[0]@[c])@ == self.columns@[
                    c
                ].column_name@,
                forall|k: int| 0 < k <= i ==> (#[trigger] out@[k])@.len() == ncols,
                forall|k: int, c: int|
                    0 < k <= i && 0 <= c < ncols ==> (#[trigger] out@[k]@[c])@ == (if k - 1
                        < row_count(self.rows@[c]) {
                        row_cell(self.rows@[c], k - 1)
                    } else {
                        Seq::<char>::empty()
                    }),
            decreases num_rows - i,
        {
            let mut line: Vec<String> = Vec::new();
            let mut c: usize = 0;
            while c < ncols
                invariant
                    0 <= c <= ncols,
                    0 <= i,
                    ncols == self.columns@.len(),
                    self.rows@.len() == self.columns@.len(),
                    forall|k: int| 0 <= k < self.rows@.len() ==> !((#[trigger] self.rows@[k])
                        matches Row::NoStore),
                    line@.len() == c,
                    forall|w: int|
                        0 <= w < c ==> (#[trigger] line@[w])@ == (if i < row_count(
                            self.rows@[w],
                        ) {
                            row_cell(self.rows@[w], i as int)
                        } else {
                            Seq::<char>::empty()
                        }),
                decreases ncols - c,
            {
                let cells = self.rows[c].get_serialized_col_data();
                if i < cells.len() {
                    line.push(cells[i].clone());
                } else {
                    line.push(String::new());
                }
                c = c + 1;
            }
            out.push(line);
            i = i + 1;
        }
        out
    }
}

} // verus!
