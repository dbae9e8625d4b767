use vstd::prelude::*;

use crate::error::SQLRiteError;
use crate::sql::parser::ast_bridge::ParsedStatement;
use crate::strconv::strs_view;

verus! {

/// One literal of an INSERT value row, reduced to plain values.  `Other`
/// stands for every expression kind the engine does not accept.
#[derive(Debug)]
pub enum LiteralValue {
    Number(String),
    Boolean(bool),
    Quoted(String),
    Null,
    Ident(String),
    Other,
}

/// The text that a literal contributes to its row: numbers and bare
/// identifiers keep their spelling, booleans become `true` / `false`,
/// quoted strings keep their content, a null literal becomes the sentinel
/// text `Null`, and unsupported literals contribute nothing.
pub open spec fn lit_string(l: LiteralValue) -> Option<Seq<char>> {
    match l {
        LiteralValue::Number(n) => Some(n@),
        LiteralValue::Boolean(b) => if b {
            Some("true"@)
        } else {
            Some("false"@)
        },
        LiteralValue::Quoted(s) => Some(s@),
        LiteralValue::Null => Some("Null"@),
        LiteralValue::Ident(s) => Some(s@),
        LiteralValue::Other => None,
    }
}

/// The texts of a whole value row, in order, with unsupported literals
/// dropped.
pub open spec fn lit_strings(row: Seq<LiteralValue>) -> Seq<Seq<char>>
    decreases row.len(),
{
    if row.len() == 0 {
        Seq::empty()
    } else {
        match lit_string(row.last()) {
            Some(s) => lit_strings(row.drop_last()) + seq![s],
            None => lit_strings(row.drop_last()),
        }
    }
}

/// The texts of every value row, in order.
pub open spec fn lit_rows_view(vals: Seq<Vec<LiteralValue>>) -> Seq<Seq<Seq<char>>> {
    vals.map_values(|row: Vec<LiteralValue>| lit_strings(row@))
}

/// The translation carries the statement's parts: its target table, its
/// column list exactly as named, and one text list per value row.
pub open spec fn insert_translated(
    q: InsertQuery,
    table_name: String,
    columns: Vec<String>,
    values: Seq<Vec<LiteralValue>>,
) -> bool {
    &&& q.table_name == table_name
    &&& q.columns == columns
    &&& q.rows@.len() == values.len()
    &&& forall|i: int|
        0 <= i < values.len() ==> strs_view((#[trigger] q.rows@[i])@) == lit_strings(values[i]@)
}

/// An INSERT statement after translation: the target table, the column
/// list exactly as the statement named it (possibly empty), and one text
/// list per value row.
#[derive(Debug)]
pub struct InsertQuery {
    pub table_name: String,
    pub columns: Vec<String>,
    pub rows: Vec<Vec<String>>,
}

impl InsertQuery {
    /// Translates plain INSERT parts into the engine's representation.
    /// Column and row counts are deliberately not checked here: that is
    /// the dispatcher's responsibility.
    pub fn from_parts(
        table_name: String,
        columns: Vec<String>,
        values: Vec<Vec<LiteralValue>>,
    ) -> (r: InsertQuery)
        ensures
            insert_translated(r, table_name, columns, values@),
    {
        let mut rows: Vec<Vec<String>> = Vec::new();
        let nv = values.len();
        let mut q: usize = 0;
        while q < nv
            invariant
                0 <= q <= nv,
                nv == values@.len(),
                rows@.len() == q,
                forall|p: int|
                    0 <= p < q ==> strs_view(#[trigger] rows@[p]@) == lit_strings(values@[p]@),
            decreases nv - q,
        {
            let row = &values[q];
            let m = row.len();
            let mut out: Vec<String> = Vec::new();
            let mut k: usize = 0;
            while k < m
                invariant
                    0 <= k <= m,
                    m == row@.len(),
                    strs_view(out@) == lit_strings(row@.take(k as int)),
                decreases m - k,
            {
                let ghost pre = row@.take(k as int);
                let ghost pre1 = row@.take(k + 1 as int);
                assert(pre1.drop_last() =~= pre);
                assert(pre1.last() == row@[k as int]);
                match &row[k] {
                    LiteralValue::Number(n) => {
                        out.push(n.clone());
                    },
                    LiteralValue::Boolean(b) => {
                        if *b {
                            out.push(String::from_str("true"));
                        } else {
                            out.push(String::from_str("false"));
                        }
                    },
                    LiteralValue::Quoted(s) => {
                        out.push(s.clone());
                    },
                    LiteralValue::Null => {
                        out.push(String::from_str("Null"));
                    },
                    LiteralValue::Ident(s) => {
                        out.push(s.clone());
                    },
                    LiteralValue::Other => {},
                }
                proof {
                    assert(strs_view(out@) =~= lit_strings(pre1));
                }
                k = k + 1;
            }
            proof {
                assert(row@.take(m as int) =~= row@);
            }
            rows.push(out);
            q = q + 1;
        }
        InsertQuery { table_name, columns, rows }
    }
}

impl InsertQuery {
    /// Translates a parsed INSERT statement.  A statement of any other
    /// shape is rejected; the parts are carried over by `from_parts`,
    /// with the column list kept exactly as the statement named it.
    pub fn new(statement: ParsedStatement) -> (r: Result<InsertQuery, SQLRiteError>)
        ensures
            ({
                match statement {
                    ParsedStatement::Insert(table_name, columns, values) => r matches Ok(q)
                        && insert_translated(q, table_name, columns, values@),
                    _ => (r matches Err(e) && e matches SQLRiteError::Internal(m) && m@
                        == "Error parsing insert query"@),
                }
            }),
    {
        match statement {
            ParsedStatement::Insert(table_name, columns, values) => Ok(
                InsertQuery::from_parts(table_name, columns, values),
            ),
            _ => Err(SQLRiteError::Internal(String::from_str("Error parsing insert query"))),
        }
    }
}

} // verus!
