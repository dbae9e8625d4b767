pub mod db;
pub mod parser;

use vstd::prelude::*;

use crate::error::SQLRiteError;
use crate::sql::db::database::Database;
use crate::sql::db::table::{
    col_result, insert_ok, pk_last_idx, pk_row_integer, pk_supplied, resolved_at, row_after_auto,
    same_schema, spec_colnames, spec_rowid, unique_check_at, unique_err_text, Row, Table,
    UniqueCheck,
};
use crate::sql::parser::ast_bridge::{sql_parse, ParsedStatement};
use crate::sql::parser::create::{create_err, create_ok, decls_pass, CreateQuery};
use crate::sql::parser::insert::{lit_rows_view, InsertQuery};
use crate::strconv::{dec_str, int_literal_val, str_eq, strs_view};

verus! {

/// A SQL command line, classified by its leading keyword.  Every variant
/// carries the full command text.
#[derive(Debug, PartialEq)]
pub enum SQLCommand {
    Insert(String),
    Delete(String),
    Update(String),
    CreateTable(String),
    Select(String),
    Unknown(String),
}

/// The longest prefix of `s` that contains no space character: the first
/// field of a split on single spaces.
pub open spec fn take_until_space(s: Seq<char>) -> Seq<char>
    decreases s.len(),
{
    if s.len() > 0 && s[0] != ' ' {
        seq![s[0]] + take_until_space(s.drop_first())
    } else {
        Seq::empty()
    }
}

/// If the first `j` characters are not spaces and the next one is (or the
/// sequence ends), the space-free prefix is exactly those `j`.
proof fn lemma_take_until_space_prefix(s: Seq<char>, j: int)
    requires
        0 <= j <= s.len(),
        forall|k: int| 0 <= k < j ==> #[trigger] s[k] != ' ',
        j == s.len() || s[j] == ' ',
    ensures
        take_until_space(s) == s.subrange(0, j),
    decreases j,
{
    if j > 0 {
        lemma_take_until_space_prefix(s.drop_first(), j - 1);
        assert(s.drop_first().subrange(0, j - 1) =~= s.subrange(1, j));
        assert(seq![s[0]] + s.subrange(1, j) =~= s.subrange(0, j));
    } else {
        assert(s.subrange(0, 0) =~= Seq::<char>::empty());
    }
}

/// The SQL command that a command line names, decided by the keyword
/// before its first space.
pub open spec fn spec_sql_command(command: String) -> SQLCommand {
    let t = take_until_space(command@);
    if t == "insert"@ {
        SQLCommand::Insert(command)
    } else if t == "update"@ {
        SQLCommand::Update(command)
    } else if t == "delete"@ {
        SQLCommand::Delete(command)
    } else if t == "create"@ {
        SQLCommand::CreateTable(command)
    } else if t == "select"@ {
        SQLCommand::Select(command)
    } else {
        SQLCommand::Unknown(command)
    }
}

impl SQLCommand {
    /// Classifies a SQL command line by the keyword before its first
    /// space.  The match is exact and lower-case, as typed.
    pub fn new(command: String) -> (r: SQLCommand)
        ensures
            r == spec_sql_command(command),
    {
        let n = command.as_str().unicode_len();
        let mut j: usize = 0;
        while j < n && command.as_str().get_char(j) != ' '
            invariant
                0 <= j <= n,
                n == command@.len(),
                forall|k: int| 0 <= k < j ==> #[trigger] command@[k] != ' ',
            decreases n - j,
        {
            j = j + 1;
        }
        let token = command.as_str().substring_char(0, j);
        proof {
            lemma_take_until_space_prefix(command@, j as int);
        }
        if str_eq(token, "insert") {
            SQLCommand::Insert(command)
        } else if str_eq(token, "update") {
            SQLCommand::Update(command)
        } else if str_eq(token, "delete") {
            SQLCommand::Delete(command)
        } else if str_eq(token, "create") {
            SQLCommand::CreateTable(command)
        } else if str_eq(token, "select") {
            SQLCommand::Select(command)
        } else {
            SQLCommand::Unknown(command)
        }
    }
}

// ---------------------------------------------------------------------------
// Statement execution
// ---------------------------------------------------------------------------

/// Executes a translated CREATE TABLE statement against the catalog: the
/// table is built and registered unless its name is already taken.
pub fn execute_create(payload: CreateQuery, db: &mut Database) -> (r: Result<String, SQLRiteError>)
    requires
        payload.wf(),
        old(db).wf(),
    ensures
        final(db).wf(),
        final(db).db_name == old(db).db_name,
        old(db).spec_contains(payload.table_name@) ==> *final(db) == *old(db) && (r matches Err(e)
            && e matches SQLRiteError::Internal(m) && m@ == "Cannot create, table already exists."@),
        !old(db).spec_contains(payload.table_name@) ==> (r matches Ok(msg) && msg@
            == "CREATE TABLE Statement executed."@) && (exists|t: Table|
            (#[trigger] t.wf()) && t.matches_schema(payload) && final(db).tables@ == old(
                db,
            ).tables@.push(t)),
{
    let ghost name = payload.table_name@;
    if db.contains_table(payload.table_name.clone()) {
        return Err(
            SQLRiteError::Internal(String::from_str("Cannot create, table already exists.")),
        );
    }
    let table = Table::new(payload);
    proof {
        assert(table.tb_name@ == name);
    }
    db.insert_table(table);
    Ok(String::from_str("CREATE TABLE Statement executed."))
}

/// The views of the value rows of an INSERT.
pub open spec fn rows_view(rows: Seq<Vec<String>>) -> Seq<Seq<Seq<char>>> {
    rows.map_values(|v: Vec<String>| strs_view(v@))
}

/// Does every named column exist on the table?
pub open spec fn all_cols_exist(t: Table, cols: Seq<String>) -> bool {
    forall|c: int| 0 <= c < cols.len() ==> t.has_column((#[trigger] cols[c])@)
}

/// The names among `cols` that are no columns of the table, in order,
/// joined with commas: the offending set that a rejected INSERT reports.
pub open spec fn missing_cols_text(t: Table, cols: Seq<String>) -> Seq<char>
    decreases cols.len(),
{
    if cols.len() == 0 {
        Seq::empty()
    } else {
        let rest = missing_cols_text(t, cols.drop_last());
        if t.has_column(cols.last()@) {
            rest
        } else if rest.len() == 0 {
            cols.last()@
        } else {
            rest + ", "@ + cols.last()@
        }
    }
}

/// One accepted row insertion, as `insert_row` describes it.
pub open spec fn insert_applied(t0: Table, t1: Table, cs: Seq<Seq<char>>, vs: Seq<Seq<char>>)
    -> bool {
    &&& t1.wf()
    &&& same_schema(t0, t1)
    &&& insert_ok(t0, cs, vs)
    &&& t1.last_rowid == (if spec_rowid(t0, cs, vs)->0 > t0.last_rowid {
        spec_rowid(t0, cs, vs)->0
    } else {
        t0.last_rowid
    })
    &&& forall|i: int|
        0 <= i < t0.columns@.len() ==> col_result(t0, t1, cs, vs, spec_rowid(t0, cs, vs)->0, i)
}

/// What processing a list of value rows does to a table: rows are taken
/// in order; the first row whose value count does not match the column
/// count, violates a unique constraint, or cannot be stored stops the
/// work with the corresponding error, keeping the rows already inserted.
pub open spec fn rows_outcome(
    t0: Table,
    t1: Table,
    cs: Seq<Seq<char>>,
    rows: Seq<Seq<Seq<char>>>,
    res: Result<(), SQLRiteError>,
) -> bool
    decreases rows.len(),
{
    if rows.len() == 0 {
        t1 == t0 && res is Ok
    } else {
        let vs = rows[0];
        if cs.len() != vs.len() {
            t1 == t0 && (res matches Err(e) && e matches SQLRiteError::Internal(m) && m@
                == dec_str(vs.len() as int) + " values for "@ + dec_str(cs.len() as int)
                + " columns"@)
        } else if exists|i: int|
            0 <= i < cs.len() && !((#[trigger] unique_check_at(t0, cs, vs, i))
                matches UniqueCheck::Pass) {
            t1 == t0 && (res matches Err(e) && e matches SQLRiteError::Internal(m) && m@
                == "Unique key constaint violation: General error: "@ + unique_err_text(
                t0,
                cs,
                vs,
            ))
        } else if !insert_ok(t0, cs, vs) {
            t1 == t0 && (res matches Err(e) && e matches SQLRiteError::General(_))
        } else {
            exists|tm: Table|
                #[trigger] insert_applied(t0, tm, cs, vs) && rows_outcome(
                    tm,
                    t1,
                    cs,
                    rows.drop_first(),
                    res,
                )
        }
    }
}

/// Processing a prefix and then the rest is processing the whole list.
proof fn lemma_rows_outcome_concat(
    t0: Table,
    tm: Table,
    t1: Table,
    cs: Seq<Seq<char>>,
    pre: Seq<Seq<Seq<char>>>,
    rest: Seq<Seq<Seq<char>>>,
    res: Result<(), SQLRiteError>,
)
    requires
        rows_outcome(t0, tm, cs, pre, Ok(())),
        rows_outcome(tm, t1, cs, rest, res),
    ensures
        rows_outcome(t0, t1, cs, pre + rest, res),
    decreases pre.len(),
{
    if pre.len() == 0 {
        assert(pre + rest =~= rest);
        assert(tm == t0);
    } else {
        let whole = pre + rest;
        assert(whole[0] == pre[0]);
        assert(whole.len() > 0);
        assert(whole.drop_first() =~= pre.drop_first() + rest);
        let vs = pre[0];
        if cs.len() != vs.len() {
            assert(false);
        } else if exists|i: int|
            0 <= i < cs.len() && !((#[trigger] unique_check_at(t0, cs, vs, i))
                matches UniqueCheck::Pass) {
            assert(false);
        } else if !insert_ok(t0, cs, vs) {
            assert(false);
        } else {
            let tmid = choose|tmid: Table|
                #[trigger] insert_applied(t0, tmid, cs, vs) && rows_outcome(
                    tmid,
                    tm,
                    cs,
                    pre.drop_first(),
                    Ok(()),
                );
            lemma_rows_outcome_concat(tmid, tm, t1, cs, pre.drop_first(), rest, res);
            assert(insert_applied(t0, tmid, cs, whole[0]) && rows_outcome(
                tmid,
                t1,
                cs,
                whole.drop_first(),
                res,
            ));
        }
    }
}

/// Executes a translated INSERT statement against the catalog: the table
/// must exist and every named column must exist on it; the value rows are
/// then validated and inserted in order, stopping at the first rejected
/// row.
pub fn execute_insert(payload: InsertQuery, db: &mut Database) -> (r: Result<String, SQLRiteError>)
    requires
        old(db).wf(),
    ensures
        final(db).wf(),
        final(db).db_name == old(db).db_name,
        !old(db).spec_contains(payload.table_name@) ==> *final(db) == *old(db) && (r matches Err(
            e,
        ) && e matches SQLRiteError::Internal(m) && m@ == "Table doesn't exist"@),
        old(db).spec_contains(payload.table_name@) && !all_cols_exist(
            old(db).tables@[old(db).table_idx(payload.table_name@)],
            payload.columns@,
        ) ==> *final(db) == *old(db) && (r matches Err(e) && e matches SQLRiteError::Internal(m)
            && m@ == "Cannot insert, some of the columns do not exist: "@ + missing_cols_text(
            old(db).tables@[old(db).table_idx(payload.table_name@)],
            payload.columns@,
        )),
        old(db).spec_contains(payload.table_name@) && all_cols_exist(
            old(db).tables@[old(db).table_idx(payload.table_name@)],
            payload.columns@,
        ) ==> ({
            let ti = old(db).table_idx(payload.table_name@);
            let told = old(db).tables@[ti];
            exists|tnew: Table|
                final(db).tables@ == old(db).tables@.update(ti, tnew) && rows_outcome(
                    told,
                    tnew,
                    strs_view(payload.columns@),
                    rows_view(payload.rows@),
                    #[trigger] strip_msg(r),
                )
        }),
        r matches Ok(m) ==> m@ == "INSERT Statement executed."@,
{
    let ghost db0 = *db;
    let ghost cs = strs_view(payload.columns@);
    let ghost rv = rows_view(payload.rows@);
    let ti = match db.find_table(&payload.table_name) {
        Some(i) => i,
        None => {
            return Err(SQLRiteError::Internal(String::from_str("Table doesn't exist")));
        },
    };
    let ghost told = db0.tables@[ti as int];
    let ncols = payload.columns.len();
    let mut missing = String::new();
    let mut any_missing = false;
    let mut c: usize = 0;
    while c < ncols
        invariant
            0 <= c <= ncols,
            ncols == payload.columns@.len(),
            *db == db0,
            db0 == *old(db),
            db0.wf(),
            0 <= ti < db0.tables@.len(),
            db0.spec_contains(payload.table_name@),
            ti as int == db0.table_idx(payload.table_name@),
            told == db0.tables@[ti as int],
            missing@ == missing_cols_text(told, payload.columns@.take(c as int)),
            any_missing == !all_cols_exist(told, payload.columns@.take(c as int)),
        decreases ncols - c,
    {
        let ghost pre = payload.columns@.take(c as int);
        let ghost pre1 = payload.columns@.take((c + 1) as int);
        proof {
            assert(pre1.drop_last() =~= pre);
            assert(pre1.last() == payload.columns@[c as int]);
        }
        if !db.tables[ti].contains_column(payload.columns[c].clone()) {
            if missing.as_str().is_empty() {
                missing = payload.columns[c].clone();
            } else {
                missing = missing.concat(", ").concat(payload.columns[c].as_str());
            }
            any_missing = true;
            proof {
                assert(!told.has_column((pre1[c as int])@));
                assert(!all_cols_exist(told, pre1));
            }
        } else {
            proof {
                if all_cols_exist(told, pre) {
                    assert forall|k: int| 0 <= k < pre1.len() implies told.has_column(
                        (#[trigger] pre1[k])@,
                    ) by {
                        if k < pre.len() {
                            assert(told.has_column(pre[k]@));
                        } else {
                            assert(pre1[k] == payload.columns@[c as int]);
                        }
                    }
                    assert(all_cols_exist(told, pre1));
                } else {
                    let k = choose|k: int|
                        0 <= k < pre.len() && !told.has_column((#[trigger] pre[k])@);
                    assert(pre1[k] == pre[k]);
                    assert(!all_cols_exist(told, pre1));
                }
            }
        }
        c = c + 1;
    }
    proof {
        assert(payload.columns@.take(ncols as int) =~= payload.columns@);
    }
    if any_missing {
        return Err(
            SQLRiteError::Internal(
                String::from_str("Cannot insert, some of the columns do not exist: ").concat(
                    missing.as_str(),
                ),
            ),
        );
    }
    assert(all_cols_exist(told, payload.columns@));
    let nrows = payload.rows.len();
    let mut ri: usize = 0;
    while ri < nrows
        invariant
            0 <= ri <= nrows,
            nrows == payload.rows@.len(),
            ncols == payload.columns@.len(),
            cs == strs_view(payload.columns@),
            rv == rows_view(payload.rows@),
            db0.wf(),
            db0 == *old(db),
            0 <= ti < db0.tables@.len(),
            db0.spec_contains(payload.table_name@),
            ti as int == db0.table_idx(payload.table_name@),
            told == db0.tables@[ti as int],
            told.wf(),
            db.db_name == db0.db_name,
            db.tables@.len() == db0.tables@.len(),
            forall|k: int|
                0 <= k < db0.tables@.len() && k != ti as int ==> (#[trigger] db.tables@[k])
                    == db0.tables@[k],
            db.tables@[ti as int].wf(),
            same_schema(told, db.tables@[ti as int]),
            all_cols_exist(told, payload.columns@),
            rows_outcome(told, db.tables@[ti as int], cs, rv.take(ri as int), Ok(())),
        decreases nrows - ri,
    {
        let ghost t_before = db.tables@[ti as int];
        let ghost vs = rv[ri as int];
        proof {
            assert(vs == strs_view(payload.rows@[ri as int]@));
            assert forall|cx: int| 0 <= cx < payload.columns@.len() implies t_before.has_column(
                (#[trigger] payload.columns@[cx])@,
            ) by {
                assert(told.has_column(payload.columns@[cx]@));
                let w = choose|w: int|
                    0 <= w < told.columns@.len() && (#[trigger] told.columns@[w]).column_name@
                        == payload.columns@[cx]@;
                assert(t_before.columns@[w].column_name == told.columns@[w].column_name);
                assert(t_before.has_column(payload.columns@[cx]@));
            }
        }
        if ncols != payload.rows[ri].len() {
            let msg = crate::strconv::usize_to_string(payload.rows[ri].len()).concat(
                " values for ",
            ).concat(crate::strconv::usize_to_string(ncols).as_str()).concat(" columns");
            proof {
                assert(rv.skip(ri as int)[0] == vs);
                assert(rows_outcome(
                    t_before,
                    t_before,
                    cs,
                    rv.skip(ri as int),
                    Err::<(), SQLRiteError>(SQLRiteError::Internal(msg)),
                ));
                lemma_rows_outcome_concat(
                    told,
                    t_before,
                    t_before,
                    cs,
                    rv.take(ri as int),
                    rv.skip(ri as int),
                    Err(SQLRiteError::Internal(msg)),
                );
                assert(rv.take(ri as int) + rv.skip(ri as int) =~= rv);
                lemma_db_update_wf(db0, *db, ti as int);
                assert(db.tables@ =~= db0.tables@.update(ti as int, db.tables@[ti as int]));
            }
            return Err(SQLRiteError::Internal(msg));
        }
        let vres = db.tables[ti].validate_unique_constraint(&payload.columns, &payload.rows[ri]);
        match vres {
            Ok(()) => {},
            Err(err) => {
                let msg = String::from_str("Unique key constaint violation: ").concat(
                    err.display_text().as_str(),
                );
                proof {
                    assert(rv.skip(ri as int)[0] == vs);
                    reveal_strlit("Unique key constaint violation: ");
                    reveal_strlit("General error: ");
                    reveal_strlit("Unique key constaint violation: General error: ");
                    assert("Unique key constaint violation: "@ + "General error: "@
                        =~= "Unique key constaint violation: General error: "@);
                    assert(msg@ =~= "Unique key constaint violation: General error: "@
                        + unique_err_text(t_before, cs, vs));
                    assert(rows_outcome(
                        t_before,
                        t_before,
                        cs,
                        rv.skip(ri as int),
                        Err::<(), SQLRiteError>(SQLRiteError::Internal(msg)),
                    ));
                    lemma_rows_outcome_concat(
                        told,
                        t_before,
                        t_before,
                        cs,
                        rv.take(ri as int),
                        rv.skip(ri as int),
                        Err(SQLRiteError::Internal(msg)),
                    );
                    assert(rv.take(ri as int) + rv.skip(ri as int) =~= rv);
                    lemma_db_update_wf(db0, *db, ti as int);
                    assert(db.tables@ =~= db0.tables@.update(ti as int, db.tables@[ti as int]));
                }
                return Err(SQLRiteError::Internal(msg));
            },
        }
        let ires = db.tables[ti].insert_row(&payload.columns, &payload.rows[ri]);
        match ires {
            Ok(()) => {
                proof {
                    assert(insert_applied(t_before, db.tables@[ti as int], cs, vs));
                    assert(seq![vs][0] == vs);
                    assert(cs.len() == vs.len());
                    assert(forall|i: int|
                        0 <= i < cs.len() ==> (#[trigger] unique_check_at(t_before, cs, vs, i))
                            matches UniqueCheck::Pass);
                    assert(insert_ok(t_before, cs, vs));
                    assert(seq![vs].drop_first() =~= Seq::<Seq<Seq<char>>>::empty());
                    let tm = db.tables@[ti as int];
                    assert(rows_outcome(
                        tm,
                        tm,
                        cs,
                        seq![vs].drop_first(),
                        Ok::<(), SQLRiteError>(()),
                    ));
                    assert(insert_applied(t_before, tm, cs, seq![vs][0]));
                    assert(rows_outcome(
                        t_before,
                        db.tables@[ti as int],
                        cs,
                        seq![vs],
                        Ok::<(), SQLRiteError>(()),
                    ));
                    lemma_rows_outcome_concat(
                        told,
                        t_before,
                        db.tables@[ti as int],
                        cs,
                        rv.take(ri as int),
                        seq![vs],
                        Ok(()),
                    );
                    assert(rv.take(ri as int) + seq![vs] =~= rv.take(ri + 1));
                }
            },
            Err(e) => {
                proof {
                    assert(rv.skip(ri as int)[0] == vs);
                    assert(rows_outcome(
                        t_before,
                        t_before,
                        cs,
                        rv.skip(ri as int),
                        Err::<(), SQLRiteError>(e),
                    ));
                    lemma_rows_outcome_concat(
                        told,
                        t_before,
                        t_before,
                        cs,
                        rv.take(ri as int),
                        rv.skip(ri as int),
                        Err(e),
                    );
                    assert(rv.take(ri as int) + rv.skip(ri as int) =~= rv);
                    lemma_db_update_wf(db0, *db, ti as int);
                    assert(db.tables@ =~= db0.tables@.update(ti as int, db.tables@[ti as int]));
                }
                return Err(e);
            },
        }
        ri = ri + 1;
    }
    proof {
        assert(rv.take(nrows as int) =~= rv);
        lemma_db_update_wf(db0, *db, ti as int);
        assert(db.tables@ =~= db0.tables@.update(ti as int, db.tables@[ti as int]));
    }
    Ok(String::from_str("INSERT Statement executed."))
}

/// A database stays well formed when one table is replaced by a well
/// formed table of the same name.
proof fn lemma_db_update_wf(db0: Database, db1: Database, ti: int)
    requires
        db0.wf(),
        0 <= ti < db0.tables@.len(),
        db1.db_name == db0.db_name,
        db1.tables@.len() == db0.tables@.len(),
        forall|k: int| 0 <= k < db0.tables@.len() && k != ti ==> (#[trigger] db1.tables@[k])
            == db0.tables@[k],
        db1.tables@[ti].wf(),
        db1.tables@[ti].tb_name@ == db0.tables@[ti].tb_name@,
    ensures
        db1.wf(),
{
    assert forall|i: int, j: int|
        0 <= i < j < db1.tables@.len() implies (#[trigger] db1.tables@[i]).tb_name@ != (
    #[trigger] db1.tables@[j]).tb_name@ by {
        assert(db1.tables@[i].tb_name@ == db0.tables@[i].tb_name@);
        assert(db1.tables@[j].tb_name@ == db0.tables@[j].tb_name@);
    }
    assert forall|i: int| 0 <= i < db1.tables@.len() implies (#[trigger] db1.tables@[i]).wf() by {
        if i != ti {
            assert(db1.tables@[i] == db0.tables@[i]);
        }
    }
}


/// The same result with its success message stripped.
pub open spec fn strip_msg(r: Result<String, SQLRiteError>) -> Result<(), SQLRiteError> {
    match r {
        Ok(_) => Ok(()),
        Err(e) => Err(e),
    }
}

/// Parses one command line and executes its statement against the
/// catalog.  Exactly one statement is accepted; CREATE TABLE and INSERT
/// change the catalog as `create_ok` / `rows_outcome` describe, SELECT
/// and DELETE are acknowledged without doing any work, and every other
/// statement kind is unsupported.  The whole outcome is stated over
/// `sql_parse`, the named result of parsing the query text.
pub fn process_command(query: &str, db: &mut Database) -> (r: Result<String, SQLRiteError>)
    requires
        old(db).wf(),
    ensures
        final(db).wf(),
        final(db).db_name == old(db).db_name,
        ({
            match sql_parse(query@) {
                Err(msg) => *final(db) == *old(db) && (r matches Err(e) && e matches
                    SQLRiteError::SqlError(m) && m@ == msg),
                Ok(stmts) => {
                    if stmts.len() > 1 {
                        *final(db) == *old(db) && (r matches Err(e) && e matches
                            SQLRiteError::SqlError(m) && m@
                            == "ParserError(\"Expected a single query statement, but there are "@
                            + dec_str(stmts.len() as int) + "\")"@)
                    } else if stmts.len() == 0 {
                        *final(db) == *old(db) && (r matches Err(e) && e matches
                            SQLRiteError::Internal(m) && m@ == "Error parsing query"@)
                    } else {
                        match stmts[0] {
                            ParsedStatement::CreateTable(name, decls) => {
                                if !decls_pass(decls@) {
                                    *final(db) == *old(db) && (r matches Err(e) && create_err(
                                        name,
                                        decls@,
                                        e,
                                    ))
                                } else if old(db).spec_contains(name@) {
                                    *final(db) == *old(db) && (r matches Err(e) && e matches
                                        SQLRiteError::Internal(m) && m@
                                        == "Cannot create, table already exists."@)
                                } else {
                                    (r matches Ok(m) && m@
                                        == "CREATE TABLE Statement executed."@) && (exists|
                                        q: CreateQuery,
                                        t: Table,
                                    |
                                        #![trigger create_ok(q, name, decls@), t.wf()]
                                        create_ok(q, name, decls@) && t.wf()
                                            && t.matches_schema(q) && final(db).tables@ == old(
                                            db,
                                        ).tables@.push(t))
                                }
                            },
                            ParsedStatement::Insert(tname, cols, vals) => {
                                if !old(db).spec_contains(tname@) {
                                    *final(db) == *old(db) && (r matches Err(e) && e matches
                                        SQLRiteError::Internal(m) && m@ == "Table doesn't exist"@)
                                } else {
                                    let ti = old(db).table_idx(tname@);
                                    let told = old(db).tables@[ti];
                                    if !all_cols_exist(told, cols@) {
                                        *final(db) == *old(db) && (r matches Err(e) && e matches
                                            SQLRiteError::Internal(m) && m@
                                            == "Cannot insert, some of the columns do not exist: "@
                                            + missing_cols_text(told, cols@))
                                    } else {
                                        (r matches Ok(m) ==> m@
                                            == "INSERT Statement executed."@) && (exists|
                                            tnew: Table,
                                        |
                                            final(db).tables@ == old(db).tables@.update(ti, tnew)
                                                && rows_outcome(
                                                told,
                                                tnew,
                                                strs_view(cols@),
                                                lit_rows_view(vals@),
                                                #[trigger] strip_msg(r),
                                            ))
                                    }
                                }
                            },
                            ParsedStatement::Select => *final(db) == *old(db) && (r matches Ok(m)
                                && m@ == "SELECT Statement executed."@),
                            ParsedStatement::Delete => *final(db) == *old(db) && (r matches Ok(m)
                                && m@ == "DELETE Statement executed."@),
                            ParsedStatement::Other => *final(db) == *old(db) && (r matches Err(e)
                                && e matches SQLRiteError::NotImplemented(m) && m@
                                == "SQL Statement not supported yet."@),
                        }
                    }
                },
            }
        }),
{
    match crate::sql::parser::ast_bridge::parse_statements(query) {
        Err(msg) => Err(SQLRiteError::SqlError(msg)),
        Ok(mut stmts) => {
            if stmts.len() > 1 {
                let m = String::from_str(
                    "ParserError(\"Expected a single query statement, but there are ",
                ).concat(crate::strconv::usize_to_string(stmts.len()).as_str()).concat("\")");
                return Err(SQLRiteError::SqlError(m));
            }
            match stmts.pop() {
                None => Err(SQLRiteError::Internal(String::from_str("Error parsing query"))),
                Some(stmt) => match stmt {
                    ParsedStatement::CreateTable(name, decls) => {
                        let ghost gname = name;
                        let ghost gdecls = decls@;
                        match CreateQuery::new(ParsedStatement::CreateTable(name, decls)) {
                            Ok(payload) => {
                                let res = execute_create(payload, db);
                                proof {
                                    if !old(db).spec_contains(gname@) {
                                        assert(res matches Ok(m) && m@
                                            == "CREATE TABLE Statement executed."@);
                                    }
                                }
                                res
                            },
                            Err(err) => Err(err),
                        }
                    },
                    ParsedStatement::Insert(tname, cols, vals) => {
                        let ghost gname = tname;
                        let ghost gcols = cols@;
                        let ghost gvals = vals@;
                        match InsertQuery::new(ParsedStatement::Insert(tname, cols, vals)) {
                            Ok(payload) => {
                                proof {
                                    assert(strs_view(payload.columns@) =~= strs_view(gcols));
                                    assert(rows_view(payload.rows@) =~= lit_rows_view(gvals));
                                }
                                execute_insert(payload, db)
                            },
                            Err(err) => Err(err),
                        }
                    },
                    ParsedStatement::Select => Ok(String::from_str("SELECT Statement executed.")),
                    ParsedStatement::Delete => Ok(String::from_str("DELETE Statement executed.")),
                    ParsedStatement::Other => Err(
                        SQLRiteError::NotImplemented(
                            String::from_str("SQL Statement not supported yet."),
                        ),
                    ),
                },
            }
        },
    }
}

// ---------------------------------------------------------------------------
// Laws of the insertion algorithm
// ---------------------------------------------------------------------------

/// An insertion that omits the table's Integer primary key assigns
/// `last_rowid + 1` as the row's rowid, and that same value becomes the
/// key column's stored value.
pub proof fn lemma_auto_assigned_key(t0: Table, t1: Table, cs: Seq<Seq<char>>, vs: Seq<Seq<char>>)
    requires
        t0.wf(),
        t0.primary_key@ != "-1"@,
        !pk_supplied(cs, t0.primary_key@),
        pk_row_integer(t0),
        insert_applied(t0, t1, cs, vs),
    ensures
        spec_rowid(t0, cs, vs) == Some((t0.last_rowid + 1) as i64),
        t1.last_rowid == t0.last_rowid + 1,
        ({
            let p = t0.col_idx(t0.primary_key@);
            &&& t1.rows@[p] matches Row::Integer(st) && st.spec_get((t0.last_rowid + 1) as i64)
                == Some((((t0.last_rowid + 1) as i64) as i32))
        }),
{
    assert(t0.has_column(t0.primary_key@));
    let p = t0.col_idx(t0.primary_key@);
    assert(0 <= p < t0.columns@.len() && t0.columns@[p].column_name@ == t0.primary_key@);
    let rid = spec_rowid(t0, cs, vs)->0;
    assert(col_result(t0, t1, cs, vs, rid, p));
    crate::sql::db::table::lemma_pk_resolved_none(t0, cs, vs, p);
}

/// An insertion that names the Integer primary key with a value `V` at
/// or above the last rowid makes `V` the table's last rowid, and a
/// following insertion that omits the key assigns `V + 1`.  (A smaller
/// supplied key stores its row but leaves the rowid sequence where it
/// was: the last rowid never decreases.)
pub proof fn lemma_explicit_key_drives_rowid(
    t0: Table,
    t1: Table,
    t2: Table,
    cs1: Seq<Seq<char>>,
    vs1: Seq<Seq<char>>,
    cs2: Seq<Seq<char>>,
    vs2: Seq<Seq<char>>,
)
    requires
        t0.wf(),
        t0.primary_key@ != "-1"@,
        pk_supplied(cs1, t0.primary_key@),
        pk_row_integer(t0),
        insert_applied(t0, t1, cs1, vs1),
        int_literal_val(vs1[pk_last_idx(cs1, t0.primary_key@)]) >= t0.last_rowid,
        !pk_supplied(cs2, t0.primary_key@),
        insert_applied(t1, t2, cs2, vs2),
    ensures
        t1.last_rowid == int_literal_val(vs1[pk_last_idx(cs1, t0.primary_key@)]),
        t2.last_rowid == t1.last_rowid + 1,
{
    assert(t0.has_column(t0.primary_key@));
    let p = t0.col_idx(t0.primary_key@);
    assert(0 <= p < t0.columns@.len() && t0.columns@[p].column_name@ == t0.primary_key@);
    assert(t1.last_rowid == spec_rowid(t0, cs1, vs1)->0);
    // The key column keeps its Integer store across the first insertion.
    let rid1 = spec_rowid(t0, cs1, vs1)->0;
    assert(col_result(t0, t1, cs1, vs1, rid1, p));
    assert(t1.rows@[p] matches Row::Integer(_)) by {
        match resolved_at(spec_colnames(t0), t0.primary_key@, cs1, vs1, p) {
            Some(v) => {
                assert(crate::sql::db::table::row_after_write(t0.rows@[p], t1.rows@[p], rid1, v));
            },
            None => {},
        }
    }
    assert(t1.primary_key@ == t0.primary_key@);
    // The key column sits at the same position in the second table.
    assert(t1.columns@[p].column_name@ == t1.primary_key@);
    assert(t1.has_column(t1.primary_key@));
    let p1 = t1.col_idx(t1.primary_key@);
    assert(0 <= p1 < t1.columns@.len() && t1.columns@[p1].column_name@ == t1.primary_key@);
    if p1 != p {
        assert(t1.columns@[p1].column_name == t0.columns@[p1].column_name);
        assert(t0.columns@[p1].column_name@ == t0.primary_key@);
        if p1 < p {
            assert(t0.columns@[p1].column_name@ != t0.columns@[p].column_name@);
        } else {
            assert(t0.columns@[p].column_name@ != t0.columns@[p1].column_name@);
        }
        assert(false);
    }
    assert(pk_row_integer(t1));
    assert(spec_rowid(t1, cs2, vs2) == Some((t1.last_rowid + 1) as i64));
    assert(t2.last_rowid == spec_rowid(t1, cs2, vs2)->0);
}

/// An insertion whose first row violates a unique constraint leaves the
/// table exactly as it was: no column's row store or index is touched.
pub proof fn lemma_unique_violation_atomic(
    t0: Table,
    t1: Table,
    cs: Seq<Seq<char>>,
    rows: Seq<Seq<Seq<char>>>,
    res: Result<(), SQLRiteError>,
)
    requires
        rows.len() > 0,
        cs.len() == rows[0].len(),
        exists|i: int|
            0 <= i < cs.len() && !((#[trigger] unique_check_at(t0, cs, rows[0], i))
                matches UniqueCheck::Pass),
        rows_outcome(t0, t1, cs, rows, res),
    ensures
        t1 == t0,
        res matches Err(e) && e matches SQLRiteError::Internal(_),
{
}

/// The last rowid never decreases across an insertion, whether the key
/// was auto-assigned or supplied.
pub proof fn lemma_last_rowid_monotone(t0: Table, t1: Table, cs: Seq<Seq<char>>, vs: Seq<
    Seq<char>,
>)
    requires
        insert_applied(t0, t1, cs, vs),
    ensures
        t1.last_rowid >= t0.last_rowid,
{
}

/// A value-count mismatch is reported with both counts wherever it sits:
/// here, after one accepted row, the second row's mismatch stops the work
/// with the counting error, and the first row stays inserted.
pub proof fn lemma_count_mismatch_second_row(
    t0: Table,
    t1: Table,
    cs: Seq<Seq<char>>,
    r1: Seq<Seq<char>>,
    r2: Seq<Seq<char>>,
    res: Result<(), SQLRiteError>,
)
    requires
        cs.len() == r1.len(),
        forall|i: int|
            0 <= i < cs.len() ==> (#[trigger] unique_check_at(t0, cs, r1, i))
                matches UniqueCheck::Pass,
        insert_ok(t0, cs, r1),
        cs.len() != r2.len(),
        rows_outcome(t0, t1, cs, seq![r1, r2], res),
    ensures
        res matches Err(e) && e matches SQLRiteError::Internal(m) && m@ == dec_str(
            r2.len() as int,
        ) + " values for "@ + dec_str(cs.len() as int) + " columns"@,
        exists|tm: Table| #[trigger] insert_applied(t0, tm, cs, r1) && t1 == tm,
{
    let rows = seq![r1, r2];
    assert(rows[0] == r1);
    let tm = choose|tm: Table|
        #[trigger] insert_applied(t0, tm, cs, r1) && rows_outcome(
            tm,
            t1,
            cs,
            rows.drop_first(),
            res,
        );
    assert(rows.drop_first() =~= seq![r2]);
    assert(seq![r2][0] == r2);
    assert(rows_outcome(tm, t1, cs, seq![r2], res));
}

} // verus!
