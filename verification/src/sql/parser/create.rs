use vstd::prelude::*;

use crate::error::SQLRiteError;
use crate::sql::parser::ast_bridge::ParsedStatement;

verus! {

/// The declared type of a column as the SQL grammar names it.  Each
/// variant mirrors one type keyword family of the statement grammar; the
/// schema translator folds them into the engine's own affinities.
#[derive(Debug, PartialEq, Eq, Structural, Clone, Copy)]
pub enum TypeName {
    SmallInt,
    Int,
    Integer,
    BigInt,
    Boolean,
    Bool,
    Text,
    Varchar,
    Real,
    Float,
    Double,
    DoublePrecision,
    Decimal,
    Other,
}

/// A constraint attached to one column declaration.
#[derive(Debug, PartialEq, Eq, Structural, Clone, Copy)]
pub enum RawColumnOption {
    PrimaryKey,
    Unique,
    NotNull,
    Other,
}

/// One column declaration of a CREATE TABLE statement, reduced to plain
/// values: its name, its declared type, and its options in declaration
/// order.
#[derive(Debug)]
pub struct RawColumnDecl {
    pub name: String,
    pub declared_type: TypeName,
    pub options: Vec<RawColumnOption>,
}

/// The engine affinity name for a declared type: the integer family maps
/// to `Integer`, the boolean family to `Bool`, the character family to
/// `Text`, the floating family to `Real`, and anything else to `Invalid`.
pub open spec fn spec_declared_type_str(t: TypeName) -> Seq<char> {
    match t {
        TypeName::SmallInt => "Integer"@,
        TypeName::Int => "Integer"@,
        TypeName::Integer => "Integer"@,
        TypeName::BigInt => "Integer"@,
        TypeName::Boolean => "Bool"@,
        TypeName::Bool => "Bool"@,
        TypeName::Text => "Text"@,
        TypeName::Varchar => "Text"@,
        TypeName::Real => "Real"@,
        TypeName::Float => "Real"@,
        TypeName::Double => "Real"@,
        TypeName::DoublePrecision => "Real"@,
        TypeName::Decimal => "Real"@,
        TypeName::Other => "Invalid"@,
    }
}

/// May a column of this declared type take key constraints?  Only the
/// affinities that carry an index (everything but `Real` and `Bool`) may.
pub open spec fn spec_indexable(t: TypeName) -> bool {
    match t {
        TypeName::Boolean => false,
        TypeName::Bool => false,
        TypeName::Real => false,
        TypeName::Float => false,
        TypeName::Double => false,
        TypeName::DoublePrecision => false,
        TypeName::Decimal => false,
        _ => true,
    }
}

/// The engine affinity name, at execution time.
fn declared_type_str(t: &TypeName) -> (r: String)
    ensures
        r@ == spec_declared_type_str(*t),
{
    match t {
        TypeName::SmallInt => String::from_str("Integer"),
        TypeName::Int => String::from_str("Integer"),
        TypeName::Integer => String::from_str("Integer"),
        TypeName::BigInt => String::from_str("Integer"),
        TypeName::Boolean => String::from_str("Bool"),
        TypeName::Bool => String::from_str("Bool"),
        TypeName::Text => String::from_str("Text"),
        TypeName::Varchar => String::from_str("Text"),
        TypeName::Real => String::from_str("Real"),
        TypeName::Float => String::from_str("Real"),
        TypeName::Double => String::from_str("Real"),
        TypeName::DoublePrecision => String::from_str("Real"),
        TypeName::Decimal => String::from_str("Real"),
        TypeName::Other => String::from_str("Invalid"),
    }
}

/// May a column of this declared type take key constraints, at execution
/// time?
fn indexable(t: &TypeName) -> (r: bool)
    ensures
        r == spec_indexable(*t),
{
    match t {
        TypeName::Boolean => false,
        TypeName::Bool => false,
        TypeName::Real => false,
        TypeName::Float => false,
        TypeName::Double => false,
        TypeName::DoublePrecision => false,
        TypeName::Decimal => false,
        _ => true,
    }
}

/// The column flags `(is_pk, not_null, is_unique)` after scanning the
/// options in order.  A primary-key option on an indexable type makes the
/// column a unique, non-null key; a plain unique option makes it unique
/// and resets the key flag; a not-null option forces `not_null`.
pub open spec fn scan_options(opts: Seq<RawColumnOption>, ix: bool) -> (bool, bool, bool)
    decreases opts.len(),
{
    if opts.len() == 0 {
        (false, false, false)
    } else {
        let prev = scan_options(opts.drop_last(), ix);
        match opts.last() {
            RawColumnOption::PrimaryKey => if ix {
                (true, true, true)
            } else {
                prev
            },
            RawColumnOption::Unique => if ix {
                (false, prev.1, true)
            } else {
                prev
            },
            RawColumnOption::NotNull => (prev.0, true, prev.2),
            RawColumnOption::Other => prev,
        }
    }
}

/// Does the declaration carry a primary-key option that its type accepts?
pub open spec fn has_pk_option(d: RawColumnDecl) -> bool {
    spec_indexable(d.declared_type) && exists|i: int|
        0 <= i < d.options@.len() && d.options@[i] == RawColumnOption::PrimaryKey
}

/// The key flag that the scan settles on for declaration `i`.
pub open spec fn decl_is_pk(decls: Seq<RawColumnDecl>, i: int) -> bool {
    scan_options(decls[i].options@, spec_indexable(decls[i].declared_type)).0
}

/// Does declaration `i` repeat an earlier column name?
pub open spec fn dup_at(decls: Seq<RawColumnDecl>, i: int) -> bool {
    exists|j: int| 0 <= j < i && decls[j].name@ == decls[i].name@
}

/// Does declaration `i` declare a primary key when an earlier declaration
/// already settled on one?
pub open spec fn pk_err_at(decls: Seq<RawColumnDecl>, i: int) -> bool {
    has_pk_option(decls[i]) && exists|j: int| 0 <= j < i && decl_is_pk(decls, j)
}

/// Is declaration `i` rejected?
pub open spec fn bad_at(decls: Seq<RawColumnDecl>, i: int) -> bool {
    dup_at(decls, i) || pk_err_at(decls, i)
}

/// The first rejected declaration at or after `i`, or the length when the
/// whole list passes.
pub open spec fn first_bad_from(decls: Seq<RawColumnDecl>, i: int) -> int
    decreases decls.len() - i,
{
    if i < 0 || i >= decls.len() {
        decls.len() as int
    } else if bad_at(decls, i) {
        i
    } else {
        first_bad_from(decls, i + 1)
    }
}

/// When the declarations before `i` all pass and `i` is rejected, `i` is
/// the first rejected declaration.
proof fn lemma_first_bad(decls: Seq<RawColumnDecl>, i: int)
    requires
        0 <= i < decls.len(),
        forall|j: int| 0 <= j < i ==> !bad_at(decls, j),
        bad_at(decls, i),
    ensures
        first_bad_from(decls, 0) == i,
{
    lemma_first_bad_from(decls, 0, i);
}

/// Helper induction for `lemma_first_bad`, walking up from `k`.
proof fn lemma_first_bad_from(decls: Seq<RawColumnDecl>, k: int, i: int)
    requires
        0 <= k <= i < decls.len(),
        forall|j: int| k <= j < i ==> !bad_at(decls, j),
        bad_at(decls, i),
    ensures
        first_bad_from(decls, k) == i,
    decreases i - k,
{
    if k < i {
        lemma_first_bad_from(decls, k + 1, i);
    }
}

/// Do all declarations pass: no repeated column name and no second
/// primary key?
pub open spec fn decls_pass(decls: Seq<RawColumnDecl>) -> bool {
    forall|i: int| 0 <= i < decls.len() ==> !bad_at(decls, i)
}

/// A column of a schema after translation: its name, its affinity name,
/// and its constraint flags.
#[derive(Debug, PartialEq)]
pub struct ParsedColumn {
    pub name: String,
    pub datatype: String,
    pub is_pk: bool,
    pub not_null: bool,
    pub is_unique: bool,
}

/// A CREATE TABLE statement after translation: the table name and the
/// columns in declaration order.
#[derive(Debug)]
pub struct CreateQuery {
    pub table_name: String,
    pub columns: Vec<ParsedColumn>,
}

/// Does column `i` of the translation match what the scan of declaration
/// `i` settles on?
pub open spec fn col_matches_decl(c: ParsedColumn, decls: Seq<RawColumnDecl>, i: int) -> bool {
    let flags = scan_options(decls[i].options@, spec_indexable(decls[i].declared_type));
    &&& c.name@ == decls[i].name@
    &&& c.datatype@ == spec_declared_type_str(decls[i].declared_type)
    &&& c.is_pk == flags.0
    &&& c.not_null == flags.1
    &&& c.is_unique == flags.2
}

/// The translation succeeded: the schema is well formed, keeps the
/// statement's table name, and carries one column per declaration with
/// exactly the scanned name, affinity and flags.
pub open spec fn create_ok(q: CreateQuery, table_name: String, decls: Seq<RawColumnDecl>) -> bool {
    &&& q.wf()
    &&& q.table_name == table_name
    &&& q.columns@.len() == decls.len()
    &&& forall|i: int| 0 <= i < decls.len() ==> col_matches_decl(#[trigger] q.columns@[i], decls, i)
}

/// The translation was rejected at its first offending declaration, with
/// the message naming the repeated column or the table with two keys.
pub open spec fn create_err(table_name: String, decls: Seq<RawColumnDecl>, e: SQLRiteError)
    -> bool {
    let b = first_bad_from(decls, 0);
    &&& 0 <= b < decls.len()
    &&& bad_at(decls, b)
    &&& (dup_at(decls, b) ==> (e matches SQLRiteError::Internal(m) && m@
        == "Duplicate column name: "@ + decls[b].name@))
    &&& (!dup_at(decls, b) ==> (e matches SQLRiteError::Internal(m) && m@ == "Table '"@
        + table_name@ + "' has more than one primary key"@))
}

impl CreateQuery {
    /// The schema is well formed: column names are unique, at most one
    /// column is a key, and every affinity name is one the engine knows.
    pub open spec fn wf(self) -> bool {
        &&& forall|i: int, j: int|
            0 <= i < j < self.columns@.len() ==> (#[trigger] self.columns@[i]).name@ != (
            #[trigger] self.columns@[j]).name@
        &&& forall|i: int, j: int|
            0 <= i < j < self.columns@.len() && (#[trigger] self.columns@[i]).is_pk && (
            #[trigger] self.columns@[j]).is_pk ==> false
        &&& forall|i: int|
            0 <= i < self.columns@.len() ==> ((#[trigger] self.columns@[i]).datatype@
                == "Integer"@ || self.columns@[i].datatype@ == "Bool"@
                || self.columns@[i].datatype@ == "Text"@ || self.columns@[i].datatype@ == "Real"@
                || self.columns@[i].datatype@ == "Invalid"@)
    }

    /// Translates plain column declarations into a schema.  The columns
    /// come out in declaration order, one per declaration; a repeated
    /// column name or a second primary key rejects the statement at its
    /// first offence.
    pub fn from_decls(table_name: String, decls: Vec<RawColumnDecl>) -> (r: Result<
        CreateQuery,
        SQLRiteError,
    >)
        ensures
            (r is Ok <==> decls_pass(decls@)),
            r matches Ok(q) ==> create_ok(q, table_name, decls@),
            r matches Err(e) ==> create_err(table_name, decls@, e),
    {
        let n = decls.len();
        let mut parsed: Vec<ParsedColumn> = Vec::new();
        let mut idx: usize = 0;
        while idx < n
            invariant
                0 <= idx <= n,
                n == decls@.len(),
                parsed@.len() == idx,
                forall|i: int| 0 <= i < idx ==> !bad_at(decls@, i),
                forall|i: int|
                    0 <= i < idx ==> col_matches_decl(#[trigger] parsed@[i], decls@, i),
            decreases n - idx,
        {
            let name = decls[idx].name.clone();
            // A column name may appear only once per statement.
            let mut d: usize = 0;
            while d < idx
                invariant
                    0 <= d <= idx < n,
                    n == decls@.len(),
                    parsed@.len() == idx,
                    forall|i: int| 0 <= i < idx ==> !bad_at(decls@, i),
                    forall|i: int|
                        0 <= i < idx ==> col_matches_decl(#[trigger] parsed@[i], decls@, i),
                    name@ == decls@[idx as int].name@,
                    forall|j: int| 0 <= j < d ==> decls@[j].name@ != name@,
                decreases idx - d,
            {
                if parsed[d].name == name {
                    proof {
                        assert(decls@[d as int].name@ == decls@[idx as int].name@);
                        assert(dup_at(decls@, idx as int));
                        assert(bad_at(decls@, idx as int));
                        lemma_first_bad(decls@, idx as int);
                    }
                    return Err(
                        SQLRiteError::Internal(
                            String::from_str("Duplicate column name: ").concat(name.as_str()),
                        ),
                    );
                }
                d = d + 1;
            }
            assert(!dup_at(decls@, idx as int));
            let datatype = declared_type_str(&decls[idx].declared_type);
            let ix = indexable(&decls[idx].declared_type);
            let ghost opts = decls@[idx as int].options@;
            let mut is_pk = false;
            let mut not_null = false;
            let mut is_unique = false;
            let m = decls[idx].options.len();
            let mut t: usize = 0;
            while t < m
                invariant
                    0 <= t <= m,
                    0 <= idx < n,
                    n == decls@.len(),
                    parsed@.len() == idx,
                    forall|i: int|
                        0 <= i < idx ==> col_matches_decl(#[trigger] parsed@[i], decls@, i),
                    forall|i: int| 0 <= i < idx ==> !bad_at(decls@, i),
                    name@ == decls@[idx as int].name@,
                    !dup_at(decls@, idx as int),
                    datatype@ == spec_declared_type_str(decls@[idx as int].declared_type),
                    ix == spec_indexable(decls@[idx as int].declared_type),
                    opts == decls@[idx as int].options@,
                    m == opts.len(),
                    (is_pk, not_null, is_unique) == scan_options(opts.take(t as int), ix),
                    forall|k: int|
                        0 <= k < t && ix && opts[k] == RawColumnOption::PrimaryKey ==> !(
                        exists|j: int| 0 <= j < idx && decl_is_pk(decls@, j)),
                decreases m - t,
            {
                assert(opts.take(t + 1).drop_last() =~= opts.take(t as int));
                assert(opts.take(t + 1).last() == opts[t as int]);
                match decls[idx].options[t] {
                    RawColumnOption::PrimaryKey => {
                        if ix {
                            is_pk = true;
                            // A second primary key in one statement is
                            // rejected.
                            let mut p: usize = 0;
                            while p < idx
                                invariant
                                    0 <= p <= idx < n,
                                    n == decls@.len(),
                                    parsed@.len() == idx,
                                    forall|i: int| 0 <= i < idx ==> !bad_at(decls@, i),
                                    forall|i: int|
                                        0 <= i < idx ==> col_matches_decl(
                                            #[trigger] parsed@[i],
                                            decls@,
                                            i,
                                        ),
                                    !dup_at(decls@, idx as int),
                                    ix,
                                    ix == spec_indexable(decls@[idx as int].declared_type),
                                    opts == decls@[idx as int].options@,
                                    0 <= t < opts.len(),
                                    opts[t as int] == RawColumnOption::PrimaryKey,
                                    forall|j: int| 0 <= j < p ==> !decl_is_pk(decls@, j),
                                decreases idx - p,
                            {
                                if parsed[p].is_pk {
                                    proof {
                                        assert(decl_is_pk(decls@, p as int));
                                        assert(opts[t as int] == RawColumnOption::PrimaryKey);
                                        assert(has_pk_option(decls@[idx as int]));
                                        assert(pk_err_at(decls@, idx as int));
                                        lemma_first_bad(decls@, idx as int);
                                    }
                                    return Err(
                                        SQLRiteError::Internal(
                                            String::from_str("Table '").concat(
                                                table_name.as_str(),
                                            ).concat("' has more than one primary key"),
                                        ),
                                    );
                                }
                                p = p + 1;
                            }
                            not_null = true;
                            is_unique = true;
                        }
                    },
                    RawColumnOption::Unique => {
                        if ix {
                            is_pk = false;
                            is_unique = true;
                        }
                    },
                    RawColumnOption::NotNull => {
                        not_null = true;
                    },
                    RawColumnOption::Other => {},
                }
                t = t + 1;
            }
            assert(opts.take(m as int) =~= opts);
            assert(!pk_err_at(decls@, idx as int)) by {
                if pk_err_at(decls@, idx as int) {
                    let k = choose|k: int|
                        0 <= k < opts.len() && opts[k] == RawColumnOption::PrimaryKey;
                    assert(false);
                }
            }
            parsed.push(
                ParsedColumn { name, datatype, is_pk, not_null, is_unique },
            );
            idx = idx + 1;
        }
        let q = CreateQuery { table_name, columns: parsed };
        proof {
            lemma_translation_wf(q, decls@);
        }
        Ok(q)
    }
}

/// A settled key flag comes from a primary-key option somewhere in the
/// scanned options.
proof fn lemma_pk_flag_needs_option(opts: Seq<RawColumnOption>, ix: bool)
    requires
        scan_options(opts, ix).0,
    ensures
        ix,
        exists|i: int| 0 <= i < opts.len() && opts[i] == RawColumnOption::PrimaryKey,
    decreases opts.len(),
{
    if opts.len() > 0 {
        if opts.last() == RawColumnOption::PrimaryKey && ix {
            assert(opts[opts.len() - 1] == RawColumnOption::PrimaryKey);
        } else {
            lemma_pk_flag_needs_option(opts.drop_last(), ix);
            let i = choose|i: int|
                0 <= i < opts.drop_last().len() && opts.drop_last()[i]
                    == RawColumnOption::PrimaryKey;
            assert(opts[i] == RawColumnOption::PrimaryKey);
        }
    }
}

/// A translation whose declarations all pass is a well-formed schema.
proof fn lemma_translation_wf(q: CreateQuery, decls: Seq<RawColumnDecl>)
    requires
        q.columns@.len() == decls.len(),
        forall|i: int| 0 <= i < decls.len() ==> col_matches_decl(#[trigger] q.columns@[i], decls, i),
        forall|i: int| 0 <= i < decls.len() ==> !bad_at(decls, i),
    ensures
        q.wf(),
{
    assert forall|i: int, j: int|
        0 <= i < j < q.columns@.len() && (#[trigger] q.columns@[i]).is_pk && (
        #[trigger] q.columns@[j]).is_pk implies false by {
        assert(col_matches_decl(q.columns@[i], decls, i));
        assert(col_matches_decl(q.columns@[j], decls, j));
        assert(decl_is_pk(decls, i));
        assert(scan_options(decls[j].options@, spec_indexable(decls[j].declared_type)).0);
        lemma_pk_flag_needs_option(decls[j].options@, spec_indexable(decls[j].declared_type));
        assert(has_pk_option(decls[j]));
        assert(pk_err_at(decls, j));
        assert(!bad_at(decls, j));
    }
    assert forall|i: int, j: int|
        0 <= i < j < q.columns@.len() implies (#[trigger] q.columns@[i]).name@ != (
    #[trigger] q.columns@[j]).name@ by {
        assert(col_matches_decl(q.columns@[i], decls, i));
        assert(col_matches_decl(q.columns@[j], decls, j));
        if q.columns@[i].name@ == q.columns@[j].name@ {
            assert(decls[i].name@ == decls[j].name@);
            assert(dup_at(decls, j));
            assert(!bad_at(decls, j));
        }
    }
    assert forall|i: int| 0 <= i < q.columns@.len() implies ((#[trigger] q.columns@[i]).datatype@
        == "Integer"@ || q.columns@[i].datatype@ == "Bool"@ || q.columns@[i].datatype@ == "Text"@
        || q.columns@[i].datatype@ == "Real"@ || q.columns@[i].datatype@ == "Invalid"@) by {
        assert(col_matches_decl(q.columns@[i], decls, i));
    }
}

impl CreateQuery {
    /// Translates a parsed CREATE TABLE statement.  A statement of any
    /// other shape is rejected; the declarations are then translated and
    /// validated by `from_decls`.
    pub fn new(statement: ParsedStatement) -> (r: Result<CreateQuery, SQLRiteError>)
        ensures
            ({
                match statement {
                    ParsedStatement::CreateTable(name, decls) => {
                        &&& (r is Ok <==> decls_pass(decls@))
                        &&& (r matches Ok(q) ==> create_ok(q, name, decls@))
                        &&& (r matches Err(e) ==> create_err(name, decls@, e))
                    },
                    _ => (r matches Err(e) && e matches SQLRiteError::Internal(m) && m@
                        == "Error parsing query"@),
                }
            }),
    {
        match statement {
            ParsedStatement::CreateTable(table_name, decls) => CreateQuery::from_decls(
                table_name,
                decls,
            ),
            _ => Err(SQLRiteError::Internal(String::from_str("Error parsing query"))),
        }
    }
}

} // verus!
