use vstd::prelude::*;

use sqlparser::ast::DataType as SqlType;
use sqlparser::ast::Statement;

use crate::sql::parser::create::{RawColumnDecl, RawColumnOption, TypeName};
use crate::sql::parser::insert::LiteralValue;

verus! {

// ---------------------------------------------------------------------------
// The parsed-statement boundary
//
// The engine consumes an already-parsed statement tree.  `parse_statements`
// reduces a command line to `ParsedStatement` values made of plain data,
// and `sql_parse` names that result: parsing is a function of the query
// text alone, so the engine's contracts can speak of the parse outcome
// while everything done with it stays verified.
// ---------------------------------------------------------------------------

/// One parsed statement, reduced to plain values: a CREATE TABLE with its
/// name and column declarations, an INSERT with its target, column list
/// and literal value rows, an acknowledged SELECT or DELETE, or any other
/// statement kind.
#[derive(Debug)]
pub enum ParsedStatement {
    CreateTable(String, Vec<RawColumnDecl>),
    Insert(String, Vec<String>, Vec<Vec<LiteralValue>>),
    Select,
    Delete,
    Other,
}

/// What parsing a command line yields: its statements in order, or the
/// parser's error text.  Parsing depends on the query text alone.
pub uninterp spec fn sql_parse(q: Seq<char>) -> Result<Seq<ParsedStatement>, Seq<char>>;

/// Relies on sqlparser's `Parser::parse_sql` with the SQLite dialect to
/// turn a command line into statements, reduced to plain values by the
/// conversion helpers below.  A parse failure is reported as the parser
/// error's debug text.
#[verifier::external_body]
pub fn parse_statements(query: &str) -> (r: Result<Vec<ParsedStatement>, String>)
    ensures
        ({
            match sql_parse(query@) {
                Ok(stmts) => r matches Ok(v) && v@ == stmts,
                Err(m) => r matches Err(e) && e@ == m,
            }
        }),
{
    match sqlparser::parser::Parser::parse_sql(&sqlparser::dialect::SQLiteDialect {}, query) {
        Ok(ast) => Ok(ast.iter().map(convert_statement).collect()),
        Err(e) => Err(format!("{:?}", e)),
    }
}

#[verifier::external_type_specification]
#[verifier::external_body]
pub struct ExStatement(Statement);

#[verifier::external_type_specification]
#[verifier::external_body]
pub struct ExInsert(sqlparser::ast::Insert);

#[verifier::external_type_specification]
#[verifier::external_body]
pub struct ExColumnDef(sqlparser::ast::ColumnDef);

#[verifier::external_type_specification]
#[verifier::external_body]
pub struct ExColumnOptionDef(sqlparser::ast::ColumnOptionDef);

#[verifier::external_type_specification]
#[verifier::external_body]
pub struct ExExpr(sqlparser::ast::Expr);

/// Relies on the variants of sqlparser's `Statement`: reduces one parsed
/// statement, reading CREATE TABLE's name and columns and handing the
/// other shapes on.  Runs only inside `parse_statements`.
#[verifier::external_body]
fn convert_statement(s: &Statement) -> ParsedStatement {
    match s {
        Statement::CreateTable(ct) => ParsedStatement::CreateTable(
            ct.name.to_string(),
            ct.columns.iter().map(convert_column_def).collect(),
        ),
        Statement::Insert(ins) => convert_insert(ins),
        Statement::Query(_) => ParsedStatement::Select,
        Statement::Delete(_) => ParsedStatement::Delete,
        _ => ParsedStatement::Other,
    }
}

/// Relies on sqlparser's `Insert` node: its target table when that is a
/// plain name, and the explicit column list.  Runs only inside
/// `parse_statements`.
#[verifier::external_body]
fn convert_insert(ins: &sqlparser::ast::Insert) -> ParsedStatement {
    match &ins.table {
        sqlparser::ast::TableObject::TableName(n) => ParsedStatement::Insert(
            n.to_string(),
            ins.columns.iter().map(|c| c.to_string()).collect(),
            convert_values(ins),
        ),
        _ => ParsedStatement::Other,
    }
}

/// Relies on sqlparser's `Insert` node: the literal rows of a VALUES
/// source.  Runs only inside `parse_statements`.
#[verifier::external_body]
fn convert_values(ins: &sqlparser::ast::Insert) -> Vec<Vec<LiteralValue>> {
    match &ins.source {
        Some(q) => match &*q.body {
            sqlparser::ast::SetExpr::Values(v) => v.rows.iter().map(
                |p| p.content.iter().map(convert_expr).collect(),
            ).collect(),
            _ => Vec::new(),
        },
        None => Vec::new(),
    }
}

/// Relies on sqlparser's `ColumnDef`: the column's name, declared type
/// and options.  Runs only inside `parse_statements`.
#[verifier::external_body]
fn convert_column_def(c: &sqlparser::ast::ColumnDef) -> RawColumnDecl {
    RawColumnDecl {
        name: c.name.to_string(),
        declared_type: column_type(c),
        options: c.options.iter().map(convert_option).collect(),
    }
}

/// Relies on sqlparser's `DataType` variants: which type keyword family
/// the column was declared with.  Runs only inside `parse_statements`.
#[verifier::external_body]
fn column_type(c: &sqlparser::ast::ColumnDef) -> TypeName {
    match &c.data_type {
        SqlType::SmallInt(_) => TypeName::SmallInt, SqlType::Int(_) => TypeName::Int,
        SqlType::Integer(_) => TypeName::Integer, SqlType::BigInt(_) => TypeName::BigInt,
        SqlType::Boolean => TypeName::Boolean, SqlType::Bool => TypeName::Bool,
        SqlType::Text => TypeName::Text, SqlType::Varchar(_) => TypeName::Varchar,
        SqlType::Real => TypeName::Real, SqlType::Float(_) => TypeName::Float,
        SqlType::Double(_) => TypeName::Double, SqlType::DoublePrecision => TypeName::DoublePrecision,
        SqlType::Decimal(_) => TypeName::Decimal,
        _ => TypeName::Other,
    }
}

/// Relies on sqlparser's `ColumnOption` variants: which constraint one
/// column option declares.  Runs only inside `parse_statements`.
#[verifier::external_body]
fn convert_option(o: &sqlparser::ast::ColumnOptionDef) -> RawColumnOption {
    match &o.option {
        sqlparser::ast::ColumnOption::PrimaryKey(_) => RawColumnOption::PrimaryKey,
        sqlparser::ast::ColumnOption::Unique(_) => RawColumnOption::Unique,
        sqlparser::ast::ColumnOption::NotNull => RawColumnOption::NotNull,
        _ => RawColumnOption::Other,
    }
}

/// Relies on sqlparser's `Expr` and `Value` variants: which literal kind
/// one value expression is, with its text.  Runs only inside
/// `parse_statements`.
#[verifier::external_body]
fn convert_expr(e: &sqlparser::ast::Expr) -> LiteralValue {
    match e {
        sqlparser::ast::Expr::Value(vs) => match &vs.value {
            sqlparser::ast::Value::Number(n, _) => LiteralValue::Number(n.clone()),
            sqlparser::ast::Value::Boolean(b) => LiteralValue::Boolean(*b),
            sqlparser::ast::Value::SingleQuotedString(q) => LiteralValue::Quoted(q.clone()),
            sqlparser::ast::Value::Null => LiteralValue::Null,
            _ => LiteralValue::Other,
        },
        sqlparser::ast::Expr::Identifier(i) => LiteralValue::Ident(i.to_string()),
        _ => LiteralValue::Other,
    }
}

} // verus!
