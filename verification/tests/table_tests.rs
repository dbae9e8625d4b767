use sqlrite::sql::db::table::{DataType, Table};
use sqlrite::sql::parser::ast_bridge::parse_statements;
use sqlrite::sql::parser::create::{CreateQuery, RawColumnDecl, RawColumnOption, TypeName};
use sqlrite::sql::parser::ast_bridge::ParsedStatement;

#[test]
fn datatype_display_trait_test() {
    let integer = DataType::Integer;
    let text = DataType::Text;
    let real = DataType::Real;
    let boolean = DataType::Bool;
    let none = DataType::NoneType;
    let invalid = DataType::Invalid;

    assert_eq!(integer.display_text(), "Integer");
    assert_eq!(text.display_text(), "Text");
    assert_eq!(real.display_text(), "Real");
    assert_eq!(boolean.display_text(), "Boolean");
    assert_eq!(none.display_text(), "None");
    assert_eq!(invalid.display_text(), "Invalid");
}

#[test]
fn create_new_table_test() {
    let query_statement = "CREATE TABLE contacts (
            id INTEGER PRIMARY KEY,
            first_name TEXT NOT NULL,
            last_name TEXT NOT NULl,
            email TEXT NOT NULL UNIQUE,
            active BOOL,
            score REAL
        );";
    let mut stmts = parse_statements(query_statement).unwrap();
    if stmts.len() > 1 {
        panic!("Expected a single query statement, but there are more then 1.")
    }
    let query = stmts.pop().unwrap();

    let create_query = CreateQuery::new(query).unwrap();

    let table = Table::new(create_query);

    assert_eq!(table.columns.len(), 6);
    assert_eq!(table.last_rowid, 0);

    let id_column = "id".to_string();
    let mut found = false;
    for column in &table.columns {
        if column.column_name == id_column {
            assert_eq!(column.is_pk, true);
            assert_eq!(column.datatype, DataType::Integer);
            found = true;
        }
    }
    if !found {
        panic!("column not found");
    }
}

#[test]
fn datatype_new_folds_case_test() {
    assert_eq!(DataType::new("INTEGER".to_string()), DataType::Integer);
    assert_eq!(DataType::new("Text".to_string()), DataType::Text);
    assert_eq!(DataType::new("real".to_string()), DataType::Real);
    assert_eq!(DataType::new("BOOL".to_string()), DataType::Bool);
    assert_eq!(DataType::new("none".to_string()), DataType::NoneType);
    assert_eq!(DataType::new("varchar".to_string()), DataType::Invalid);
}

#[test]
fn schema_rows_reflect_columns_test() {
    let query_statement = "CREATE TABLE contacts (
            id INTEGER PRIMARY KEY,
            first_name TEXT NOT NULL,
            last_name TEXT NOT NULl
        );";
    let query = parse_statements(query_statement).unwrap().pop().unwrap();
    let create_query = CreateQuery::new(query).unwrap();
    let table = Table::new(create_query);

    let rows = table.schema_rows();
    assert_eq!(rows.len(), 4);
    assert_eq!(rows[0][0], "Column Name");
    assert_eq!(rows[1][0], "id");
    assert_eq!(rows[1][1], "Integer");
    assert_eq!(rows[1][2], "true");
    assert_eq!(rows[2][0], "first_name");
    assert_eq!(rows[2][4], "true");
}

#[test]
fn create_query_from_plain_statement_test() {
    // The translator can be driven with a hand-built parsed statement;
    // the flags come out exactly as the option scan settles them.
    let decls = vec![
        RawColumnDecl {
            name: "id".to_string(),
            declared_type: TypeName::Integer,
            options: vec![RawColumnOption::PrimaryKey],
        },
        RawColumnDecl {
            name: "name".to_string(),
            declared_type: TypeName::Text,
            options: vec![RawColumnOption::NotNull],
        },
    ];
    let statement = ParsedStatement::CreateTable("users".to_string(), decls);
    let q = CreateQuery::new(statement).unwrap();
    assert_eq!(q.table_name, "users");
    assert_eq!(q.columns.len(), 2);
    assert_eq!(q.columns[0].name, "id");
    assert_eq!(q.columns[0].datatype, "Integer");
    assert!(q.columns[0].is_pk && q.columns[0].not_null && q.columns[0].is_unique);
    assert_eq!(q.columns[1].datatype, "Text");
    assert!(!q.columns[1].is_pk && q.columns[1].not_null && !q.columns[1].is_unique);
}
