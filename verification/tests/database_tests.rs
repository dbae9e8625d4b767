use sqlrite::sql::db::database::Database;
use sqlrite::sql::db::table::Table;
use sqlrite::sql::parser::ast_bridge::parse_statements;
use sqlrite::sql::parser::create::CreateQuery;

#[test]
fn new_database_create_test() {
    let db_name = String::from("my_db");
    let db = Database::new(db_name.to_string());
    assert_eq!(db.db_name, db_name);
}

#[test]
fn contains_table_test() {
    let db_name = String::from("my_db");
    let mut db = Database::new(db_name.to_string());

    let query_statement = "CREATE TABLE contacts (
            id INTEGER PRIMARY KEY,
            first_name TEXT NOT NULL,
            last_name TEXT NOT NULl,
            email TEXT NOT NULL UNIQUE
        );";
    let mut stmts = parse_statements(query_statement).unwrap();
    if stmts.len() > 1 {
        panic!("Expected a single query statement, but there are more then 1.")
    }
    let query = stmts.pop().unwrap();

    let create_query = CreateQuery::new(query).unwrap();
    db.insert_table(Table::new(create_query));

    assert!(db.contains_table("contacts".to_string()));
}

#[test]
fn get_table_test() {
    let db_name = String::from("my_db");
    let mut db = Database::new(db_name.to_string());

    let query_statement = "CREATE TABLE contacts (
            id INTEGER PRIMARY KEY,
            first_name TEXT NOT NULL,
            last_name TEXT NOT NULl,
            email TEXT NOT NULL UNIQUE
        );";
    let mut stmts = parse_statements(query_statement).unwrap();
    if stmts.len() > 1 {
        panic!("Expected a single query statement, but there are more then 1.")
    }
    let query = stmts.pop().unwrap();

    let create_query = CreateQuery::new(query).unwrap();
    db.insert_table(Table::new(create_query));

    let table = db.get_table(String::from("contacts")).unwrap();
    assert_eq!(table.columns.len(), 4);

    let table = db.get_table_mut(String::from("contacts")).unwrap();
    table.last_rowid += 1;
    assert_eq!(table.columns.len(), 4);
    assert_eq!(table.last_rowid, 1);
}
