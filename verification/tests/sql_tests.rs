use sqlrite::error::SQLRiteError;
use sqlrite::sql::db::database::Database;
use sqlrite::sql::db::table::Table;
use sqlrite::sql::parser::ast_bridge::{parse_statements, ParsedStatement};
use sqlrite::sql::parser::create::CreateQuery;
use sqlrite::sql::process_command;

#[test]
fn process_command_select_test() {
    let inputed_query = String::from("SELECT * from users;");
    let mut db = Database::new("tempdb".to_string());

    match process_command(&inputed_query, &mut db) {
        Ok(response) => assert_eq!(response, "SELECT Statement executed."),
        Err(err) => {
            println!("Error: {}", err.display_text());
            assert!(false)
        }
    };
}

#[test]
fn process_command_insert_test() {
    let mut db = Database::new("tempdb".to_string());

    let query_statement = "CREATE TABLE users (
            id INTEGER PRIMARY KEY,
            name TEXT
        );";
    let mut stmts = parse_statements(query_statement).unwrap();
    if stmts.len() > 1 {
        panic!("Expected a single query statement, but there are more then 1.")
    }
    let query = stmts.pop().unwrap();
    let create_query = CreateQuery::new(query).unwrap();

    db.insert_table(Table::new(create_query));

    let insert_query = String::from("INSERT INTO users (name) Values ('josh');");
    match process_command(&insert_query, &mut db) {
        Ok(response) => assert_eq!(response, "INSERT Statement executed."),
        Err(err) => {
            println!("Error: {}", err.display_text());
            assert!(false)
        }
    };
}

#[test]
fn process_command_insert_no_pk_test() {
    let mut db = Database::new("tempdb".to_string());

    let query_statement = "CREATE TABLE users (
            name TEXT
        );";
    let mut stmts = parse_statements(query_statement).unwrap();
    if stmts.len() > 1 {
        panic!("Expected a single query statement, but there are more then 1.")
    }
    let query = stmts.pop().unwrap();
    let create_query = CreateQuery::new(query).unwrap();

    db.insert_table(Table::new(create_query));

    let insert_query = String::from("INSERT INTO users (name) Values ('josh');");
    match process_command(&insert_query, &mut db) {
        Ok(response) => assert_eq!(response, "INSERT Statement executed."),
        Err(err) => {
            println!("Error: {}", err.display_text());
            assert!(false)
        }
    };
}

#[test]
fn process_command_delete_test() {
    let inputed_query = String::from("DELETE FROM users WHERE id=1;");
    let mut db = Database::new("tempdb".to_string());

    match process_command(&inputed_query, &mut db) {
        Ok(response) => assert_eq!(response, "DELETE Statement executed."),
        Err(err) => {
            println!("Error: {}", err.display_text());
            assert!(false)
        }
    };
}

#[test]
fn process_command_not_implemented_test() {
    let inputed_query = String::from("UPDATE users SET name='josh' where id=1;");
    let mut db = Database::new("tempdb".to_string());
    let expected = Err(SQLRiteError::NotImplemented(
        "SQL Statement not supported yet.".to_string(),
    ));

    let result = process_command(&inputed_query, &mut db).map_err(|e| e);
    assert_eq!(result, expected);
}

#[test]
fn create_table_validate_tablename_test() {
    let sql_input = String::from(
        "CREATE TABLE contacts (
            id INTEGER PRIMARY KEY,
            first_name TEXT NOT NULL,
            last_name TEXT NOT NULl,
            email TEXT NOT NULL UNIQUE
        );",
    );
    let expected_table_name = String::from("contacts");

    let mut stmts = parse_statements(&sql_input).unwrap();

    assert!(stmts.len() == 1, "ast has more then one Statement");

    let query = stmts.pop().unwrap();

    match query {
        ParsedStatement::CreateTable(_, _) => {
            let result = CreateQuery::new(query);
            match result {
                Ok(payload) => {
                    assert_eq!(payload.table_name, expected_table_name);
                }
                Err(_) => assert!(
                    false,
                    "an error occured during parsing CREATE TABLE Statement"
                ),
            }
        }
        _ => (),
    };
}
