use sqlrite::error::SQLRiteError;
use sqlrite::sql::db::database::Database;
use sqlrite::sql::db::table::Row;
use sqlrite::sql::process_command;

fn fresh_db() -> Database {
    Database::new("tempdb".to_string())
}

#[test]
fn end_to_end_contacts_insert_test() {
    let mut db = fresh_db();
    let create = "CREATE TABLE contacts (id INTEGER PRIMARY KEY, first_name TEXT NOT NULL, \
                  last_name TEXT NOT NULL, email TEXT NOT NULL UNIQUE);";
    assert!(process_command(create, &mut db).is_ok());

    let insert =
        "INSERT INTO contacts (first_name, last_name, email) VALUES ('Jo', 'Doe', 'jo@x.com');";
    assert_eq!(
        process_command(insert, &mut db),
        Ok("INSERT Statement executed.".to_string())
    );

    let table = db.get_table("contacts".to_string()).unwrap();
    assert_eq!(table.columns.len(), 4);
    assert_eq!(table.last_rowid, 1);
    match &table.rows[0] {
        Row::Integer(st) => assert_eq!(st.entries, vec![(1i64, 1i32)]),
        _ => panic!("id column should hold integers"),
    }
}

#[test]
fn end_to_end_duplicate_email_rejected_test() {
    let mut db = fresh_db();
    let create = "CREATE TABLE contacts (id INTEGER PRIMARY KEY, first_name TEXT NOT NULL, \
                  last_name TEXT NOT NULL, email TEXT NOT NULL UNIQUE);";
    assert!(process_command(create, &mut db).is_ok());

    let insert =
        "INSERT INTO contacts (first_name, last_name, email) VALUES ('Jo', 'Doe', 'jo@x.com');";
    assert!(process_command(insert, &mut db).is_ok());

    let result = process_command(insert, &mut db);
    match result {
        Err(SQLRiteError::Internal(m)) => {
            assert!(m.starts_with("Unique key constaint violation:"));
        }
        other => panic!("expected a unique-constraint error, got {:?}", other),
    }
    let table = db.get_table("contacts".to_string()).unwrap();
    assert_eq!(table.last_rowid, 1);
}

#[test]
fn duplicate_table_name_rejected_test() {
    let mut db = fresh_db();
    let create = "CREATE TABLE users (id INTEGER PRIMARY KEY, name TEXT);";
    assert!(process_command(create, &mut db).is_ok());

    let second = "CREATE TABLE users (other INTEGER);";
    assert_eq!(
        process_command(second, &mut db),
        Err(SQLRiteError::Internal(
            "Cannot create, table already exists.".to_string()
        ))
    );
    assert_eq!(db.tables.len(), 1);
    let table = db.get_table("users".to_string()).unwrap();
    assert_eq!(table.columns.len(), 2);
    assert_eq!(table.columns[1].column_name, "name");
}

#[test]
fn two_primary_keys_rejected_test() {
    let mut db = fresh_db();
    let create = "CREATE TABLE t (a INTEGER PRIMARY KEY, b INTEGER PRIMARY KEY);";
    assert_eq!(
        process_command(create, &mut db),
        Err(SQLRiteError::Internal(
            "Table 't' has more than one primary key".to_string()
        ))
    );
    assert_eq!(db.tables.len(), 0);
}

#[test]
fn duplicate_column_name_rejected_test() {
    let mut db = fresh_db();
    let create = "CREATE TABLE t (a INTEGER, a TEXT);";
    assert_eq!(
        process_command(create, &mut db),
        Err(SQLRiteError::Internal(
            "Duplicate column name: a".to_string()
        ))
    );
    assert_eq!(db.tables.len(), 0);
}

#[test]
fn explicit_key_drives_rowid_test() {
    let mut db = fresh_db();
    let create = "CREATE TABLE users (id INTEGER PRIMARY KEY, name TEXT);";
    assert!(process_command(create, &mut db).is_ok());

    let explicit = "INSERT INTO users (id, name) VALUES (5, 'a');";
    assert!(process_command(explicit, &mut db).is_ok());
    assert_eq!(db.get_table("users".to_string()).unwrap().last_rowid, 5);

    let omitted = "INSERT INTO users (name) VALUES ('b');";
    assert!(process_command(omitted, &mut db).is_ok());
    let table = db.get_table("users".to_string()).unwrap();
    assert_eq!(table.last_rowid, 6);
    match &table.rows[0] {
        Row::Integer(st) => assert_eq!(st.entries, vec![(5i64, 5i32), (6i64, 6i32)]),
        _ => panic!("id column should hold integers"),
    }
}

#[test]
fn missing_column_rejected_test() {
    let mut db = fresh_db();
    let create = "CREATE TABLE users (id INTEGER PRIMARY KEY, name TEXT);";
    assert!(process_command(create, &mut db).is_ok());

    let insert = "INSERT INTO users (nickname) VALUES ('x');";
    assert_eq!(
        process_command(insert, &mut db),
        Err(SQLRiteError::Internal(
            "Cannot insert, some of the columns do not exist: nickname".to_string()
        ))
    );
    let table = db.get_table("users".to_string()).unwrap();
    assert_eq!(table.last_rowid, 0);
}

#[test]
fn value_count_mismatch_rejected_test() {
    let mut db = fresh_db();
    let create = "CREATE TABLE users (id INTEGER PRIMARY KEY, name TEXT);";
    assert!(process_command(create, &mut db).is_ok());

    let insert = "INSERT INTO users (name) VALUES ('a', 'b');";
    assert_eq!(
        process_command(insert, &mut db),
        Err(SQLRiteError::Internal("2 values for 1 columns".to_string()))
    );
}

#[test]
fn missing_table_rejected_test() {
    let mut db = fresh_db();
    let insert = "INSERT INTO ghosts (name) VALUES ('a');";
    assert_eq!(
        process_command(insert, &mut db),
        Err(SQLRiteError::Internal("Table doesn't exist".to_string()))
    );
}

#[test]
fn parse_failure_reported_test() {
    let mut db = fresh_db();
    let result = process_command("definitely not sql;;;", &mut db);
    match result {
        Err(SQLRiteError::SqlError(_)) => {}
        other => panic!("expected a parser error, got {:?}", other),
    }
}

#[test]
fn table_lookup_failure_test() {
    let db = fresh_db();
    assert_eq!(
        db.get_table("nope".to_string()).err(),
        Some(SQLRiteError::General("Table not found.".to_string()))
    );
}

#[test]
fn bool_and_real_columns_test() {
    let mut db = fresh_db();
    let create = "CREATE TABLE m (id INTEGER PRIMARY KEY, active BOOL, score REAL);";
    assert!(process_command(create, &mut db).is_ok());

    let good = "INSERT INTO m (active, score) VALUES (true, 12.5);";
    assert!(process_command(good, &mut db).is_ok());

    let table = db.get_table("m".to_string()).unwrap();
    match &table.rows[1] {
        Row::Bool(st) => assert_eq!(st.entries, vec![(1i64, true)]),
        _ => panic!("active column should hold booleans"),
    }
    match &table.rows[2] {
        Row::Real(st) => assert_eq!(st.entries, vec![(1i64, "12.5".to_string())]),
        _ => panic!("score column should hold numeric text"),
    }

    let bad = "INSERT INTO m (active, score) VALUES ('maybe', 1.0);";
    assert!(process_command(bad, &mut db).is_err());
}

#[test]
fn data_rows_render_test() {
    let mut db = fresh_db();
    let create = "CREATE TABLE users (id INTEGER PRIMARY KEY, name TEXT);";
    assert!(process_command(create, &mut db).is_ok());
    let insert = "INSERT INTO users (name) VALUES ('jack');";
    assert!(process_command(insert, &mut db).is_ok());

    let table = db.get_table("users".to_string()).unwrap();
    let grid = table.data_rows();
    assert_eq!(grid.len(), 2);
    assert_eq!(grid[0], vec!["id".to_string(), "name".to_string()]);
    assert_eq!(grid[1], vec!["1".to_string(), "jack".to_string()]);
}

#[test]
fn out_of_order_columns_follow_lockstep_test() {
    // The value walk uses one forward cursor over the caller's column
    // list, so a list given out of declaration order leaves the earlier
    // declared columns unmatched: here the key column is skipped and only
    // the explicitly supplied key value drives the rowid.
    let mut db = fresh_db();
    let create = "CREATE TABLE users (id INTEGER PRIMARY KEY, name TEXT);";
    assert!(process_command(create, &mut db).is_ok());

    let insert = "INSERT INTO users (name, id) VALUES ('x', 7);";
    assert!(process_command(insert, &mut db).is_ok());

    let table = db.get_table("users".to_string()).unwrap();
    assert_eq!(table.last_rowid, 7);
    match &table.rows[0] {
        Row::Integer(st) => assert!(st.entries.is_empty()),
        _ => panic!("id column should hold integers"),
    }
    match &table.rows[1] {
        Row::Text(st) => assert_eq!(st.entries, vec![(7i64, "x".to_string())]),
        _ => panic!("name column should hold text"),
    }
}

#[test]
fn omitted_text_column_gets_null_sentinel_test() {
    let mut db = fresh_db();
    let create = "CREATE TABLE users (id INTEGER PRIMARY KEY, name TEXT, email TEXT);";
    assert!(process_command(create, &mut db).is_ok());

    let insert = "INSERT INTO users (name) VALUES ('a');";
    assert!(process_command(insert, &mut db).is_ok());

    let table = db.get_table("users".to_string()).unwrap();
    match &table.rows[2] {
        Row::Text(st) => assert_eq!(st.entries, vec![(1i64, "Null".to_string())]),
        _ => panic!("email column should hold text"),
    }
}

#[test]
fn omitted_integer_column_rejected_atomically_test() {
    // The sentinel text `Null` cannot be stored in an Integer column, so
    // the whole row is rejected and nothing changes.
    let mut db = fresh_db();
    let create = "CREATE TABLE users (id INTEGER PRIMARY KEY, age INTEGER, name TEXT);";
    assert!(process_command(create, &mut db).is_ok());

    let insert = "INSERT INTO users (name) VALUES ('a');";
    assert!(process_command(insert, &mut db).is_err());

    let table = db.get_table("users".to_string()).unwrap();
    assert_eq!(table.last_rowid, 0);
    match &table.rows[2] {
        Row::Text(st) => assert!(st.entries.is_empty()),
        _ => panic!("name column should hold text"),
    }
}

#[test]
fn missing_columns_are_listed_test() {
    // The rejection names the whole offending set, in the order the
    // statement gave it.
    let mut db = fresh_db();
    let create = "CREATE TABLE users (id INTEGER PRIMARY KEY, name TEXT);";
    assert!(process_command(create, &mut db).is_ok());

    let insert = "INSERT INTO users (nickname, name, shoe_size) VALUES ('x', 'y', '9');";
    assert_eq!(
        process_command(insert, &mut db),
        Err(SQLRiteError::Internal(
            "Cannot insert, some of the columns do not exist: nickname, shoe_size".to_string()
        ))
    );
    let table = db.get_table("users".to_string()).unwrap();
    assert_eq!(table.last_rowid, 0);
}

#[test]
fn last_rowid_never_decreases_test() {
    // A supplied key below the last rowid stores its row but leaves the
    // rowid sequence where it was.
    let mut db = fresh_db();
    let create = "CREATE TABLE users (id INTEGER PRIMARY KEY, name TEXT);";
    assert!(process_command(create, &mut db).is_ok());

    assert!(process_command("INSERT INTO users (id, name) VALUES (5, 'a');", &mut db).is_ok());
    assert!(process_command("INSERT INTO users (id, name) VALUES (2, 'b');", &mut db).is_ok());
    let table = db.get_table("users".to_string()).unwrap();
    assert_eq!(table.last_rowid, 5);
    match &table.rows[0] {
        Row::Integer(st) => assert_eq!(st.entries, vec![(2i64, 2i32), (5i64, 5i32)]),
        _ => panic!("id column should hold integers"),
    }

    assert!(process_command("INSERT INTO users (name) VALUES ('c');", &mut db).is_ok());
    assert_eq!(db.get_table("users".to_string()).unwrap().last_rowid, 6);
}

#[test]
fn later_row_count_mismatch_keeps_earlier_rows_test() {
    // Rows are processed in order: the second row's count mismatch is
    // reported with both counts, and the first row stays inserted.
    let mut db = fresh_db();
    let create = "CREATE TABLE users (id INTEGER PRIMARY KEY, name TEXT);";
    assert!(process_command(create, &mut db).is_ok());

    let insert = "INSERT INTO users (name) VALUES ('a'), ('b', 'c');";
    assert_eq!(
        process_command(insert, &mut db),
        Err(SQLRiteError::Internal("2 values for 1 columns".to_string()))
    );
    let table = db.get_table("users".to_string()).unwrap();
    assert_eq!(table.last_rowid, 1);
    match &table.rows[1] {
        Row::Text(st) => assert_eq!(st.entries, vec![(1i64, "a".to_string())]),
        _ => panic!("name column should hold text"),
    }
}
