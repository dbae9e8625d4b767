use vstd::prelude::*;

use crate::error::SQLRiteError;
use crate::sql::db::table::Table;

verus! {

/// The catalog of one database session: its schema name and its tables,
/// keyed by their unique names.
pub struct Database {
    pub db_name: String,
    pub tables: Vec<Table>,
}

impl Database {
    /// The catalog invariant: table names are unique and every table is
    /// well formed.
    pub open spec fn wf(self) -> bool {
        &&& forall|i: int, j: int|
            0 <= i < j < self.tables@.len() ==> (#[trigger] self.tables@[i]).tb_name@ != (
            #[trigger] self.tables@[j]).tb_name@
        &&& forall|i: int| 0 <= i < self.tables@.len() ==> (#[trigger] self.tables@[i]).wf()
    }

    /// Is there a table with the given name?
    pub open spec fn spec_contains(self, name: Seq<char>) -> bool {
        exists|i: int| 0 <= i < self.tables@.len() && (#[trigger] self.tables@[i]).tb_name@
            == name
    }

    /// The position of the table with the given name.
    pub open spec fn table_idx(self, name: Seq<char>) -> int {
        choose|i: int| 0 <= i < self.tables@.len() && (#[trigger] self.tables@[i]).tb_name@
            == name
    }

    /// Creates an empty database.
    pub fn new(db_name: String) -> (db: Database)
        ensures
            db.wf(),
            db.db_name == db_name,
            db.tables@.len() == 0,
    {
        Database { db_name, tables: Vec::new() }
    }

    /// The position of the table named `name`, or `None` when the
    /// catalog has no such table.
    pub fn find_table(&self, name: &String) -> (r: Option<usize>)
        requires
            self.wf(),
        ensures
            r is Some <==> self.spec_contains(name@),
            r matches Some(i) ==> 0 <= i < self.tables@.len() && self.tables@[
                i as int
            ].tb_name@ == name@ && i == self.table_idx(name@),
    {
        let n = self.tables.len();
        let mut i: usize = 0;
        while i < n
            invariant
                0 <= i <= n,
                n == self.tables@.len(),
                self.wf(),
                forall|j: int| 0 <= j < i ==> (#[trigger] self.tables@[j]).tb_name@ != name@,
            decreases n - i,
        {
            if self.tables[i].tb_name == *name {
                proof {
                    assert(self.tables@[i as int].tb_name@ == name@);
                    assert(self.spec_contains(name@));
                    let c = self.table_idx(name@);
                    assert(0 <= c < self.tables@.len() && self.tables@[c].tb_name@ == name@);
                    if c != i {
                        assert(self.tables@[c].tb_name@ != self.tables@[i as int].tb_name@);
                    }
                }
                return Some(i);
            }
            i = i + 1;
        }
        None
    }

    /// Is there a table with the given name?
    pub fn contains_table(&self, table_name: String) -> (r: bool)
        requires
            self.wf(),
        ensures
            r == self.spec_contains(table_name@),
    {
        match self.find_table(&table_name) {
            Some(_) => true,
            None => false,
        }
    }

    /// A borrow of the table with the given name, or a `General` error
    /// naming the failure when there is none.
    pub fn get_table(&self, table_name: String) -> (r: Result<&Table, SQLRiteError>)
        requires
            self.wf(),
        ensures
            r is Ok <==> self.spec_contains(table_name@),
            r matches Ok(t) ==> *t == self.tables@[self.table_idx(table_name@)]
                && t.tb_name@ == table_name@,
            r matches Err(e) ==> (e matches SQLRiteError::General(m) && m@
                == "Table not found."@),
    {
        match self.find_table(&table_name) {
            Some(i) => Ok(&self.tables[i]),
            None => Err(SQLRiteError::General(String::from_str("Table not found."))),
        }
    }

    /// A mutable borrow of the table with the given name, or a `General`
    /// error naming the failure when there is none.
    pub fn get_table_mut(&mut self, table_name: String) -> (r: Result<&mut Table, SQLRiteError>)
        requires
            old(self).wf(),
        ensures
            r is Ok <==> old(self).spec_contains(table_name@),
            r matches Ok(t) ==> {
                let i = old(self).table_idx(table_name@);
                &&& *t == old(self).tables@[i]
                &&& final(self).tables@ == old(self).tables@.update(i, *final(t))
                &&& final(self).db_name == old(self).db_name
            },
            r is Err ==> *final(self) == *old(self),
            r matches Err(e) ==> (e matches SQLRiteError::General(m) && m@
                == "Table not found."@),
    {
        match self.find_table(&table_name) {
            Some(i) => Ok(&mut self.tables[i]),
            None => Err(SQLRiteError::General(String::from_str("Table not found."))),
        }
    }

    /// Adds a table under a name the catalog does not hold yet.
    pub fn insert_table(&mut self, table: Table)
        requires
            old(self).wf(),
            table.wf(),
            !old(self).spec_contains(table.tb_name@),
        ensures
            final(self).wf(),
            final(self).db_name == old(self).db_name,
            final(self).tables@ == old(self).tables@.push(table),
    {
        proof {
            assert forall|i: int|
                0 <= i < self.tables@.len() implies (#[trigger] self.tables@[i]).tb_name@
                != table.tb_name@ by {
                if self.tables@[i].tb_name@ == table.tb_name@ {
                    assert(self.spec_contains(table.tb_name@));
                }
            }
        }
        self.tables.push(table);
    }
}

} // verus!
