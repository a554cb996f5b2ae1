use crate::errors::engine_error::{DbError, DbErrorView};
use crate::storage::codec::column_types;
use crate::storage::vacuum::{capped, dead_count, entries_after_vacuum};
use crate::types::storage_types::{names_view, table_position, Database};
use vstd::prelude::*;

verus! {

impl Database {
    /// Whether `after` is this database after a vacuum of the table at `t`:
    /// the table's heap file is vacuumed, and the positions of its dead
    /// tuples are gone from every index on the table. Everything else is as
    /// it was.
    pub open spec fn table_vacuumed(&self, after: Database, t: int) -> bool {
        let table = self.tables@[t];
        let schema = column_types(table.columns@);
        let statuses = self.transaction_manager@.transactions;
        &&& after.transaction_manager == self.transaction_manager
        &&& after.tables@.len() == self.tables@.len()
        &&& forall|i: int|
            0 <= i < self.tables@.len() && i != t ==> (#[trigger] after.tables@[i])
                == self.tables@[i]
        &&& after.tables@[t].name == table.name
        &&& after.tables@[t].columns == table.columns
        &&& after.tables@[t].primary_key == table.primary_key
        &&& after.tables@[t].foreign_keys == table.foreign_keys
        &&& table.heap.vacuumed(after.tables@[t].heap, schema, statuses)
        &&& after.indexes@.len() == self.indexes@.len()
        &&& forall|i: int|
            0 <= i < self.indexes@.len() && self.indexes@[i].table@ == table.name@ ==> {
                &&& (#[trigger] after.indexes@[i]).name == self.indexes@[i].name
                &&& after.indexes@[i].table == self.indexes@[i].table
                &&& after.indexes@[i].columns == self.indexes@[i].columns
                &&& after.indexes@[i].entries() == entries_after_vacuum(
                    self.indexes@[i].entries(),
                    names_view(self.indexes@[i].columns@),
                    table.columns@,
                    table.heap.pages@,
                    statuses,
                    table.heap.pages@.len() as int,
                )
            }
        &&& forall|i: int|
            0 <= i < self.indexes@.len() && self.indexes@[i].table@ != table.name@ ==> (
            #[trigger] after.indexes@[i]) == self.indexes@[i]
    }

    /// Whether `after` and `removed` are what a VACUUM of a table leaves
    /// and returns: the number of dead tuples that it reclaimed; or, if the
    /// table does not exist, nothing changed and no number.
    pub open spec fn vacuum_done(
        &self,
        after: Database,
        table_name: Seq<char>,
        removed: Option<usize>,
    ) -> bool {
        match table_position(self.tables@, table_name, 0) {
            None => removed.is_none() && after.same_as(*self),
            Some(t) => self.table_vacuumed(after, t) && removed == Some(
                capped(
                    dead_count(
                        self.tables@[t].heap.pages@,
                        column_types(self.tables@[t].columns@),
                        self.transaction_manager@.transactions,
                        self.tables@[t].heap.pages@.len() as int,
                    ),
                ),
            ),
        }
    }

    /// Reclaims the dead tuples of a table and returns their number.
    pub fn vacuum(&mut self, table_name: &str) -> (r: Result<usize, DbError>)
        requires
            old(self).wf(),
        ensures
            final(self).wf(),
            match r {
                Ok(n) => old(self).vacuum_done(*final(self), table_name@, Some(n)),
                Err(e) => e@ == DbErrorView::TableDoesNotExist(table_name@) && old(self).vacuum_done(
                    *final(self),
                    table_name@,
                    None,
                ),
            },
    {
        let t = match self.find_table(table_name) {
            Some(t) => t,
            None => {
                return Err(DbError::TableDoesNotExist(table_name.to_owned()));
            },
        };
        assert(self.tables@[t as int].wf());
        let ghost before = self.tables@;
        let mut table = self.tables.remove(t);
        let removed = table.heap.vacuum(
            &self.transaction_manager,
            &table.columns,
            table.name.as_str(),
            &mut self.indexes,
        );
        self.tables.insert(t, table);
        proof {
            assert(self.tables@.len() == before.len());
            assert forall|i: int| 0 <= i < before.len() && i != t implies (
            #[trigger] self.tables@[i]) == before[i] by {}
        }
        Ok(removed)
    }
}

} // verus!
