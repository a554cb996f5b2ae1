use crate::errors::engine_error::{DbError, DbErrorView};
use crate::executer::help_functions::{all_columns_known, resolve_columns};
use crate::types::b_tree::{BTreeIndex, EntryView};
use crate::types::storage_types::{index_position, names_view, table_position, Database};
use vstd::prelude::*;

verus! {

impl Database {
    /// Why an index cannot be created, if it cannot: an index of that name
    /// exists, the table does not, or the table lacks one of the columns.
    pub open spec fn create_index_failure(
        &self,
        name: Seq<char>,
        table_name: Seq<char>,
        columns: Seq<Seq<char>>,
    ) -> Option<DbErrorView> {
        if index_position(self.indexes@, name, 0).is_some() {
            Some(DbErrorView::IndexExists(name))
        } else {
            match table_position(self.tables@, table_name, 0) {
                None => Some(DbErrorView::TableDoesNotExist(table_name)),
                Some(t) => if all_columns_known(columns, self.tables@[t].columns@) {
                    None
                } else {
                    Some(
                        DbErrorView::IndexColumnMissing(
                            crate::executer::help_functions::first_unknown(
                                columns,
                                self.tables@[t].columns@,
                                0,
                            )->Some_0,
                        ),
                    )
                },
            }
        }
    }

    /// Adds an empty index on columns of a table.
    pub fn create_index(&mut self, name: &str, table_name: &str, columns: Vec<String>) -> (r:
        Result<(), DbError>)
        requires
            old(self).wf(),
        ensures
            final(self).wf(),
            final(self).tables == old(self).tables,
            final(self).transaction_manager == old(self).transaction_manager,
            match r {
                Ok(()) => {
                    &&& old(self).create_index_failure(name@, table_name@, names_view(columns@))
                        .is_none()
                    &&& final(self).indexes@.len() == old(self).indexes@.len() + 1
                    &&& final(self).indexes@.take(old(self).indexes@.len() as int) == old(self).indexes@
                    &&& final(self).indexes@.last().name@ == name@
                    &&& final(self).indexes@.last().table@ == table_name@
                    &&& final(self).indexes@.last().columns == columns
                    &&& final(self).indexes@.last().entries() == Seq::<EntryView>::empty()
                },
                Err(e) => {
                    &&& old(self).create_index_failure(name@, table_name@, names_view(columns@))
                        == Some(e@)
                    &&& final(self).indexes == old(self).indexes
                },
            },
    {
        if self.find_index(name).is_some() {
            return Err(DbError::IndexExists(name.to_owned()));
        }
        let t = match self.find_table(table_name) {
            Some(t) => t,
            None => {
                return Err(DbError::TableDoesNotExist(table_name.to_owned()));
            },
        };
        match resolve_columns(&columns, &self.tables[t].columns) {
            Ok(_) => {},
            Err(missing) => {
                return Err(DbError::IndexColumnMissing(missing));
            },
        }
        let idx = BTreeIndex::new(name.to_owned(), table_name.to_owned(), columns);
        proof {
            crate::types::storage_types::lemma_no_index_of_name(self.indexes@, name@, 0);
        }
        self.indexes.push(idx);
        assert(self.indexes@.take(old(self).indexes@.len() as int) =~= old(self).indexes@);
        Ok(())
    }
}

} // verus!
