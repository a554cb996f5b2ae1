use crate::errors::engine_error::{DbError, DbErrorView};
use crate::storage::heap_file::HeapFile;
use crate::types::storage_types::{
    table_position, Column, Database, ForeignKeyConstraint, Table,
};
use vstd::prelude::*;

verus! {

impl Database {
    /// Adds a table. Fails with `TableAlreadyExists`, and changes nothing,
    /// if a table of that name exists.
    pub fn create_table(
        &mut self,
        name: &str,
        columns: Vec<Column>,
        heap_file: HeapFile,
        primary_key: Option<String>,
        foreign_keys: Vec<ForeignKeyConstraint>,
    ) -> (r: Result<(), DbError>)
        requires
            old(self).wf(),
            heap_file.wf(),
        ensures
            final(self).wf(),
            final(self).indexes == old(self).indexes,
            final(self).transaction_manager == old(self).transaction_manager,
            match r {
                Ok(()) => {
                    &&& table_position(old(self).tables@, name@, 0).is_none()
                    &&& final(self).tables@.len() == old(self).tables@.len() + 1
                    &&& final(self).tables@.take(old(self).tables@.len() as int) == old(self).tables@
                    &&& final(self).tables@.last().name@ == name@
                    &&& final(self).tables@.last().columns == columns
                    &&& final(self).tables@.last().heap == heap_file
                    &&& final(self).tables@.last().primary_key == primary_key
                    &&& final(self).tables@.last().foreign_keys == foreign_keys
                },
                Err(e) => {
                    &&& e@ == DbErrorView::TableAlreadyExists(name@)
                    &&& table_position(old(self).tables@, name@, 0).is_some()
                    &&& final(self).tables == old(self).tables
                },
            },
    {
        if self.find_table(name).is_some() {
            return Err(DbError::TableAlreadyExists(name.to_owned()));
        }
        let table = Table { name: name.to_owned(), columns, heap: heap_file, primary_key, foreign_keys };
        proof {
            crate::types::storage_types::lemma_no_table_of_name(self.tables@, name@, 0);
        }
        self.tables.push(table);
        assert(self.tables@.take(old(self).tables@.len() as int) =~= old(self).tables@);
        Ok(())
    }
}

} // verus!
