use crate::catalog::validate::{catalog_fault, validate_catalog};
use crate::consts::PAGE_SIZE;
use crate::errors::catalog_error::{CatalogError, CatalogFault};
use crate::types::catalog_types::{
    index_meta_position, meta_position, Catalog, ColumnMeta, IndexMeta, NamedTable, TableMeta,
};
use crate::types::storage_types::ForeignKeyConstraint;
use crate::types::transaction_types::TxStatus;
use vstd::prelude::*;
use vstd::string::StringExecFns;

verus! {

broadcast use vstd::std_specs::hash::group_hash_axioms;

/// Keeper of the catalog of one data directory.
pub struct CatalogManager {
    pub data_dir: String,
    pub catalog: Catalog,
}

/// The path of the heap file of a table in a data directory.
pub open spec fn table_file(data_dir: Seq<char>, name: Seq<char>) -> Seq<char> {
    data_dir + "/"@ + name + ".tbl"@
}

/// What is wrong with a catalog that was read from disk, if anything: its
/// page size first, then what a check of the whole finds.
pub open spec fn load_fault(cat: Catalog) -> Option<CatalogFault> {
    if cat.page_size != PAGE_SIZE {
        Some(CatalogFault::PageSizeMismatch)
    } else {
        catalog_fault(cat)
    }
}

impl CatalogManager {
    /// Takes charge of the catalog of a data directory: of the one that was
    /// read from its file, if it is sound, or of an empty one if there was
    /// no file.
    pub fn open(data_dir: &str, loaded: Option<Catalog>) -> (r: Result<CatalogManager, CatalogError>)
        ensures
            match r {
                Ok(m) => {
                    &&& m.data_dir@ == data_dir@
                    &&& match loaded {
                        Some(cat) => load_fault(cat).is_none() && m.catalog == cat,
                        None => {
                            &&& m.catalog.version == 1
                            &&& m.catalog.page_size == PAGE_SIZE
                            &&& m.catalog.next_table_oid == 1
                            &&& m.catalog.next_xid == 1
                            &&& m.catalog.transactions@ == Map::<u32, TxStatus>::empty()
                            &&& m.catalog.indexes@.len() == 0
                            &&& m.catalog.tables@.len() == 0
                        },
                    }
                },
                Err(e) => match loaded {
                    Some(cat) => load_fault(cat) == Some(e@),
                    None => false,
                },
            },
    {
        match loaded {
            None => Ok(
                CatalogManager {
                    data_dir: data_dir.to_owned(),
                    catalog: Catalog::empty(PAGE_SIZE as u32),
                },
            ),
            Some(cat) => {
                if cat.page_size as usize != PAGE_SIZE {
                    return Err(CatalogError::PageSizeMismatch);
                }
                match validate_catalog(&cat) {
                    Err(e) => Err(e),
                    Ok(()) => Ok(CatalogManager { data_dir: data_dir.to_owned(), catalog: cat }),
                }
            },
        }
    }

    /// The catalog.
    pub fn catalog(&self) -> (c: &Catalog)
        ensures
            *c == self.catalog,
    {
        &self.catalog
    }

    /// The indexes of the catalog.
    pub fn get_indexes(&self) -> (r: &Vec<IndexMeta>)
        ensures
            *r == self.catalog.indexes,
    {
        &self.catalog.indexes
    }

    /// Why an index cannot be registered, if it cannot.
    pub open spec fn create_index_fault(&self, name: Seq<char>, table: Seq<char>) -> Option<
        CatalogFault,
    > {
        if index_meta_position(self.catalog.indexes@, name, 0).is_some() {
            Some(CatalogFault::IndexExists(name))
        } else if meta_position(self.catalog.tables@, table, 0).is_none() {
            Some(CatalogFault::TableNotFound(table))
        } else {
            None
        }
    }

    /// Registers an index on columns of a table.
    pub fn create_index(&mut self, name: &str, table: &str, columns: &Vec<String>) -> (r: Result<
        &IndexMeta,
        CatalogError,
    >)
        ensures
            final(self).data_dir == old(self).data_dir,
            final(self).catalog.version == old(self).catalog.version,
            final(self).catalog.page_size == old(self).catalog.page_size,
            final(self).catalog.next_table_oid == old(self).catalog.next_table_oid,
            final(self).catalog.next_xid == old(self).catalog.next_xid,
            final(self).catalog.transactions == old(self).catalog.transactions,
            final(self).catalog.tables == old(self).catalog.tables,
            match r {
                Ok(meta) => {
                    &&& old(self).create_index_fault(name@, table@).is_none()
                    &&& final(self).catalog.indexes@.len() == old(self).catalog.indexes@.len() + 1
                    &&& final(self).catalog.indexes@.take(old(self).catalog.indexes@.len() as int)
                        == old(self).catalog.indexes@
                    &&& *meta == final(self).catalog.indexes@.last()
                    &&& meta.name@ == name@
                    &&& meta.table@ == table@
                    &&& crate::types::storage_types::names_view(meta.columns@)
                        == crate::types::storage_types::names_view(columns@)
                },
                Err(e) => {
                    &&& old(self).create_index_fault(name@, table@) == Some(e@)
                    &&& final(self).catalog.indexes == old(self).catalog.indexes
                },
            },
    {
        if self.catalog.find_index(name).is_some() {
            return Err(CatalogError::IndexExists(name.to_owned()));
        }
        if !self.catalog.has_table(table) {
            return Err(CatalogError::TableNotFound(table.to_owned()));
        }
        let mut copied: Vec<String> = Vec::new();
        let mut i: usize = 0;
        while i < columns.len()
            invariant
                i <= columns.len(),
                copied.len() == i,
                forall|j: int| 0 <= j < i ==> copied[j]@ == columns[j]@,
            decreases columns.len() - i,
        {
            copied.push(columns[i].clone());
            i += 1;
        }
        assert(crate::types::storage_types::names_view(copied@)
            =~= crate::types::storage_types::names_view(columns@));
        let im = IndexMeta { name: name.to_owned(), table: table.to_owned(), columns: copied };
        self.catalog.indexes.push(im);
        assert(self.catalog.indexes@.take(old(self).catalog.indexes@.len() as int)
            =~= old(self).catalog.indexes@);
        let last = self.catalog.indexes.len() - 1;
        Ok(&self.catalog.indexes[last])
    }

    /// Why a table cannot be registered, if it cannot: a table of that name
    /// exists, the catalog is not sound, or no table id is left.
    pub open spec fn create_table_fault(&self, name: Seq<char>) -> Option<CatalogFault> {
        if meta_position(self.catalog.tables@, name, 0).is_some() {
            Some(CatalogFault::TableExists(name))
        } else if catalog_fault(self.catalog).is_some() {
            catalog_fault(self.catalog)
        } else if self.catalog.next_table_oid == u32::MAX {
            Some(CatalogFault::TableIdsExhausted)
        } else {
            None
        }
    }

    /// Registers a table: gives it the next table id and a heap file in the
    /// data directory.
    pub fn create_table(
        &mut self,
        name: &str,
        columns: Vec<ColumnMeta>,
        primary_key: Option<String>,
        foreign_keys: Vec<ForeignKeyConstraint>,
    ) -> (r: Result<&TableMeta, CatalogError>)
        ensures
            final(self).data_dir == old(self).data_dir,
            final(self).catalog.version == old(self).catalog.version,
            final(self).catalog.page_size == old(self).catalog.page_size,
            final(self).catalog.next_xid == old(self).catalog.next_xid,
            final(self).catalog.transactions == old(self).catalog.transactions,
            final(self).catalog.indexes == old(self).catalog.indexes,
            match r {
                Ok(meta) => {
                    &&& old(self).create_table_fault(name@).is_none()
                    &&& final(self).catalog.next_table_oid == old(self).catalog.next_table_oid + 1
                    &&& final(self).catalog.tables@.len() == old(self).catalog.tables@.len() + 1
                    &&& final(self).catalog.tables@.take(old(self).catalog.tables@.len() as int)
                        == old(self).catalog.tables@
                    &&& final(self).catalog.tables@.last().name@ == name@
                    &&& *meta == final(self).catalog.tables@.last().meta
                    &&& meta.oid == old(self).catalog.next_table_oid
                    &&& meta.file@ == table_file(old(self).data_dir@, name@)
                    &&& meta.columns == columns
                    &&& meta.next_rowid == 1
                    &&& meta.primary_key == primary_key
                    &&& meta.foreign_keys == foreign_keys
                },
                Err(e) => {
                    &&& old(self).create_table_fault(name@) == Some(e@)
                    &&& final(self).catalog.next_table_oid == old(self).catalog.next_table_oid
                    &&& final(self).catalog.tables == old(self).catalog.tables
                },
            },
    {
        if self.catalog.has_table(name) {
            return Err(CatalogError::TableExists(name.to_owned()));
        }
        match validate_catalog(&self.catalog) {
            Err(e) => {
                return Err(e);
            },
            Ok(()) => {},
        }
        if self.catalog.next_table_oid == u32::MAX {
            return Err(CatalogError::TableIdsExhausted);
        }
        let oid = self.catalog.next_table_oid;
        let mut file = self.data_dir.clone();
        file.append("/");
        file.append(name);
        file.append(".tbl");
        let meta = TableMeta { oid, file, columns, next_rowid: 1, primary_key, foreign_keys };
        self.catalog.next_table_oid = self.catalog.next_table_oid + 1;
        self.catalog.tables.push(NamedTable { name: name.to_owned(), meta });
        assert(self.catalog.tables@.take(old(self).catalog.tables@.len() as int)
            =~= old(self).catalog.tables@);
        let last = self.catalog.tables.len() - 1;
        Ok(&self.catalog.tables[last].meta)
    }

    /// Records the next xid to hand out.
    pub fn set_next_xid(&mut self, next_xid: u32)
        ensures
            final(self).data_dir == old(self).data_dir,
            final(self).catalog == (Catalog { next_xid, ..old(self).catalog }),
    {
        self.catalog.next_xid = next_xid;
    }

    /// Records the status of a transaction.
    pub fn set_status(&mut self, xid: u32, status: TxStatus)
        ensures
            final(self).data_dir == old(self).data_dir,
            final(self).catalog.version == old(self).catalog.version,
            final(self).catalog.page_size == old(self).catalog.page_size,
            final(self).catalog.next_table_oid == old(self).catalog.next_table_oid,
            final(self).catalog.next_xid == old(self).catalog.next_xid,
            final(self).catalog.indexes == old(self).catalog.indexes,
            final(self).catalog.tables == old(self).catalog.tables,
            final(self).catalog.transactions@ == old(self).catalog.transactions@.insert(
                xid,
                status,
            ),
    {
        self.catalog.transactions.insert(xid, status);
    }
}

} // verus!
