use crate::types::parser_types::foreign_keys_view;
use crate::types::storage_types::{ColumnType, ForeignKeyConstraint, ForeignKeyView, Value, ValueView};
use crate::types::transaction_types::TxStatus;
use std::collections::HashMap;
use vstd::prelude::*;

verus! {

/// Column types as the catalog names them.
#[derive(Debug, Clone, Copy, PartialEq, Eq, Structural)]
pub enum CatColumnType {
    Int32,
    Text,
    Bool,
}

impl CatColumnType {
    /// The column type that the catalog's name stands for.
    pub open spec fn spec_column_type(self) -> ColumnType {
        match self {
            CatColumnType::Int32 => ColumnType::Int,
            CatColumnType::Text => ColumnType::Text,
            CatColumnType::Bool => ColumnType::Bool,
        }
    }

    /// The column type that the catalog's name stands for.
    pub fn column_type(self) -> (t: ColumnType)
        ensures
            t == self.spec_column_type(),
    {
        match self {
            CatColumnType::Int32 => ColumnType::Int,
            CatColumnType::Text => ColumnType::Text,
            CatColumnType::Bool => ColumnType::Bool,
        }
    }

    /// The catalog's name of a column type.
    pub fn of(t: ColumnType) -> (c: CatColumnType)
        ensures
            c.spec_column_type() == t,
    {
        match t {
            ColumnType::Int => CatColumnType::Int32,
            ColumnType::Text => CatColumnType::Text,
            ColumnType::Bool => CatColumnType::Bool,
        }
    }
}

impl From<CatColumnType> for ColumnType {
    fn from(c: CatColumnType) -> (t: ColumnType) {
        c.column_type()
    }
}

impl vstd::std_specs::convert::FromSpecImpl<CatColumnType> for ColumnType {
    open spec fn obeys_from_spec() -> bool {
        true
    }

    open spec fn from_spec(c: CatColumnType) -> ColumnType {
        c.spec_column_type()
    }
}

/// Metadata of a column.
#[derive(Debug, Clone)]
pub struct ColumnMeta {
    pub name: String,
    pub ty: CatColumnType,
    pub not_null: bool,
    pub default: Option<Value>,
}

/// Metadata of a table.
#[derive(Debug, Clone)]
pub struct TableMeta {
    pub oid: u32,
    pub file: String,
    pub columns: Vec<ColumnMeta>,
    pub next_rowid: u64,
    pub primary_key: Option<String>,
    pub foreign_keys: Vec<ForeignKeyConstraint>,
}

/// Metadata of an index.
#[derive(Debug, Clone)]
pub struct IndexMeta {
    pub name: String,
    pub table: String,
    pub columns: Vec<String>,
}

/// A table of the catalog under its name.
#[derive(Debug, Clone)]
pub struct NamedTable {
    pub name: String,
    pub meta: TableMeta,
}

/// The catalog: the metadata that is kept on disk.
#[derive(Debug, Clone)]
pub struct Catalog {
    pub version: u32,
    pub page_size: u32,
    pub next_table_oid: u32,
    pub next_xid: u32,
    pub transactions: HashMap<u32, TxStatus>,
    pub indexes: Vec<IndexMeta>,
    pub tables: Vec<NamedTable>,
}

/// The first table of the catalog at or after `i` that has the name.
pub open spec fn meta_position(tables: Seq<NamedTable>, name: Seq<char>, i: int) -> Option<int>
    decreases tables.len() - i,
{
    if i < 0 || i >= tables.len() {
        None
    } else if tables[i].name@ == name {
        Some(i)
    } else {
        meta_position(tables, name, i + 1)
    }
}

/// The first index of the catalog at or after `i` that has the name.
pub open spec fn index_meta_position(indexes: Seq<IndexMeta>, name: Seq<char>, i: int) -> Option<
    int,
>
    decreases indexes.len() - i,
{
    if i < 0 || i >= indexes.len() {
        None
    } else if indexes[i].name@ == name {
        Some(i)
    } else {
        index_meta_position(indexes, name, i + 1)
    }
}

impl Catalog {
    /// A catalog without tables, indexes and transactions; the first table
    /// id and the first xid are 1.
    pub fn empty(page_size: u32) -> (c: Catalog)
        ensures
            c.version == 1,
            c.page_size == page_size,
            c.next_table_oid == 1,
            c.next_xid == 1,
            c.transactions@ == Map::<u32, TxStatus>::empty(),
            c.indexes@.len() == 0,
            c.tables@.len() == 0,
    {
        Catalog {
            version: 1,
            page_size,
            next_table_oid: 1,
            next_xid: 1,
            tables: Vec::new(),
            indexes: Vec::new(),
            transactions: HashMap::new(),
        }
    }

    /// Where the table of a name stands.
    pub fn find_table(&self, name: &str) -> (r: Option<usize>)
        ensures
            match r {
                Some(i) => meta_position(self.tables@, name@, 0) == Some(i as int) && i
                    < self.tables@.len() && self.tables@[i as int].name@ == name@,
                None => meta_position(self.tables@, name@, 0).is_none(),
            },
    {
        let mut i: usize = 0;
        while i < self.tables.len()
            invariant
                i <= self.tables.len(),
                meta_position(self.tables@, name@, i as int) == meta_position(
                    self.tables@,
                    name@,
                    0,
                ),
            decreases self.tables.len() - i,
        {
            if crate::text::str_eq(self.tables[i].name.as_str(), name) {
                return Some(i);
            }
            i += 1;
        }
        None
    }

    /// Where the index of a name stands.
    pub fn find_index(&self, name: &str) -> (r: Option<usize>)
        ensures
            match r {
                Some(i) => index_meta_position(self.indexes@, name@, 0) == Some(i as int) && i
                    < self.indexes@.len() && self.indexes@[i as int].name@ == name@,
                None => index_meta_position(self.indexes@, name@, 0).is_none(),
            },
    {
        let mut i: usize = 0;
        while i < self.indexes.len()
            invariant
                i <= self.indexes.len(),
                index_meta_position(self.indexes@, name@, i as int) == index_meta_position(
                    self.indexes@,
                    name@,
                    0,
                ),
            decreases self.indexes.len() - i,
        {
            if crate::text::str_eq(self.indexes[i].name.as_str(), name) {
                return Some(i);
            }
            i += 1;
        }
        None
    }

    /// Whether the catalog has a table of the name.
    pub fn has_table(&self, name: &str) -> (b: bool)
        ensures
            b == meta_position(self.tables@, name@, 0).is_some(),
    {
        self.find_table(name).is_some()
    }
}

} // verus!
