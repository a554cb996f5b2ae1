use crate::consts::{CATALOG_VERSION, PAGE_SIZE};
use crate::errors::catalog_error::{CatalogError, CatalogFault};
use crate::types::catalog_types::{Catalog, ColumnMeta, IndexMeta, NamedTable};
use vstd::prelude::*;

verus! {

/// Whether one of the first `n` tables has the id.
pub open spec fn oid_used(tables: Seq<NamedTable>, oid: u32, n: int) -> bool {
    exists|j: int| 0 <= j < n && j < tables.len() && (#[trigger] tables[j]).meta.oid == oid
}

/// Whether one of the first `n` tables uses the file.
pub open spec fn file_used(tables: Seq<NamedTable>, file: Seq<char>, n: int) -> bool {
    exists|j: int| 0 <= j < n && j < tables.len() && (#[trigger] tables[j]).meta.file@ == file
}

/// Whether two columns have the same name.
pub open spec fn has_duplicate_column(columns: Seq<ColumnMeta>) -> bool {
    exists|a: int, b: int|
        0 <= a < b < columns.len() && (#[trigger] columns[a]).name@ == (#[trigger] columns[b]).name@
}

/// Whether no two tables of the catalog have the same name.
pub open spec fn table_names_differ(tables: Seq<NamedTable>) -> bool {
    forall|a: int, b: int|
        0 <= a < b < tables.len() ==> (#[trigger] tables[a]).name@ != (#[trigger] tables[b]).name@
}

/// Whether no two indexes of the catalog have the same name.
pub open spec fn index_names_differ(indexes: Seq<IndexMeta>) -> bool {
    forall|a: int, b: int|
        0 <= a < b < indexes.len() ==> (#[trigger] indexes[a]).name@ != (
        #[trigger] indexes[b]).name@
}

/// What is wrong with the `i`-th table, if anything: a table before it has
/// its id or its file, or two of its columns have one name.
pub open spec fn table_fault(tables: Seq<NamedTable>, i: int) -> Option<CatalogFault> {
    if oid_used(tables, tables[i].meta.oid, i) {
        Some(CatalogFault::DuplicateOid)
    } else if file_used(tables, tables[i].meta.file@, i) {
        Some(CatalogFault::FileReused)
    } else if has_duplicate_column(tables[i].meta.columns@) {
        Some(CatalogFault::DuplicateColumn)
    } else {
        None
    }
}

/// The first fault among the tables from the `i`-th on.
pub open spec fn tables_fault(tables: Seq<NamedTable>, i: int) -> Option<CatalogFault>
    decreases tables.len() - i,
{
    if i < 0 || i >= tables.len() {
        None
    } else {
        match table_fault(tables, i) {
            Some(e) => Some(e),
            None => tables_fault(tables, i + 1),
        }
    }
}

/// What is wrong with a catalog, if anything: its version, its page size,
/// two tables or two indexes of one name, or one of its tables.
pub open spec fn catalog_fault(cat: Catalog) -> Option<CatalogFault> {
    if cat.version != CATALOG_VERSION {
        Some(CatalogFault::UnsupportedVersion)
    } else if cat.page_size != PAGE_SIZE {
        Some(CatalogFault::PageSizeMismatch)
    } else if !table_names_differ(cat.tables@) {
        Some(CatalogFault::DuplicateTable)
    } else if !index_names_differ(cat.indexes@) {
        Some(CatalogFault::DuplicateIndex)
    } else {
        tables_fault(cat.tables@, 0)
    }
}

/// Whether no two tables of the catalog have the same name.
pub fn distinct_table_names(tables: &Vec<NamedTable>) -> (d: bool)
    ensures
        d == table_names_differ(tables@),
{
    let mut b: usize = 0;
    while b < tables.len()
        invariant
            b <= tables.len(),
            forall|x: int, y: int|
                0 <= x < y < b ==> (#[trigger] tables@[x]).name@ != (#[trigger] tables@[y]).name@,
        decreases tables.len() - b,
    {
        let mut a: usize = 0;
        while a < b
            invariant
                a <= b < tables.len(),
                forall|x: int, y: int|
                    0 <= x < y < b ==> (#[trigger] tables@[x]).name@ != (
                    #[trigger] tables@[y]).name@,
                forall|x: int| 0 <= x < a ==> (#[trigger] tables@[x]).name@ != tables@[b as int].name@,
            decreases b - a,
        {
            if crate::text::str_eq(tables[a].name.as_str(), tables[b].name.as_str()) {
                return false;
            }
            a += 1;
        }
        b += 1;
    }
    true
}

/// Whether no two indexes of the catalog have the same name.
pub fn distinct_index_names(indexes: &Vec<IndexMeta>) -> (d: bool)
    ensures
        d == index_names_differ(indexes@),
{
    let mut b: usize = 0;
    while b < indexes.len()
        invariant
            b <= indexes.len(),
            forall|x: int, y: int|
                0 <= x < y < b ==> (#[trigger] indexes@[x]).name@ != (
                #[trigger] indexes@[y]).name@,
        decreases indexes.len() - b,
    {
        let mut a: usize = 0;
        while a < b
            invariant
                a <= b < indexes.len(),
                forall|x: int, y: int|
                    0 <= x < y < b ==> (#[trigger] indexes@[x]).name@ != (
                    #[trigger] indexes@[y]).name@,
                forall|x: int|
                    0 <= x < a ==> (#[trigger] indexes@[x]).name@ != indexes@[b as int].name@,
            decreases b - a,
        {
            if crate::text::str_eq(indexes[a].name.as_str(), indexes[b].name.as_str()) {
                return false;
            }
            a += 1;
        }
        b += 1;
    }
    true
}

fn is_oid_used(tables: &Vec<NamedTable>, oid: u32, n: usize) -> (b: bool)
    requires
        n <= tables.len(),
    ensures
        b == oid_used(tables@, oid, n as int),
{
    let mut j: usize = 0;
    while j < n
        invariant
            j <= n <= tables.len(),
            forall|k: int| 0 <= k < j ==> (#[trigger] tables@[k]).meta.oid != oid,
        decreases n - j,
    {
        if tables[j].meta.oid == oid {
            return true;
        }
        j += 1;
    }
    false
}

fn is_file_used(tables: &Vec<NamedTable>, file: &str, n: usize) -> (b: bool)
    requires
        n <= tables.len(),
    ensures
        b == file_used(tables@, file@, n as int),
{
    let mut j: usize = 0;
    while j < n
        invariant
            j <= n <= tables.len(),
            forall|k: int| 0 <= k < j ==> (#[trigger] tables@[k]).meta.file@ != file@,
        decreases n - j,
    {
        if crate::text::str_eq(tables[j].meta.file.as_str(), file) {
            return true;
        }
        j += 1;
    }
    false
}

fn duplicate_column(columns: &Vec<ColumnMeta>) -> (b: bool)
    ensures
        b == has_duplicate_column(columns@),
{
    let mut b: usize = 0;
    while b < columns.len()
        invariant
            b <= columns.len(),
            forall|x: int, y: int|
                0 <= x < y < b ==> (#[trigger] columns@[x]).name@ != (#[trigger] columns@[y]).name@,
        decreases columns.len() - b,
    {
        let mut a: usize = 0;
        while a < b
            invariant
                a <= b < columns.len(),
                forall|x: int, y: int|
                    0 <= x < y < b ==> (#[trigger] columns@[x]).name@ != (
                    #[trigger] columns@[y]).name@,
                forall|x: int| 0 <= x < a ==> (#[trigger] columns@[x]).name@ != columns@[b as int].name@,
            decreases b - a,
        {
            if crate::text::str_eq(columns[a].name.as_str(), columns[b].name.as_str()) {
                return true;
            }
            a += 1;
        }
        b += 1;
    }
    false
}

/// Checks a catalog: its version, its page size, and that no two tables
/// share a name, an id or a file, no two indexes a name, and no two columns
/// of a table a name.
pub fn validate_catalog(cat: &Catalog) -> (r: Result<(), CatalogError>)
    ensures
        match r {
            Ok(()) => catalog_fault(*cat).is_none(),
            Err(e) => catalog_fault(*cat) == Some(e@),
        },
{
    if cat.version != CATALOG_VERSION {
        return Err(CatalogError::UnsupportedVersion);
    }
    if cat.page_size as usize != PAGE_SIZE {
        return Err(CatalogError::PageSizeMismatch);
    }
    if !distinct_table_names(&cat.tables) {
        return Err(CatalogError::DuplicateTable);
    }
    if !distinct_index_names(&cat.indexes) {
        return Err(CatalogError::DuplicateIndex);
    }
    let mut i: usize = 0;
    while i < cat.tables.len()
        invariant
            i <= cat.tables.len(),
            catalog_fault(*cat) == tables_fault(cat.tables@, i as int),
        decreases cat.tables.len() - i,
    {
        let t = &cat.tables[i];
        if is_oid_used(&cat.tables, t.meta.oid, i) {
            return Err(CatalogError::DuplicateOid);
        }
        if is_file_used(&cat.tables, t.meta.file.as_str(), i) {
            return Err(CatalogError::FileReused);
        }
        if duplicate_column(&t.meta.columns) {
            return Err(CatalogError::DuplicateColumn);
        }
        i += 1;
    }
    Ok(())
}

} // verus!
