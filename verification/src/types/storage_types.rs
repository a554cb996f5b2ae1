use crate::storage::heap_file::HeapFile;
use crate::types::b_tree::BTreeIndex;
use crate::types::transaction_types::TransactionManager;
use vstd::prelude::*;

verus! {

/// A single cell value. Values are ordered by kind first, in the order of
/// the variants, then integers by size, texts by their bytes, and `false`
/// before `true`.
#[derive(Debug, Clone, PartialEq, Eq, PartialOrd, Ord)]
pub enum Value {
    Int(i64),
    Text(String),
    Bool(bool),
    Null,
}

/// The mathematical content of a [`Value`].
pub enum ValueView {
    Int(int),
    Text(Seq<char>),
    Bool(bool),
    Null,
}

impl View for Value {
    type V = ValueView;

    open spec fn view(&self) -> ValueView {
        match self {
            Value::Int(i) => ValueView::Int(*i as int),
            Value::Text(s) => ValueView::Text(s@),
            Value::Bool(b) => ValueView::Bool(*b),
            Value::Null => ValueView::Null,
        }
    }
}

/// The kind of a value, without its payload.
#[derive(Debug, Clone, Copy, PartialEq, Eq, Structural)]
pub enum ValueType {
    Int,
    Text,
    Bool,
    Null,
}

impl ValueView {
    /// The kind of this value.
    pub open spec fn vtype(self) -> ValueType {
        match self {
            ValueView::Int(_) => ValueType::Int,
            ValueView::Text(_) => ValueType::Text,
            ValueView::Bool(_) => ValueType::Bool,
            ValueView::Null => ValueType::Null,
        }
    }
}

impl ValueType {
    /// Upper-case name of the kind.
    pub fn name(&self) -> (s: &'static str)
        ensures
            s@ == self.spec_name(),
    {
        match self {
            ValueType::Int => "INT",
            ValueType::Text => "TEXT",
            ValueType::Bool => "BOOL",
            ValueType::Null => "NULL",
        }
    }

    /// Upper-case name of the kind.
    pub open spec fn spec_name(&self) -> Seq<char> {
        match self {
            ValueType::Int => "INT"@,
            ValueType::Text => "TEXT"@,
            ValueType::Bool => "BOOL"@,
            ValueType::Null => "NULL"@,
        }
    }
}

impl Value {
    /// The kind of this value.
    pub fn vtype(&self) -> (t: ValueType)
        ensures
            t == self@.vtype(),
    {
        match self {
            Value::Int(_) => ValueType::Int,
            Value::Text(_) => ValueType::Text,
            Value::Bool(_) => ValueType::Bool,
            Value::Null => ValueType::Null,
        }
    }

    /// Whether this value is SQL NULL.
    pub fn is_null(&self) -> (b: bool)
        ensures
            b == (self@ == ValueView::Null),
    {
        match self {
            Value::Null => true,
            _ => false,
        }
    }

    /// Whether two values have the same content.
    pub fn same(&self, other: &Value) -> (b: bool)
        ensures
            b == (self@ == other@),
    {
        match (self, other) {
            (Value::Int(a), Value::Int(b)) => *a == *b,
            (Value::Text(a), Value::Text(b)) => {
                let r = *a == *b;
                r
            },
            (Value::Bool(a), Value::Bool(b)) => *a == *b,
            (Value::Null, Value::Null) => true,
            _ => false,
        }
    }

    /// A deep copy with the same content.
    pub fn copy(&self) -> (v: Value)
        ensures
            v@ == self@,
    {
        match self {
            Value::Int(i) => Value::Int(*i),
            Value::Text(s) => Value::Text(s.clone()),
            Value::Bool(b) => Value::Bool(*b),
            Value::Null => Value::Null,
        }
    }
}

/// Views of a sequence of values, position by position.
pub open spec fn values_view(vs: Seq<Value>) -> Seq<ValueView> {
    Seq::new(vs.len(), |i: int| vs[i]@)
}

/// Copies a list of values.
pub fn copy_values(vs: &Vec<Value>) -> (out: Vec<Value>)
    ensures
        values_view(out@) == values_view(vs@),
{
    let mut out: Vec<Value> = Vec::new();
    let mut i: usize = 0;
    while i < vs.len()
        invariant
            i <= vs.len(),
            out.len() == i,
            forall|j: int| 0 <= j < i ==> out[j]@ == vs[j]@,
        decreases vs.len() - i,
    {
        out.push(vs[i].copy());
        i += 1;
    }
    assert(values_view(out@) =~= values_view(vs@));
    out
}

/// Data type of a column.
#[derive(Debug, Clone, Copy, PartialEq, Eq, Structural)]
pub enum ColumnType {
    Int,
    Text,
    Bool,
}

/// Whether a value may be stored in a column of the given type: NULL always,
/// anything else only under its own type.
pub open spec fn value_fits(v: ValueView, ty: ColumnType) -> bool {
    match v {
        ValueView::Int(_) => ty == ColumnType::Int,
        ValueView::Text(_) => ty == ColumnType::Text,
        ValueView::Bool(_) => ty == ColumnType::Bool,
        ValueView::Null => true,
    }
}

/// Executable form of [`value_fits`].
pub fn value_fits_type(v: &Value, ty: ColumnType) -> (b: bool)
    ensures
        b == value_fits(v@, ty),
{
    match v {
        Value::Int(_) => ty == ColumnType::Int,
        Value::Text(_) => ty == ColumnType::Text,
        Value::Bool(_) => ty == ColumnType::Bool,
        Value::Null => true,
    }
}

/// A column of a table.
#[derive(Debug, Clone)]
pub struct Column {
    pub name: String,
    pub column_type: ColumnType,
    pub not_null: bool,
    pub default: Option<Value>,
}

/// The mathematical content of a [`Column`].
pub struct ColumnView {
    pub name: Seq<char>,
    pub column_type: ColumnType,
    pub not_null: bool,
    pub default: Option<ValueView>,
}

impl View for Column {
    type V = ColumnView;

    open spec fn view(&self) -> ColumnView {
        ColumnView {
            name: self.name@,
            column_type: self.column_type,
            not_null: self.not_null,
            default: match self.default {
                Some(v) => Some(v@),
                None => None,
            },
        }
    }
}

/// Views of a column list, position by position.
pub open spec fn columns_view(cs: Seq<Column>) -> Seq<ColumnView> {
    Seq::new(cs.len(), |i: int| cs[i]@)
}

/// Views of a list of names, position by position.
pub open spec fn names_view(ns: Seq<String>) -> Seq<Seq<char>> {
    Seq::new(ns.len(), |i: int| ns[i]@)
}

/// View of a name that may be absent.
pub open spec fn opt_name_view(name: Option<String>) -> Option<Seq<char>> {
    match name {
        Some(n) => Some(n@),
        None => None,
    }
}

/// A row: values aligned with the table's columns.
#[derive(Debug, Clone)]
pub struct Row {
    pub values: Vec<Value>,
}

impl View for Row {
    type V = Seq<ValueView>;

    open spec fn view(&self) -> Seq<ValueView> {
        values_view(self.values@)
    }
}

/// A foreign-key constraint of a table.
#[derive(Debug, Clone)]
pub struct ForeignKeyConstraint {
    pub local_columns: Vec<String>,
    pub referenced_table: String,
    pub referenced_columns: Vec<String>,
}

/// The mathematical content of a [`ForeignKeyConstraint`].
pub struct ForeignKeyView {
    pub local_columns: Seq<Seq<char>>,
    pub referenced_table: Seq<char>,
    pub referenced_columns: Seq<Seq<char>>,
}

impl View for ForeignKeyConstraint {
    type V = ForeignKeyView;

    open spec fn view(&self) -> ForeignKeyView {
        ForeignKeyView {
            local_columns: names_view(self.local_columns@),
            referenced_table: self.referenced_table@,
            referenced_columns: names_view(self.referenced_columns@),
        }
    }
}

/// A table: its schema, its heap file and its constraints.
pub struct Table {
    pub name: String,
    pub columns: Vec<Column>,
    pub heap: HeapFile,
    pub primary_key: Option<String>,
    pub foreign_keys: Vec<ForeignKeyConstraint>,
}

/// The in-memory database: the tables, the indexes and the transaction manager.
pub struct Database {
    pub tables: Vec<Table>,
    pub indexes: Vec<BTreeIndex>,
    pub transaction_manager: TransactionManager,
}

/// The first table at or after `i` that has the name.
pub open spec fn table_position(tables: Seq<Table>, name: Seq<char>, i: int) -> Option<int>
    decreases tables.len() - i,
{
    if i < 0 || i >= tables.len() {
        None
    } else if tables[i].name@ == name {
        Some(i)
    } else {
        table_position(tables, name, i + 1)
    }
}

/// The first index at or after `i` that has the name.
pub open spec fn index_position(indexes: Seq<BTreeIndex>, name: Seq<char>, i: int) -> Option<int>
    decreases indexes.len() - i,
{
    if i < 0 || i >= indexes.len() {
        None
    } else if indexes[i].name@ == name {
        Some(i)
    } else {
        index_position(indexes, name, i + 1)
    }
}

/// A column that is found at or after `i` stands there, among the columns.
pub proof fn lemma_column_position_bounds(columns: Seq<Column>, name: Seq<char>, i: int)
    requires
        0 <= i,
    ensures
        column_position(columns, name, i) matches Some(p) ==> i <= p < columns.len()
            && columns[p].name@ == name,
    decreases columns.len() - i,
{
    if i < columns.len() && columns[i].name@ != name {
        lemma_column_position_bounds(columns, name, i + 1);
    }
}

/// Where no table at or after `i` is found under a name, none has it.
pub proof fn lemma_no_table_of_name(tables: Seq<Table>, name: Seq<char>, i: int)
    requires
        0 <= i,
        table_position(tables, name, i).is_none(),
    ensures
        forall|k: int| i <= k < tables.len() ==> (#[trigger] tables[k]).name@ != name,
    decreases tables.len() - i,
{
    if i < tables.len() {
        lemma_no_table_of_name(tables, name, i + 1);
    }
}

/// Where no index at or after `i` is found under a name, none has it.
pub proof fn lemma_no_index_of_name(indexes: Seq<BTreeIndex>, name: Seq<char>, i: int)
    requires
        0 <= i,
        index_position(indexes, name, i).is_none(),
    ensures
        forall|k: int| i <= k < indexes.len() ==> (#[trigger] indexes[k]).name@ != name,
    decreases indexes.len() - i,
{
    if i < indexes.len() {
        lemma_no_index_of_name(indexes, name, i + 1);
    }
}

/// The first column at or after `i` that has the name.
pub open spec fn column_position(columns: Seq<Column>, name: Seq<char>, i: int) -> Option<int>
    decreases columns.len() - i,
{
    if i < 0 || i >= columns.len() {
        None
    } else if columns[i].name@ == name {
        Some(i)
    } else {
        column_position(columns, name, i + 1)
    }
}

/// Executable form of [`column_position`] from the first column on.
pub fn find_column(columns: &Vec<Column>, name: &str) -> (r: Option<usize>)
    ensures
        match r {
            Some(i) => column_position(columns@, name@, 0) == Some(i as int) && i < columns.len()
                && columns[i as int].name@ == name@,
            None => column_position(columns@, name@, 0).is_none(),
        },
{
    let mut i: usize = 0;
    while i < columns.len()
        invariant
            i <= columns.len(),
            column_position(columns@, name@, i as int) == column_position(columns@, name@, 0),
        decreases columns.len() - i,
    {
        if crate::text::str_eq(columns[i].name.as_str(), name) {
            return Some(i);
        }
        i += 1;
    }
    None
}

impl Table {
    /// The table's invariant: that of its heap file.
    pub open spec fn wf(&self) -> bool {
        self.heap.wf()
    }
}

/// Whether no two of the tables have the same name.
pub open spec fn table_names_distinct(tables: Seq<Table>) -> bool {
    forall|i: int, j: int|
        0 <= i < j < tables.len() ==> (#[trigger] tables[i]).name@ != (#[trigger] tables[j]).name@
}

/// Whether no two of the indexes have the same name.
pub open spec fn index_names_distinct(indexes: Seq<BTreeIndex>) -> bool {
    forall|i: int, j: int|
        0 <= i < j < indexes.len() ==> (#[trigger] indexes[i]).name@ != (
        #[trigger] indexes[j]).name@
}

impl Database {
    /// The database's invariant: every table and every index is
    /// well-formed, and no two tables and no two indexes have the same name.
    pub open spec fn wf(&self) -> bool {
        &&& forall|i: int| 0 <= i < self.tables@.len() ==> (#[trigger] self.tables@[i]).wf()
        &&& forall|i: int| 0 <= i < self.indexes@.len() ==> (#[trigger] self.indexes@[i]).wf()
        &&& table_names_distinct(self.tables@)
        &&& index_names_distinct(self.indexes@)
    }

    /// Whether this database holds what `other` holds: the same tables, the
    /// same indexes and the same transaction manager.
    pub open spec fn same_as(&self, other: Database) -> bool {
        &&& self.tables@ == other.tables@
        &&& self.indexes@ == other.indexes@
        &&& self.transaction_manager == other.transaction_manager
    }

    /// An empty database.
    pub fn new() -> (db: Database)
        ensures
            db.wf(),
            db.tables@.len() == 0,
            db.indexes@.len() == 0,
            db.transaction_manager@.transactions == Map::<
                u32,
                crate::types::transaction_types::TxStatus,
            >::empty(),
            db.transaction_manager@.next_xid == 1,
            db.transaction_manager@.active_xids == Seq::<u32>::empty(),
    {
        Database {
            tables: Vec::new(),
            indexes: Vec::new(),
            transaction_manager: TransactionManager::new(),
        }
    }

    /// Where the table of a name stands.
    pub fn find_table(&self, name: &str) -> (r: Option<usize>)
        ensures
            match r {
                Some(i) => table_position(self.tables@, name@, 0) == Some(i as int) && i
                    < self.tables@.len() && self.tables@[i as int].name@ == name@,
                None => table_position(self.tables@, name@, 0).is_none(),
            },
    {
        let mut i: usize = 0;
        while i < self.tables.len()
            invariant
                i <= self.tables.len(),
                table_position(self.tables@, name@, i as int) == table_position(
                    self.tables@,
                    name@,
                    0,
                ),
            decreases self.tables.len() - i,
        {
            if crate::text::str_eq(self.tables[i].name.as_str(), name) {
                return Some(i);
            }
            i += 1;
        }
        None
    }

    /// Where the index of a name stands.
    pub fn find_index(&self, name: &str) -> (r: Option<usize>)
        ensures
            match r {
                Some(i) => index_position(self.indexes@, name@, 0) == Some(i as int) && i
                    < self.indexes@.len() && self.indexes@[i as int].name@ == name@,
                None => index_position(self.indexes@, name@, 0).is_none(),
            },
    {
        let mut i: usize = 0;
        while i < self.indexes.len()
            invariant
                i <= self.indexes.len(),
                index_position(self.indexes@, name@, i as int) == index_position(
                    self.indexes@,
                    name@,
                    0,
                ),
            decreases self.indexes.len() - i,
        {
            if crate::text::str_eq(self.indexes[i].name.as_str(), name) {
                return Some(i);
            }
            i += 1;
        }
        None
    }
}

} // verus!
