use crate::text::str_eq;
use crate::types::filter_types::CmpOp;
use crate::types::storage_types::{
    columns_view, names_view, values_view, Column, ColumnView, ForeignKeyConstraint,
    ForeignKeyView, Value, ValueView,
};
use crate::types::transaction_types::IsolationLevel;
use vstd::prelude::*;

verus! {

/// An operand of a comparison.
#[derive(Debug, Clone)]
pub enum Operand {
    Column(String),
    Literal(Value),
}

/// The mathematical content of an [`Operand`].
pub enum OperandView {
    Column(Seq<char>),
    Literal(ValueView),
}

impl View for Operand {
    type V = OperandView;

    open spec fn view(&self) -> OperandView {
        match self {
            Operand::Column(c) => OperandView::Column(c@),
            Operand::Literal(v) => OperandView::Literal(v@),
        }
    }
}

/// A predicate over rows.
#[derive(Debug)]
pub enum Condition {
    Cmp(CmpOp, Operand, Operand),
    And(Box<Condition>, Box<Condition>),
    Or(Box<Condition>, Box<Condition>),
    Not(Box<Condition>),
}

/// The mathematical content of a [`Condition`].
pub enum ConditionView {
    Cmp(CmpOp, OperandView, OperandView),
    And(Box<ConditionView>, Box<ConditionView>),
    Or(Box<ConditionView>, Box<ConditionView>),
    Not(Box<ConditionView>),
}

impl View for Condition {
    type V = ConditionView;

    open spec fn view(&self) -> ConditionView
        decreases self,
    {
        match self {
            Condition::Cmp(op, l, r) => ConditionView::Cmp(*op, l@, r@),
            Condition::And(a, b) => ConditionView::And(Box::new((**a)@), Box::new((**b)@)),
            Condition::Or(a, b) => ConditionView::Or(Box::new((**a)@), Box::new((**b)@)),
            Condition::Not(a) => ConditionView::Not(Box::new((**a)@)),
        }
    }
}

impl Operand {
    /// A deep copy with the same content.
    pub fn copy(&self) -> (r: Operand)
        ensures
            r@ == self@,
    {
        match self {
            Operand::Column(c) => Operand::Column(c.clone()),
            Operand::Literal(v) => Operand::Literal(v.copy()),
        }
    }
}

impl Condition {
    /// A deep copy with the same content.
    pub fn copy(&self) -> (r: Condition)
        ensures
            r@ == self@,
        decreases self,
    {
        match self {
            Condition::Cmp(op, l, r) => Condition::Cmp(*op, l.copy(), r.copy()),
            Condition::And(a, b) => Condition::And(Box::new(a.copy()), Box::new(b.copy())),
            Condition::Or(a, b) => Condition::Or(Box::new(a.copy()), Box::new(b.copy())),
            Condition::Not(a) => Condition::Not(Box::new(a.copy())),
        }
    }
}

/// View of an optional predicate.
pub open spec fn filter_view(f: Option<Condition>) -> Option<ConditionView> {
    match f {
        Some(c) => Some(c@),
        None => None,
    }
}

/// Tokens of a predicate.
#[derive(Debug, Clone, PartialEq)]
pub enum Token {
    Ident(String),
    Int(i64),
    Str(String),
    Bool(bool),
    Eq,
    Neq,
    Gt,
    Lt,
    Gte,
    Lte,
    And,
    Or,
    Not,
    LParen,
    RParen,
}

/// The mathematical content of a [`Token`].
pub enum TokenView {
    Ident(Seq<char>),
    Int(int),
    Str(Seq<char>),
    Bool(bool),
    Eq,
    Neq,
    Gt,
    Lt,
    Gte,
    Lte,
    And,
    Or,
    Not,
    LParen,
    RParen,
}

impl View for Token {
    type V = TokenView;

    open spec fn view(&self) -> TokenView {
        match self {
            Token::Ident(s) => TokenView::Ident(s@),
            Token::Int(i) => TokenView::Int(*i as int),
            Token::Str(s) => TokenView::Str(s@),
            Token::Bool(b) => TokenView::Bool(*b),
            Token::Eq => TokenView::Eq,
            Token::Neq => TokenView::Neq,
            Token::Gt => TokenView::Gt,
            Token::Lt => TokenView::Lt,
            Token::Gte => TokenView::Gte,
            Token::Lte => TokenView::Lte,
            Token::And => TokenView::And,
            Token::Or => TokenView::Or,
            Token::Not => TokenView::Not,
            Token::LParen => TokenView::LParen,
            Token::RParen => TokenView::RParen,
        }
    }
}

/// Views of a token list, position by position.
pub open spec fn tokens_view(ts: Seq<Token>) -> Seq<TokenView> {
    Seq::new(ts.len(), |i: int| ts[i]@)
}

/// Intermediate node while a predicate is folded from postfix form.
#[derive(Debug)]
pub enum Node {
    Col(String),
    Val(Value),
    Cond(Condition),
}

/// The mathematical content of a [`Node`].
pub enum NodeView {
    Col(Seq<char>),
    Val(ValueView),
    Cond(ConditionView),
}

impl View for Node {
    type V = NodeView;

    open spec fn view(&self) -> NodeView {
        match self {
            Node::Col(c) => NodeView::Col(c@),
            Node::Val(v) => NodeView::Val(v@),
            Node::Cond(c) => NodeView::Cond(c@),
        }
    }
}

/// Views of a node list, position by position.
pub open spec fn nodes_view(ns: Seq<Node>) -> Seq<NodeView> {
    Seq::new(ns.len(), |i: int| ns[i]@)
}

/// Kind of a join.
#[derive(Debug, Clone, Copy, PartialEq, Eq, Structural)]
pub enum JoinKind {
    Inner,
    Left,
}

/// The source of a SELECT: a table, or a tree of joins.
#[derive(Debug)]
pub enum FromItem {
    Table(String),
    Join { left: Box<FromItem>, right: Box<FromItem>, kind: JoinKind, on: Condition },
}

/// The mathematical content of a [`FromItem`].
pub enum FromItemView {
    Table(Seq<char>),
    Join { left: Box<FromItemView>, right: Box<FromItemView>, kind: JoinKind, on: ConditionView },
}

impl View for FromItem {
    type V = FromItemView;

    open spec fn view(&self) -> FromItemView
        decreases self,
    {
        match self {
            FromItem::Table(t) => FromItemView::Table(t@),
            FromItem::Join { left, right, kind, on } => FromItemView::Join {
                left: Box::new((**left)@),
                right: Box::new((**right)@),
                kind: *kind,
                on: on@,
            },
        }
    }
}

/// Table aliases of a SELECT: pairs of alias and table name, each alias once.
#[derive(Debug, Clone)]
pub struct Aliases {
    pub entries: Vec<(String, String)>,
}

/// Views of a list of alias pairs, position by position.
pub open spec fn pairs_view(ps: Seq<(String, String)>) -> Seq<(Seq<char>, Seq<char>)> {
    Seq::new(ps.len(), |i: int| (ps[i].0@, ps[i].1@))
}

/// The table that the first entry with alias `a` at or after `i` names.
pub open spec fn lookup_alias(ps: Seq<(Seq<char>, Seq<char>)>, a: Seq<char>, i: int) -> Option<
    Seq<char>,
>
    decreases ps.len() - i,
{
    if i < 0 || i >= ps.len() {
        None
    } else if ps[i].0 == a {
        Some(ps[i].1)
    } else {
        lookup_alias(ps, a, i + 1)
    }
}

/// The pairs after `alias` has been bound to `table`: an existing entry of
/// that alias is overwritten in place, otherwise a new entry is appended.
pub open spec fn bind_alias(
    ps: Seq<(Seq<char>, Seq<char>)>,
    alias: Seq<char>,
    table: Seq<char>,
    i: int,
) -> Seq<(Seq<char>, Seq<char>)>
    decreases ps.len() - i,
{
    if i < 0 || i >= ps.len() {
        ps.push((alias, table))
    } else if ps[i].0 == alias {
        ps.update(i, (alias, table))
    } else {
        bind_alias(ps, alias, table, i + 1)
    }
}

impl View for Aliases {
    type V = Seq<(Seq<char>, Seq<char>)>;

    open spec fn view(&self) -> Seq<(Seq<char>, Seq<char>)> {
        pairs_view(self.entries@)
    }
}

impl Aliases {
    /// No aliases.
    pub fn new() -> (a: Aliases)
        ensures
            a@ == Seq::<(Seq<char>, Seq<char>)>::empty(),
    {
        let a = Aliases { entries: Vec::new() };
        assert(a@ =~= Seq::<(Seq<char>, Seq<char>)>::empty());
        a
    }

    /// The table that `alias` stands for, if it is bound.
    pub fn get(&self, alias: &str) -> (r: Option<&String>)
        ensures
            match r {
                Some(t) => lookup_alias(self@, alias@, 0) == Some(t@),
                None => lookup_alias(self@, alias@, 0).is_none(),
            },
    {
        let mut i: usize = 0;
        while i < self.entries.len()
            invariant
                i <= self.entries.len(),
                lookup_alias(self@, alias@, i as int) == lookup_alias(self@, alias@, 0),
            decreases self.entries.len() - i,
        {
            if str_eq(self.entries[i].0.as_str(), alias) {
                return Some(&self.entries[i].1);
            }
            i += 1;
        }
        None
    }

    /// Binds `alias` to `table`, replacing an earlier binding of the alias.
    pub fn insert(&mut self, alias: String, table: String)
        ensures
            final(self)@ == bind_alias(old(self)@, alias@, table@, 0),
    {
        let mut i: usize = 0;
        while i < self.entries.len()
            invariant
                i <= self.entries.len(),
                *self == *old(self),
                bind_alias(self@, alias@, table@, i as int) == bind_alias(
                    self@,
                    alias@,
                    table@,
                    0,
                ),
            decreases self.entries.len() - i,
        {
            if self.entries[i].0 == alias {
                self.entries.set(i, (alias, table));
                assert(self@ =~= old(self)@.update(i as int, (alias@, table@)));
                return ;
            }
            i += 1;
        }
        self.entries.push((alias, table));
        assert(self@ =~= old(self)@.push((alias@, table@)));
    }
}

/// A parsed statement.
#[derive(Debug)]
pub enum Query {
    CreateTable {
        table_name: String,
        columns: Vec<Column>,
        primary_key: Option<String>,
        foreign_keys: Vec<ForeignKeyConstraint>,
    },
    Insert { table_name: String, column_names: Option<Vec<String>>, values: Vec<Value> },
    Select {
        from_table: FromItem,
        aliases: Aliases,
        column_names: Vec<String>,
        filter: Option<Condition>,
    },
    Delete { table_name: String, filter: Option<Condition> },
    Update {
        table_name: String,
        column_names: Vec<String>,
        values: Vec<Value>,
        filter: Option<Condition>,
    },
    CreateIndex { index_name: String, table_name: String, column_names: Vec<String> },
    Begin { isolation: Option<IsolationLevel> },
    Commit,
    Rollback,
    Vacuum { table_name: String },
    SetSessionIsolationLevel(IsolationLevel),
}

/// The mathematical content of a [`Query`].
pub enum QueryView {
    CreateTable {
        table_name: Seq<char>,
        columns: Seq<ColumnView>,
        primary_key: Option<Seq<char>>,
        foreign_keys: Seq<ForeignKeyView>,
    },
    Insert { table_name: Seq<char>, column_names: Option<Seq<Seq<char>>>, values: Seq<ValueView> },
    Select {
        from_table: FromItemView,
        aliases: Seq<(Seq<char>, Seq<char>)>,
        column_names: Seq<Seq<char>>,
        filter: Option<ConditionView>,
    },
    Delete { table_name: Seq<char>, filter: Option<ConditionView> },
    Update {
        table_name: Seq<char>,
        column_names: Seq<Seq<char>>,
        values: Seq<ValueView>,
        filter: Option<ConditionView>,
    },
    CreateIndex { index_name: Seq<char>, table_name: Seq<char>, column_names: Seq<Seq<char>> },
    Begin { isolation: Option<IsolationLevel> },
    Commit,
    Rollback,
    Vacuum { table_name: Seq<char> },
    SetSessionIsolationLevel(IsolationLevel),
}

/// Views of a list of foreign keys, position by position.
pub open spec fn foreign_keys_view(fs: Seq<ForeignKeyConstraint>) -> Seq<ForeignKeyView> {
    Seq::new(fs.len(), |i: int| fs[i]@)
}

impl View for Query {
    type V = QueryView;

    open spec fn view(&self) -> QueryView {
        match self {
            Query::CreateTable { table_name, columns, primary_key, foreign_keys } => {
                QueryView::CreateTable {
                    table_name: table_name@,
                    columns: columns_view(columns@),
                    primary_key: match primary_key {
                        Some(p) => Some(p@),
                        None => None,
                    },
                    foreign_keys: foreign_keys_view(foreign_keys@),
                }
            },
            Query::Insert { table_name, column_names, values } => QueryView::Insert {
                table_name: table_name@,
                column_names: match column_names {
                    Some(c) => Some(names_view(c@)),
                    None => None,
                },
                values: values_view(values@),
            },
            Query::Select { from_table, aliases, column_names, filter } => QueryView::Select {
                from_table: from_table@,
                aliases: aliases@,
                column_names: names_view(column_names@),
                filter: filter_view(*filter),
            },
            Query::Delete { table_name, filter } => QueryView::Delete {
                table_name: table_name@,
                filter: filter_view(*filter),
            },
            Query::Update { table_name, column_names, values, filter } => QueryView::Update {
                table_name: table_name@,
                column_names: names_view(column_names@),
                values: values_view(values@),
                filter: filter_view(*filter),
            },
            Query::CreateIndex { index_name, table_name, column_names } => {
                QueryView::CreateIndex {
                    index_name: index_name@,
                    table_name: table_name@,
                    column_names: names_view(column_names@),
                }
            },
            Query::Begin { isolation } => QueryView::Begin { isolation: *isolation },
            Query::Commit => QueryView::Commit,
            Query::Rollback => QueryView::Rollback,
            Query::Vacuum { table_name } => QueryView::Vacuum { table_name: table_name@ },
            Query::SetSessionIsolationLevel(l) => QueryView::SetSessionIsolationLevel(*l),
        }
    }
}

} // verus!
