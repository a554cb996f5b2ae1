use crate::engine::{fault_of, Engine, EngineFault};
use crate::errors::engine_error::{DbError, DbErrorView, EngineError};
use crate::executer::delete::taken_count;
use crate::executer::help_functions::failure_view;
use crate::executer::insert::opt_names_view;
use crate::executer::join::{
    aliased_columns, column_refs, rows_view, ColumnRef, JoinTableColumn, JoinTableView,
};
use crate::executer::select::{is_star, TableArg, TableArgView};
use crate::executer::update::update_targets;
use crate::storage::codec::column_types;
use crate::types::parser_types::{
    filter_view, foreign_keys_view, Condition, ConditionView, FromItem, FromItemView, Query,
    QueryView,
};
use crate::types::storage_types::{
    columns_view, names_view, table_position, values_view, Database, Row, ValueView,
};
use crate::types::transaction_types::{IsolationLevel, SnapshotView, TxStatus};
use vstd::prelude::*;
use vstd::string::StringExecFns;

verus! {

/// What a statement did, for the caller to report.
#[derive(Debug)]
pub enum Outcome {
    Began(u32),
    Committed(u32),
    RolledBack(u32),
    Vacuumed { table_name: String, removed: usize },
    SessionIsolationSet(IsolationLevel),
    TableCreated,
    IndexCreated,
    Inserted,
    Selected { headers: Vec<String>, rows: Vec<Row> },
    Deleted(usize),
    Updated,
}

/// The mathematical content of an [`Outcome`].
pub enum OutcomeView {
    Began(u32),
    Committed(u32),
    RolledBack(u32),
    Vacuumed { table_name: Seq<char>, removed: usize },
    SessionIsolationSet(IsolationLevel),
    TableCreated,
    IndexCreated,
    Inserted,
    Selected { headers: Seq<Seq<char>>, rows: Seq<Seq<ValueView>> },
    Deleted(usize),
    Updated,
}

impl View for Outcome {
    type V = OutcomeView;

    open spec fn view(&self) -> OutcomeView {
        match self {
            Outcome::Began(x) => OutcomeView::Began(*x),
            Outcome::Committed(x) => OutcomeView::Committed(*x),
            Outcome::RolledBack(x) => OutcomeView::RolledBack(*x),
            Outcome::Vacuumed { table_name, removed } => OutcomeView::Vacuumed {
                table_name: table_name@,
                removed: *removed,
            },
            Outcome::SessionIsolationSet(l) => OutcomeView::SessionIsolationSet(*l),
            Outcome::TableCreated => OutcomeView::TableCreated,
            Outcome::IndexCreated => OutcomeView::IndexCreated,
            Outcome::Inserted => OutcomeView::Inserted,
            Outcome::Selected { headers, rows } => OutcomeView::Selected {
                headers: names_view(headers@),
                rows: rows_view(rows@),
            },
            Outcome::Deleted(n) => OutcomeView::Deleted(*n),
            Outcome::Updated => OutcomeView::Updated,
        }
    }
}

/// The headers of the result of a SELECT: for `*`, each column as
/// `alias.name`; else the names as they were written.
pub open spec fn headers_of(cols: Seq<ColumnRef>, names: Seq<Seq<char>>) -> Seq<Seq<char>> {
    if is_star(names) {
        Seq::new(cols.len(), |i: int| cols[i].table_alias + "."@ + cols[i].column_name)
    } else {
        names
    }
}

fn qualified_headers(cols: &Vec<JoinTableColumn>) -> (r: Vec<String>)
    ensures
        names_view(r@) == Seq::new(
            cols@.len(),
            |i: int| cols@[i]@.table_alias + "."@ + cols@[i]@.column_name,
        ),
{
    let mut r: Vec<String> = Vec::new();
    let mut i: usize = 0;
    while i < cols.len()
        invariant
            i <= cols.len(),
            r.len() == i,
            forall|j: int|
                0 <= j < i ==> r[j]@ == cols@[j]@.table_alias + "."@ + cols@[j]@.column_name,
        decreases cols.len() - i,
    {
        let mut h = cols[i].table_alias.clone();
        h.append(".");
        h.append(cols[i].column_name.as_str());
        r.push(h);
        i += 1;
    }
    assert(names_view(r@) =~= Seq::new(
        cols@.len(),
        |i: int| cols@[i]@.table_alias + "."@ + cols@[i]@.column_name,
    ));
    r
}

impl Database {
    /// Whether `after` and `failure` are what an INSERT leaves and reports.
    pub open spec fn insert_done(
        &self,
        after: Database,
        table_name: Seq<char>,
        names: Option<Seq<Seq<char>>>,
        values: Seq<ValueView>,
        xid: u32,
        snapshot: SnapshotView,
        failure: Option<DbErrorView>,
    ) -> bool {
        &&& failure == self.insert_failure(table_name, names, values, xid, snapshot)
        &&& match failure {
            Some(_) => after.same_as(*self),
            None => exists|page_no: int, slot_no: int|
                #[trigger] self.row_inserted(
                    after,
                    table_position(self.tables@, table_name, 0).unwrap(),
                    self.prepared_row(
                        table_position(self.tables@, table_name, 0).unwrap(),
                        names,
                        values,
                        xid,
                        snapshot,
                    )->Ok_0,
                    xid,
                    page_no,
                    slot_no,
                ),
        }
    }

    /// Whether `after` and `result` are what a DELETE leaves and returns.
    pub open spec fn delete_done(
        &self,
        after: Database,
        table_name: Seq<char>,
        filter: Option<ConditionView>,
        xid: u32,
        snapshot: SnapshotView,
        result: Result<usize, DbErrorView>,
    ) -> bool {
        match table_position(self.tables@, table_name, 0) {
            None => result == Err::<usize, _>(DbErrorView::TableDoesNotExist(table_name)) && after.same_as(
                *self,
            ),
            Some(t) => {
                let table = self.tables@[t];
                let tuples = table.heap.tuples(column_types(table.columns@));
                let stop = self.delete_stop(t, tuples, filter, xid, snapshot, 0);
                &&& self.rows_deleted(after, t, filter, xid, snapshot, stop.0)
                &&& match result {
                    Ok(n) => stop.1.is_none() && n == taken_count(
                        tuples,
                        aliased_columns(table.name@, table.columns@),
                        filter,
                        xid,
                        snapshot,
                        self.transaction_manager@.transactions,
                        tuples.len() as int,
                    ),
                    Err(e) => stop.1 == Some(e),
                }
            },
        }
    }

    /// Whether `after` and `failure` are what an UPDATE leaves and reports.
    pub open spec fn update_done(
        &self,
        after: Database,
        table_name: Seq<char>,
        names: Seq<Seq<char>>,
        values: Seq<ValueView>,
        filter: Option<ConditionView>,
        xid: u32,
        snapshot: SnapshotView,
        failure: Option<DbErrorView>,
    ) -> bool {
        match table_position(self.tables@, table_name, 0) {
            None => failure == Some(DbErrorView::TableDoesNotExist(table_name)) && after.same_as(*self),
            Some(t) => match update_targets(self.tables@[t].columns@, table_name, names, values) {
                Err(e) => failure == Some(e) && after.same_as(*self),
                Ok(targets) => exists|stop: int|
                    #[trigger] self.update_outcome(
                        after,
                        t,
                        targets,
                        filter,
                        xid,
                        snapshot,
                        failure,
                        stop,
                    ),
            },
        }
    }

    /// The result of a SELECT from a FROM clause: from a table, read
    /// directly; from a join, materialized first.
    pub open spec fn query_result(
        &self,
        from: FromItemView,
        aliases: Seq<(Seq<char>, Seq<char>)>,
        names: Seq<Seq<char>>,
        filter: Option<ConditionView>,
        xid: u32,
        snapshot: SnapshotView,
    ) -> Result<(Seq<ColumnRef>, Seq<Seq<ValueView>>), DbErrorView> {
        match from {
            FromItemView::Table(name) => self.selected(
                TableArgView::TableName(name),
                names,
                filter,
                xid,
                snapshot,
            ),
            _ => match self.materialized(from, aliases, xid, snapshot) {
                Err(e) => Err(e),
                Ok(j) => self.selected(TableArgView::JoinTable(j), names, filter, xid, snapshot),
            },
        }
    }
}

/// An engine with another database.
pub open spec fn with_db(e: Engine, d: Database) -> Engine {
    Engine { db: d, ..e }
}

/// The error of the database as an error of the engine.
pub open spec fn db_fault(e: DbErrorView) -> EngineFault {
    EngineFault::Database(e)
}

impl Engine {
    /// Whether `done` is this engine after a statement that writes under
    /// `xid` has come to its end: the statement succeeded outside a
    /// transaction, and its xid is committed; or it is this engine as it is.
    pub open spec fn write_finished(&self, done: Engine, xid: u32, ok: bool) -> bool {
        if ok && self.current_xid.is_none() {
            self.status_recorded(
                done,
                xid,
                TxStatus::Committed,
                crate::types::transaction_types::without(
                    self.db.transaction_manager@.active_xids,
                    xid,
                ),
            )
        } else {
            done == *self
        }
    }

    /// Whether `after` and `result` are what a statement leaves and
    /// returns.
    ///
    /// BEGIN, COMMIT, ROLLBACK and SET SESSION change the state of the
    /// session. CREATE TABLE and CREATE INDEX change the catalog and the
    /// database together. INSERT, DELETE and UPDATE write under the xid of
    /// the session's transaction, or under a new xid that is committed when
    /// the statement has succeeded; they read by the statement's snapshot,
    /// which is taken before a new xid is handed out. SELECT reads by the
    /// statement's snapshot, as the session's transaction or as xid 0.
    /// VACUUM reclaims the dead tuples of a table.
    pub open spec fn executed(
        &self,
        after: Engine,
        ast: QueryView,
        result: Result<OutcomeView, EngineFault>,
    ) -> bool {
        let snapshot = self.spec_statement_snapshot();
        match ast {
            QueryView::Begin { isolation } => match result {
                Ok(o) => o matches OutcomeView::Began(xid) && self.current_xid.is_none()
                    && self.begun(after, isolation, xid),
                Err(e) => after == *self && if self.current_xid.is_some() {
                    e == EngineFault::TransactionInProgress
                } else {
                    e == EngineFault::XidsExhausted && self.db.transaction_manager.next_xid
                        == u32::MAX
                },
            },
            QueryView::Commit => match result {
                Ok(o) => o matches OutcomeView::Committed(xid) && self.ended(
                    after,
                    TxStatus::Committed,
                    xid,
                ),
                Err(e) => after == *self && self.current_xid.is_none() && e
                    == EngineFault::NoActiveTransaction,
            },
            QueryView::Rollback => match result {
                Ok(o) => o matches OutcomeView::RolledBack(xid) && self.ended(
                    after,
                    TxStatus::Aborted,
                    xid,
                ),
                Err(e) => after == *self && self.current_xid.is_none() && e
                    == EngineFault::NoActiveTransaction,
            },
            QueryView::SetSessionIsolationLevel(level) => {
                &&& result == Ok::<_, EngineFault>(OutcomeView::SessionIsolationSet(level))
                &&& after.session_isolation == level
                &&& after.db == self.db
                &&& after.cat == self.cat
                &&& after.current_xid == self.current_xid
                &&& after.tx_isolation == self.tx_isolation
                &&& after.repeatable_snapshot == self.repeatable_snapshot
            },
            QueryView::CreateTable { table_name, columns, primary_key, foreign_keys } => {
                &&& result is Ok ==> result == Ok::<_, EngineFault>(OutcomeView::TableCreated)
                &&& self.create_table_done(
                    after,
                    table_name,
                    columns,
                    primary_key,
                    foreign_keys,
                    match result {
                        Ok(_) => None,
                        Err(e) => Some(e),
                    },
                )
            },
            QueryView::CreateIndex { index_name, table_name, column_names } => {
                &&& result is Ok ==> result == Ok::<_, EngineFault>(OutcomeView::IndexCreated)
                &&& self.create_index_done(
                    after,
                    index_name,
                    table_name,
                    column_names,
                    match result {
                        Ok(_) => None,
                        Err(e) => Some(e),
                    },
                )
            },
            QueryView::Vacuum { table_name } => {
                &&& after.cat == self.cat
                &&& after.current_xid == self.current_xid
                &&& after.session_isolation == self.session_isolation
                &&& after.tx_isolation == self.tx_isolation
                &&& after.repeatable_snapshot == self.repeatable_snapshot
                &&& match result {
                    Ok(o) => o matches OutcomeView::Vacuumed { table_name: name, removed }
                        && name == table_name && self.db.vacuum_done(
                        after.db,
                        table_name,
                        Some(removed),
                    ),
                    Err(e) => e == EngineFault::Database(DbErrorView::TableDoesNotExist(table_name))
                        && self.db.vacuum_done(after.db, table_name, None),
                }
            },
            QueryView::Select { from_table, aliases, column_names, filter } => {
                let xid = match self.current_xid {
                    Some(x) => x,
                    None => 0u32,
                };
                &&& after == *self
                &&& match self.db.query_result(
                    from_table,
                    aliases,
                    column_names,
                    filter,
                    xid,
                    snapshot,
                ) {
                    Ok((cols, rows)) => result == Ok::<_, EngineFault>(
                        OutcomeView::Selected { headers: headers_of(cols, column_names), rows },
                    ),
                    Err(e) => result == Err::<OutcomeView, _>(db_fault(e)),
                }
            },
            QueryView::Insert { table_name, column_names, values } => self.insert_executed(
                after,
                table_name,
                column_names,
                values,
                result,
            ),
            QueryView::Delete { table_name, filter } => self.delete_executed(
                after,
                table_name,
                filter,
                result,
            ),
            QueryView::Update { table_name, column_names, values, filter } => self.update_executed(
                after,
                table_name,
                column_names,
                values,
                filter,
                result,
            ),
        }
    }

    /// Whether `after` and `result` are what an INSERT leaves and returns.
    pub open spec fn insert_executed(
        &self,
        after: Engine,
        table_name: Seq<char>,
        column_names: Option<Seq<Seq<char>>>,
        values: Seq<ValueView>,
        result: Result<OutcomeView, EngineFault>,
    ) -> bool {
        if self.current_xid.is_none() && self.db.transaction_manager.next_xid == u32::MAX {
            after == *self && result == Err::<OutcomeView, _>(EngineFault::XidsExhausted)
        } else {
            exists|mid: Engine, d: Database, xid: u32|
                #[trigger] self.insert_step(
                    after,
                    mid,
                    d,
                    xid,
                    table_name,
                    column_names,
                    values,
                    result,
                )
        }
    }

    /// Whether `after` and `result` are what a DELETE leaves and returns.
    pub open spec fn delete_executed(
        &self,
        after: Engine,
        table_name: Seq<char>,
        filter: Option<ConditionView>,
        result: Result<OutcomeView, EngineFault>,
    ) -> bool {
        if self.current_xid.is_none() && self.db.transaction_manager.next_xid == u32::MAX {
            after == *self && result == Err::<OutcomeView, _>(EngineFault::XidsExhausted)
        } else {
            exists|mid: Engine, d: Database, xid: u32|
                #[trigger] self.delete_step(after, mid, d, xid, table_name, filter, result)
        }
    }

    /// Whether `after` and `result` are what an UPDATE leaves and returns.
    pub open spec fn update_executed(
        &self,
        after: Engine,
        table_name: Seq<char>,
        column_names: Seq<Seq<char>>,
        values: Seq<ValueView>,
        filter: Option<ConditionView>,
        result: Result<OutcomeView, EngineFault>,
    ) -> bool {
        if self.current_xid.is_none() && self.db.transaction_manager.next_xid == u32::MAX {
            after == *self && result == Err::<OutcomeView, _>(EngineFault::XidsExhausted)
        } else {
            exists|mid: Engine, d: Database, xid: u32|
                #[trigger] self.update_step(
                    after,
                    mid,
                    d,
                    xid,
                    table_name,
                    column_names,
                    values,
                    filter,
                    result,
                )
        }
    }

    /// Whether an INSERT took the engine by way of `mid`, where it was
    /// ready to write under `xid`, and of the database `d`, which the
    /// insertion left, to `after`.
    pub open spec fn insert_step(
        &self,
        after: Engine,
        mid: Engine,
        d: Database,
        xid: u32,
        table_name: Seq<char>,
        column_names: Option<Seq<Seq<char>>>,
        values: Seq<ValueView>,
        result: Result<OutcomeView, EngineFault>,
    ) -> bool {
        let snapshot = self.spec_statement_snapshot();
        &&& self.writing(mid, xid)
        &&& match result {
            Ok(o) => o == OutcomeView::Inserted && mid.db.insert_done(
                d,
                table_name,
                column_names,
                values,
                xid,
                snapshot,
                None,
            ),
            Err(e) => exists|f: DbErrorView|
                e == db_fault(f) && #[trigger] mid.db.insert_done(
                    d,
                    table_name,
                    column_names,
                    values,
                    xid,
                    snapshot,
                    Some(f),
                ),
        }
        &&& with_db(mid, d).write_finished(after, xid, result.is_ok())
    }

    /// Whether a DELETE took the engine by way of `mid`, where it was ready
    /// to write under `xid`, and of the database `d`, which the deletion
    /// left, to `after`.
    pub open spec fn delete_step(
        &self,
        after: Engine,
        mid: Engine,
        d: Database,
        xid: u32,
        table_name: Seq<char>,
        filter: Option<ConditionView>,
        result: Result<OutcomeView, EngineFault>,
    ) -> bool {
        let snapshot = self.spec_statement_snapshot();
        &&& self.writing(mid, xid)
        &&& match result {
            Ok(o) => o is Deleted && mid.db.delete_done(
                d,
                table_name,
                filter,
                xid,
                snapshot,
                Ok(o->Deleted_0),
            ),
            Err(e) => exists|f: DbErrorView|
                e == db_fault(f) && #[trigger] mid.db.delete_done(
                    d,
                    table_name,
                    filter,
                    xid,
                    snapshot,
                    Err(f),
                ),
        }
        &&& with_db(mid, d).write_finished(after, xid, result.is_ok())
    }

    /// Whether an UPDATE took the engine by way of `mid`, where it was
    /// ready to write under `xid`, and of the database `d`, which the update
    /// left, to `after`.
    pub open spec fn update_step(
        &self,
        after: Engine,
        mid: Engine,
        d: Database,
        xid: u32,
        table_name: Seq<char>,
        column_names: Seq<Seq<char>>,
        values: Seq<ValueView>,
        filter: Option<ConditionView>,
        result: Result<OutcomeView, EngineFault>,
    ) -> bool {
        let snapshot = self.spec_statement_snapshot();
        &&& self.writing(mid, xid)
        &&& match result {
            Ok(o) => o == OutcomeView::Updated && mid.db.update_done(
                d,
                table_name,
                column_names,
                values,
                filter,
                xid,
                snapshot,
                None,
            ),
            Err(e) => exists|f: DbErrorView|
                e == db_fault(f) && #[trigger] mid.db.update_done(
                    d,
                    table_name,
                    column_names,
                    values,
                    filter,
                    xid,
                    snapshot,
                    Some(f),
                ),
        }
        &&& with_db(mid, d).write_finished(after, xid, result.is_ok())
    }
}

/// View of the result of a statement.
pub open spec fn outcome_result_view(r: Result<Outcome, EngineError>) -> Result<
    OutcomeView,
    EngineFault,
> {
    match r {
        Ok(o) => Ok(o@),
        Err(e) => Err(fault_of(e).unwrap()),
    }
}

fn select_from(
    engine: &Engine,
    from_table: FromItem,
    aliases: &crate::types::parser_types::Aliases,
    column_names: &Vec<String>,
    filter: Option<Condition>,
) -> (r: Result<Outcome, EngineError>)
    requires
        engine.wf(),
    ensures
        engine.executed(
            *engine,
            QueryView::Select {
                from_table: from_table@,
                aliases: aliases@,
                column_names: names_view(column_names@),
                filter: filter_view(filter),
            },
            outcome_result_view(r),
        ),
{
    let xid: u32 = match engine.current_xid {
        Some(x) => x,
        None => 0,
    };
    let snapshot = engine.statement_snapshot();
    let selected = match from_table {
        FromItem::Table(name) => engine.db.select(
            TableArg::TableName(name),
            column_names,
            filter,
            xid,
            &snapshot,
        ),
        other => match engine.db.collect_join_table(&other, aliases, xid, &snapshot) {
            Ok(j) => engine.db.select(TableArg::JoinTable(j), column_names, filter, xid, &snapshot),
            Err(e) => Err(e),
        },
    };
    match selected {
        Err(e) => Err(EngineError::Database(e)),
        Ok((cols, rows)) => {
            let star = column_names.len() > 0 && crate::text::str_eq(
                column_names[0].as_str(),
                "*",
            );
            assert(column_names.len() > 0 ==> names_view(column_names@)[0] == column_names[0]@);
            let headers = if star {
                qualified_headers(&cols)
            } else {
                let mut hs: Vec<String> = Vec::new();
                let mut i: usize = 0;
                while i < column_names.len()
                    invariant
                        i <= column_names.len(),
                        hs.len() == i,
                        forall|j: int| 0 <= j < i ==> hs[j]@ == column_names[j]@,
                    decreases column_names.len() - i,
                {
                    hs.push(column_names[i].clone());
                    i += 1;
                }
                assert(names_view(hs@) =~= names_view(column_names@));
                hs
            };
            proof {
                assert(names_view(headers@) =~= headers_of(
                    column_refs(cols@),
                    names_view(column_names@),
                ));
            }
            Ok(Outcome::Selected { headers, rows })
        },
    }
}

/// Executes a parsed statement on the engine.
pub fn execute(engine: &mut Engine, ast: Query) -> (r: Result<Outcome, EngineError>)
    requires
        old(engine).wf(),
    ensures
        final(engine).wf(),
        old(engine).executed(*final(engine), ast@, outcome_result_view(r)),
{
    match ast {
        Query::Begin { isolation } => {
            let r = match engine.begin(isolation) {
                Ok(xid) => Ok(Outcome::Began(xid)),
                Err(e) => Err(e),
            };
            assert(old(engine).executed(
                *engine,
                QueryView::Begin { isolation },
                outcome_result_view(r),
            ));
            r
        },
        Query::Commit => {
            let r = match engine.commit() {
                Ok(xid) => Ok(Outcome::Committed(xid)),
                Err(e) => Err(e),
            };
            assert(old(engine).executed(*engine, QueryView::Commit, outcome_result_view(r)));
            r
        },
        Query::Rollback => {
            let r = match engine.rollback() {
                Ok(xid) => Ok(Outcome::RolledBack(xid)),
                Err(e) => Err(e),
            };
            assert(old(engine).executed(*engine, QueryView::Rollback, outcome_result_view(r)));
            r
        },
        Query::SetSessionIsolationLevel(level) => {
            engine.session_isolation = level;
            let r = Ok(Outcome::SessionIsolationSet(level));
            assert(old(engine).executed(
                *engine,
                QueryView::SetSessionIsolationLevel(level),
                outcome_result_view(r),
            ));
            r
        },
        Query::CreateTable { table_name, columns, primary_key, foreign_keys } => {
            let ghost av = (Query::CreateTable { table_name, columns, primary_key, foreign_keys })@;
            let r = match engine.create_table_in_both(
                table_name.as_str(),
                columns,
                primary_key,
                foreign_keys,
            ) {
                Ok(()) => Ok(Outcome::TableCreated),
                Err(e) => Err(e),
            };
            assert(old(engine).executed(*engine, av, outcome_result_view(r)));
            r
        },
        Query::CreateIndex { index_name, table_name, column_names } => {
            let ghost av = (Query::CreateIndex { index_name, table_name, column_names })@;
            let r = match engine.create_index_in_both(
                index_name.as_str(),
                table_name.as_str(),
                column_names,
            ) {
                Ok(()) => Ok(Outcome::IndexCreated),
                Err(e) => Err(e),
            };
            assert(old(engine).executed(*engine, av, outcome_result_view(r)));
            r
        },
        Query::Vacuum { table_name } => {
            let ghost av = (Query::Vacuum { table_name })@;
            let r = match engine.db.vacuum(table_name.as_str()) {
                Ok(removed) => Ok(Outcome::Vacuumed { table_name, removed }),
                Err(e) => Err(EngineError::Database(e)),
            };
            assert(old(engine).executed(*engine, av, outcome_result_view(r)));
            r
        },
        Query::Select { from_table, aliases, column_names, filter } => select_from(
            engine,
            from_table,
            &aliases,
            &column_names,
            filter,
        ),
        Query::Insert { table_name, column_names, values } => insert_stmt(
            engine,
            table_name,
            column_names,
            values,
        ),
        Query::Delete { table_name, filter } => delete_stmt(engine, table_name, filter),
        Query::Update { table_name, column_names, values, filter } => update_stmt(
            engine,
            table_name,
            column_names,
            values,
            filter,
        ),
    }
}

fn insert_stmt(
    engine: &mut Engine,
    table_name: String,
    column_names: Option<Vec<String>>,
    values: Vec<crate::types::storage_types::Value>,
) -> (r: Result<Outcome, EngineError>)
    requires
        old(engine).wf(),
    ensures
        final(engine).wf(),
        old(engine).insert_executed(
            *final(engine),
            table_name@,
            opt_names_view(column_names),
            values_view(values@),
            outcome_result_view(r),
        ),
{
    let snapshot = engine.statement_snapshot();
    let xid = match engine.start_write() {
        Ok(x) => x,
        Err(e) => {
            return Err(e);
        },
    };
    let ghost mid = *engine;

    let ghost names = opt_names_view(column_names);
    let ghost vals = values_view(values@);
    match engine.db.insert_into(table_name.as_str(), column_names, values, xid, &snapshot) {
        Ok(()) => {
            let ghost done = *engine;
            engine.finish_write(xid);
            proof {
                assert(mid.db.insert_done(done.db, table_name@, names, vals, xid, snapshot@, None));
                assert(done == with_db(mid, done.db));
                assert(with_db(mid, done.db).write_finished(*engine, xid, true));
                assert(old(engine).insert_step(
                    *engine,
                    mid,
                    done.db,
                    xid,
                    table_name@,
                    names,
                    vals,
                    Ok(OutcomeView::Inserted),
                ));
            }
            Ok(Outcome::Inserted)
        },
        Err(e) => {
            proof {
                assert(mid.db.insert_done(
                    engine.db,
                    table_name@,
                    names,
                    vals,
                    xid,
                    snapshot@,
                    Some(e@),
                ));
                assert(*engine == with_db(mid, engine.db));
                assert(with_db(mid, engine.db).write_finished(*engine, xid, false));
                assert(old(engine).insert_step(
                    *engine,
                    mid,
                    engine.db,
                    xid,
                    table_name@,
                    names,
                    vals,
                    Err(db_fault(e@)),
                ));
            }
            Err(EngineError::Database(e))
        },
    }
}

fn delete_stmt(engine: &mut Engine, table_name: String, filter: Option<Condition>) -> (r: Result<
    Outcome,
    EngineError,
>)
    requires
        old(engine).wf(),
    ensures
        final(engine).wf(),
        old(engine).delete_executed(
            *final(engine),
            table_name@,
            filter_view(filter),
            outcome_result_view(r),
        ),
{
    let snapshot = engine.statement_snapshot();
    let xid = match engine.start_write() {
        Ok(x) => x,
        Err(e) => {
            return Err(e);
        },
    };
    let ghost mid = *engine;
    let ghost f = filter_view(filter);
    match engine.db.delete(table_name.as_str(), filter, xid, &snapshot) {
        Ok(n) => {
            let ghost done = *engine;
            engine.finish_write(xid);
            proof {
                assert(mid.db.delete_done(done.db, table_name@, f, xid, snapshot@, Ok(n)));
                assert(done == with_db(mid, done.db));
                assert(with_db(mid, done.db).write_finished(*engine, xid, true));
                assert(old(engine).delete_step(
                    *engine,
                    mid,
                    done.db,
                    xid,
                    table_name@,
                    f,
                    Ok(OutcomeView::Deleted(n)),
                ));
            }
            Ok(Outcome::Deleted(n))
        },
        Err(e) => {
            proof {
                assert(mid.db.delete_done(engine.db, table_name@, f, xid, snapshot@, Err(e@)));
                assert(*engine == with_db(mid, engine.db));
                assert(with_db(mid, engine.db).write_finished(*engine, xid, false));
                assert(old(engine).delete_step(
                    *engine,
                    mid,
                    engine.db,
                    xid,
                    table_name@,
                    f,
                    Err(db_fault(e@)),
                ));
            }
            Err(EngineError::Database(e))
        },
    }
}

fn update_stmt(
    engine: &mut Engine,
    table_name: String,
    column_names: Vec<String>,
    values: Vec<crate::types::storage_types::Value>,
    filter: Option<Condition>,
) -> (r: Result<Outcome, EngineError>)
    requires
        old(engine).wf(),
    ensures
        final(engine).wf(),
        old(engine).update_executed(
            *final(engine),
            table_name@,
            names_view(column_names@),
            values_view(values@),
            filter_view(filter),
            outcome_result_view(r),
        ),
{
    let snapshot = engine.statement_snapshot();
    let xid = match engine.start_write() {
        Ok(x) => x,
        Err(e) => {
            return Err(e);
        },
    };
    let ghost mid = *engine;
    let ghost names = names_view(column_names@);
    let ghost vals = values_view(values@);
    let ghost f = filter_view(filter);
    match engine.db.update(table_name.as_str(), column_names, values, filter, xid, &snapshot) {
        Ok(()) => {
            let ghost done = *engine;
            engine.finish_write(xid);
            proof {
                assert(mid.db.update_done(
                    done.db,
                    table_name@,
                    names,
                    vals,
                    f,
                    xid,
                    snapshot@,
                    None,
                ));
                assert(done == with_db(mid, done.db));
                assert(with_db(mid, done.db).write_finished(*engine, xid, true));
                assert(old(engine).update_step(
                    *engine,
                    mid,
                    done.db,
                    xid,
                    table_name@,
                    names,
                    vals,
                    f,
                    Ok(OutcomeView::Updated),
                ));
            }
            Ok(Outcome::Updated)
        },
        Err(e) => {
            proof {
                assert(mid.db.update_done(
                    engine.db,
                    table_name@,
                    names,
                    vals,
                    f,
                    xid,
                    snapshot@,
                    Some(e@),
                ));
                assert(*engine == with_db(mid, engine.db));
                assert(with_db(mid, engine.db).write_finished(*engine, xid, false));
                assert(old(engine).update_step(
                    *engine,
                    mid,
                    engine.db,
                    xid,
                    table_name@,
                    names,
                    vals,
                    f,
                    Err(db_fault(e@)),
                ));
            }
            Err(EngineError::Database(e))
        },
    }
}

} // verus!
