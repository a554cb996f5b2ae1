use crate::engine::{Engine, EngineFault};
use crate::executer::executer::OutcomeView;
use crate::storage::heap_file::StoredTuple;
use crate::types::parser_types::{ConditionView, QueryView};
use crate::types::storage_types::{Database, ValueView};
use crate::storage::tuple_header::{agree_on_settled, visible};
use crate::types::page_types::TupleHeaderView;
use crate::types::transaction_types::{
    active_in_progress, snapshot_of, status_in, IsolationLevel, SnapshotView,
    TransactionManagerView, TxStatus,
};
use vstd::prelude::*;

verus! {

/// An UPDATE leaves the transaction manager as it was, as far as the
/// statement has gone.
pub proof fn lemma_update_keeps_manager(
    before: Database,
    cur: Database,
    t: int,
    tuples: Seq<StoredTuple>,
    targets: Seq<Option<ValueView>>,
    filter: Option<ConditionView>,
    xid: u32,
    snapshot: SnapshotView,
    n: int,
)
    requires
        before.updates_upto(cur, t, tuples, targets, filter, xid, snapshot, n),
    ensures
        cur.transaction_manager == before.transaction_manager,
    decreases n,
{
    if n <= 0 {
    } else if crate::executer::delete::takes(
        tuples[n - 1],
        crate::executer::join::aliased_columns(before.tables@[t].name@, before.tables@[t].columns@),
        filter,
        xid,
        snapshot,
        before.transaction_manager@.transactions,
    ) == Ok::<bool, crate::errors::eval_error::EvalErrorView>(true) {
        let mid = choose|mid: Database|
            {
                &&& before.updates_upto(mid, t, tuples, targets, filter, xid, snapshot, n - 1)
                &&& mid.wf()
                &&& mid.row_update_failure(
                    t,
                    tuples[n - 1].page_no,
                    tuples[n - 1].slot_no,
                    tuples[n - 1].row,
                    targets,
                    xid,
                    snapshot,
                ).is_none()
                &&& #[trigger] mid.row_updated(
                    cur,
                    t,
                    tuples[n - 1].page_no,
                    tuples[n - 1].slot_no,
                    tuples[n - 1].row,
                    mid.post_image(t, tuples[n - 1].row, targets),
                    xid,
                )
            };
        lemma_update_keeps_manager(before, mid, t, tuples, targets, filter, xid, snapshot, n - 1);
    } else {
        lemma_update_keeps_manager(before, cur, t, tuples, targets, filter, xid, snapshot, n - 1);
    }
}

/// BEGIN at Repeatable Read pins the snapshot of that moment: the
/// statements of the new transaction read by it.
pub proof fn lemma_begin_pins_snapshot(
    before: Engine,
    after: Engine,
    isolation: Option<IsolationLevel>,
    xid: u32,
)
    requires
        before.begun(after, isolation, xid),
        isolation == Some(IsolationLevel::RepeatableRead) || (isolation.is_none()
            && before.session_isolation == IsolationLevel::RepeatableRead),
    ensures
        after.current_xid == Some(xid),
        after.tx_isolation == Some(IsolationLevel::RepeatableRead),
        after.repeatable_snapshot.is_some(),
        after.spec_statement_snapshot() == snapshot_of(after.db.transaction_manager@),
{
}

/// Inside a transaction at Repeatable Read, no statement but COMMIT and
/// ROLLBACK changes the snapshot by which the statements read, nor the
/// recorded status of any transaction: every statement of the transaction
/// reads by the snapshot that was pinned at BEGIN.
pub proof fn lemma_repeatable_read_keeps_snapshot(
    before: Engine,
    after: Engine,
    ast: QueryView,
    result: Result<OutcomeView, EngineFault>,
)
    requires
        before.current_xid.is_some(),
        before.tx_isolation == Some(IsolationLevel::RepeatableRead),
        before.repeatable_snapshot.is_some(),
        !(ast is Commit),
        !(ast is Rollback),
        before.executed(after, ast, result),
    ensures
        after.current_xid == before.current_xid,
        after.tx_isolation == before.tx_isolation,
        after.repeatable_snapshot == before.repeatable_snapshot,
        after.spec_statement_snapshot() == before.spec_statement_snapshot(),
        after.db.transaction_manager == before.db.transaction_manager,
{
    let snapshot = before.spec_statement_snapshot();
    match ast {
        QueryView::Insert { table_name, column_names, values } => {
            let (mid, d, xid) = choose|mid: Engine, d: Database, xid: u32|
                #[trigger] before.insert_step(
                    after,
                    mid,
                    d,
                    xid,
                    table_name,
                    column_names,
                    values,
                    result,
                );
            assert(mid == before);
        },
        QueryView::Delete { table_name, filter } => {
            let (mid, d, xid) = choose|mid: Engine, d: Database, xid: u32|
                #[trigger] before.delete_step(after, mid, d, xid, table_name, filter, result);
            assert(mid == before);
        },
        QueryView::Update { table_name, column_names, values, filter } => {
            let (mid, d, xid) = choose|mid: Engine, d: Database, xid: u32|
                #[trigger] before.update_step(
                    after,
                    mid,
                    d,
                    xid,
                    table_name,
                    column_names,
                    values,
                    filter,
                    result,
                );
            assert(mid == before);
            let failure = match result {
                Ok(_) => None,
                Err(e) => Some(
                    choose|f: crate::errors::engine_error::DbErrorView|
                        e == crate::executer::executer::db_fault(f)
                            && #[trigger] mid.db.update_done(
                            d,
                            table_name,
                            column_names,
                            values,
                            filter,
                            xid,
                            snapshot,
                            Some(f),
                        ),
                ),
            };
            assert(mid.db.update_done(
                d,
                table_name,
                column_names,
                values,
                filter,
                xid,
                snapshot,
                failure,
            ));
            if let Some(t) = crate::types::storage_types::table_position(
                mid.db.tables@,
                table_name,
                0,
            ) {
                if let Ok(targets) = crate::executer::update::update_targets(
                    mid.db.tables@[t].columns@,
                    table_name,
                    column_names,
                    values,
                ) {
                    let stop = choose|stop: int|
                        #[trigger] mid.db.update_outcome(
                            d,
                            t,
                            targets,
                            filter,
                            xid,
                            snapshot,
                            failure,
                            stop,
                        );
                    lemma_update_keeps_manager(
                        mid.db,
                        d,
                        t,
                        mid.db.tables@[t].heap.tuples(
                            crate::storage::codec::column_types(mid.db.tables@[t].columns@),
                        ),
                        targets,
                        filter,
                        xid,
                        snapshot,
                        stop,
                    );
                }
            }
        },
        _ => {},
    }
}

/// A snapshot that a manager takes treats as settled only transactions
/// that are settled: if the manager lists every transaction in progress as
/// active, and no transaction that had ended before the snapshot changes
/// its status later, the later status table agrees with the earlier one on
/// all that the snapshot treats as settled.
pub proof fn lemma_settled_statuses_stay(tm: TransactionManagerView, later: Map<u32, TxStatus>)
    requires
        active_in_progress(tm),
        forall|x: u32|
            x < tm.next_xid && status_in(tm.transactions, x) != TxStatus::InProgress
                ==> #[trigger] status_in(later, x) == status_in(tm.transactions, x),
    ensures
        agree_on_settled(tm.transactions, later, snapshot_of(tm)),
{
    assert forall|x: u32|
        x < snapshot_of(tm).xmax && !snapshot_of(tm).active_xids.contains(x) implies #[trigger] status_in(
        tm.transactions,
        x,
    ) == status_in(later, x) by {
        assert(!tm.active_xids.contains(x));
        assert(status_in(later, x) == status_in(tm.transactions, x));
    }
}

/// By the snapshot that a manager took, a transaction never comes to see a
/// tuple of another's that it did not see when the snapshot was taken,
/// whatever begins, commits or rolls back afterwards: a tuple that is
/// visible later, with the inserter that it had and the deleter that it
/// had, if it had one, was visible then.
pub proof fn lemma_snapshot_only_shrinks(
    tm: TransactionManagerView,
    later: Map<u32, TxStatus>,
    earlier_header: TupleHeaderView,
    later_header: TupleHeaderView,
    xid: u32,
)
    requires
        active_in_progress(tm),
        forall|x: u32|
            x < tm.next_xid && status_in(tm.transactions, x) != TxStatus::InProgress
                ==> #[trigger] status_in(later, x) == status_in(tm.transactions, x),
        later_header.xmin == earlier_header.xmin,
        earlier_header.xmin != xid,
        earlier_header.xmax.is_none() || later_header.xmax == earlier_header.xmax,
        visible(later_header, xid, snapshot_of(tm), later),
    ensures
        visible(earlier_header, xid, snapshot_of(tm), tm.transactions),
{
    lemma_settled_statuses_stay(tm, later);
    crate::storage::tuple_header::lemma_pinned_snapshot_only_shrinks(
        earlier_header,
        later_header,
        xid,
        snapshot_of(tm),
        tm.transactions,
        later,
    );
}

} // verus!
