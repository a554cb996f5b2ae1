use std::collections::HashMap;
use vstd::std_specs::iter::IteratorSpec;
use vstd::prelude::*;

verus! {

broadcast use vstd::std_specs::hash::group_hash_axioms;

/// Status of a transaction.
#[derive(Debug, Clone, Copy, PartialEq, Eq, Structural)]
pub enum TxStatus {
    InProgress,
    Committed,
    Aborted,
}

/// Isolation level of a transaction.
#[derive(Debug, Clone, Copy, PartialEq, Eq, Structural)]
pub enum IsolationLevel {
    ReadCommitted,
    RepeatableRead,
}

/// Which transactions were in flight at one instant.
#[derive(Debug, Clone)]
pub struct Snapshot {
    pub xmin: u32,
    pub xmax: u32,
    pub active_xids: Vec<u32>,
}

/// The mathematical content of a [`Snapshot`].
pub struct SnapshotView {
    pub xmin: u32,
    pub xmax: u32,
    pub active_xids: Seq<u32>,
}

impl View for Snapshot {
    type V = SnapshotView;

    open spec fn view(&self) -> SnapshotView {
        SnapshotView { xmin: self.xmin, xmax: self.xmax, active_xids: self.active_xids@ }
    }
}

/// The transaction manager: the status of every known transaction, the next
/// xid to hand out, and the transactions in progress.
pub struct TransactionManager {
    pub transactions: HashMap<u32, TxStatus>,
    pub next_xid: u32,
    pub active_xids: Vec<u32>,
}

/// The mathematical content of a [`TransactionManager`].
pub struct TransactionManagerView {
    pub transactions: Map<u32, TxStatus>,
    pub next_xid: u32,
    pub active_xids: Seq<u32>,
}

impl View for TransactionManager {
    type V = TransactionManagerView;

    open spec fn view(&self) -> TransactionManagerView {
        TransactionManagerView {
            transactions: self.transactions@,
            next_xid: self.next_xid,
            active_xids: self.active_xids@,
        }
    }
}

/// The status of `xid` in a status table. A transaction that the table does
/// not know counts as committed.
pub open spec fn status_in(table: Map<u32, TxStatus>, xid: u32) -> TxStatus {
    if table.contains_key(xid) {
        table[xid]
    } else {
        TxStatus::Committed
    }
}

/// The first `n` elements of `s` without those equal to `x`, in order.
pub open spec fn without_upto(s: Seq<u32>, x: u32, n: int) -> Seq<u32>
    decreases n,
{
    if n <= 0 {
        Seq::empty()
    } else if s[n - 1] == x {
        without_upto(s, x, n - 1)
    } else {
        without_upto(s, x, n - 1).push(s[n - 1])
    }
}

/// `s` without the elements equal to `x`, in order.
pub open spec fn without(s: Seq<u32>, x: u32) -> Seq<u32> {
    without_upto(s, x, s.len() as int)
}

/// What `without_upto` holds: the elements among the first `n` other than `x`.
pub proof fn lemma_without_upto(s: Seq<u32>, x: u32, n: int)
    requires
        0 <= n <= s.len(),
    ensures
        forall|y: u32|
            without_upto(s, x, n).contains(y) <==> (y != x && exists|j: int|
                0 <= j < n && s[j] == y),
    decreases n,
{
    if n > 0 {
        lemma_without_upto(s, x, n - 1);
        let prev = without_upto(s, x, n - 1);
        let cur = without_upto(s, x, n);
        assert forall|y: u32|
            cur.contains(y) <==> (y != x && exists|j: int| 0 <= j < n && s[j] == y) by {
            if cur.contains(y) {
                let i = choose|i: int| 0 <= i < cur.len() && cur[i] == y;
                if s[n - 1] != x && i == cur.len() - 1 {
                    assert(s[n - 1] == y);
                } else {
                    assert(prev[i] == y);
                    assert(prev.contains(y));
                    let j = choose|j: int| 0 <= j < n - 1 && s[j] == y;
                    assert(0 <= j < n && s[j] == y);
                }
            }
            if y != x && exists|j: int| 0 <= j < n && s[j] == y {
                let j = choose|j: int| 0 <= j < n && s[j] == y;
                if j < n - 1 {
                    assert(prev.contains(y));
                    let i = choose|i: int| 0 <= i < prev.len() && prev[i] == y;
                    assert(cur[i] == y);
                } else {
                    assert(cur[cur.len() - 1] == y);
                }
            }
        }
    }
}

/// Whether the transactions that a manager lists as active are exactly
/// those that its status table records as in progress.
pub open spec fn active_in_progress(tm: TransactionManagerView) -> bool {
    forall|x: u32|
        #[trigger] tm.active_xids.contains(x) <==> (tm.transactions.contains_key(x)
            && tm.transactions[x] == TxStatus::InProgress)
}

/// With `xid` recorded as in progress and added to the active list, the
/// list still holds exactly the transactions in progress.
pub proof fn lemma_begin_keeps_active(tm: TransactionManagerView, xid: u32)
    requires
        active_in_progress(tm),
    ensures
        active_in_progress(
            TransactionManagerView {
                transactions: tm.transactions.insert(xid, TxStatus::InProgress),
                active_xids: tm.active_xids.push(xid),
                ..tm
            },
        ),
{
    let pushed = tm.active_xids.push(xid);
    assert forall|x: u32| #[trigger]
        pushed.contains(x) <==> (tm.transactions.insert(xid, TxStatus::InProgress).contains_key(x)
            && tm.transactions.insert(xid, TxStatus::InProgress)[x] == TxStatus::InProgress) by {
        if pushed.contains(x) {
            let i = choose|i: int| 0 <= i < pushed.len() && pushed[i] == x;
            if i < tm.active_xids.len() {
                assert(tm.active_xids[i] == x);
                assert(tm.active_xids.contains(x));
            }
        }
        if x == xid {
            assert(pushed[pushed.len() - 1] == x);
        } else if tm.active_xids.contains(x) {
            let i = choose|i: int| 0 <= i < tm.active_xids.len() && tm.active_xids[i] == x;
            assert(pushed[i] == x);
        }
    }
}

/// With `xid` recorded as ended and taken off the active list, the list
/// still holds exactly the transactions in progress.
pub proof fn lemma_end_keeps_active(tm: TransactionManagerView, xid: u32, status: TxStatus)
    requires
        active_in_progress(tm),
        status != TxStatus::InProgress,
    ensures
        active_in_progress(
            TransactionManagerView {
                transactions: tm.transactions.insert(xid, status),
                active_xids: without(tm.active_xids, xid),
                ..tm
            },
        ),
{
    lemma_without_upto(tm.active_xids, xid, tm.active_xids.len() as int);
    let left = without(tm.active_xids, xid);
    assert forall|x: u32| #[trigger]
        left.contains(x) <==> (tm.transactions.insert(xid, status).contains_key(x)
            && tm.transactions.insert(xid, status)[x] == TxStatus::InProgress) by {
        if x != xid {
            if tm.active_xids.contains(x) {
                let j = choose|j: int| 0 <= j < tm.active_xids.len() && tm.active_xids[j] == x;
                assert(0 <= j < tm.active_xids.len() && tm.active_xids[j] == x);
            }
            if exists|j: int| 0 <= j < tm.active_xids.len() && tm.active_xids[j] == x {
                assert(tm.active_xids.contains(x));
            }
        }
    }
}

/// The least of the first `n` elements of `s`, or `default` if `n` is 0.
pub open spec fn min_upto(s: Seq<u32>, n: int, default: u32) -> u32
    decreases n,
{
    if n <= 0 {
        default
    } else if n == 1 {
        s[0]
    } else {
        let m = min_upto(s, n - 1, default);
        if s[n - 1] < m {
            s[n - 1]
        } else {
            m
        }
    }
}

/// The snapshot that a manager in the given state takes.
pub open spec fn snapshot_of(tm: TransactionManagerView) -> SnapshotView {
    SnapshotView {
        xmin: min_upto(tm.active_xids, tm.active_xids.len() as int, tm.next_xid),
        xmax: tm.next_xid,
        active_xids: tm.active_xids,
    }
}

/// Those of the first `n` xids of `keys` that the table records as in progress.
pub open spec fn in_progress_upto(keys: Seq<u32>, table: Map<u32, TxStatus>, n: int) -> Seq<u32>
    decreases n,
{
    if n <= 0 {
        Seq::empty()
    } else if table.contains_key(keys[n - 1]) && table[keys[n - 1]] == TxStatus::InProgress {
        in_progress_upto(keys, table, n - 1).push(keys[n - 1])
    } else {
        in_progress_upto(keys, table, n - 1)
    }
}

proof fn lemma_in_progress_upto(keys: Seq<u32>, table: Map<u32, TxStatus>, n: int)
    requires
        0 <= n <= keys.len(),
        keys.no_duplicates(),
    ensures
        in_progress_upto(keys, table, n).no_duplicates(),
        forall|x: u32|
            in_progress_upto(keys, table, n).contains(x) <==> ((exists|j: int|
                0 <= j < n && keys[j] == x) && table.contains_key(x) && table[x]
                == TxStatus::InProgress),
    decreases n,
{
    if n > 0 {
        lemma_in_progress_upto(keys, table, n - 1);
        let prev = in_progress_upto(keys, table, n - 1);
        let cur = in_progress_upto(keys, table, n);
        let k = keys[n - 1];
        assert forall|x: u32|
            cur.contains(x) <==> ((exists|j: int| 0 <= j < n && keys[j] == x)
                && table.contains_key(x) && table[x] == TxStatus::InProgress) by {
            if cur.contains(x) {
                let i = choose|i: int| 0 <= i < cur.len() && cur[i] == x;
                if i < prev.len() {
                    assert(prev.contains(x));
                    let j = choose|j: int| 0 <= j < n - 1 && keys[j] == x;
                    assert(0 <= j < n && keys[j] == x);
                } else {
                    assert(keys[n - 1] == x);
                }
            }
            if (exists|j: int| 0 <= j < n && keys[j] == x) && table.contains_key(x) && table[x]
                == TxStatus::InProgress {
                let j = choose|j: int| 0 <= j < n && keys[j] == x;
                if j < n - 1 {
                    assert(prev.contains(x));
                    let i = choose|i: int| 0 <= i < prev.len() && prev[i] == x;
                    assert(cur[i] == x);
                } else {
                    assert(cur[cur.len() - 1] == x);
                }
            }
        }
        if table.contains_key(k) && table[k] == TxStatus::InProgress {
            assert(!prev.contains(k)) by {
                if prev.contains(k) {
                    let j = choose|j: int| 0 <= j < n - 1 && keys[j] == k;
                    assert(keys[j] == keys[n - 1]);
                }
            }
            assert forall|a: int, b: int| 0 <= a < cur.len() && 0 <= b < cur.len() && a
                != b implies cur[a] != cur[b] by {
                if a == cur.len() - 1 {
                    assert(prev.contains(cur[b]));
                } else if b == cur.len() - 1 {
                    assert(prev.contains(cur[a]));
                }
            }
        }
    }
}

fn remove_xid(active: &Vec<u32>, xid: u32) -> (r: Vec<u32>)
    ensures
        r@ == without(active@, xid),
{
    let mut r: Vec<u32> = Vec::new();
    let mut i: usize = 0;
    while i < active.len()
        invariant
            i <= active.len(),
            r@ == without_upto(active@, xid, i as int),
        decreases active.len() - i,
    {
        if active[i] != xid {
            r.push(active[i]);
        }
        i += 1;
    }
    r
}

impl TransactionManager {
    /// The manager's invariant: it lists as active exactly the transactions
    /// that it records as in progress.
    pub open spec fn wf(&self) -> bool {
        active_in_progress(self@)
    }

    /// A manager that knows no transaction; the first xid is 1.
    pub fn new() -> (tm: TransactionManager)
        ensures
            tm@.transactions == Map::<u32, TxStatus>::empty(),
            tm@.next_xid == 1,
            tm@.active_xids == Seq::<u32>::empty(),
            tm.wf(),
    {
        TransactionManager { transactions: HashMap::new(), next_xid: 1, active_xids: Vec::new() }
    }

    /// A manager restored from a status table: the transactions in progress
    /// are those that the table records as such, each once, in no stated order.
    pub fn from_map(m: HashMap<u32, TxStatus>, next_xid: u32) -> (tm: TransactionManager)
        ensures
            tm@.transactions == m@,
            tm@.next_xid == next_xid,
            tm@.active_xids.no_duplicates(),
            forall|x: u32|
                tm@.active_xids.contains(x) <==> (m@.contains_key(x) && m@[x]
                    == TxStatus::InProgress),
            tm.wf(),
    {
        let mut active: Vec<u32> = Vec::new();
        let ghost keys = m.keys().remaining().unref();
        let ghost mut n: int = 0;
        for k in it: m.keys()
            invariant
                keys == it.seq().unref(),
                keys.no_duplicates(),
                keys.to_set() == m@.dom(),
                n == it.index(),
                active@ == in_progress_upto(keys, m@, n),
        {
            assert(keys[n] == *k);
            proof {
                n = n + 1;
            }
            let st = m.get(k);
            match st {
                Some(TxStatus::InProgress) => {
                    active.push(*k);
                },
                _ => {},
            }
        }
        proof {
            lemma_in_progress_upto(keys, m@, keys.len() as int);
            assert forall|x: u32|
                active@.contains(x) <==> (m@.contains_key(x) && m@[x]
                    == TxStatus::InProgress) by {
                if m@.contains_key(x) {
                    assert(keys.to_set().contains(x));
                    assert(keys.contains(x));
                }
                if exists|j: int| 0 <= j < keys.len() && keys[j] == x {
                    assert(keys.contains(x));
                    assert(keys.to_set().contains(x));
                }
            }
        }
        TransactionManager { transactions: m, next_xid, active_xids: active }
    }

    /// The status of `xid`; a transaction that is not known counts as committed.
    pub open spec fn spec_status(&self, xid: u32) -> TxStatus {
        status_in(self.transactions@, xid)
    }

    /// Hands out the next xid.
    pub fn alloc_xid(&mut self) -> (xid: u32)
        requires
            old(self).next_xid < u32::MAX,
        ensures
            xid == old(self).next_xid,
            final(self)@ == (TransactionManagerView { next_xid: (xid + 1) as u32, ..old(self)@ }),
            old(self).wf() ==> final(self).wf(),
    {
        let xid = self.next_xid;
        self.next_xid += 1;
        xid
    }

    /// Marks `xid` as started.
    pub fn begin(&mut self, xid: u32)
        ensures
            final(self)@ == (TransactionManagerView {
                transactions: old(self)@.transactions.insert(xid, TxStatus::InProgress),
                active_xids: old(self)@.active_xids.push(xid),
                ..old(self)@
            }),
            old(self).wf() ==> final(self).wf(),
    {
        self.transactions.insert(xid, TxStatus::InProgress);
        self.active_xids.push(xid);
        proof {
            if old(self).wf() {
                lemma_begin_keeps_active(old(self)@, xid);
            }
        }
    }

    /// Marks `xid` as committed.
    pub fn commit(&mut self, xid: u32)
        ensures
            final(self)@ == (TransactionManagerView {
                transactions: old(self)@.transactions.insert(xid, TxStatus::Committed),
                active_xids: without(old(self)@.active_xids, xid),
                ..old(self)@
            }),
            old(self).wf() ==> final(self).wf(),
    {
        self.transactions.insert(xid, TxStatus::Committed);
        self.active_xids = remove_xid(&self.active_xids, xid);
        proof {
            if old(self).wf() {
                lemma_end_keeps_active(old(self)@, xid, TxStatus::Committed);
            }
        }
    }

    /// Marks `xid` as aborted.
    pub fn rollback(&mut self, xid: u32)
        ensures
            final(self)@ == (TransactionManagerView {
                transactions: old(self)@.transactions.insert(xid, TxStatus::Aborted),
                active_xids: without(old(self)@.active_xids, xid),
                ..old(self)@
            }),
            old(self).wf() ==> final(self).wf(),
    {
        self.transactions.insert(xid, TxStatus::Aborted);
        self.active_xids = remove_xid(&self.active_xids, xid);
        proof {
            if old(self).wf() {
                lemma_end_keeps_active(old(self)@, xid, TxStatus::Aborted);
            }
        }
    }

    /// The status of `xid`; a transaction that is not known counts as committed.
    pub fn status(&self, xid: u32) -> (st: TxStatus)
        ensures
            st == self.spec_status(xid),
    {
        match self.transactions.get(&xid) {
            Some(st) => *st,
            None => TxStatus::Committed,
        }
    }

    /// The transactions in flight now: the least of them, or the next xid if
    /// there is none, the next xid, and a copy of their list.
    pub fn snapshot(&self) -> (s: Snapshot)
        ensures
            s@ == snapshot_of(self@),
    {
        let mut xmin = self.next_xid;
        let mut i: usize = 0;
        while i < self.active_xids.len()
            invariant
                i <= self.active_xids.len(),
                xmin == min_upto(self.active_xids@, i as int, self.next_xid),
            decreases self.active_xids.len() - i,
        {
            if i == 0 || self.active_xids[i] < xmin {
                xmin = self.active_xids[i];
            }
            i += 1;
        }
        Snapshot { xmin, xmax: self.next_xid, active_xids: self.active_xids.clone() }
    }
}

} // verus!
