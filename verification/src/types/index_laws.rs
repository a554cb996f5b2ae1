use crate::types::b_tree::{
    ascending, entries_without, key_index, lemma_key_index_unique, positions_without, BTreeIndex,
    EntryView,
};
use crate::types::storage_types::ValueView;
use crate::types::value_order::{key_lt, lemma_key_order};
use vstd::prelude::*;

verus! {

/// Whether the entries hold a position under a key.
pub open spec fn holds(es: Seq<EntryView>, key: Seq<ValueView>, pos: (usize, usize)) -> bool {
    exists|i: int| 0 <= i < es.len() && (#[trigger] es[i]).key == key && es[i].positions.contains(pos)
}

/// The positions without one of them are those that are not that one.
pub proof fn lemma_positions_without(s: Seq<(usize, usize)>, p: (usize, usize), n: int)
    requires
        0 <= n <= s.len(),
    ensures
        forall|q: (usize, usize)|
            #[trigger] positions_without(s, p, n).contains(q) <==> (q != p && exists|j: int|
                0 <= j < n && s[j] == q),
    decreases n,
{
    if n > 0 {
        lemma_positions_without(s, p, n - 1);
        let prev = positions_without(s, p, n - 1);
        let cur = positions_without(s, p, n);
        assert forall|q: (usize, usize)|
            #[trigger] cur.contains(q) <==> (q != p && exists|j: int| 0 <= j < n && s[j] == q) by {
            if cur.contains(q) {
                let i = choose|i: int| 0 <= i < cur.len() && cur[i] == q;
                if s[n - 1] != p && i == cur.len() - 1 {
                    assert(s[n - 1] == q);
                } else {
                    assert(prev[i] == q);
                    assert(prev.contains(q));
                    let j = choose|j: int| 0 <= j < n - 1 && s[j] == q;
                    assert(0 <= j < n && s[j] == q);
                }
            }
            if q != p && exists|j: int| 0 <= j < n && s[j] == q {
                let j = choose|j: int| 0 <= j < n && s[j] == q;
                if j == n - 1 {
                    assert(cur[cur.len() - 1] == q);
                } else {
                    assert(prev.contains(q));
                    let i = choose|i: int| 0 <= i < prev.len() && prev[i] == q;
                    assert(cur[i] == q);
                }
            }
        }
    } else {
        assert forall|q: (usize, usize)|
            #[trigger] positions_without(s, p, n).contains(q) <==> (q != p && exists|j: int|
                0 <= j < n && s[j] == q) by {}
    }
}

/// Ascending keys are all different.
pub proof fn lemma_ascending_distinct(es: Seq<EntryView>, i: int, j: int)
    requires
        ascending(es),
        0 <= i < es.len(),
        0 <= j < es.len(),
        es[i].key == es[j].key,
    ensures
        i == j,
{
    if i < j {
        lemma_key_order(es[i].key, es[j].key, es[j].key);
    } else if j < i {
        lemma_key_order(es[j].key, es[i].key, es[i].key);
    }
}

/// An index to which a position has been added under a key holds what it
/// held, and that position under that key.
pub proof fn lemma_added_holds(
    before: BTreeIndex,
    after: BTreeIndex,
    key: Seq<ValueView>,
    pos: (usize, usize),
)
    requires
        before.wf(),
        before.added(after, key, pos),
    ensures
        forall|k: Seq<ValueView>, p: (usize, usize)|
            #[trigger] holds(after.entries(), k, p) <==> (holds(before.entries(), k, p) || (k
                == key && p == pos)),
{
    let es = before.entries();
    let fs = after.entries();
    assert forall|k: Seq<ValueView>, p: (usize, usize)|
        #[trigger] holds(fs, k, p) <==> (holds(es, k, p) || (k == key && p == pos)) by {
        match key_index(es, key) {
            Some(i) => {
                assert(0 <= i < es.len() && es[i].key == key);
                let ps = es[i].positions;
                if holds(fs, k, p) {
                    let j = choose|j: int|
                        0 <= j < fs.len() && (#[trigger] fs[j]).key == k && fs[j].positions.contains(
                            p,
                        );
                    if j == i {
                        let x = choose|x: int|
                            0 <= x < fs[j].positions.len() && fs[j].positions[x] == p;
                        if x < ps.len() {
                            assert(ps[x] == p);
                            assert(es[i].positions.contains(p));
                        }
                    } else {
                        assert(es[j] == fs[j]);
                    }
                }
                if holds(es, k, p) {
                    let j = choose|j: int|
                        0 <= j < es.len() && (#[trigger] es[j]).key == k && es[j].positions.contains(
                            p,
                        );
                    if j == i {
                        let x = choose|x: int| 0 <= x < ps.len() && ps[x] == p;
                        assert(fs[i].positions[x] == p);
                        assert(fs[i].key == k && fs[i].positions.contains(p));
                    } else {
                        assert(fs[j] == es[j]);
                    }
                }
                if k == key && p == pos {
                    assert(fs[i].positions[ps.len() as int] == pos);
                    assert(fs[i].key == k && fs[i].positions.contains(p));
                }
            },
            None => {
                let at = choose|at: int|
                    0 <= at <= es.len() && fs == es.insert(
                        at,
                        EntryView { key, positions: seq![pos] },
                    );
                if holds(fs, k, p) {
                    let j = choose|j: int|
                        0 <= j < fs.len() && (#[trigger] fs[j]).key == k && fs[j].positions.contains(
                            p,
                        );
                    if j < at {
                        assert(es[j] == fs[j]);
                    } else if j > at {
                        assert(es[j - 1] == fs[j]);
                    } else {
                        let x = choose|x: int|
                            0 <= x < fs[j].positions.len() && fs[j].positions[x] == p;
                        assert(p == pos);
                    }
                }
                if holds(es, k, p) {
                    let j = choose|j: int|
                        0 <= j < es.len() && (#[trigger] es[j]).key == k && es[j].positions.contains(
                            p,
                        );
                    if j < at {
                        assert(fs[j] == es[j]);
                    } else {
                        assert(fs[j + 1] == es[j]);
                    }
                }
                if k == key && p == pos {
                    assert(fs[at].positions[0] == pos);
                    assert(fs[at].key == k && fs[at].positions.contains(p));
                }
            },
        }
    }
}

/// Entries from which a position has been taken under a key hold what they
/// held but that position under that key, and still ascend.
pub proof fn lemma_without_holds(es: Seq<EntryView>, key: Seq<ValueView>, pos: (usize, usize))
    requires
        ascending(es),
    ensures
        ascending(entries_without(es, key, pos)),
        forall|k: Seq<ValueView>, p: (usize, usize)|
            #[trigger] holds(entries_without(es, key, pos), k, p) <==> (holds(es, k, p) && !(k
                == key && p == pos)),
{
    let fs = entries_without(es, key, pos);
    match key_index(es, key) {
        None => {
            assert forall|k: Seq<ValueView>, p: (usize, usize)|
                #[trigger] holds(fs, k, p) <==> (holds(es, k, p) && !(k == key && p == pos)) by {
                if holds(es, k, p) && k == key {
                    let j = choose|j: int|
                        0 <= j < es.len() && (#[trigger] es[j]).key == k && es[j].positions.contains(
                            p,
                        );
                    assert(es[j].key == key);
                }
            }
        },
        Some(i) => {
            assert(0 <= i < es.len() && es[i].key == key);
            let ps = es[i].positions;
            let left = positions_without(ps, pos, ps.len() as int);
            lemma_positions_without(ps, pos, ps.len() as int);
            if left.len() == 0 {
                assert(fs == es.remove(i));
                assert forall|a: int, b: int| 0 <= a < b < fs.len() implies key_lt(
                    #[trigger] fs[a].key,
                    #[trigger] fs[b].key,
                ) by {
                    let x = if a < i {
                        a
                    } else {
                        a + 1
                    };
                    let y = if b < i {
                        b
                    } else {
                        b + 1
                    };
                    assert(fs[a] == es[x] && fs[b] == es[y]);
                }
                assert forall|k: Seq<ValueView>, p: (usize, usize)|
                    #[trigger] holds(fs, k, p) <==> (holds(es, k, p) && !(k == key && p == pos)) by {
                    if holds(fs, k, p) {
                        let j = choose|j: int|
                            0 <= j < fs.len() && (#[trigger] fs[j]).key == k
                                && fs[j].positions.contains(p);
                        let x = if j < i {
                            j
                        } else {
                            j + 1
                        };
                        assert(es[x] == fs[j]);
                        assert(es[x].key == k && es[x].positions.contains(p));
                        if k == key {
                            lemma_ascending_distinct(es, x, i);
                        }
                    }
                    if holds(es, k, p) && !(k == key && p == pos) {
                        let j = choose|j: int|
                            0 <= j < es.len() && (#[trigger] es[j]).key == k
                                && es[j].positions.contains(p);
                        if j == i {
                            let x = choose|x: int| 0 <= x < ps.len() && ps[x] == p;
                            assert(left.contains(p));
                        } else {
                            let y = if j < i {
                                j
                            } else {
                                j - 1
                            };
                            assert(fs[y] == es[j]);
                        }
                    }
                }
            } else {
                assert(fs == es.update(i, EntryView { key, positions: left }));
                assert forall|a: int, b: int| 0 <= a < b < fs.len() implies key_lt(
                    #[trigger] fs[a].key,
                    #[trigger] fs[b].key,
                ) by {
                    assert(fs[a].key == es[a].key && fs[b].key == es[b].key);
                }
                assert forall|k: Seq<ValueView>, p: (usize, usize)|
                    #[trigger] holds(fs, k, p) <==> (holds(es, k, p) && !(k == key && p == pos)) by {
                    if holds(fs, k, p) {
                        let j = choose|j: int|
                            0 <= j < fs.len() && (#[trigger] fs[j]).key == k
                                && fs[j].positions.contains(p);
                        if j == i {
                            assert(left.contains(p));
                            let x = choose|x: int| 0 <= x < ps.len() && ps[x] == p;
                            assert(es[i].positions.contains(p));
                        } else {
                            assert(es[j] == fs[j]);
                            if k == key {
                                lemma_ascending_distinct(es, j, i);
                            }
                        }
                    }
                    if holds(es, k, p) && !(k == key && p == pos) {
                        let j = choose|j: int|
                            0 <= j < es.len() && (#[trigger] es[j]).key == k
                                && es[j].positions.contains(p);
                        if j == i {
                            let x = choose|x: int| 0 <= x < ps.len() && ps[x] == p;
                            assert(left.contains(p));
                            assert(fs[i].key == k && fs[i].positions.contains(p));
                        } else {
                            assert(fs[j] == es[j]);
                        }
                    }
                }
            }
        },
    }
}

/// Whether every entry holds at least one position.
pub open spec fn buckets_nonempty(es: Seq<EntryView>) -> bool {
    forall|i: int| 0 <= i < es.len() ==> (#[trigger] es[i]).positions.len() > 0
}

/// Adding a position leaves no entry without positions.
pub proof fn lemma_added_keeps_buckets(
    before: BTreeIndex,
    after: BTreeIndex,
    key: Seq<ValueView>,
    pos: (usize, usize),
)
    requires
        buckets_nonempty(before.entries()),
        before.added(after, key, pos),
    ensures
        buckets_nonempty(after.entries()),
{
    let es = before.entries();
    let fs = after.entries();
    match key_index(es, key) {
        Some(i) => {
            assert forall|j: int| 0 <= j < fs.len() implies (#[trigger] fs[j]).positions.len()
                > 0 by {
                if j != i {
                    assert(fs[j] == es[j]);
                }
            }
        },
        None => {
            let at = choose|at: int|
                0 <= at <= es.len() && fs == es.insert(at, EntryView { key, positions: seq![pos] });
            assert forall|j: int| 0 <= j < fs.len() implies (#[trigger] fs[j]).positions.len()
                > 0 by {
                if j < at {
                    assert(fs[j] == es[j]);
                } else if j > at {
                    assert(fs[j] == es[j - 1]);
                }
            }
        },
    }
}

/// Taking a position away leaves no entry without positions: an entry
/// that loses its last position goes.
pub proof fn lemma_without_keeps_buckets(es: Seq<EntryView>, key: Seq<ValueView>, pos: (usize, usize))
    requires
        buckets_nonempty(es),
    ensures
        buckets_nonempty(entries_without(es, key, pos)),
{
    let fs = entries_without(es, key, pos);
    match key_index(es, key) {
        Some(i) => {
            let ps = es[i].positions;
            let left = positions_without(ps, pos, ps.len() as int);
            assert forall|j: int| 0 <= j < fs.len() implies (#[trigger] fs[j]).positions.len()
                > 0 by {
                if left.len() == 0 {
                    if j < i {
                        assert(fs[j] == es[j]);
                    } else {
                        assert(fs[j] == es[j + 1]);
                    }
                } else if j != i {
                    assert(fs[j] == es[j]);
                }
            }
        },
        None => {},
    }
}

} // verus!
