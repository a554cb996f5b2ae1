use crate::types::storage_types::{names_view, values_view, Value, ValueView};
use crate::types::value_order::{key_lt, lemma_key_order, order_keys, Order};
use vstd::prelude::*;

verus! {

/// One key of an index with the positions of its tuples.
#[derive(Debug, Clone)]
pub struct IndexEntry {
    pub key: Vec<Value>,
    pub positions: Vec<(usize, usize)>,
}

/// The mathematical content of an [`IndexEntry`].
pub struct EntryView {
    pub key: Seq<ValueView>,
    pub positions: Seq<(usize, usize)>,
}

impl View for IndexEntry {
    type V = EntryView;

    open spec fn view(&self) -> EntryView {
        EntryView { key: values_view(self.key@), positions: self.positions@ }
    }
}

/// Views of a list of entries, position by position.
pub open spec fn entries_view(es: Seq<IndexEntry>) -> Seq<EntryView> {
    Seq::new(es.len(), |i: int| es[i]@)
}

/// An ordered index on the columns of a table: its keys in ascending order,
/// each with the positions `(page_no, slot_no)` of the tuples that have it.
#[derive(Debug, Clone)]
pub struct BTreeIndex {
    pub name: String,
    pub table: String,
    pub columns: Vec<String>,
    pub map: Vec<IndexEntry>,
}

/// An end of a range of keys.
#[derive(Debug, Clone)]
pub enum KeyBound {
    Included(Vec<Value>),
    Excluded(Vec<Value>),
    Unbounded,
}

/// The mathematical content of a [`KeyBound`].
pub enum KeyBoundView {
    Included(Seq<ValueView>),
    Excluded(Seq<ValueView>),
    Unbounded,
}

impl View for KeyBound {
    type V = KeyBoundView;

    open spec fn view(&self) -> KeyBoundView {
        match self {
            KeyBound::Included(k) => KeyBoundView::Included(values_view(k@)),
            KeyBound::Excluded(k) => KeyBoundView::Excluded(values_view(k@)),
            KeyBound::Unbounded => KeyBoundView::Unbounded,
        }
    }
}

/// Whether a key lies at or above a lower bound.
pub open spec fn above(key: Seq<ValueView>, lower: KeyBoundView) -> bool {
    match lower {
        KeyBoundView::Included(l) => !key_lt(key, l),
        KeyBoundView::Excluded(l) => key_lt(l, key),
        KeyBoundView::Unbounded => true,
    }
}

/// Whether a key lies at or below an upper bound.
pub open spec fn below(key: Seq<ValueView>, upper: KeyBoundView) -> bool {
    match upper {
        KeyBoundView::Included(u) => !key_lt(u, key),
        KeyBoundView::Excluded(u) => key_lt(key, u),
        KeyBoundView::Unbounded => true,
    }
}

/// The test for a key between two bounds.
pub open spec fn between(lower: KeyBoundView, upper: KeyBoundView) -> spec_fn(Seq<ValueView>)
    -> bool {
    |key: Seq<ValueView>| above(key, lower) && below(key, upper)
}

/// Whether a key begins with the given values.
pub open spec fn has_prefix(key: Seq<ValueView>, prefix: Seq<ValueView>) -> bool {
    prefix.len() <= key.len() && key.subrange(0, prefix.len() as int) == prefix
}

/// The test for a key that begins with the given values.
pub open spec fn beginning_with(prefix: Seq<ValueView>) -> spec_fn(Seq<ValueView>) -> bool {
    |key: Seq<ValueView>| has_prefix(key, prefix)
}

/// The positions of those of the first `n` entries whose key passes the
/// test, in the order of the entries.
pub open spec fn positions_where(
    es: Seq<EntryView>,
    test: spec_fn(Seq<ValueView>) -> bool,
    n: int,
) -> Seq<(usize, usize)>
    decreases n,
{
    if n <= 0 {
        Seq::empty()
    } else if test(es[n - 1].key) {
        positions_where(es, test, n - 1) + es[n - 1].positions
    } else {
        positions_where(es, test, n - 1)
    }
}

/// The first `n` positions without those equal to `p`, in order.
pub open spec fn positions_without(s: Seq<(usize, usize)>, p: (usize, usize), n: int) -> Seq<
    (usize, usize),
>
    decreases n,
{
    if n <= 0 {
        Seq::empty()
    } else if s[n - 1] == p {
        positions_without(s, p, n - 1)
    } else {
        positions_without(s, p, n - 1).push(s[n - 1])
    }
}

/// Whether the keys of the entries ascend strictly.
pub open spec fn ascending(es: Seq<EntryView>) -> bool {
    forall|i: int, j: int| 0 <= i < j < es.len() ==> key_lt(#[trigger] es[i].key, #[trigger] es[j].key)
}

/// Where the key stands among the entries, if it is there.
pub open spec fn key_index(es: Seq<EntryView>, key: Seq<ValueView>) -> Option<int> {
    if exists|i: int| 0 <= i < es.len() && es[i].key == key {
        Some(choose|i: int| 0 <= i < es.len() && es[i].key == key)
    } else {
        None
    }
}

/// The positions that the entries hold for a key.
pub open spec fn lookup_in(es: Seq<EntryView>, key: Seq<ValueView>) -> Option<Seq<(usize, usize)>> {
    match key_index(es, key) {
        Some(i) => Some(es[i].positions),
        None => None,
    }
}

/// The entries with a position taken from a key, and the key taken away if
/// no position is left.
pub open spec fn entries_without(es: Seq<EntryView>, key: Seq<ValueView>, pos: (usize, usize))
    -> Seq<EntryView> {
    match key_index(es, key) {
        Some(i) => {
            let ps = es[i].positions;
            let left = positions_without(ps, pos, ps.len() as int);
            if left.len() == 0 {
                es.remove(i)
            } else {
                es.update(i, EntryView { key, positions: left })
            }
        },
        None => es,
    }
}

/// Among ascending entries a key stands at one place at most.
pub proof fn lemma_key_index_unique(es: Seq<EntryView>, key: Seq<ValueView>, i: int)
    requires
        ascending(es),
        0 <= i < es.len(),
        es[i].key == key,
    ensures
        key_index(es, key) == Some(i),
{
    let j = choose|j: int| 0 <= j < es.len() && es[j].key == key;
    if j < i {
        lemma_key_order(es[j].key, es[i].key, es[i].key);
    } else if i < j {
        lemma_key_order(es[i].key, es[j].key, es[j].key);
    }
}

fn remove_position(positions: &Vec<(usize, usize)>, pos: (usize, usize)) -> (r: Vec<
    (usize, usize),
>)
    ensures
        r@ == positions_without(positions@, pos, positions@.len() as int),
{
    let mut r: Vec<(usize, usize)> = Vec::new();
    let mut i: usize = 0;
    while i < positions.len()
        invariant
            i <= positions.len(),
            r@ == positions_without(positions@, pos, i as int),
        decreases positions.len() - i,
    {
        let p = positions[i];
        if !(p.0 == pos.0 && p.1 == pos.1) {
            r.push(p);
        }
        i += 1;
    }
    r
}

impl BTreeIndex {
    /// The entries of the index, in ascending order of their keys.
    pub open spec fn entries(&self) -> Seq<EntryView> {
        entries_view(self.map@)
    }

    /// The index's invariant: its keys ascend strictly, so that each is there once.
    pub open spec fn wf(&self) -> bool {
        ascending(self.entries())
    }

    /// The positions that the index holds for a key.
    pub open spec fn lookup(&self, key: Seq<ValueView>) -> Option<Seq<(usize, usize)>> {
        lookup_in(self.entries(), key)
    }

    /// Whether `after` is this index with a position added to a key: to the
    /// key's positions if the index holds the key, else with the key as a
    /// new entry.
    pub open spec fn added(&self, after: BTreeIndex, key: Seq<ValueView>, pos: (usize, usize))
        -> bool {
        &&& after.name == self.name
        &&& after.table == self.table
        &&& after.columns == self.columns
        &&& match key_index(self.entries(), key) {
            Some(i) => after.entries() == self.entries().update(
                i,
                EntryView { key, positions: self.entries()[i].positions.push(pos) },
            ),
            None => exists|at: int|
                0 <= at <= self.entries().len() && after.entries() == self.entries().insert(
                    at,
                    EntryView { key, positions: seq![pos] },
                ),
        }
    }

    /// Whether `after` is this index with a position taken from a key, and
    /// the key taken away if no position is left.
    pub open spec fn removed(&self, after: BTreeIndex, key: Seq<ValueView>, pos: (usize, usize))
        -> bool {
        &&& after.name == self.name
        &&& after.table == self.table
        &&& after.columns == self.columns
        &&& after.entries() == entries_without(self.entries(), key, pos)
    }

    /// An empty index.
    pub fn new(name: String, table: String, columns: Vec<String>) -> (idx: BTreeIndex)
        ensures
            idx.name == name,
            idx.table == table,
            idx.columns == columns,
            idx.entries() == Seq::<EntryView>::empty(),
            idx.wf(),
    {
        let idx = BTreeIndex { name, table, columns, map: Vec::new() };
        assert(idx.entries() =~= Seq::<EntryView>::empty());
        idx
    }

    /// Where the key stands, or where it would have to be put: by binary search.
    fn locate(&self, key: &Vec<Value>) -> (r: (bool, usize))
        requires
            self.wf(),
        ensures
            r.1 <= self.map@.len(),
            r.0 ==> r.1 < self.map@.len() && self.entries()[r.1 as int].key == values_view(key@)
                && key_index(self.entries(), values_view(key@)) == Some(r.1 as int),
            !r.0 ==> key_index(self.entries(), values_view(key@)).is_none(),
            !r.0 ==> forall|j: int|
                0 <= j < r.1 ==> key_lt((#[trigger] self.entries()[j]).key, values_view(key@)),
            !r.0 ==> forall|j: int|
                r.1 <= j < self.map@.len() ==> key_lt(
                    values_view(key@),
                    (#[trigger] self.entries()[j]).key,
                ),
    {
        let ghost es = self.entries();
        let ghost k = values_view(key@);
        let mut lo: usize = 0;
        let mut hi: usize = self.map.len();
        while lo < hi
            invariant
                lo <= hi <= self.map@.len(),
                es == self.entries(),
                k == values_view(key@),
                ascending(es),
                forall|j: int| 0 <= j < lo ==> key_lt((#[trigger] es[j]).key, k),
                forall|j: int| hi <= j < es.len() ==> key_lt(k, (#[trigger] es[j]).key),
            decreases hi - lo,
        {
            let mid = lo + (hi - lo) / 2;
            assert(es[mid as int].key == values_view(self.map[mid as int].key@));
            match order_keys(&self.map[mid].key, key) {
                Order::Equal => {
                    proof {
                        lemma_key_index_unique(es, k, mid as int);
                    }
                    return (true, mid);
                },
                Order::Less => {
                    assert forall|j: int| 0 <= j < mid + 1 implies key_lt(
                        (#[trigger] es[j]).key,
                        k,
                    ) by {
                        if j < mid {
                            lemma_key_order(es[j].key, es[mid as int].key, k);
                        }
                    }
                    lo = mid + 1;
                },
                Order::Greater => {
                    assert forall|j: int| mid <= j < es.len() implies key_lt(
                        k,
                        (#[trigger] es[j]).key,
                    ) by {
                        if j > mid {
                            lemma_key_order(k, es[mid as int].key, es[j].key);
                        }
                    }
                    hi = mid;
                },
            }
        }
        proof {
            if exists|i: int| 0 <= i < es.len() && es[i].key == k {
                let i = choose|i: int| 0 <= i < es.len() && es[i].key == k;
                lemma_key_order(es[i].key, k, k);
            }
        }
        (false, lo)
    }

    /// Adds a position to a key. A key that the index does not hold yet is
    /// put in its place among the others.
    pub fn insert(&mut self, key: Vec<Value>, pos: (usize, usize))
        requires
            old(self).wf(),
        ensures
            final(self).wf(),
            old(self).added(*final(self), values_view(key@), pos),
            final(self).lookup(values_view(key@)) == Some(
                match old(self).lookup(values_view(key@)) {
                    Some(ps) => ps.push(pos),
                    None => seq![pos],
                },
            ),
            forall|other: Seq<ValueView>|
                other != values_view(key@) ==> final(self).lookup(other) == old(self).lookup(
                    other,
                ),
    {
        let ghost es = self.entries();
        let ghost k = values_view(key@);
        let (found, at) = self.locate(&key);
        if found {
            let mut positions: Vec<(usize, usize)> = Vec::new();
            append_positions(&mut positions, &self.map[at].positions);
            positions.push(pos);
            assert(positions@ =~= es[at as int].positions.push(pos));
            self.map.set(at, IndexEntry { key, positions });
            let ghost fs = self.entries();
            assert(fs =~= es.update(
                at as int,
                EntryView { key: k, positions: es[at as int].positions.push(pos) },
            ));
            assert(ascending(fs)) by {
                assert forall|i: int, j: int| 0 <= i < j < fs.len() implies key_lt(
                    #[trigger] fs[i].key,
                    #[trigger] fs[j].key,
                ) by {
                    assert(fs[i].key == es[i].key && fs[j].key == es[j].key);
                }
            }
            proof {
                lemma_key_index_unique(fs, k, at as int);
                lemma_lookup_same_keys(es, fs, at as int);
            }
        } else {
            let mut positions: Vec<(usize, usize)> = Vec::new();
            positions.push(pos);
            self.map.insert(at, IndexEntry { key, positions });
            let ghost fs = self.entries();
            let ghost entry = EntryView { key: k, positions: seq![pos] };
            assert(fs =~= es.insert(at as int, entry));
            assert(ascending(fs)) by {
                assert forall|i: int, j: int| 0 <= i < j < fs.len() implies key_lt(
                    #[trigger] fs[i].key,
                    #[trigger] fs[j].key,
                ) by {
                    if j < at {
                        assert(fs[i] == es[i] && fs[j] == es[j]);
                    } else if j == at {
                        assert(fs[i] == es[i]);
                    } else if i < at {
                        assert(fs[i] == es[i] && fs[j] == es[j - 1]);
                    } else if i == at {
                        assert(fs[j] == es[j - 1]);
                    } else {
                        assert(fs[i] == es[i - 1] && fs[j] == es[j - 1]);
                    }
                }
            }
            proof {
                lemma_key_index_unique(fs, k, at as int);
                lemma_lookup_inserted(es, fs, at as int, entry);
            }
        }
    }

    /// The positions that the index holds for a key.
    pub fn search_eq(&self, key: &Vec<Value>) -> (r: Option<&Vec<(usize, usize)>>)
        requires
            self.wf(),
        ensures
            match r {
                Some(ps) => self.lookup(values_view(key@)) == Some(ps@),
                None => self.lookup(values_view(key@)).is_none(),
            },
    {
        let (found, at) = self.locate(key);
        if found {
            Some(&self.map[at].positions)
        } else {
            None
        }
    }

    /// Takes a position from a key and says whether it was there. The key
    /// stays, even with no position left.
    pub fn delete(&mut self, key: &Vec<Value>, pos: (usize, usize)) -> (removed: bool)
        requires
            old(self).wf(),
        ensures
            final(self).wf(),
            final(self).name == old(self).name,
            final(self).table == old(self).table,
            final(self).columns == old(self).columns,
            match key_index(old(self).entries(), values_view(key@)) {
                Some(i) => {
                    let ps = old(self).entries()[i].positions;
                    let left = positions_without(ps, pos, ps.len() as int);
                    &&& final(self).entries() == old(self).entries().update(
                        i,
                        EntryView { key: values_view(key@), positions: left },
                    )
                    &&& removed == (left.len() != ps.len())
                },
                None => final(self).entries() == old(self).entries() && !removed,
            },
    {
        let ghost es = self.entries();
        let ghost k = values_view(key@);
        let (found, at) = self.locate(key);
        if !found {
            return false;
        }
        let before = self.map[at].positions.len();
        let positions = remove_position(&self.map[at].positions, pos);
        let removed = before != positions.len();
        let kept = crate::types::storage_types::copy_values(&self.map[at].key);
        self.map.set(at, IndexEntry { key: kept, positions });
        let ghost fs = self.entries();
        assert(fs =~= es.update(
            at as int,
            EntryView {
                key: k,
                positions: positions_without(
                    es[at as int].positions,
                    pos,
                    es[at as int].positions.len() as int,
                ),
            },
        ));
        assert(ascending(fs)) by {
            assert forall|i: int, j: int| 0 <= i < j < fs.len() implies key_lt(
                #[trigger] fs[i].key,
                #[trigger] fs[j].key,
            ) by {
                assert(fs[i].key == es[i].key && fs[j].key == es[j].key);
            }
        }
        removed
    }

    /// Takes a position from a key, and the key from the index if no
    /// position is left.
    pub fn remove(&mut self, key: &Vec<Value>, pos: (usize, usize))
        requires
            old(self).wf(),
        ensures
            final(self).wf(),
            old(self).removed(*final(self), values_view(key@), pos),
    {
        let ghost es = self.entries();
        let ghost k = values_view(key@);
        let (found, at) = self.locate(key);
        if !found {
            return ;
        }
        let positions = remove_position(&self.map[at].positions, pos);
        if positions.len() == 0 {
            self.map.remove(at);
            let ghost fs = self.entries();
            assert(fs =~= es.remove(at as int));
            assert(ascending(fs)) by {
                assert forall|i: int, j: int| 0 <= i < j < fs.len() implies key_lt(
                    #[trigger] fs[i].key,
                    #[trigger] fs[j].key,
                ) by {
                    let a = if i < at {
                        i
                    } else {
                        i + 1
                    };
                    let b = if j < at {
                        j
                    } else {
                        j + 1
                    };
                    assert(fs[i] == es[a] && fs[j] == es[b]);
                }
            }
        } else {
            let kept = crate::types::storage_types::copy_values(&self.map[at].key);
            self.map.set(at, IndexEntry { key: kept, positions });
            let ghost fs = self.entries();
            assert(fs =~= es.update(
                at as int,
                EntryView {
                    key: k,
                    positions: positions_without(
                        es[at as int].positions,
                        pos,
                        es[at as int].positions.len() as int,
                    ),
                },
            ));
            assert(ascending(fs)) by {
                assert forall|i: int, j: int| 0 <= i < j < fs.len() implies key_lt(
                    #[trigger] fs[i].key,
                    #[trigger] fs[j].key,
                ) by {
                    assert(fs[i].key == es[i].key && fs[j].key == es[j].key);
                }
            }
        }
    }

    /// The positions of all keys between two bounds, in ascending order of the keys.
    pub fn search_range(&self, lower: KeyBound, upper: KeyBound) -> (res: Vec<(usize, usize)>)
        ensures
            res@ == positions_where(
                self.entries(),
                between(lower@, upper@),
                self.entries().len() as int,
            ),
    {
        let ghost es = self.entries();
        let ghost test = between(lower@, upper@);
        let mut res: Vec<(usize, usize)> = Vec::new();
        let mut i: usize = 0;
        while i < self.map.len()
            invariant
                i <= self.map@.len(),
                es == self.entries(),
                test == between(lower@, upper@),
                res@ == positions_where(es, test, i as int),
            decreases self.map.len() - i,
        {
            let entry = &self.map[i];
            assert(es[i as int] == entry@);
            let is_above = match &lower {
                KeyBound::Included(l) => match order_keys(&entry.key, l) {
                    Order::Less => false,
                    _ => true,
                },
                KeyBound::Excluded(l) => match order_keys(l, &entry.key) {
                    Order::Less => true,
                    _ => false,
                },
                KeyBound::Unbounded => true,
            };
            let is_below = match &upper {
                KeyBound::Included(u) => match order_keys(u, &entry.key) {
                    Order::Less => false,
                    _ => true,
                },
                KeyBound::Excluded(u) => match order_keys(&entry.key, u) {
                    Order::Less => true,
                    _ => false,
                },
                KeyBound::Unbounded => true,
            };
            proof {
                let k = entry@.key;
                match lower@ {
                    KeyBoundView::Included(l) => lemma_key_order(k, l, k),
                    KeyBoundView::Excluded(l) => lemma_key_order(l, k, l),
                    KeyBoundView::Unbounded => {},
                }
                match upper@ {
                    KeyBoundView::Included(u) => lemma_key_order(u, k, u),
                    KeyBoundView::Excluded(u) => lemma_key_order(k, u, k),
                    KeyBoundView::Unbounded => {},
                }
                assert(test(k) == (is_above && is_below));
            }
            if is_above && is_below {
                append_positions(&mut res, &entry.positions);
            }
            i += 1;
        }
        res
    }

    /// The positions of all keys that begin with the given values, in
    /// ascending order of the keys.
    pub fn search_prefix(&self, prefix: &Vec<Value>) -> (res: Vec<(usize, usize)>)
        ensures
            res@ == positions_where(
                self.entries(),
                beginning_with(values_view(prefix@)),
                self.entries().len() as int,
            ),
    {
        let ghost es = self.entries();
        let ghost test = beginning_with(values_view(prefix@));
        let mut res: Vec<(usize, usize)> = Vec::new();
        let mut i: usize = 0;
        while i < self.map.len()
            invariant
                i <= self.map@.len(),
                es == self.entries(),
                test == beginning_with(values_view(prefix@)),
                res@ == positions_where(es, test, i as int),
            decreases self.map.len() - i,
        {
            let entry = &self.map[i];
            assert(es[i as int] == entry@);
            if key_begins_with(&entry.key, prefix) {
                append_positions(&mut res, &entry.positions);
            }
            i += 1;
        }
        res
    }
}

/// An entry whose positions change keeps every key's place, and every other
/// key's positions.
proof fn lemma_lookup_same_keys(es: Seq<EntryView>, fs: Seq<EntryView>, at: int)
    requires
        ascending(es),
        ascending(fs),
        0 <= at < es.len(),
        fs.len() == es.len(),
        forall|i: int| 0 <= i < es.len() ==> fs[i].key == es[i].key,
        forall|i: int| 0 <= i < es.len() && i != at ==> fs[i] == es[i],
    ensures
        forall|other: Seq<ValueView>|
            other != es[at].key ==> #[trigger] lookup_in(fs, other) == lookup_in(es, other),
{
    assert forall|other: Seq<ValueView>| other != es[at].key implies #[trigger] lookup_in(
        fs,
        other,
    ) == lookup_in(es, other) by {
        if exists|i: int| 0 <= i < es.len() && es[i].key == other {
            let i = choose|i: int| 0 <= i < es.len() && es[i].key == other;
            lemma_key_index_unique(es, other, i);
            lemma_key_index_unique(fs, other, i);
        } else {
            if exists|i: int| 0 <= i < fs.len() && fs[i].key == other {
                let i = choose|i: int| 0 <= i < fs.len() && fs[i].key == other;
                assert(es[i].key == other);
            }
        }
    }
}

/// A new entry keeps every other key's positions.
proof fn lemma_lookup_inserted(es: Seq<EntryView>, fs: Seq<EntryView>, at: int, entry: EntryView)
    requires
        ascending(es),
        ascending(fs),
        0 <= at <= es.len(),
        fs == es.insert(at, entry),
    ensures
        forall|other: Seq<ValueView>|
            other != entry.key ==> #[trigger] lookup_in(fs, other) == lookup_in(es, other),
{
    assert forall|other: Seq<ValueView>| other != entry.key implies #[trigger] lookup_in(
        fs,
        other,
    ) == lookup_in(es, other) by {
        if exists|i: int| 0 <= i < es.len() && es[i].key == other {
            let i = choose|i: int| 0 <= i < es.len() && es[i].key == other;
            lemma_key_index_unique(es, other, i);
            let j = if i < at {
                i
            } else {
                i + 1
            };
            assert(fs[j] == es[i]);
            lemma_key_index_unique(fs, other, j);
        } else {
            if exists|j: int| 0 <= j < fs.len() && fs[j].key == other {
                let j = choose|j: int| 0 <= j < fs.len() && fs[j].key == other;
                let i = if j < at {
                    j
                } else {
                    j - 1
                };
                assert(j != at);
                assert(es[i] == fs[j]);
            }
        }
    }
}

fn append_positions(dst: &mut Vec<(usize, usize)>, src: &Vec<(usize, usize)>)
    ensures
        final(dst)@ == old(dst)@ + src@,
{
    let mut i: usize = 0;
    while i < src.len()
        invariant
            i <= src.len(),
            dst@ == old(dst)@ + src@.subrange(0, i as int),
        decreases src.len() - i,
    {
        dst.push(src[i]);
        assert(dst@ =~= old(dst)@ + src@.subrange(0, i + 1));
        i += 1;
    }
    assert(src@.subrange(0, src.len() as int) =~= src@);
}

fn key_begins_with(key: &Vec<Value>, prefix: &Vec<Value>) -> (b: bool)
    ensures
        b == has_prefix(values_view(key@), values_view(prefix@)),
{
    if prefix.len() > key.len() {
        return false;
    }
    let ghost k = values_view(key@);
    let ghost p = values_view(prefix@);
    let mut i: usize = 0;
    while i < prefix.len()
        invariant
            i <= prefix.len() <= key.len(),
            k == values_view(key@),
            p == values_view(prefix@),
            forall|j: int| 0 <= j < i ==> k[j] == p[j],
        decreases prefix.len() - i,
    {
        assert(k[i as int] == key[i as int]@ && p[i as int] == prefix[i as int]@);
        if !key[i].same(&prefix[i]) {
            assert(k.subrange(0, p.len() as int)[i as int] != p[i as int]);
            return false;
        }
        i += 1;
    }
    assert(k.subrange(0, p.len() as int) =~= p);
    true
}

} // verus!
