use crate::errors::storage_error::StorageError;
use crate::storage::codec::{column_types, encode_tuple};
use crate::storage::page::MAX_SLOTS;
use crate::storage::page_header::empty_header;
use crate::types::page_types::{Page, TupleHeader, TupleHeaderView};
use crate::types::storage_types::{Column, ColumnType, Row, ValueView};
use vstd::prelude::*;

verus! {

/// The most pages that a heap file can have.
pub const MAX_PAGES: usize = 0x7fff_ffff;

/// The pages of one table. Page `n` of the file is the `n`-th page here.
pub struct HeapFile {
    pub path: String,
    pub pages: Vec<Page>,
}

/// A tuple as a scan finds it: where it lies, its header and its values.
pub struct StoredTuple {
    pub page_no: int,
    pub slot_no: int,
    pub header: TupleHeaderView,
    pub row: Seq<ValueView>,
}

/// The tuples in the first `n` slots of a page, in the order of the slots.
pub open spec fn page_tuples_upto(page: Page, schema: Seq<ColumnType>, page_no: int, n: int) -> Seq<
    StoredTuple,
>
    decreases n,
{
    if n <= 0 {
        Seq::empty()
    } else {
        let prev = page_tuples_upto(page, schema, page_no, n - 1);
        match page.spec_get_tuple(n - 1, schema) {
            Some((header, row)) => prev.push(
                StoredTuple { page_no, slot_no: n - 1, header, row },
            ),
            None => prev,
        }
    }
}

/// The tuples of a page, in the order of the slots.
pub open spec fn page_tuples(page: Page, schema: Seq<ColumnType>, page_no: int) -> Seq<
    StoredTuple,
> {
    page_tuples_upto(page, schema, page_no, page.header.slot_count as int)
}

/// The tuples of the first `k` pages, page by page.
pub open spec fn heap_tuples_upto(pages: Seq<Page>, schema: Seq<ColumnType>, k: int) -> Seq<
    StoredTuple,
>
    decreases k,
{
    if k <= 0 {
        Seq::empty()
    } else {
        heap_tuples_upto(pages, schema, k - 1) + page_tuples(pages[k - 1], schema, k - 1)
    }
}

/// The view of one element of a scan's result.
pub open spec fn scanned_view(t: (u32, usize, TupleHeader, Row)) -> StoredTuple {
    StoredTuple { page_no: t.0 as int, slot_no: t.1 as int, header: t.2@, row: t.3@ }
}

/// The view of a scan's result.
pub open spec fn scan_view(ts: Seq<(u32, usize, TupleHeader, Row)>) -> Seq<StoredTuple> {
    Seq::new(ts.len(), |i: int| scanned_view(ts[i]))
}

impl HeapFile {
    /// The file's invariant: it has at least one page and no more than
    /// [`MAX_PAGES`]; every page is well-formed and carries its own number.
    pub open spec fn wf(&self) -> bool {
        &&& 1 <= self.pages@.len() <= MAX_PAGES
        &&& forall|i: int|
            0 <= i < self.pages@.len() ==> (#[trigger] self.pages@[i]).wf() && self.pages@[i].header.page_no
                == i
    }

    /// All tuples of the file, read by the types of the columns, page by
    /// page and slot by slot.
    pub open spec fn tuples(&self, schema: Seq<ColumnType>) -> Seq<StoredTuple> {
        heap_tuples_upto(self.pages@, schema, self.pages@.len() as int)
    }

    /// The tuple at a position, read by the types of the columns.
    pub open spec fn spec_get_tuple(&self, page_no: int, slot_no: int, schema: Seq<ColumnType>)
        -> Option<(TupleHeaderView, Seq<ValueView>)> {
        if 0 <= page_no < self.pages@.len() {
            self.pages@[page_no].spec_get_tuple(slot_no, schema)
        } else {
            None
        }
    }

    /// A file with one empty page.
    pub fn new(path: &str) -> (h: HeapFile)
        ensures
            h.wf(),
            h.path@ == path@,
            h.pages@.len() == 1,
            h.pages@[0].header == empty_header(0),
            h.pages@[0].data@ == Page::spec_new_data(0),
    {
        let mut pages: Vec<Page> = Vec::new();
        pages.push(Page::new(0));
        HeapFile { path: path.to_owned(), pages }
    }

    /// The heap file of the given pages, if they make a well-formed one.
    pub fn from_pages(path: &str, pages: Vec<Page>) -> (r: Option<HeapFile>)
        ensures
            match r {
                Some(h) => h.wf() && h.path@ == path@ && h.pages == pages,
                None => !(1 <= pages@.len() <= MAX_PAGES && forall|i: int|
                    0 <= i < pages@.len() ==> (#[trigger] pages@[i]).wf()
                        && pages@[i].header.page_no == i),
            },
    {
        if pages.len() < 1 || pages.len() > MAX_PAGES {
            return None;
        }
        let mut i: usize = 0;
        while i < pages.len()
            invariant
                i <= pages.len() <= MAX_PAGES,
                forall|j: int|
                    0 <= j < i ==> (#[trigger] pages@[j]).wf() && pages@[j].header.page_no == j,
            decreases pages.len() - i,
        {
            if !pages[i].is_well_formed() || pages[i].header.page_no as usize != i {
                return None;
            }
            i += 1;
        }
        Some(HeapFile { path: path.to_owned(), pages })
    }

    /// The number of pages.
    pub fn page_count(&self) -> (n: usize)
        ensures
            n == self.pages@.len(),
    {
        self.pages.len()
    }

    /// A copy of a page.
    pub fn read_page(&self, page_no: u32) -> (p: Page)
        requires
            page_no < self.pages@.len(),
        ensures
            p == self.pages@[page_no as int],
    {
        self.pages[page_no as usize].copy()
    }

    /// Puts a page in the place that its number names.
    pub fn write_page(&mut self, page: &Page)
        requires
            old(self).wf(),
            page.wf(),
            page.header.page_no < old(self).pages@.len(),
        ensures
            final(self).wf(),
            final(self).path == old(self).path,
            final(self).pages@ == old(self).pages@.update(page.header.page_no as int, *page),
    {
        self.pages.set(page.header.page_no as usize, page.copy());
    }

    /// Adds an empty page at the end and returns a copy of it.
    pub fn append_page(&mut self) -> (p: Page)
        requires
            old(self).wf(),
            old(self).pages@.len() < MAX_PAGES,
        ensures
            final(self).wf(),
            final(self).path == old(self).path,
            final(self).pages@ == old(self).pages@.push(p),
            p.header == empty_header(old(self).pages@.len() as u32),
            p.wf(),
    {
        let page = Page::new(self.pages.len() as u32);
        self.pages.push(page.copy());
        page
    }

    /// Reads the tuple at a position; none if the page or the slot does not
    /// exist or holds no tuple that can be read.
    pub fn get_tuple(&self, page_no: u32, slot_no: usize, schema: &Vec<Column>) -> (r: Option<
        (TupleHeader, Row),
    >)
        ensures
            match r {
                Some((h, row)) => self.spec_get_tuple(
                    page_no as int,
                    slot_no as int,
                    column_types(schema@),
                ) == Some((h@, row@)),
                None => self.spec_get_tuple(
                    page_no as int,
                    slot_no as int,
                    column_types(schema@),
                ).is_none(),
            },
    {
        if page_no as usize >= self.pages.len() {
            return None;
        }
        self.pages[page_no as usize].get_tuple(slot_no, schema)
    }

    /// Whether the row will find room: in the last page, or in a fresh one
    /// if the file may still grow.
    pub open spec fn can_insert(&self, tuple_len: int) -> bool {
        self.pages@.last().has_room(tuple_len) || (self.pages@.len() < MAX_PAGES
            && tuple_len + crate::consts::ITEM_ID_SIZE <= crate::consts::PAGE_SIZE
            - crate::consts::PAGE_HEADER_SIZE)
    }

    /// Whether `after` is this file with `tuple` stored at the given position:
    /// in the last page if it has room there, else as the first tuple of a
    /// new page at the end. All other pages are as they were.
    pub open spec fn inserted(&self, after: HeapFile, tuple: Seq<u8>, page_no: int, slot_no: int)
        -> bool {
        let n = self.pages@.len() as int;
        let last = self.pages@.last();
        &&& after.path == self.path
        &&& if last.has_room(tuple.len() as int) {
            &&& page_no == n - 1
            &&& slot_no == last.header.slot_count
            &&& after.pages@.len() == n
            &&& forall|i: int| 0 <= i < n - 1 ==> after.pages@[i] == self.pages@[i]
            &&& after.pages@[n - 1].header == last.header_with(tuple.len() as int)
            &&& after.pages@[n - 1].data@ == last.data_with(tuple)
        } else {
            &&& page_no == n
            &&& slot_no == 0
            &&& after.pages@.len() == n + 1
            &&& forall|i: int| 0 <= i < n ==> after.pages@[i] == self.pages@[i]
            &&& exists|empty: Page|
                empty.header == empty_header(n as u32) && empty.wf() && empty.data@
                    == Page::spec_new_data(n as u32) && empty.has_room(tuple.len() as int)
                    && after.pages@[n].header == empty.header_with(tuple.len() as int)
                    && after.pages@[n].data@ == empty.data_with(tuple)
        }
    }

    /// Whether `after` is this file with the tuple at the given position
    /// marked as deleted by `xid`. Everything else is as it was.
    pub open spec fn stamped(&self, after: HeapFile, page_no: int, slot_no: int, xid: u32) -> bool {
        &&& after.path == self.path
        &&& after.pages@.len() == self.pages@.len()
        &&& forall|i: int|
            0 <= i < self.pages@.len() && i != page_no ==> after.pages@[i] == self.pages@[i]
        &&& after.pages@[page_no].header == self.pages@[page_no].header
        &&& after.pages@[page_no].data@ == self.pages@[page_no].data_stamped(slot_no, xid)
    }

    /// Stores a row as a tuple that `xid` inserts and returns its position:
    /// in the last page if it has room there, else in a new page at the end.
    /// Earlier pages are not searched for room.
    pub fn insert_row(&mut self, row: Row, xid: u32) -> (r: Result<(usize, usize), StorageError>)
        requires
            old(self).wf(),
        ensures
            final(self).wf(),
            final(self).path == old(self).path,
            match r {
                Ok((page_no, slot_no)) => {
                    &&& old(self).can_insert(encode_tuple(row@, xid).len() as int)
                    &&& old(self).inserted(
                        *final(self),
                        encode_tuple(row@, xid),
                        page_no as int,
                        slot_no as int,
                    )
                },
                Err(e) => {
                    &&& e == StorageError::NoSpace
                    &&& !old(self).can_insert(encode_tuple(row@, xid).len() as int)
                    &&& *final(self) == *old(self)
                },
            },
    {
        let last_no = self.pages.len() - 1;
        let mut page = self.pages[last_no].copy();
        let ghost tuple = encode_tuple(row@, xid);
        let copy = Row { values: crate::types::storage_types::copy_values(&row.values) };
        assert(copy@ == row@);
        match page.insert_tuple(copy, xid) {
            Ok(slot_no) => {
                self.pages.set(last_no, page);
                Ok((last_no, slot_no))
            },
            Err(_) => {
                if self.pages.len() >= MAX_PAGES {
                    return Err(StorageError::NoSpace);
                }
                let mut fresh = Page::new(self.pages.len() as u32);
                let ghost empty = fresh;
                match fresh.insert_tuple(row, xid) {
                    Ok(slot_no) => {
                        let page_no = self.pages.len();
                        self.pages.push(fresh);
                        Ok((page_no, slot_no))
                    },
                    Err(e) => Err(e),
                }
            },
        }
    }

    /// All tuples of the file, page by page and slot by slot, each with its
    /// position. Slots that hold no tuple, or none that can be read by the
    /// types of the columns, are passed over.
    pub fn scan_all(&self, schema: &Vec<Column>) -> (rows: Vec<(u32, usize, TupleHeader, Row)>)
        requires
            self.wf(),
        ensures
            scan_view(rows@) == self.tuples(column_types(schema@)),
    {
        let ghost types = column_types(schema@);
        let mut rows: Vec<(u32, usize, TupleHeader, Row)> = Vec::new();
        assert(scan_view(rows@) =~= Seq::empty());
        let mut page_no: usize = 0;
        while page_no < self.pages.len()
            invariant
                self.wf(),
                page_no <= self.pages.len(),
                types == column_types(schema@),
                scan_view(rows@) == heap_tuples_upto(self.pages@, types, page_no as int),
            decreases self.pages.len() - page_no,
        {
            let page = &self.pages[page_no];
            let ghost before_page = scan_view(rows@);
            let count = page.header.slot_count as usize;
            let mut slot_no: usize = 0;
            while slot_no < count
                invariant
                    slot_no <= count,
                    count == page.header.slot_count,
                    page_no < self.pages.len() <= MAX_PAGES,
                    types == column_types(schema@),
                    scan_view(rows@) == before_page + page_tuples_upto(
                        *page,
                        types,
                        page_no as int,
                        slot_no as int,
                    ),
                decreases count - slot_no,
            {
                let ghost before = scan_view(rows@);
                match page.get_tuple(slot_no, schema) {
                    Some((header, row)) => {
                        rows.push((page_no as u32, slot_no, header, row));
                        assert(scan_view(rows@) =~= before.push(
                            StoredTuple {
                                page_no: page_no as int,
                                slot_no: slot_no as int,
                                header: header@,
                                row: row@,
                            },
                        ));
                    },
                    None => {},
                }
                slot_no += 1;
            }
            page_no += 1;
        }
        rows
    }

    /// Why the tuple at a position cannot be marked as deleted, if it cannot.
    pub open spec fn delete_error(&self, page_no: int, slot_no: int) -> Option<StorageError> {
        if page_no < 0 || page_no >= self.pages@.len() {
            Some(StorageError::InvalidSlot)
        } else {
            self.pages@[page_no].stamp_error(slot_no)
        }
    }

    /// Marks the tuple at a position as deleted by `xid`: writes `xid` into
    /// its header's `xmax` field, in place. The slot stays in use, so that
    /// older snapshots still find the tuple.
    pub fn delete_at(&mut self, page_no: u32, slot_no: usize, xid: u32) -> (r: Result<
        (),
        StorageError,
    >)
        requires
            old(self).wf(),
        ensures
            final(self).wf(),
            final(self).path == old(self).path,
            match r {
                Ok(()) => {
                    &&& old(self).delete_error(page_no as int, slot_no as int).is_none()
                    &&& old(self).stamped(*final(self), page_no as int, slot_no as int, xid)
                },
                Err(e) => {
                    &&& old(self).delete_error(page_no as int, slot_no as int) == Some(e)
                    &&& *final(self) == *old(self)
                },
            },
    {
        if page_no as usize >= self.pages.len() {
            return Err(StorageError::InvalidSlot);
        }
        let mut page = self.pages[page_no as usize].copy();
        match page.stamp_xmax(slot_no, xid) {
            Ok(()) => {
                self.pages.set(page_no as usize, page);
                Ok(())
            },
            Err(e) => Err(e),
        }
    }

    /// Why the tuple at a position cannot be replaced by a new version of
    /// `tuple_len` bytes, if it cannot: the old one cannot be marked as
    /// deleted, or the new one finds no room on the same page nor on a new
    /// page.
    pub open spec fn update_error(&self, page_no: int, slot_no: int, tuple_len: int) -> Option<
        StorageError,
    > {
        match self.delete_error(page_no, slot_no) {
            Some(e) => Some(e),
            None => if self.pages@[page_no].has_room(tuple_len) || (self.pages@.len() < MAX_PAGES
                && tuple_len + crate::consts::ITEM_ID_SIZE <= crate::consts::PAGE_SIZE
                - crate::consts::PAGE_HEADER_SIZE) {
                None
            } else {
                Some(StorageError::NoSpace)
            },
        }
    }

    /// Whether `after` is this file with the tuple at a position marked as
    /// deleted by `xid` and `tuple` stored as its new version at the new
    /// position: on the same page if it has room there, else as the first
    /// tuple of a new page at the end. All other pages are as they were.
    pub open spec fn updated(
        &self,
        after: HeapFile,
        page_no: int,
        slot_no: int,
        xid: u32,
        tuple: Seq<u8>,
        new_page_no: int,
        new_slot_no: int,
    ) -> bool {
        let n = self.pages@.len() as int;
        let page = self.pages@[page_no];
        &&& after.path == self.path
        &&& forall|i: int| 0 <= i < n && i != page_no ==> after.pages@[i] == self.pages@[i]
        &&& if page.has_room(tuple.len() as int) {
            &&& new_page_no == page_no
            &&& new_slot_no == page.header.slot_count
            &&& after.pages@.len() == n
            &&& exists|stamped: Page|
                stamped.wf() && stamped.header == page.header && stamped.data@
                    == page.data_stamped(slot_no, xid) && after.pages@[page_no].header
                    == stamped.header_with(tuple.len() as int) && after.pages@[page_no].data@
                    == stamped.data_with(tuple)
        } else {
            &&& new_page_no == n
            &&& new_slot_no == 0
            &&& after.pages@.len() == n + 1
            &&& after.pages@[page_no].header == page.header
            &&& after.pages@[page_no].data@ == page.data_stamped(slot_no, xid)
            &&& exists|empty: Page|
                empty.header == empty_header(n as u32) && empty.wf() && empty.data@
                    == Page::spec_new_data(n as u32) && empty.has_room(tuple.len() as int)
                    && after.pages@[n].header == empty.header_with(tuple.len() as int)
                    && after.pages@[n].data@ == empty.data_with(tuple)
        }
    }

    /// Why the tuple at a position cannot be replaced by a new version of
    /// `tuple_len` bytes, if it cannot.
    pub fn check_update(&self, page_no: u32, slot_no: usize, tuple_len: usize) -> (r: Option<
        StorageError,
    >)
        requires
            self.wf(),
        ensures
            r == self.update_error(page_no as int, slot_no as int, tuple_len as int),
    {
        if page_no as usize >= self.pages.len() {
            return Some(StorageError::InvalidSlot);
        }
        let page = &self.pages[page_no as usize];
        if slot_no >= page.header.slot_count as usize {
            return Some(StorageError::InvalidSlot);
        }
        assert(page.wf());
        let item = page.read_item(slot_no);
        if !item.is_used() {
            return Some(StorageError::SlotAlreadyUnused);
        }
        if item.len < 8 {
            return Some(StorageError::CorruptTupleHeader);
        }
        let available: usize = (page.header.free_end - page.header.free_start) as usize;
        let room_here = tuple_len <= available && available - tuple_len
            >= crate::consts::ITEM_ID_SIZE;
        let room_new = self.pages.len() < MAX_PAGES && tuple_len <= crate::consts::PAGE_SIZE
            - crate::consts::PAGE_HEADER_SIZE - crate::consts::ITEM_ID_SIZE;
        if room_here || room_new {
            None
        } else {
            Some(StorageError::NoSpace)
        }
    }

    /// Replaces the tuple at a position by a new version: marks the old one
    /// as deleted by `xid`, then stores the new row as a tuple that `xid`
    /// inserts, on the same page if it has room there, else on a new page at
    /// the end. The new version always gets a position of its own, which is
    /// returned.
    pub fn update_row(&mut self, page_no: u32, slot_no: usize, new_row: Row, xid: u32) -> (r:
        Result<(u32, usize), StorageError>)
        requires
            old(self).wf(),
        ensures
            final(self).wf(),
            final(self).path == old(self).path,
            match r {
                Ok((new_page_no, new_slot_no)) => {
                    &&& old(self).update_error(
                        page_no as int,
                        slot_no as int,
                        encode_tuple(new_row@, xid).len() as int,
                    ).is_none()
                    &&& old(self).updated(
                        *final(self),
                        page_no as int,
                        slot_no as int,
                        xid,
                        encode_tuple(new_row@, xid),
                        new_page_no as int,
                        new_slot_no as int,
                    )
                },
                Err(e) => {
                    &&& old(self).update_error(
                        page_no as int,
                        slot_no as int,
                        encode_tuple(new_row@, xid).len() as int,
                    ) == Some(e)
                    &&& match old(self).delete_error(page_no as int, slot_no as int) {
                        Some(_) => *final(self) == *old(self),
                        None => old(self).stamped(*final(self), page_no as int, slot_no as int, xid),
                    }
                },
            },
    {
        match self.delete_at(page_no, slot_no, xid) {
            Err(e) => {
                return Err(e);
            },
            Ok(()) => {},
        }
        let mut page = self.pages[page_no as usize].copy();
        let ghost stamped = page;
        let copy = Row { values: crate::types::storage_types::copy_values(&new_row.values) };
        assert(copy@ == new_row@);
        match page.insert_tuple(copy, xid) {
            Ok(new_slot) => {
                self.pages.set(page_no as usize, page);
                Ok((page_no, new_slot))
            },
            Err(_) => {
                if self.pages.len() >= MAX_PAGES {
                    return Err(StorageError::NoSpace);
                }
                let mut fresh = Page::new(self.pages.len() as u32);
                match fresh.insert_tuple(new_row, xid) {
                    Ok(new_slot) => {
                        let new_page_no = self.pages.len() as u32;
                        self.pages.push(fresh);
                        Ok((new_page_no, new_slot))
                    },
                    Err(e) => Err(e),
                }
            },
        }
    }
}

} // verus!
