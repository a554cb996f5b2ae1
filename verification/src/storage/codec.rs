use crate::consts::PAGE_SIZE;
use crate::storage::bytes::{append_bytes, copy_range, read_u16, read_u32, u16_at, u32_at};
use crate::storage::tuple_header::{
    header_fits, header_len, null_at, tuple_header_bytes, tuple_header_of, with_null,
};
use crate::types::page_types::{NullBitmap, TupleHeader, TupleHeaderView};
use crate::types::storage_types::{
    values_view, Column, ColumnType, Row, Value, ValueView,
};
use crate::storage::bytes::{u16_bytes, u32_bytes, u16_le, u32_le};
use vstd::prelude::*;
use vstd::slice::slice_subrange;
use vstd::utf8::{decode_utf8, encode_utf8, valid_utf8};

verus! {

/// The 32-bit word that stores an integer: its low 32 bits.
pub open spec fn int_word(i: int) -> u32 {
    (((i as i64) as i32) as u32)
}

/// The integer that a stored 32-bit word stands for, read as signed.
pub open spec fn word_int(w: u32) -> int {
    (w as i32) as int
}

/// The bytes of one value: an integer as four bytes, a text as its length in
/// two bytes and its UTF-8 bytes, a boolean as one byte, NULL as nothing.
pub open spec fn encode_value(v: ValueView) -> Seq<u8> {
    match v {
        ValueView::Int(i) => u32_bytes(int_word(i)),
        ValueView::Text(s) => u16_bytes((encode_utf8(s).len() % 65536) as u16)
            + encode_utf8(s),
        ValueView::Bool(b) => seq![
            if b {
                1u8
            } else {
                0u8
            },
        ],
        ValueView::Null => Seq::empty(),
    }
}

/// The bytes of the first `n` values, one after the other.
pub open spec fn encode_values_upto(vs: Seq<ValueView>, n: int) -> Seq<u8>
    decreases n,
{
    if n <= 0 {
        Seq::empty()
    } else {
        encode_values_upto(vs, n - 1) + encode_value(vs[n - 1])
    }
}

/// The bytes of a row's values.
pub open spec fn encode_values(vs: Seq<ValueView>) -> Seq<u8> {
    encode_values_upto(vs, vs.len() as int)
}

/// The null bitmap of a row after its first `n` values have been marked.
pub open spec fn nullmap_upto(vs: Seq<ValueView>, n: int) -> Seq<u8>
    decreases n,
{
    if n <= 0 {
        Seq::new(((vs.len() + 7) / 8) as nat, |i: int| 0u8)
    } else if vs[n - 1] is Null {
        with_null(nullmap_upto(vs, n - 1), n - 1)
    } else {
        nullmap_upto(vs, n - 1)
    }
}

/// The null bitmap of a row: one bit per value, set where the value is NULL.
pub open spec fn row_nullmap(vs: Seq<ValueView>) -> Seq<u8> {
    nullmap_upto(vs, vs.len() as int)
}

/// The header of a tuple that `xid` inserts.
pub open spec fn fresh_header(vs: Seq<ValueView>, xid: u32) -> TupleHeaderView {
    TupleHeaderView { xmin: xid, xmax: None, nullmap: row_nullmap(vs), flags: 0 }
}

/// The bytes of a tuple that `xid` inserts: header, then values.
pub open spec fn encode_tuple(vs: Seq<ValueView>, xid: u32) -> Seq<u8> {
    tuple_header_bytes(fresh_header(vs, xid)) + encode_values(vs)
}

/// The value of type `ty` that is stored at `cursor`, and the position
/// behind it; `None` if the bytes end before the value does, or if a text is
/// not UTF-8.
pub open spec fn decode_value(bytes: Seq<u8>, cursor: int, ty: ColumnType) -> Option<
    (ValueView, int),
> {
    match ty {
        ColumnType::Int => if cursor + 4 <= bytes.len() {
            Some((ValueView::Int(word_int(u32_at(bytes, cursor))), cursor + 4))
        } else {
            None
        },
        ColumnType::Text => if cursor + 2 <= bytes.len() {
            let n = u16_at(bytes, cursor) as int;
            let text = bytes.subrange(cursor + 2, cursor + 2 + n);
            if cursor + 2 + n <= bytes.len() && valid_utf8(text) {
                Some((ValueView::Text(decode_utf8(text)), cursor + 2 + n))
            } else {
                None
            }
        } else {
            None
        },
        ColumnType::Bool => if cursor + 1 <= bytes.len() {
            Some((ValueView::Bool(bytes[cursor] != 0), cursor + 1))
        } else {
            None
        },
    }
}

/// The values of the columns from the `i`-th on, read from `cursor` on and
/// appended to `acc`. A column that the bitmap marks is NULL and takes no bytes.
pub open spec fn decode_values(
    bytes: Seq<u8>,
    cursor: int,
    schema: Seq<ColumnType>,
    nullmap: Seq<u8>,
    i: int,
    acc: Seq<ValueView>,
) -> Option<Seq<ValueView>>
    decreases schema.len() - i,
{
    if i < 0 || i >= schema.len() {
        Some(acc)
    } else if null_at(nullmap, i) {
        decode_values(bytes, cursor, schema, nullmap, i + 1, acc.push(ValueView::Null))
    } else {
        match decode_value(bytes, cursor, schema[i]) {
            None => None,
            Some((v, next)) => decode_values(bytes, next, schema, nullmap, i + 1, acc.push(v)),
        }
    }
}

/// The header and the values of a stored tuple, read by the types of the
/// columns; `None` if the bytes do not hold such a tuple.
pub open spec fn decode_tuple(bytes: Seq<u8>, schema: Seq<ColumnType>) -> Option<
    (TupleHeaderView, Seq<ValueView>),
> {
    if !header_fits(bytes) {
        None
    } else {
        let h = tuple_header_of(bytes);
        if schema.len() > 8 * h.nullmap.len() {
            None
        } else {
            match decode_values(bytes, header_len(bytes), schema, h.nullmap, 0, Seq::empty()) {
                None => None,
                Some(vs) => Some((h, vs)),
            }
        }
    }
}

/// The types of a list of columns.
pub open spec fn column_types(cs: Seq<Column>) -> Seq<ColumnType> {
    Seq::new(cs.len(), |i: int| cs[i].column_type)
}

/// Whether a row can be stored under the given column types and read back:
/// it has one value per column, each NULL or of the column's type, every
/// integer fits in 32 bits, and every text is shorter than 65536 bytes.
pub open spec fn storable(vs: Seq<ValueView>, schema: Seq<ColumnType>) -> bool {
    &&& vs.len() == schema.len()
    &&& vs.len() <= 8 * PAGE_SIZE
    &&& forall|i: int|
        0 <= i < vs.len() ==> match #[trigger] vs[i] {
            ValueView::Int(x) => schema[i] == ColumnType::Int && i32::MIN <= x <= i32::MAX,
            ValueView::Text(t) => schema[i] == ColumnType::Text && encode_utf8(t).len() < 65536,
            ValueView::Bool(_) => schema[i] == ColumnType::Bool,
            ValueView::Null => true,
        }
}

proof fn lemma_nullmap_upto(vs: Seq<ValueView>, n: int)
    requires
        0 <= n <= vs.len(),
    ensures
        nullmap_upto(vs, n).len() == (vs.len() + 7) / 8,
        forall|i: int| 0 <= i < n ==> null_at(nullmap_upto(vs, n), i) == (vs[i] is Null),
        forall|i: int| n <= i < 8 * ((vs.len() + 7) / 8) ==> !null_at(nullmap_upto(vs, n), i),
    decreases n,
{
    if n == 0 {
        assert forall|i: int| 0 <= i < 8 * ((vs.len() + 7) / 8) implies !null_at(
            nullmap_upto(vs, 0),
            i,
        ) by {
            let k = (i % 8) as u8;
            assert(0u8 & (1u8 << k) == 0) by (bit_vector);
        }
    } else {
        lemma_nullmap_upto(vs, n - 1);
        let prev = nullmap_upto(vs, n - 1);
        let cur = nullmap_upto(vs, n);
        if vs[n - 1] is Null {
            let idx = n - 1;
            let bit = (idx % 8) as u8;
            let old_byte = prev[idx / 8];
            let new_byte = cur[idx / 8];
            assert(new_byte == old_byte | (1u8 << bit));
            assert(new_byte & (1u8 << bit) != 0) by (bit_vector)
                requires
                    new_byte == old_byte | (1u8 << bit),
                    bit < 8,
            ;
            assert forall|i: int| 0 <= i < 8 * ((vs.len() + 7) / 8) && i != idx implies null_at(
                cur,
                i,
            ) == null_at(prev, i) by {
                if i / 8 == idx / 8 {
                    let k = (i % 8) as u8;
                    assert((new_byte & (1u8 << k) != 0) == (old_byte & (1u8 << k) != 0))
                        by (bit_vector)
                        requires
                            new_byte == old_byte | (1u8 << bit),
                            bit < 8,
                            k < 8,
                            k != bit,
                    ;
                }
            }
        }
    }
}

/// The bitmap of a row has a bit for every value, set exactly where the value is NULL.
pub proof fn lemma_row_nullmap(vs: Seq<ValueView>)
    ensures
        row_nullmap(vs).len() == (vs.len() + 7) / 8,
        forall|i: int| 0 <= i < vs.len() ==> null_at(row_nullmap(vs), i) == (vs[i] is Null),
{
    lemma_nullmap_upto(vs, vs.len() as int);
}

proof fn lemma_encode_prefix(vs: Seq<ValueView>, i: int, n: int)
    requires
        0 <= i <= n <= vs.len(),
    ensures
        encode_values_upto(vs, i).len() <= encode_values_upto(vs, n).len(),
        encode_values_upto(vs, n).subrange(0, encode_values_upto(vs, i).len() as int)
            == encode_values_upto(vs, i),
    decreases n - i,
{
    if i == n {
        assert(encode_values_upto(vs, n).subrange(0, encode_values_upto(vs, n).len() as int)
            =~= encode_values_upto(vs, n));
    } else {
        lemma_encode_prefix(vs, i, n - 1);
        assert(encode_values_upto(vs, n).subrange(0, encode_values_upto(vs, i).len() as int)
            =~= encode_values_upto(vs, n - 1).subrange(
            0,
            encode_values_upto(vs, i).len() as int,
        ));
    }
}

proof fn lemma_word_round_trip(x: i64)
    requires
        i32::MIN <= x <= i32::MAX,
    ensures
        word_int(int_word(x as int)) == x,
{
    assert((((x as i32) as u32) as i32) as i64 == x) by (bit_vector)
        requires
            -2147483648i64 <= x <= 2147483647i64,
    ;
}

proof fn lemma_value_round_trip(bytes: Seq<u8>, cursor: int, v: ValueView, ty: ColumnType)
    requires
        0 <= cursor,
        cursor + encode_value(v).len() <= bytes.len(),
        bytes.subrange(cursor, cursor + encode_value(v).len()) == encode_value(v),
        match v {
            ValueView::Int(x) => ty == ColumnType::Int && i32::MIN <= x <= i32::MAX,
            ValueView::Text(t) => ty == ColumnType::Text && encode_utf8(t).len() < 65536,
            ValueView::Bool(_) => ty == ColumnType::Bool,
            ValueView::Null => false,
        },
    ensures
        decode_value(bytes, cursor, ty) == Some((v, cursor + encode_value(v).len())),
{
    crate::storage::bytes::lemma_u16_round_trip();
    crate::storage::bytes::lemma_u32_round_trip();
    let ev = encode_value(v);
    match v {
        ValueView::Int(x) => {
            assert(bytes.subrange(cursor, cursor + 4) =~= ev);
            lemma_word_round_trip(x as i64);
        },
        ValueView::Text(t) => {
            let n = encode_utf8(t).len() as int;
            assert(ev.len() == 2 + n);
            assert(bytes.subrange(cursor, cursor + 2) =~= ev.subrange(0, 2));
            assert(ev.subrange(0, 2) =~= u16_bytes((n % 65536) as u16));
            assert(u16_at(bytes, cursor) == n);
            assert(bytes.subrange(cursor + 2, cursor + 2 + n) =~= ev.subrange(2, 2 + n));
            assert(ev.subrange(2, 2 + n) =~= encode_utf8(t));
            vstd::utf8::encode_utf8_valid_utf8(t);
            vstd::utf8::encode_utf8_decode_utf8(t);
        },
        ValueView::Bool(b) => {
            assert(bytes[cursor] == ev[0]);
        },
        ValueView::Null => {},
    }
}

proof fn lemma_values_round_trip(
    bytes: Seq<u8>,
    head: int,
    vs: Seq<ValueView>,
    schema: Seq<ColumnType>,
    nullmap: Seq<u8>,
    i: int,
)
    requires
        storable(vs, schema),
        0 <= head,
        0 <= i <= vs.len(),
        bytes.len() == head + encode_values(vs).len(),
        bytes.subrange(head, bytes.len() as int) == encode_values(vs),
        forall|k: int| 0 <= k < vs.len() ==> null_at(nullmap, k) == (vs[k] is Null),
    ensures
        decode_values(
            bytes,
            head + encode_values_upto(vs, i).len(),
            schema,
            nullmap,
            i,
            vs.take(i),
        ) == Some(vs),
    decreases vs.len() - i,
{
    if i == vs.len() {
        assert(vs.take(i) =~= vs);
    } else {
        let cursor = head + encode_values_upto(vs, i).len();
        let ev = encode_value(vs[i]);
        lemma_encode_prefix(vs, i + 1, vs.len() as int);
        lemma_values_round_trip(bytes, head, vs, schema, nullmap, i + 1);
        assert(encode_values_upto(vs, i + 1) == encode_values_upto(vs, i) + ev);
        assert(vs.take(i + 1) =~= vs.take(i).push(vs[i]));
        if vs[i] is Null {
        } else {
            assert(bytes.subrange(cursor, cursor + ev.len()) =~= ev) by {
                let all = encode_values(vs);
                let upto = encode_values_upto(vs, i + 1);
                assert(all.subrange(0, upto.len() as int) == upto);
                assert forall|k: int| 0 <= k < ev.len() implies bytes.subrange(
                    cursor,
                    cursor + ev.len(),
                )[k] == ev[k] by {
                    assert(bytes[cursor + k] == all[cursor - head + k]);
                    assert(all[cursor - head + k] == upto[cursor - head + k]);
                }
            }
            lemma_value_round_trip(bytes, cursor, vs[i], schema[i]);
        }
    }
}

/// A tuple that is written and read again is the same: the header is the one
/// that the inserter wrote, and each value, NULL or not, is the value that was
/// stored.
pub proof fn lemma_tuple_round_trip(vs: Seq<ValueView>, xid: u32, schema: Seq<ColumnType>)
    requires
        storable(vs, schema),
    ensures
        decode_tuple(encode_tuple(vs, xid), schema) == Some((fresh_header(vs, xid), vs)),
{
    let h = fresh_header(vs, xid);
    let rest = encode_values(vs);
    let bytes = encode_tuple(vs, xid);
    lemma_row_nullmap(vs);
    crate::storage::tuple_header::lemma_tuple_header_round_trip(h, rest);
    let head = tuple_header_bytes(h).len() as int;
    assert(bytes.subrange(head, bytes.len() as int) =~= rest);
    lemma_values_round_trip(bytes, head, vs, schema, h.nullmap, 0);
    assert(vs.take(0) =~= Seq::empty());
}

/// `String::from_utf8` gives the text that the bytes encode, and none if
/// they are not UTF-8.
#[verifier::external_body]
fn string_from_utf8(bytes: Vec<u8>) -> (r: Option<String>)
    ensures
        r.is_some() == valid_utf8(bytes@),
        r matches Some(s) ==> s@ == decode_utf8(bytes@),
{
    String::from_utf8(bytes).ok()
}

/// Appends the bytes of one value.
pub fn encode_value_into(buf: &mut Vec<u8>, v: &Value)
    ensures
        final(buf)@ == old(buf)@ + encode_value(v@),
{
    match v {
        Value::Int(i) => {
            let word: u32 = (*i as i32) as u32;
            let bytes = u32_le(word);
            append_bytes(buf, bytes.as_slice());
        },
        Value::Text(s) => {
            let text = s.as_str().as_bytes();
            let len = u16_le((text.len() % 65536) as u16);
            append_bytes(buf, len.as_slice());
            append_bytes(buf, text);
            assert(buf@ =~= old(buf)@ + encode_value(v@));
        },
        Value::Bool(b) => {
            buf.push(
                if *b {
                    1
                } else {
                    0
                },
            );
            assert(buf@ =~= old(buf)@ + encode_value(v@));
        },
        Value::Null => {
            assert(buf@ =~= old(buf)@ + encode_value(v@));
        },
    }
}

/// The bytes of a tuple that `xid` inserts.
pub fn encode_row(row: &Row, xid: u32) -> (buf: Vec<u8>)
    requires
        row.values.len() <= 8 * PAGE_SIZE,
    ensures
        buf@ == encode_tuple(row@, xid),
{
    let n = row.values.len();
    let mut nullmap = NullBitmap::new(n);
    assert(nullmap.bytes@ =~= nullmap_upto(row@, 0));
    let mut i: usize = 0;
    while i < n
        invariant
            i <= n,
            n == row.values.len(),
            nullmap.bytes@.len() == (n + 7) / 8,
            nullmap.bytes@ == nullmap_upto(row@, i as int),
        decreases n - i,
    {
        assert(row@[i as int] == row.values[i as int]@);
        if row.values[i].is_null() {
            nullmap.set_null(i);
        }
        i += 1;
    }
    let header = TupleHeader { xmin: xid, xmax: None, flags: 0, nullmap_bytes: nullmap };
    let mut buf = header.to_bytes();
    let ghost head = buf@;
    let mut k: usize = 0;
    while k < n
        invariant
            k <= n,
            n == row.values.len(),
            buf@ == head + encode_values_upto(row@, k as int),
        decreases n - k,
    {
        assert(row@[k as int] == row.values[k as int]@);
        encode_value_into(&mut buf, &row.values[k]);
        assert(buf@ =~= head + encode_values_upto(row@, k + 1));
        k += 1;
    }
    buf
}

/// Executable form of [`decode_value`].
pub fn read_value(bytes: &[u8], cursor: usize, ty: ColumnType) -> (r: Option<(Value, usize)>)
    requires
        cursor <= bytes.len(),
    ensures
        match r {
            Some((v, next)) => decode_value(bytes@, cursor as int, ty) == Some((v@, next as int))
                && cursor <= next <= bytes.len(),
            None => decode_value(bytes@, cursor as int, ty).is_none(),
        },
{
    match ty {
        ColumnType::Int => {
            if bytes.len() - cursor < 4 {
                return None;
            }
            let w = read_u32(bytes, cursor);
            Some((Value::Int((w as i32) as i64), cursor + 4))
        },
        ColumnType::Text => {
            if bytes.len() - cursor < 2 {
                return None;
            }
            let n = read_u16(bytes, cursor) as usize;
            if bytes.len() - cursor - 2 < n {
                return None;
            }
            let text = copy_range(bytes, cursor + 2, cursor + 2 + n);
            match string_from_utf8(text) {
                Some(s) => Some((Value::Text(s), cursor + 2 + n)),
                None => None,
            }
        },
        ColumnType::Bool => {
            if bytes.len() - cursor < 1 {
                return None;
            }
            Some((Value::Bool(bytes[cursor] != 0), cursor + 1))
        },
    }
}

/// Executable form of [`decode_tuple`].
pub fn read_tuple(bytes: &[u8], columns: &Vec<Column>) -> (r: Option<(TupleHeader, Row)>)
    ensures
        match r {
            Some((h, row)) => decode_tuple(bytes@, column_types(columns@)) == Some((h@, row@)),
            None => decode_tuple(bytes@, column_types(columns@)).is_none(),
        },
{
    if !TupleHeader::fits(bytes) {
        return None;
    }
    let header = TupleHeader::from_bytes(bytes);
    let bitmap_len = header.nullmap_bytes.size();
    if columns.len() > 8 * bitmap_len {
        return None;
    }
    let ghost schema = column_types(columns@);
    let mut values: Vec<Value> = Vec::new();
    let mut cursor: usize = 12 + bitmap_len;
    let mut i: usize = 0;
    assert(values_view(values@) =~= Seq::empty());
    while i < columns.len()
        invariant
            i <= columns.len(),
            cursor <= bytes.len(),
            schema == column_types(columns@),
            columns.len() <= 8 * header.nullmap_bytes.bytes@.len(),
            header_fits(bytes@),
            header@ == tuple_header_of(bytes@),
            decode_values(
                bytes@,
                header_len(bytes@),
                schema,
                header@.nullmap,
                0,
                Seq::empty(),
            ) == decode_values(
                bytes@,
                cursor as int,
                schema,
                header@.nullmap,
                i as int,
                values_view(values@),
            ),
        decreases columns.len() - i,
    {
        let ghost before = values_view(values@);
        if header.nullmap_bytes.is_null(i) {
            values.push(Value::Null);
            assert(values_view(values@) =~= before.push(ValueView::Null));
        } else {
            match read_value(bytes, cursor, columns[i].column_type) {
                None => {
                    return None;
                },
                Some((v, next)) => {
                    values.push(v);
                    assert(values_view(values@) =~= before.push(v@));
                    cursor = next;
                },
            }
        }
        i += 1;
    }
    Some((header, Row { values }))
}

} // verus!
