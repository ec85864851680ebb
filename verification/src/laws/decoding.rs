//! The messages of the logical replication stream are read as the server writes
//! them: what is decoded is what was written, field by field.

use vstd::prelude::*;
use vstd::utf8::valid_utf8;

use crate::error::Error;
use crate::laws::format::{
    begin_octets, big_endian, column_octets, columns_octets, commit_octets, delete_octets,
    i16_is_read, i32_is_read, i64_is_read, i8_is_read, ids_octets, insert_octets, message_octets,
    number_lengths, old_octets, origin_octets, relation_octets, row_fits, row_octets,
    stream_abort_octets, stream_commit_octets, stream_start_octets, terminated, text_is_read,
    truncate_octets, type_octets, update_octets, value_fits, value_octets, values_octets,
};
use crate::octets::{i16_at, i32_at, i8_at, octets};
use crate::pgoutput::{
    column, columns, logical_message, sized, tagged_new_tuple, tuple_data, tuple_value,
    tuple_values, Begin, Column, ColumnView, Commit, Delete, Insert, LogicalReplicationMessage,
    LogicalReplicationView, Message, OldTuple, Origin, PgOutputMessage, Relation, StreamAbort,
    StreamCommit, StreamStart, StreamStop, Truncate, TupleData, TupleValue, TupleValueView, Type,
    Update,
};
use crate::wire::{cstring, lemma_position, position, Parsed};

verus! {

// Rows and columns.

/// Bytes behind their length are read.
proof fn lemma_sized(text: Seq<u8>, rest: Seq<u8>)
    requires
        text.len() <= i32::MAX,
    ensures
        sized(big_endian(text.len() as int, 4) + text + rest) == Parsed::ok(text, rest),
{
    let n = text.len() as int;
    let s = big_endian(n, 4) + text + rest;
    number_lengths(n);
    assert(s.subrange(0, 4) =~= big_endian(n, 4));
    i32_is_read(s, 0, n as i32);
    assert(s.skip(4) =~= text + rest);
    assert((text + rest).take(n) =~= text);
    assert((text + rest).skip(n) =~= rest);
}

/// A column value is read.
proof fn lemma_value(value: TupleValue, rest: Seq<u8>)
    requires
        value_fits(value),
    ensures
        tuple_value(value_octets(value) + rest) == Parsed::ok(value@, rest),
{
    let s = value_octets(value) + rest;
    match value {
        TupleValue::Text(b) => {
            let text = octets(b);
            assert(s.skip(1) =~= big_endian(text.len() as int, 4) + text + rest);
            lemma_sized(text, rest);
        },
        _ => {
            assert(s.skip(1) =~= rest);
        },
    }
}

/// Column values are read, one after the other.
proof fn lemma_values(seen: Seq<TupleValueView>, values: Seq<TupleValue>, rest: Seq<u8>)
    requires
        forall|i: int| 0 <= i < values.len() ==> value_fits(#[trigger] values[i]),
    ensures
        tuple_values(seen, values.len(), values_octets(values) + rest) == Parsed::ok(
            seen + values.map_values(|v: TupleValue| v@),
            rest,
        ),
    decreases values.len(),
{
    let all = values.map_values(|v: TupleValue| v@);
    if values.len() == 0 {
        assert(values_octets(values) + rest =~= rest);
        assert(seen + all =~= seen);
    } else {
        let others = values.skip(1);
        let more = values_octets(others) + rest;
        assert(values_octets(values) + rest =~= value_octets(values[0]) + more);
        lemma_value(values[0], more);
        assert forall|i: int| 0 <= i < others.len() implies value_fits(#[trigger] others[i]) by {
            assert(others[i] == values[i + 1]);
        }
        lemma_values(seen.push(values[0]@), others, rest);
        assert(seen.push(values[0]@) + others.map_values(|v: TupleValue| v@) =~= seen + all);
    }
}

/// A row is read, with as many values as it has.
proof fn lemma_row(row: TupleData, rest: Seq<u8>)
    requires
        row_fits(row),
    ensures
        tuple_data(row_octets(row) + rest) == Parsed::ok(
            row.columns@.map_values(|v: TupleValue| v@),
            rest,
        ),
        row@ == row.columns@.map_values(|v: TupleValue| v@),
{
    let n = row.columns@.len() as int;
    let s = row_octets(row) + rest;
    number_lengths(n);
    assert(s.subrange(0, 2) =~= big_endian(n, 2));
    i16_is_read(s, 0, n as i16);
    assert(s.skip(2) =~= values_octets(row.columns@) + rest);
    lemma_values(Seq::empty(), row.columns@, rest);
    assert(Seq::<TupleValueView>::empty() + row.columns@.map_values(|v: TupleValue| v@)
        =~= row.columns@.map_values(|v: TupleValue| v@));
}

/// A column is read.
proof fn lemma_column(c: Column, rest: Seq<u8>)
    requires
        !c.name@.contains('\0'),
    ensures
        column(column_octets(c) + rest) == Parsed::ok(c@, rest),
{
    let s = column_octets(c) + rest;
    number_lengths(c.flags as int);
    number_lengths(c.type_id as int);
    number_lengths(c.type_modifier as int);
    i8_is_read(s, 0, c.flags);
    let t = big_endian(c.type_id as int, 4) + big_endian(c.type_modifier as int, 4) + rest;
    assert(s.skip(1) =~= terminated(c.name@) + t);
    text_is_read(c.name@, t);
    assert(t.subrange(0, 4) =~= big_endian(c.type_id as int, 4));
    i32_is_read(t, 0, c.type_id);
    assert(t.subrange(4, 8) =~= big_endian(c.type_modifier as int, 4));
    i32_is_read(t, 4, c.type_modifier);
    assert(t.skip(8) =~= rest);
}

/// Columns are read, one after the other.
proof fn lemma_columns(seen: Seq<ColumnView>, cs: Seq<Column>, rest: Seq<u8>)
    requires
        forall|i: int| 0 <= i < cs.len() ==> !(#[trigger] cs[i]).name@.contains('\0'),
    ensures
        columns(seen, cs.len(), columns_octets(cs) + rest) == Parsed::ok(
            seen + cs.map_values(|c: Column| c@),
            rest,
        ),
    decreases cs.len(),
{
    let all = cs.map_values(|c: Column| c@);
    if cs.len() == 0 {
        assert(columns_octets(cs) + rest =~= rest);
        assert(seen + all =~= seen);
    } else {
        let others = cs.skip(1);
        let more = columns_octets(others) + rest;
        assert(columns_octets(cs) + rest =~= column_octets(cs[0]) + more);
        lemma_column(cs[0], more);
        assert forall|i: int| 0 <= i < others.len() implies !(#[trigger] others[i]).name@.contains(
            '\0',
        ) by {
            assert(others[i] == cs[i + 1]);
        }
        lemma_columns(seen.push(cs[0]@), others, rest);
        assert(seen.push(cs[0]@) + others.map_values(|c: Column| c@) =~= seen + all);
    }
}

/// Each id stands where it is looked for.
proof fn lemma_ids(ids: Seq<i32>, rest: Seq<u8>)
    ensures
        ids_octets(ids).len() == 4 * ids.len(),
        Seq::new(ids.len(), |i: int| i32_at(ids_octets(ids) + rest, 4 * i)) == ids,
    decreases ids.len(),
{
    let s = ids_octets(ids) + rest;
    if ids.len() > 0 {
        let n = ids.len() - 1;
        let first = ids.drop_last();
        let more = big_endian(ids.last() as int, 4) + rest;
        number_lengths(ids.last() as int);
        lemma_ids(first, more);
        assert(s =~= ids_octets(first) + more);
        assert(s.subrange(4 * n, 4 * n + 4) =~= big_endian(ids.last() as int, 4));
        i32_is_read(s, 4 * n, ids.last());
        let read = Seq::new(first.len(), |i: int| i32_at(s, 4 * i));
        assert(read == first);
        assert forall|i: int| 0 <= i < ids.len() implies i32_at(s, 4 * i) == ids[i] by {
            if i < n {
                assert(read[i] == first[i]);
            }
        }
    }
    assert(Seq::new(ids.len(), |i: int| i32_at(s, 4 * i)) =~= ids);
}

// The messages.

/// The body of the message is read.
proof fn lemma_begin_body(m: Begin, more: Seq<u8>)
    ensures
        Begin::body((begin_octets(m) + more).skip(1)).out == Ok::<<Begin as View>::V, Error>(m@),
{
    let s = (begin_octets(m) + more).skip(1);
    number_lengths(m.final_lsn as int);
    number_lengths(m.commit_timestamp as int);
    number_lengths(m.xid as int);
    assert(s.subrange(0, 8) =~= big_endian(m.final_lsn as int, 8));
    i64_is_read(s, 0, m.final_lsn);
    assert(s.subrange(8, 16) =~= big_endian(m.commit_timestamp as int, 8));
    i64_is_read(s, 8, m.commit_timestamp);
    assert(s.subrange(16, 20) =~= big_endian(m.xid as int, 4));
    i32_is_read(s, 16, m.xid);
}

/// A transaction that begins is decoded.
pub proof fn begin_is_decoded(m: Begin, more: Seq<u8>)
    ensures
        logical_message(begin_octets(m) + more) == Ok::<LogicalReplicationView, Error>(
            LogicalReplicationMessage::Begin(m)@,
        ),
        m@ == m,
{
    lemma_begin_body(m, more);
    let p = begin_octets(m) + more;
    assert(p.len() >= 1 && p[0] == 0x42);
}

/// The body of the message is read.
proof fn lemma_commit_body(m: Commit, more: Seq<u8>)
    requires
        more.len() >= 8,
    ensures
        Commit::body((commit_octets(m) + more).skip(1)).out == Ok::<<Commit as View>::V, Error>(m@),
{
    let s = (commit_octets(m) + more).skip(1);
    number_lengths(m.flags as int);
    number_lengths(m.commit_lsn as int);
    number_lengths(m.end_lsn as int);
    number_lengths(m.commit_timestamp as int);
    i8_is_read(s, 0, m.flags);
    assert(s.subrange(1, 9) =~= big_endian(m.commit_lsn as int, 8));
    i64_is_read(s, 1, m.commit_lsn);
    assert(s.subrange(9, 17) =~= big_endian(m.end_lsn as int, 8));
    i64_is_read(s, 9, m.end_lsn);
    assert(s.subrange(17, 25) =~= big_endian(m.commit_timestamp as int, 8));
    i64_is_read(s, 17, m.commit_timestamp);
}

/// A transaction that is committed is decoded. Eight bytes more than it takes must
/// follow it.
pub proof fn commit_is_decoded(m: Commit, more: Seq<u8>)
    requires
        more.len() >= 8,
    ensures
        logical_message(commit_octets(m) + more) == Ok::<LogicalReplicationView, Error>(
            LogicalReplicationMessage::Commit(m)@,
        ),
        m@ == m,
{
    lemma_commit_body(m, more);
    let p = commit_octets(m) + more;
    assert(p.len() >= 1 && p[0] == 0x43);
}

/// The body of the message is read.
proof fn lemma_origin_body(m: Origin, more: Seq<u8>)
    requires
        !m.name@.contains('\0'),
    ensures
        Origin::body((origin_octets(m) + more).skip(1)).out == Ok::<<Origin as View>::V, Error>(m@),
{
    let s = (origin_octets(m) + more).skip(1);
    number_lengths(m.commit_lsn as int);
    assert(s.subrange(0, 8) =~= big_endian(m.commit_lsn as int, 8));
    i64_is_read(s, 0, m.commit_lsn);
    assert(s.skip(8) =~= terminated(m.name@) + more);
    text_is_read(m.name@, more);
}

/// The origin of a transaction is decoded.
pub proof fn origin_is_decoded(m: Origin, more: Seq<u8>)
    requires
        !m.name@.contains('\0'),
    ensures
        logical_message(origin_octets(m) + more) == Ok::<LogicalReplicationView, Error>(
            LogicalReplicationMessage::Origin(m)@,
        ),
        m@.commit_lsn == m.commit_lsn,
        m@.name == m.name@,
{
    lemma_origin_body(m, more);
    let p = origin_octets(m) + more;
    assert(p.len() >= 1 && p[0] == 0x4f);
}

/// What follows the names of a table.
spec fn relation_tail(m: Relation, more: Seq<u8>) -> Seq<u8> {
    big_endian(m.replica_identity as int, 1) + big_endian(m.columns@.len() as int, 2)
        + columns_octets(m.columns@) + more
}

/// What follows the names of a table is read.
proof fn lemma_relation_tail(m: Relation, more: Seq<u8>)
    requires
        m.columns@.len() <= i16::MAX,
        forall|i: int|
            0 <= i < m.columns@.len() ==> !(#[trigger] m.columns@[i]).name@.contains('\0'),
    ensures
        ({
            let u = relation_tail(m, more);
            &&& u.len() >= 3
            &&& i8_at(u, 0) == m.replica_identity
            &&& i16_at(u, 1) == m.columns@.len()
            &&& columns(Seq::empty(), m.columns@.len(), u.skip(3)) == Parsed::ok(
                m.columns@.map_values(|c: Column| c@),
                more,
            )
        }),
{
    let u = relation_tail(m, more);
    let n = m.columns@.len() as int;
    number_lengths(m.replica_identity as int);
    number_lengths(n);
    i8_is_read(u, 0, m.replica_identity);
    assert(u.subrange(1, 3) =~= big_endian(n, 2));
    i16_is_read(u, 1, n as i16);
    assert(u.skip(3) =~= columns_octets(m.columns@) + more);
    lemma_columns(Seq::empty(), m.columns@, more);
    assert(Seq::<ColumnView>::empty() + m.columns@.map_values(|c: Column| c@)
        =~= m.columns@.map_values(|c: Column| c@));
}

/// The id and the names of a table are read.
proof fn lemma_relation_head(m: Relation, more: Seq<u8>)
    requires
        !m.namespace@.contains('\0'),
        !m.name@.contains('\0'),
    ensures
        ({
            let s = (relation_octets(m) + more).skip(1);
            let t = terminated(m.name@) + relation_tail(m, more);
            &&& s.len() >= 4
            &&& i32_at(s, 0) == m.relation_id
            &&& cstring(s.skip(4)) == Parsed::ok(m.namespace@, t)
            &&& cstring(t) == Parsed::ok(m.name@, relation_tail(m, more))
        }),
{
    let s = (relation_octets(m) + more).skip(1);
    let u = relation_tail(m, more);
    let t = terminated(m.name@) + u;
    number_lengths(m.relation_id as int);
    assert(s.subrange(0, 4) =~= big_endian(m.relation_id as int, 4));
    i32_is_read(s, 0, m.relation_id);
    assert(s.skip(4) =~= terminated(m.namespace@) + t);
    text_is_read(m.namespace@, t);
    text_is_read(m.name@, u);
}

/// The body of the message is read.
proof fn lemma_relation_body(m: Relation, more: Seq<u8>)
    requires
        m.xid is None,
        !m.namespace@.contains('\0'),
        !m.name@.contains('\0'),
        m.columns@.len() <= i16::MAX,
        forall|i: int|
            0 <= i < m.columns@.len() ==> !(#[trigger] m.columns@[i]).name@.contains('\0'),
    ensures
        Relation::body((relation_octets(m) + more).skip(1)).out == Ok::<
            <Relation as View>::V,
            Error,
        >(m@),
{
    lemma_relation_head(m, more);
    lemma_relation_tail(m, more);
}

/// A table is decoded, with its columns and what each of them is.
pub proof fn relation_is_decoded(m: Relation, more: Seq<u8>)
    requires
        m.xid is None,
        !m.namespace@.contains('\0'),
        !m.name@.contains('\0'),
        m.columns@.len() <= i16::MAX,
        forall|i: int|
            0 <= i < m.columns@.len() ==> !(#[trigger] m.columns@[i]).name@.contains('\0'),
    ensures
        logical_message(relation_octets(m) + more) == Ok::<LogicalReplicationView, Error>(
            LogicalReplicationMessage::Relation(m)@,
        ),
        m@.relation_id == m.relation_id,
        m@.namespace == m.namespace@,
        m@.name == m.name@,
        m@.replica_identity == m.replica_identity,
        m@.columns.len() == m.columns@.len(),
        forall|i: int|
            0 <= i < m.columns@.len() ==> {
                let c = #[trigger] m.columns@[i];
                &&& m@.columns[i].flags == c.flags
                &&& m@.columns[i].name == c.name@
                &&& m@.columns[i].type_id == c.type_id
                &&& m@.columns[i].type_modifier == c.type_modifier
            },
{
    lemma_relation_body(m, more);
    let p = relation_octets(m) + more;
    assert(p.len() >= 1 && p[0] == 0x52);
}

/// The body of the message is read.
proof fn lemma_type_body(m: Type, more: Seq<u8>)
    requires
        m.xid is None,
        !m.namespace@.contains('\0'),
        !m.name@.contains('\0'),
    ensures
        Type::body((type_octets(m) + more).skip(1)).out == Ok::<<Type as View>::V, Error>(m@),
{
    let s = (type_octets(m) + more).skip(1);
    number_lengths(m.type_id as int);
    assert(s.subrange(0, 4) =~= big_endian(m.type_id as int, 4));
    i32_is_read(s, 0, m.type_id);
    let t = terminated(m.name@) + more;
    assert(s.skip(4) =~= terminated(m.namespace@) + t);
    text_is_read(m.namespace@, t);
    text_is_read(m.name@, more);
}

/// A data type is decoded.
pub proof fn type_is_decoded(m: Type, more: Seq<u8>)
    requires
        m.xid is None,
        !m.namespace@.contains('\0'),
        !m.name@.contains('\0'),
    ensures
        logical_message(type_octets(m) + more) == Ok::<LogicalReplicationView, Error>(
            LogicalReplicationMessage::Type(m)@,
        ),
        m@.type_id == m.type_id,
        m@.namespace == m.namespace@,
        m@.name == m.name@,
{
    lemma_type_body(m, more);
    let p = type_octets(m) + more;
    assert(p.len() >= 1 && p[0] == 0x59);
}

/// The body of the message is read.
proof fn lemma_insert_body(m: Insert, more: Seq<u8>)
    requires
        m.xid is None,
        row_fits(m.new_tuple),
    ensures
        Insert::body((insert_octets(m) + more).skip(1)).out == Ok::<<Insert as View>::V, Error>(m@),
{
    let s = (insert_octets(m) + more).skip(1);
    number_lengths(m.relation_id as int);
    assert(s.subrange(0, 4) =~= big_endian(m.relation_id as int, 4));
    i32_is_read(s, 0, m.relation_id);
    assert(s.skip(5) =~= row_octets(m.new_tuple) + more);
    lemma_row(m.new_tuple, more);
    assert(s[4] == 0x4e);
}

/// A row that is inserted is decoded, with its table and its values.
pub proof fn insert_is_decoded(m: Insert, more: Seq<u8>)
    requires
        m.xid is None,
        row_fits(m.new_tuple),
    ensures
        logical_message(insert_octets(m) + more) == Ok::<LogicalReplicationView, Error>(
            LogicalReplicationMessage::Insert(m)@,
        ),
        m@.relation_id == m.relation_id,
        says_row(m@.new_tuple, m.new_tuple),
{
    lemma_insert_body(m, more);
    let p = insert_octets(m) + more;
    assert(p.len() >= 1 && p[0] == 0x49);
}

/// `view` says the values of `row`, one by one.
pub open spec fn says_row(view: Seq<TupleValueView>, row: TupleData) -> bool {
    view.len() == row.columns@.len() && forall|i: int|
        0 <= i < view.len() ==> match #[trigger] row.columns@[i] {
            TupleValue::Null => view[i] is Null,
            TupleValue::UnchangedToast => view[i] is UnchangedToast,
            TupleValue::Text(b) => view[i] == TupleValueView::Text(octets(b)),
        }
}

/// The old row fits.
pub open spec fn old_fits(old: OldTuple) -> bool {
    match old {
        OldTuple::Key(row) => row_fits(row),
        OldTuple::Old(row) => row_fits(row),
    }
}

/// The row in what is sent of an old row.
spec fn old_row(old: OldTuple) -> TupleData {
    match old {
        OldTuple::Key(row) => row,
        OldTuple::Old(row) => row,
    }
}

/// Where the parts of a change stand.
proof fn lemma_update_shape(m: Update, more: Seq<u8>)
    ensures
        ({
            let s = (update_octets(m) + more).skip(1);
            &&& s.len() >= 5
            &&& i32_at(s, 0) == m.relation_id
            &&& match m.old_tuple {
                None => s[4] == 0x4e && s.skip(5) == row_octets(m.new_tuple) + more,
                Some(old) => s[4] == old_octets(old)[0] && s.skip(5) == row_octets(old_row(old)) + (
                seq![0x4eu8] + row_octets(m.new_tuple) + more),
            }
        }),
{
    let s = (update_octets(m) + more).skip(1);
    number_lengths(m.relation_id as int);
    assert(s.subrange(0, 4) =~= big_endian(m.relation_id as int, 4));
    i32_is_read(s, 0, m.relation_id);
    match m.old_tuple {
        None => {
            assert(s.skip(5) =~= row_octets(m.new_tuple) + more);
        },
        Some(old) => {
            assert(s.skip(5) =~= row_octets(old_row(old)) + (seq![0x4eu8] + row_octets(m.new_tuple)
                + more));
        },
    }
}

/// The new row of a change is read behind an old one.
proof fn lemma_new_row(row: TupleData, more: Seq<u8>)
    requires
        row_fits(row),
    ensures
        tagged_new_tuple(seq![0x4eu8] + row_octets(row) + more) == Parsed::ok(row@, more),
{
    let t = seq![0x4eu8] + row_octets(row) + more;
    assert(t.skip(1) =~= row_octets(row) + more);
    lemma_row(row, more);
}

/// The body of the message is read.
proof fn lemma_update_body(m: Update, more: Seq<u8>)
    requires
        m.xid is None,
        row_fits(m.new_tuple),
        m.old_tuple matches Some(old) ==> old_fits(old),
    ensures
        Update::body((update_octets(m) + more).skip(1)).out == Ok::<<Update as View>::V, Error>(m@),
{
    lemma_update_shape(m, more);
    match m.old_tuple {
        None => lemma_row(m.new_tuple, more),
        Some(old) => {
            lemma_row(old_row(old), seq![0x4eu8] + row_octets(m.new_tuple) + more);
            lemma_new_row(m.new_tuple, more);
        },
    }
}

/// A row that is changed is decoded, with its table, its new values, and what is
/// sent of the old ones.
pub proof fn update_is_decoded(m: Update, more: Seq<u8>)
    requires
        m.xid is None,
        row_fits(m.new_tuple),
        m.old_tuple matches Some(old) ==> old_fits(old),
    ensures
        logical_message(update_octets(m) + more) == Ok::<LogicalReplicationView, Error>(
            LogicalReplicationMessage::Update(m)@,
        ),
        m@.relation_id == m.relation_id,
        says_row(m@.new_tuple, m.new_tuple),
        match m.old_tuple {
            None => m@.old_tuple is None,
            Some(OldTuple::Key(row)) => m@.old_tuple is Some && m@.old_tuple->0 is Key && says_row(
                m@.old_tuple->0->Key_0,
                row,
            ),
            Some(OldTuple::Old(row)) => m@.old_tuple is Some && m@.old_tuple->0 is Old && says_row(
                m@.old_tuple->0->Old_0,
                row,
            ),
        },
{
    lemma_update_body(m, more);
    let p = update_octets(m) + more;
    assert(p.len() >= 1 && p[0] == 0x55);
}

/// The body of the message is read.
proof fn lemma_delete_body(m: Delete, more: Seq<u8>)
    requires
        m.xid is None,
        old_fits(m.old_tuple),
    ensures
        Delete::body((delete_octets(m) + more).skip(1)).out == Ok::<<Delete as View>::V, Error>(m@),
{
    let s = (delete_octets(m) + more).skip(1);
    number_lengths(m.relation_id as int);
    assert(s.subrange(0, 4) =~= big_endian(m.relation_id as int, 4));
    i32_is_read(s, 0, m.relation_id);
    let row = match m.old_tuple {
        OldTuple::Key(row) => row,
        OldTuple::Old(row) => row,
    };
    assert(s[4] == old_octets(m.old_tuple)[0]);
    assert(s.skip(5) =~= row_octets(row) + more);
    lemma_row(row, more);
}

/// A row that is removed is decoded, with its table and what is sent of its values.
pub proof fn delete_is_decoded(m: Delete, more: Seq<u8>)
    requires
        m.xid is None,
        old_fits(m.old_tuple),
    ensures
        logical_message(delete_octets(m) + more) == Ok::<LogicalReplicationView, Error>(
            LogicalReplicationMessage::Delete(m)@,
        ),
        m@.relation_id == m.relation_id,
        match m.old_tuple {
            OldTuple::Key(row) => m@.old_tuple is Key && says_row(m@.old_tuple->Key_0, row),
            OldTuple::Old(row) => m@.old_tuple is Old && says_row(m@.old_tuple->Old_0, row),
        },
{
    lemma_delete_body(m, more);
    let p = delete_octets(m) + more;
    assert(p.len() >= 1 && p[0] == 0x44);
}

/// The two low bits of the options are told apart.
proof fn lemma_options(cascade: bool, restart_identity: bool)
    ensures
        ({
            let options = ((if cascade {
                1int
            } else {
                0
            }) + (if restart_identity {
                2int
            } else {
                0
            })) as u8;
            (options & 1 != 0) == cascade && (options & 2 != 0) == restart_identity
        }),
{
    assert(0u8 & 1 == 0 && 0u8 & 2 == 0 && 1u8 & 1 == 1 && 1u8 & 2 == 0 && 2u8 & 1 == 0 && 2u8 & 2
        == 2 && 3u8 & 1 == 1 && 3u8 & 2 == 2) by (bit_vector);
}

/// The body of the message is read.
proof fn lemma_truncate_body(m: Truncate, more: Seq<u8>)
    requires
        m.xid is None,
        m.relation_ids@.len() <= i32::MAX,
    ensures
        Truncate::body((truncate_octets(m) + more).skip(1)).out == Ok::<<Truncate as View>::V, Error>(m@),
{
    let s = (truncate_octets(m) + more).skip(1);
    let n = m.relation_ids@.len() as int;
    number_lengths(n);
    assert(s.subrange(0, 4) =~= big_endian(n, 4));
    i32_is_read(s, 0, n as i32);
    lemma_options(m.options.cascade, m.options.restart_identity);
    lemma_ids(m.relation_ids@, more);
    assert(s.skip(5) =~= ids_octets(m.relation_ids@) + more);
}

/// Tables that are emptied are decoded, with each of the options.
pub proof fn truncate_is_decoded(m: Truncate, more: Seq<u8>)
    requires
        m.xid is None,
        m.relation_ids@.len() <= i32::MAX,
    ensures
        logical_message(truncate_octets(m) + more) == Ok::<LogicalReplicationView, Error>(
            LogicalReplicationMessage::Truncate(m)@,
        ),
        m@.relation_ids == m.relation_ids@,
        m@.options.cascade == m.options.cascade,
        m@.options.restart_identity == m.options.restart_identity,
{
    lemma_truncate_body(m, more);
    let p = truncate_octets(m) + more;
    assert(p.len() >= 1 && p[0] == 0x54);
}

/// The body of the message is read.
proof fn lemma_message_body(m: Message, more: Seq<u8>)
    requires
        m.xid is None,
        !m.prefix@.contains('\0'),
        octets(m.content).len() <= i32::MAX,
    ensures
        Message::body((message_octets(m) + more).skip(1)).out == Ok::<<Message as View>::V, Error>(m@),
{
    let s = (message_octets(m) + more).skip(1);
    number_lengths(m.flags as int);
    number_lengths(m.lsn as int);
    i8_is_read(s, 0, m.flags);
    assert(s.subrange(1, 9) =~= big_endian(m.lsn as int, 8));
    i64_is_read(s, 1, m.lsn);
    let content = octets(m.content);
    let t = big_endian(content.len() as int, 4) + content + more;
    assert(s.skip(9) =~= terminated(m.prefix@) + t);
    text_is_read(m.prefix@, t);
    lemma_sized(content, more);
}

/// A logical decoding message is decoded.
pub proof fn message_is_decoded(m: Message, more: Seq<u8>)
    requires
        m.xid is None,
        !m.prefix@.contains('\0'),
        octets(m.content).len() <= i32::MAX,
    ensures
        logical_message(message_octets(m) + more) == Ok::<LogicalReplicationView, Error>(
            LogicalReplicationMessage::Message(m)@,
        ),
        m@.flags == m.flags,
        m@.lsn == m.lsn,
        m@.prefix == m.prefix@,
        m@.content == octets(m.content),
{
    lemma_message_body(m, more);
    let p = message_octets(m) + more;
    assert(p.len() >= 1 && p[0] == 0x4d);
}

/// The start of a segment is decoded.
pub proof fn stream_start_is_decoded(m: StreamStart, mark: u8, more: Seq<u8>)
    requires
        m.first_segment == (mark != 0),
    ensures
        logical_message(stream_start_octets(m, mark) + more) == Ok::<LogicalReplicationView, Error>(
            LogicalReplicationMessage::StreamStart(m)@,
        ),
        m@ == m,
{
    let p = stream_start_octets(m, mark) + more;
    let s = p.skip(1);
    number_lengths(m.xid as int);
    assert(s.subrange(0, 4) =~= big_endian(m.xid as int, 4));
    i32_is_read(s, 0, m.xid);
    assert(s[4] == mark);
    assert(p[0] == 0x53);
}

/// The end of a segment is decoded: `E`, and nothing else.
pub proof fn stream_stop_is_decoded(more: Seq<u8>)
    ensures
        logical_message(seq![0x45u8] + more) == Ok::<LogicalReplicationView, Error>(
            LogicalReplicationMessage::StreamStop(StreamStop)@,
        ),
{
}

/// The body of the message is read.
proof fn lemma_stream_commit_body(m: StreamCommit, more: Seq<u8>)
    ensures
        StreamCommit::body((stream_commit_octets(m) + more).skip(1)).out == Ok::<<StreamCommit as View>::V, Error>(m@),
{
    let s = (stream_commit_octets(m) + more).skip(1);
    number_lengths(m.xid as int);
    number_lengths(m.flags as int);
    number_lengths(m.commit_lsn as int);
    number_lengths(m.end_lsn as int);
    number_lengths(m.commit_timestamp as int);
    assert(s.subrange(0, 4) =~= big_endian(m.xid as int, 4));
    i32_is_read(s, 0, m.xid);
    i8_is_read(s, 4, m.flags);
    assert(s.subrange(5, 13) =~= big_endian(m.commit_lsn as int, 8));
    i64_is_read(s, 5, m.commit_lsn);
    assert(s.subrange(13, 21) =~= big_endian(m.end_lsn as int, 8));
    i64_is_read(s, 13, m.end_lsn);
    assert(s.subrange(21, 29) =~= big_endian(m.commit_timestamp as int, 8));
    i64_is_read(s, 21, m.commit_timestamp);
}

/// A streamed transaction that is committed is decoded.
pub proof fn stream_commit_is_decoded(m: StreamCommit, more: Seq<u8>)
    ensures
        logical_message(stream_commit_octets(m) + more) == Ok::<LogicalReplicationView, Error>(
            LogicalReplicationMessage::StreamCommit(m)@,
        ),
        m@ == m,
{
    lemma_stream_commit_body(m, more);
    let p = stream_commit_octets(m) + more;
    assert(p.len() >= 1 && p[0] == 0x63);
}

/// The body of the message is read.
proof fn lemma_stream_abort_body(m: StreamAbort, more: Seq<u8>)
    ensures
        StreamAbort::body((stream_abort_octets(m) + more).skip(1)).out == Ok::<<StreamAbort as View>::V, Error>(m@),
{
    let s = (stream_abort_octets(m) + more).skip(1);
    number_lengths(m.xid as int);
    number_lengths(m.subxid as int);
    assert(s.subrange(0, 4) =~= big_endian(m.xid as int, 4));
    i32_is_read(s, 0, m.xid);
    assert(s.subrange(4, 8) =~= big_endian(m.subxid as int, 4));
    i32_is_read(s, 4, m.subxid);
}

/// A streamed transaction that is rolled back is decoded.
pub proof fn stream_abort_is_decoded(m: StreamAbort, more: Seq<u8>)
    ensures
        logical_message(stream_abort_octets(m) + more) == Ok::<LogicalReplicationView, Error>(
            LogicalReplicationMessage::StreamAbort(m)@,
        ),
        m@ == m,
{
    lemma_stream_abort_body(m, more);
    let p = stream_abort_octets(m) + more;
    assert(p.len() >= 1 && p[0] == 0x41);
}

// What is refused.

/// What is refused, and why.
pub open spec fn refused(payload: Seq<u8>, e: Error) -> bool {
    logical_message(payload) == Err::<LogicalReplicationView, Error>(e)
}

/// Nothing is no message, and neither is what begins with an unknown tag.
pub proof fn unknown_messages_are_refused(tag: u8, rest: Seq<u8>)
    requires
        // B, M, C, O, R, Y, I, U, D, T, S, E, c, A
        tag != 0x42 && tag != 0x4d && tag != 0x43 && tag != 0x4f && tag != 0x52,
        tag != 0x59 && tag != 0x49 && tag != 0x55 && tag != 0x44 && tag != 0x54,
        tag != 0x53 && tag != 0x45 && tag != 0x63 && tag != 0x41,
    ensures
        refused(Seq::empty(), Error::UnexpectedEof { need: 1, have: 0 }),
        refused(seq![tag] + rest, Error::UnsupportedLogicalMessage { tag }),
{
    assert((seq![tag] + rest)[0] == tag);
}

/// The error of a message that ends before its fixed fields do.
pub open spec fn too_short(s: Seq<u8>, need: usize) -> Error {
    Error::UnexpectedEof { need, have: s.len() as usize }
}

/// Messages that end before their fixed fields do are refused.
pub proof fn short_messages_are_refused(s: Seq<u8>)
    ensures
        s.len() < 20 ==> refused(seq![0x42u8] + s, too_short(s, 20)),
        s.len() < 33 ==> refused(seq![0x43u8] + s, too_short(s, 33)),
        s.len() < 8 ==> refused(seq![0x4fu8] + s, too_short(s, 8)),
        s.len() < 4 ==> refused(seq![0x52u8] + s, too_short(s, 4)),
        s.len() < 4 ==> refused(seq![0x59u8] + s, too_short(s, 4)),
        s.len() < 5 ==> refused(seq![0x49u8] + s, too_short(s, 5)),
        s.len() < 5 ==> refused(seq![0x55u8] + s, too_short(s, 5)),
        s.len() < 5 ==> refused(seq![0x44u8] + s, too_short(s, 5)),
        s.len() < 5 ==> refused(seq![0x54u8] + s, too_short(s, 5)),
        s.len() < 9 ==> refused(seq![0x4du8] + s, too_short(s, 9)),
        s.len() < 5 ==> refused(seq![0x53u8] + s, too_short(s, 5)),
        s.len() < 29 ==> refused(seq![0x63u8] + s, too_short(s, 29)),
        s.len() < 8 ==> refused(seq![0x41u8] + s, too_short(s, 8)),
{
    lemma_tagged(0x42, s);
    lemma_tagged(0x43, s);
    lemma_tagged(0x4f, s);
    lemma_tagged(0x52, s);
    lemma_tagged(0x59, s);
    lemma_tagged(0x49, s);
    lemma_tagged(0x55, s);
    lemma_tagged(0x44, s);
    lemma_tagged(0x54, s);
    lemma_tagged(0x4d, s);
    lemma_tagged(0x53, s);
    lemma_tagged(0x63, s);
    lemma_tagged(0x41, s);
}

/// A tag and what follows it.
proof fn lemma_tagged(tag: u8, s: Seq<u8>)
    ensures
        (seq![tag] + s).len() == 1 + s.len(),
        (seq![tag] + s)[0] == tag,
        (seq![tag] + s).skip(1) == s,
{
    assert((seq![tag] + s).skip(1) =~= s);
}

/// Rows that do not stand behind the tags that they must stand behind are refused.
pub proof fn wrong_row_tags_are_refused(relation_id: i32, tag: u8, rest: Seq<u8>)
    ensures
        ({
            let s = big_endian(relation_id as int, 4) + seq![tag] + rest;
            &&& tag != 0x4e ==> refused(seq![0x49u8] + s, Error::ExpectedNewTuple { tag })
            &&& tag != 0x4e && tag != 0x4b && tag != 0x4f ==> refused(
                seq![0x55u8] + s,
                Error::UnexpectedUpdateTuple { tag },
            )
            &&& tag != 0x4b && tag != 0x4f ==> refused(
                seq![0x44u8] + s,
                Error::UnexpectedDeleteTuple { tag },
            )
        }),
{
    let s = big_endian(relation_id as int, 4) + seq![tag] + rest;
    number_lengths(relation_id as int);
    assert(s[4] == tag);
    lemma_tagged(0x49, s);
    lemma_tagged(0x55, s);
    lemma_tagged(0x44, s);
}

/// A value of an unknown kind is refused, and so is one that ends before its text
/// does.
pub proof fn wrong_values_are_refused(tag: u8, n: i32, text: Seq<u8>, rest: Seq<u8>)
    requires
        tag != 0x6e && tag != 0x75 && tag != 0x74,
        n > text.len(),
    ensures
        tuple_value(seq![tag] + rest).out == Err::<TupleValueView, Error>(
            Error::UnsupportedTupleValue { tag },
        ),
        tuple_value(seq![0x74u8] + big_endian(n as int, 4) + text).out == Err::<
            TupleValueView,
            Error,
        >(Error::UnexpectedEof { need: n as usize, have: text.len() as usize }),
        tuple_value(Seq::empty()).out == Err::<TupleValueView, Error>(
            Error::UnexpectedEof { need: 1, have: 0 },
        ),
{
    lemma_tagged(tag, rest);
    let t = big_endian(n as int, 4) + text;
    number_lengths(n as int);
    assert(seq![0x74u8] + big_endian(n as int, 4) + text =~= seq![0x74u8] + t);
    lemma_tagged(0x74, t);
    assert(t.subrange(0, 4) =~= big_endian(n as int, 4));
    i32_is_read(t, 0, n);
    assert(t.skip(4) =~= text);
}

/// A text without its terminator is refused, and so are bytes that are no text.
pub proof fn wrong_texts_are_refused(s: Seq<u8>, rest: Seq<u8>)
    requires
        !s.contains(0),
    ensures
        cstring(s) == Parsed::<Seq<char>>::fail(Error::MissingTerminator, s),
        !valid_utf8(s) ==> cstring(s + seq![0u8] + rest) == Parsed::<Seq<char>>::fail(
            Error::InvalidUtf8,
            rest,
        ),
{
    let t = s + seq![0u8] + rest;
    lemma_position(s, 0);
    match position(s, 0) {
        Some(n) => assert(s.contains(s[n])),
        None => {},
    }
    lemma_position(t, 0);
    assert(t[s.len() as int] == 0);
    assert forall|i: int| 0 <= i < s.len() implies t[i] != 0 by {
        assert(s.contains(s[i]));
    }
    assert(position(t, 0) == Some(s.len() as int));
    assert(t.take(s.len() as int) =~= s);
    assert(t.skip(s.len() as int + 1) =~= rest);
}

} // verus!
