//! The formats of the protocol, as a server writes them.
//!
//! Numbers are big-endian two's complement, and texts end with a zero byte. The
//! writers here say what bytes a message is, and nothing of how they are read.

use vstd::prelude::*;
use vstd::utf8::encode_utf8;

use crate::backend::{
    BackendKeyData, CopyBothResponse, CopyFormat, PrimaryKeepAlive, ReadyForQuery, XLogData,
};
use crate::laws::framing::{cstring_round_trip, unsigned_read_is_written};
use crate::octets::{i16_at, i32_at, i32_octets, i64_at, i8_at, octets, u16_at, u32_at, u32_octets};
use crate::pgoutput::{
    Begin, Column, Commit, Delete, Insert, Message, OldTuple, Origin, Relation, StreamAbort,
    StreamCommit, StreamStart, Truncate, TupleData, TupleValue, Type, Update,
};
use crate::wire::{cstr_octets, cstring, Parsed};

verus! {

// Numbers and texts.

/// The low `width` bytes of `n`, the most significant first.
pub open spec fn big_endian(n: int, width: nat) -> Seq<u8>
    decreases width,
{
    if width == 0 {
        Seq::empty()
    } else {
        big_endian(n / 0x100, (width - 1) as nat).push((n % 0x100) as u8)
    }
}

/// A text and a zero byte.
pub open spec fn terminated(text: Seq<char>) -> Seq<u8> {
    encode_utf8(text) + seq![0u8]
}

/// Two bytes, one by one.
proof fn lemma_two(n: int)
    ensures
        big_endian(n, 1) == seq![(n % 0x100) as u8],
        big_endian(n, 2) == seq![(n / 0x100 % 0x100) as u8, (n % 0x100) as u8],
{
    reveal_with_fuel(big_endian, 3);
    assert(big_endian(n, 1) =~= seq![(n % 0x100) as u8]);
    assert(big_endian(n, 2) =~= seq![(n / 0x100 % 0x100) as u8, (n % 0x100) as u8]);
}

/// Four bytes, one by one.
proof fn lemma_four(n: int)
    ensures
        big_endian(n, 4) == big_endian(n / 0x100 / 0x100, 2) + big_endian(n, 2),
{
    reveal_with_fuel(big_endian, 3);
    lemma_two(n);
    assert(big_endian(n, 4) =~= big_endian(n / 0x100 / 0x100, 2) + big_endian(n, 2));
}

/// Eight bytes, in two halves.
proof fn lemma_eight(n: int)
    ensures
        big_endian(n, 8) == big_endian(n / 0x100 / 0x100 / 0x100 / 0x100, 4) + big_endian(n, 4),
{
    reveal_with_fuel(big_endian, 5);
    lemma_four(n);
    lemma_two(n);
    assert(big_endian(n, 8) =~= big_endian(n / 0x100 / 0x100 / 0x100 / 0x100, 4) + big_endian(
        n,
        4,
    ));
}

/// Where the byte of a number stands in `s`, the number is read.
pub proof fn i8_is_read(s: Seq<u8>, i: int, n: i8)
    requires
        0 <= i < s.len(),
        s[i] == big_endian(n as int, 1)[0],
    ensures
        i8_at(s, i) == n,
{
    lemma_two(n as int);
}

/// Where the two bytes of a number stand in `s`, the number is read.
pub proof fn i16_is_read(s: Seq<u8>, i: int, n: i16)
    requires
        0 <= i,
        i + 2 <= s.len(),
        s.subrange(i, i + 2) =~= big_endian(n as int, 2),
    ensures
        i16_at(s, i) == n,
{
    lemma_two(n as int);
    let t = s.subrange(i, i + 2);
    assert(t[0] == s[i] && t[1] == s[i + 1]);
}

/// Where the two bytes of an unsigned number stand in `s`, the number is read.
pub proof fn u16_is_read(s: Seq<u8>, i: int, n: u16)
    requires
        0 <= i,
        i + 2 <= s.len(),
        s.subrange(i, i + 2) =~= big_endian(n as int, 2),
    ensures
        u16_at(s, i) == n,
{
    lemma_two(n as int);
    let t = s.subrange(i, i + 2);
    assert(t[0] == s[i] && t[1] == s[i + 1]);
}

/// Where the four bytes of a number stand in `s`, the number is read.
pub proof fn i32_is_read(s: Seq<u8>, i: int, n: i32)
    requires
        0 <= i,
        i + 4 <= s.len(),
        s.subrange(i, i + 4) =~= big_endian(n as int, 4),
    ensures
        i32_at(s, i) == n,
{
    lemma_four(n as int);
    lemma_two(n as int);
    lemma_two(n as int / 0x100 / 0x100);
    let t = s.subrange(i, i + 4);
    assert(t[0] == s[i] && t[1] == s[i + 1] && t[2] == s[i + 2] && t[3] == s[i + 3]);
}

/// Where the four bytes of an unsigned number stand in `s`, the number is read.
pub proof fn u32_is_read(s: Seq<u8>, i: int, n: u32)
    requires
        0 <= i,
        i + 4 <= s.len(),
        s.subrange(i, i + 4) =~= big_endian(n as int, 4),
    ensures
        u32_at(s, i) == n,
{
    lemma_four(n as int);
    lemma_two(n as int);
    lemma_two(n as int / 0x100 / 0x100);
    let t = s.subrange(i, i + 4);
    assert(t[0] == s[i] && t[1] == s[i + 1] && t[2] == s[i + 2] && t[3] == s[i + 3]);
}

/// Where the eight bytes of a number stand in `s`, the number is read.
pub proof fn i64_is_read(s: Seq<u8>, i: int, n: i64)
    requires
        0 <= i,
        i + 8 <= s.len(),
        s.subrange(i, i + 8) =~= big_endian(n as int, 8),
    ensures
        i64_at(s, i) == n,
{
    let m = n as int;
    let h = m / 0x100 / 0x100 / 0x100 / 0x100;
    lemma_eight(m);
    lemma_four(m);
    lemma_two(m);
    lemma_two(m / 0x100 / 0x100);
    lemma_four(h);
    lemma_two(h);
    lemma_two(h / 0x100 / 0x100);
    let t = s.subrange(i, i + 8);
    assert(t[0] == s[i] && t[1] == s[i + 1] && t[2] == s[i + 2] && t[3] == s[i + 3]);
    assert(t[4] == s[i + 4] && t[5] == s[i + 5] && t[6] == s[i + 6] && t[7] == s[i + 7]);
}

/// How long the bytes of numbers are.
pub proof fn number_lengths(n: int)
    ensures
        big_endian(n, 1).len() == 1,
        big_endian(n, 2).len() == 2,
        big_endian(n, 4).len() == 4,
        big_endian(n, 8).len() == 8,
{
    lemma_two(n);
    lemma_two(n / 0x100 / 0x100);
    lemma_four(n);
    lemma_four(n / 0x100 / 0x100 / 0x100 / 0x100);
    lemma_two(n / 0x100 / 0x100 / 0x100 / 0x100);
    lemma_two(n / 0x100 / 0x100 / 0x100 / 0x100 / 0x100 / 0x100);
    lemma_eight(n);
}

/// The numbers that the client writes are big-endian.
pub proof fn numbers_are_big_endian(n: u32, m: i32)
    ensures
        u32_octets(n) == big_endian(n as int, 4),
        i32_octets(m) == big_endian(m as int, 4),
{
    let s = big_endian(n as int, 4);
    let t = big_endian(m as int, 4);
    number_lengths(n as int);
    number_lengths(m as int);
    assert(s.subrange(0, 4) =~= s);
    assert(t.subrange(0, 4) =~= t);
    u32_is_read(s, 0, n);
    unsigned_read_is_written(s);
    i32_is_read(t, 0, m);
    unsigned_read_is_written(t);
}

/// The texts that the client writes end with a zero byte, and texts are read up to
/// it.
pub proof fn text_is_read(text: Seq<char>, rest: Seq<u8>)
    requires
        !text.contains('\0'),
    ensures
        cstr_octets(text) == terminated(text),
        cstring(terminated(text) + rest) == Parsed::ok(text, rest),
{
    assert(cstr_octets(text) =~= terminated(text));
    cstring_round_trip(text, rest);
}

// Rows and columns.

/// A column value: `n` for null, `u` for an unchanged one, or `t`, the length of
/// the text in four bytes, and the text.
pub open spec fn value_octets(value: TupleValue) -> Seq<u8> {
    match value {
        TupleValue::Null => seq![0x6eu8],
        TupleValue::UnchangedToast => seq![0x75u8],
        TupleValue::Text(text) => seq![0x74u8] + big_endian(octets(text).len() as int, 4) + octets(
            text,
        ),
    }
}

/// Column values, one behind the other.
pub open spec fn values_octets(values: Seq<TupleValue>) -> Seq<u8>
    decreases values.len(),
{
    if values.len() == 0 {
        Seq::empty()
    } else {
        value_octets(values[0]) + values_octets(values.skip(1))
    }
}

/// A row: the number of its values in two bytes, and the values.
pub open spec fn row_octets(row: TupleData) -> Seq<u8> {
    big_endian(row.columns@.len() as int, 2) + values_octets(row.columns@)
}

/// The length of a value fits in four bytes.
pub open spec fn value_fits(value: TupleValue) -> bool {
    match value {
        TupleValue::Text(text) => octets(text).len() <= i32::MAX,
        _ => true,
    }
}

/// The number of values, and their lengths, fit in their fields.
pub open spec fn row_fits(row: TupleData) -> bool {
    row.columns@.len() <= i16::MAX && forall|i: int|
        0 <= i < row.columns@.len() ==> value_fits(#[trigger] row.columns@[i])
}

/// A column: its flags in one byte, its name, and its type and the modifier of the
/// type in four bytes each.
pub open spec fn column_octets(column: Column) -> Seq<u8> {
    big_endian(column.flags as int, 1) + terminated(column.name@) + big_endian(
        column.type_id as int,
        4,
    ) + big_endian(column.type_modifier as int, 4)
}

/// Columns, one behind the other.
pub open spec fn columns_octets(columns: Seq<Column>) -> Seq<u8>
    decreases columns.len(),
{
    if columns.len() == 0 {
        Seq::empty()
    } else {
        column_octets(columns[0]) + columns_octets(columns.skip(1))
    }
}

/// Relation ids, in four bytes each.
pub open spec fn ids_octets(ids: Seq<i32>) -> Seq<u8>
    decreases ids.len(),
{
    if ids.len() == 0 {
        Seq::empty()
    } else {
        ids_octets(ids.drop_last()) + big_endian(ids.last() as int, 4)
    }
}

// The messages of the logical replication stream.

/// `B`
pub open spec fn begin_octets(m: Begin) -> Seq<u8> {
    seq![0x42u8] + big_endian(m.final_lsn as int, 8) + big_endian(m.commit_timestamp as int, 8)
        + big_endian(m.xid as int, 4)
}

/// `C`
pub open spec fn commit_octets(m: Commit) -> Seq<u8> {
    seq![0x43u8] + big_endian(m.flags as int, 1) + big_endian(m.commit_lsn as int, 8) + big_endian(
        m.end_lsn as int,
        8,
    ) + big_endian(m.commit_timestamp as int, 8)
}

/// `O`
pub open spec fn origin_octets(m: Origin) -> Seq<u8> {
    seq![0x4fu8] + big_endian(m.commit_lsn as int, 8) + terminated(m.name@)
}

/// `R`
pub open spec fn relation_octets(m: Relation) -> Seq<u8> {
    seq![0x52u8] + big_endian(m.relation_id as int, 4) + terminated(m.namespace@) + terminated(
        m.name@,
    ) + big_endian(m.replica_identity as int, 1) + big_endian(m.columns@.len() as int, 2)
        + columns_octets(m.columns@)
}

/// `Y`
pub open spec fn type_octets(m: Type) -> Seq<u8> {
    seq![0x59u8] + big_endian(m.type_id as int, 4) + terminated(m.namespace@) + terminated(m.name@)
}

/// `I`, and the row behind `N`.
pub open spec fn insert_octets(m: Insert) -> Seq<u8> {
    seq![0x49u8] + big_endian(m.relation_id as int, 4) + seq![0x4eu8] + row_octets(m.new_tuple)
}

/// The old row behind `K`, if it is only the key, or `O`.
pub open spec fn old_octets(old: OldTuple) -> Seq<u8> {
    match old {
        OldTuple::Key(row) => seq![0x4bu8] + row_octets(row),
        OldTuple::Old(row) => seq![0x4fu8] + row_octets(row),
    }
}

/// `U`, the old row if there is one, and the new row behind `N`.
pub open spec fn update_octets(m: Update) -> Seq<u8> {
    seq![0x55u8] + big_endian(m.relation_id as int, 4) + (match m.old_tuple {
        Some(old) => old_octets(old),
        None => Seq::empty(),
    }) + seq![0x4eu8] + row_octets(m.new_tuple)
}

/// `D`, and the old row.
pub open spec fn delete_octets(m: Delete) -> Seq<u8> {
    seq![0x44u8] + big_endian(m.relation_id as int, 4) + old_octets(m.old_tuple)
}

/// `T`, the number of tables, one byte of options, and the tables. The options are
/// 1 for `CASCADE` and 2 for `RESTART IDENTITY`, added up.
pub open spec fn truncate_octets(m: Truncate) -> Seq<u8> {
    seq![0x54u8] + big_endian(m.relation_ids@.len() as int, 4) + seq![
        ((if m.options.cascade {
            1int
        } else {
            0
        }) + (if m.options.restart_identity {
            2int
        } else {
            0
        })) as u8,
    ] + ids_octets(m.relation_ids@)
}

/// `M`, and the content behind its length.
pub open spec fn message_octets(m: Message) -> Seq<u8> {
    seq![0x4du8] + big_endian(m.flags as int, 1) + big_endian(m.lsn as int, 8) + terminated(
        m.prefix@,
    ) + big_endian(octets(m.content).len() as int, 4) + octets(m.content)
}

/// `S`; a first segment is marked by a byte other than zero.
pub open spec fn stream_start_octets(m: StreamStart, mark: u8) -> Seq<u8> {
    seq![0x53u8] + big_endian(m.xid as int, 4) + seq![mark]
}

/// `c`
pub open spec fn stream_commit_octets(m: StreamCommit) -> Seq<u8> {
    seq![0x63u8] + big_endian(m.xid as int, 4) + big_endian(m.flags as int, 1) + big_endian(
        m.commit_lsn as int,
        8,
    ) + big_endian(m.end_lsn as int, 8) + big_endian(m.commit_timestamp as int, 8)
}

/// `A`
pub open spec fn stream_abort_octets(m: StreamAbort) -> Seq<u8> {
    seq![0x41u8] + big_endian(m.xid as int, 4) + big_endian(m.subxid as int, 4)
}

// The messages of the server.

/// A tag, the length of what follows it, in four bytes, and the body.
pub open spec fn frame_octets(tag: u8, body: Seq<u8>) -> Seq<u8> {
    seq![tag] + big_endian(4 + body.len() as int, 4) + body
}

/// `w`, and the piece of the log to the end.
pub open spec fn xlog_octets(m: XLogData) -> Seq<u8> {
    seq![0x77u8] + big_endian(m.start_lsn as int, 8) + big_endian(m.end_lsn as int, 8) + big_endian(
        m.send_time as int,
        8,
    ) + octets(m.wal_data)
}

/// `k`
pub open spec fn keepalive_octets(m: PrimaryKeepAlive) -> Seq<u8> {
    seq![0x6bu8] + big_endian(m.end_lsn as int, 8) + big_endian(m.send_time as int, 8) + big_endian(
        m.reply_requested as int,
        1,
    )
}

/// The code of a format: 0 for text and 1 for binary.
pub open spec fn format_octets(format: CopyFormat) -> Seq<u8> {
    match format {
        CopyFormat::Text => big_endian(0, 2),
        CopyFormat::Binary => big_endian(1, 2),
    }
}

/// The codes of formats, one behind the other.
pub open spec fn formats_octets(formats: Seq<CopyFormat>) -> Seq<u8>
    decreases formats.len(),
{
    if formats.len() == 0 {
        Seq::empty()
    } else {
        format_octets(formats[0]) + formats_octets(formats.skip(1))
    }
}

/// The body of the answer to a request to copy.
pub open spec fn copy_both_octets(m: CopyBothResponse) -> Seq<u8> {
    format_octets(m.format) + big_endian(m.column_formats@.len() as int, 2) + formats_octets(
        m.column_formats@,
    )
}

/// The body of key data.
pub open spec fn key_data_octets(m: BackendKeyData) -> Seq<u8> {
    big_endian(m.process_id as int, 4) + big_endian(m.secret_key as int, 4)
}

/// The body of the news that the server waits for a command.
pub open spec fn ready_octets(m: ReadyForQuery) -> Seq<u8> {
    seq![m.tx_status]
}

} // verus!
