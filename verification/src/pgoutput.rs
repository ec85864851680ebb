//! The messages of the `pgoutput` logical decoding plugin.

use bytes::Bytes;
use vstd::arithmetic::div_mod::{lemma_mod_bound, lemma_small_mod};
use vstd::prelude::*;

use crate::error::Error;
use crate::octets::{
    get_i16, get_i32, get_i64, get_i8, get_u8, i16_at, i32_at, i64_at, i8_at, octets,
};
use crate::wire::{
    agrees, count_of, cstring, ensure_remaining, eof, read_cstring, reads, to_count, wrap,
    Parsed,
};

verus! {

broadcast use crate::octets::group_skip;

/// A message of the logical replication stream.
pub enum LogicalReplicationMessage {
    Begin(Begin),
    Message(Message),
    Commit(Commit),
    Origin(Origin),
    Relation(Relation),
    Type(Type),
    Insert(Insert),
    Update(Update),
    Delete(Delete),
    Truncate(Truncate),
    StreamStart(StreamStart),
    StreamStop(StreamStop),
    StreamCommit(StreamCommit),
    StreamAbort(StreamAbort),
}

/// The start of a transaction.
pub struct Begin {
    pub final_lsn: i64,
    pub commit_timestamp: i64,
    pub xid: i32,
}

/// A logical decoding message.
pub struct Message {
    /// Only in streamed transactions of protocol version 2.
    pub xid: Option<i32>,
    pub flags: i8,
    pub lsn: i64,
    pub prefix: String,
    pub content: Bytes,
}

/// The end of a transaction.
pub struct Commit {
    /// Currently unused.
    pub flags: i8,
    pub commit_lsn: i64,
    pub end_lsn: i64,
    pub commit_timestamp: i64,
}

/// Where a forwarded transaction came from.
pub struct Origin {
    pub commit_lsn: i64,
    pub name: String,
}

/// The description of a table.
pub struct Relation {
    /// Only in streamed transactions of protocol version 2.
    pub xid: Option<i32>,
    pub relation_id: i32,
    pub namespace: String,
    pub name: String,
    pub replica_identity: i8,
    pub columns: Vec<Column>,
}

/// The description of a data type.
pub struct Type {
    /// Only in streamed transactions of protocol version 2.
    pub xid: Option<i32>,
    pub type_id: i32,
    pub namespace: String,
    pub name: String,
}

/// A new row.
pub struct Insert {
    pub xid: Option<i32>,
    pub relation_id: i32,
    pub new_tuple: TupleData,
}

/// A changed row.
pub struct Update {
    pub xid: Option<i32>,
    pub relation_id: i32,
    pub old_tuple: Option<OldTuple>,
    pub new_tuple: TupleData,
}

/// A removed row.
pub struct Delete {
    pub xid: Option<i32>,
    pub relation_id: i32,
    pub old_tuple: OldTuple,
}

/// Emptied tables.
pub struct Truncate {
    pub xid: Option<i32>,
    pub relation_ids: Vec<i32>,
    pub options: TruncateOptions,
}

/// The start of a segment of a streamed transaction.
pub struct StreamStart {
    pub xid: i32,
    pub first_segment: bool,
}

/// The end of a segment of a streamed transaction.
pub struct StreamStop;

/// The end of a streamed transaction.
pub struct StreamCommit {
    pub xid: i32,
    pub flags: i8,
    pub commit_lsn: i64,
    pub end_lsn: i64,
    pub commit_timestamp: i64,
}

/// A streamed transaction, or a part of one, was rolled back.
pub struct StreamAbort {
    pub xid: i32,
    pub subxid: i32,
}

/// A column of a [`Relation`].
pub struct Column {
    /// 1 marks a key column.
    pub flags: i8,
    pub name: String,
    pub type_id: i32,
    pub type_modifier: i32,
}

/// The column values of a row.
pub struct TupleData {
    pub columns: Vec<TupleValue>,
}

/// A column value.
pub enum TupleValue {
    Null,
    UnchangedToast,
    Text(Bytes),
}

/// The previous version of a row.
pub enum OldTuple {
    /// The key columns only (`K`).
    Key(TupleData),
    /// The whole row (`O`).
    Old(TupleData),
}

/// The options of a [`Truncate`].
pub struct TruncateOptions {
    pub cascade: bool,
    pub restart_identity: bool,
}

// What the messages say, apart from how they are held in memory.

/// What a [`TupleValue`] says.
pub enum TupleValueView {
    Null,
    UnchangedToast,
    Text(Seq<u8>),
}

impl View for TupleValue {
    type V = TupleValueView;

    open spec fn view(&self) -> TupleValueView {
        match *self {
            TupleValue::Null => TupleValueView::Null,
            TupleValue::UnchangedToast => TupleValueView::UnchangedToast,
            TupleValue::Text(b) => TupleValueView::Text(octets(b)),
        }
    }
}

impl View for TupleData {
    type V = Seq<TupleValueView>;

    open spec fn view(&self) -> Seq<TupleValueView> {
        self.columns@.map_values(|v: TupleValue| v@)
    }
}

/// What an [`OldTuple`] says.
pub enum OldTupleView {
    Key(Seq<TupleValueView>),
    Old(Seq<TupleValueView>),
}

impl View for OldTuple {
    type V = OldTupleView;

    open spec fn view(&self) -> OldTupleView {
        match *self {
            OldTuple::Key(t) => OldTupleView::Key(t@),
            OldTuple::Old(t) => OldTupleView::Old(t@),
        }
    }
}

/// What a [`Column`] says.
pub struct ColumnView {
    pub flags: i8,
    pub name: Seq<char>,
    pub type_id: i32,
    pub type_modifier: i32,
}

impl View for Column {
    type V = ColumnView;

    open spec fn view(&self) -> ColumnView {
        ColumnView {
            flags: self.flags,
            name: self.name@,
            type_id: self.type_id,
            type_modifier: self.type_modifier,
        }
    }
}

/// What a [`Message`] says.
pub struct MessageView {
    pub xid: Option<i32>,
    pub flags: i8,
    pub lsn: i64,
    pub prefix: Seq<char>,
    pub content: Seq<u8>,
}

impl View for Message {
    type V = MessageView;

    open spec fn view(&self) -> MessageView {
        MessageView {
            xid: self.xid,
            flags: self.flags,
            lsn: self.lsn,
            prefix: self.prefix@,
            content: octets(self.content),
        }
    }
}

/// What an [`Origin`] says.
pub struct OriginView {
    pub commit_lsn: i64,
    pub name: Seq<char>,
}

impl View for Origin {
    type V = OriginView;

    open spec fn view(&self) -> OriginView {
        OriginView { commit_lsn: self.commit_lsn, name: self.name@ }
    }
}

/// What a [`Relation`] says.
pub struct RelationView {
    pub xid: Option<i32>,
    pub relation_id: i32,
    pub namespace: Seq<char>,
    pub name: Seq<char>,
    pub replica_identity: i8,
    pub columns: Seq<ColumnView>,
}

impl View for Relation {
    type V = RelationView;

    open spec fn view(&self) -> RelationView {
        RelationView {
            xid: self.xid,
            relation_id: self.relation_id,
            namespace: self.namespace@,
            name: self.name@,
            replica_identity: self.replica_identity,
            columns: column_views(self.columns@),
        }
    }
}

/// What a [`Type`] says.
pub struct TypeView {
    pub xid: Option<i32>,
    pub type_id: i32,
    pub namespace: Seq<char>,
    pub name: Seq<char>,
}

impl View for Type {
    type V = TypeView;

    open spec fn view(&self) -> TypeView {
        TypeView {
            xid: self.xid,
            type_id: self.type_id,
            namespace: self.namespace@,
            name: self.name@,
        }
    }
}

/// What an [`Insert`] says.
pub struct InsertView {
    pub xid: Option<i32>,
    pub relation_id: i32,
    pub new_tuple: Seq<TupleValueView>,
}

impl View for Insert {
    type V = InsertView;

    open spec fn view(&self) -> InsertView {
        InsertView {
            xid: self.xid,
            relation_id: self.relation_id,
            new_tuple: self.new_tuple@,
        }
    }
}

/// What an [`Update`] says.
pub struct UpdateView {
    pub xid: Option<i32>,
    pub relation_id: i32,
    pub old_tuple: Option<OldTupleView>,
    pub new_tuple: Seq<TupleValueView>,
}

impl View for Update {
    type V = UpdateView;

    open spec fn view(&self) -> UpdateView {
        UpdateView {
            xid: self.xid,
            relation_id: self.relation_id,
            old_tuple: match self.old_tuple {
                Some(t) => Some(t@),
                None => None,
            },
            new_tuple: self.new_tuple@,
        }
    }
}

/// What a [`Delete`] says.
pub struct DeleteView {
    pub xid: Option<i32>,
    pub relation_id: i32,
    pub old_tuple: OldTupleView,
}

impl View for Delete {
    type V = DeleteView;

    open spec fn view(&self) -> DeleteView {
        DeleteView { xid: self.xid, relation_id: self.relation_id, old_tuple: self.old_tuple@ }
    }
}

/// What a [`Truncate`] says.
pub struct TruncateView {
    pub xid: Option<i32>,
    pub relation_ids: Seq<i32>,
    pub options: TruncateOptions,
}

impl View for Truncate {
    type V = TruncateView;

    open spec fn view(&self) -> TruncateView {
        TruncateView { xid: self.xid, relation_ids: self.relation_ids@, options: self.options }
    }
}

impl View for Begin {
    type V = Begin;

    open spec fn view(&self) -> Begin {
        *self
    }
}

impl View for Commit {
    type V = Commit;

    open spec fn view(&self) -> Commit {
        *self
    }
}

impl View for StreamStart {
    type V = StreamStart;

    open spec fn view(&self) -> StreamStart {
        *self
    }
}

impl View for StreamStop {
    type V = StreamStop;

    open spec fn view(&self) -> StreamStop {
        *self
    }
}

impl View for StreamCommit {
    type V = StreamCommit;

    open spec fn view(&self) -> StreamCommit {
        *self
    }
}

impl View for StreamAbort {
    type V = StreamAbort;

    open spec fn view(&self) -> StreamAbort {
        *self
    }
}

/// What a [`LogicalReplicationMessage`] says.
pub enum LogicalReplicationView {
    Begin(Begin),
    Message(MessageView),
    Commit(Commit),
    Origin(OriginView),
    Relation(RelationView),
    Type(TypeView),
    Insert(InsertView),
    Update(UpdateView),
    Delete(DeleteView),
    Truncate(TruncateView),
    StreamStart(StreamStart),
    StreamStop(StreamStop),
    StreamCommit(StreamCommit),
    StreamAbort(StreamAbort),
}

impl View for LogicalReplicationMessage {
    type V = LogicalReplicationView;

    open spec fn view(&self) -> LogicalReplicationView {
        match *self {
            LogicalReplicationMessage::Begin(m) => LogicalReplicationView::Begin(m@),
            LogicalReplicationMessage::Message(m) => LogicalReplicationView::Message(m@),
            LogicalReplicationMessage::Commit(m) => LogicalReplicationView::Commit(m@),
            LogicalReplicationMessage::Origin(m) => LogicalReplicationView::Origin(m@),
            LogicalReplicationMessage::Relation(m) => LogicalReplicationView::Relation(m@),
            LogicalReplicationMessage::Type(m) => LogicalReplicationView::Type(m@),
            LogicalReplicationMessage::Insert(m) => LogicalReplicationView::Insert(m@),
            LogicalReplicationMessage::Update(m) => LogicalReplicationView::Update(m@),
            LogicalReplicationMessage::Delete(m) => LogicalReplicationView::Delete(m@),
            LogicalReplicationMessage::Truncate(m) => LogicalReplicationView::Truncate(m@),
            LogicalReplicationMessage::StreamStart(m) => LogicalReplicationView::StreamStart(m@),
            LogicalReplicationMessage::StreamStop(m) => LogicalReplicationView::StreamStop(m@),
            LogicalReplicationMessage::StreamCommit(m) => LogicalReplicationView::StreamCommit(m@),
            LogicalReplicationMessage::StreamAbort(m) => LogicalReplicationView::StreamAbort(m@),
        }
    }
}

// The formats.

/// A message kind: the tag byte that announces it, and the format of what
/// follows the tag.
pub trait PgOutputMessage: Sized + View {
    const TAG: u8;

    /// What reading a message of this kind from `s` comes to.
    spec fn body(s: Seq<u8>) -> Parsed<Self::V>;

    /// Takes the message from the front of `buf`, behind its tag.
    fn parse_body(buf: &mut Bytes) -> (r: Result<Self, Error>)
        ensures
            reads(r, octets(*final(buf)), Self::body(octets(*old(buf)))),
    ;
}

impl PgOutputMessage for Begin {
    /// `B`
    const TAG: u8 = 0x42;

    open spec fn body(s: Seq<u8>) -> Parsed<Begin> {
        if s.len() < 20 {
            Parsed::eof(s, 20)
        } else {
            Parsed::ok(
                Begin {
                    final_lsn: i64_at(s, 0),
                    commit_timestamp: i64_at(s, 8),
                    xid: i32_at(s, 16),
                },
                s.skip(20),
            )
        }
    }

    fn parse_body(buf: &mut Bytes) -> (r: Result<Self, Error>) {
        ensure_remaining(buf, 8 + 8 + 4)?;
        Ok(
            Begin {
                final_lsn: get_i64(buf),
                commit_timestamp: get_i64(buf),
                xid: get_i32(buf),
            },
        )
    }
}

impl PgOutputMessage for Commit {
    /// `C`
    const TAG: u8 = 0x43;

    /// Eight bytes more than the fields take must be present; they stay unread.
    open spec fn body(s: Seq<u8>) -> Parsed<Commit> {
        if s.len() < 33 {
            Parsed::eof(s, 33)
        } else {
            Parsed::ok(
                Commit {
                    flags: i8_at(s, 0),
                    commit_lsn: i64_at(s, 1),
                    end_lsn: i64_at(s, 9),
                    commit_timestamp: i64_at(s, 17),
                },
                s.skip(25),
            )
        }
    }

    fn parse_body(buf: &mut Bytes) -> (r: Result<Self, Error>) {
        ensure_remaining(buf, 1 + 8 + 8 + 8 + 8)?;
        Ok(
            Commit {
                flags: get_i8(buf),
                commit_lsn: get_i64(buf),
                end_lsn: get_i64(buf),
                commit_timestamp: get_i64(buf),
            },
        )
    }
}

impl PgOutputMessage for Origin {
    /// `O`
    const TAG: u8 = 0x4f;

    open spec fn body(s: Seq<u8>) -> Parsed<OriginView> {
        if s.len() < 8 {
            Parsed::eof(s, 8)
        } else {
            cstring(s.skip(8)).chain(
                |name: Seq<char>, rest: Seq<u8>|
                    Parsed::ok(OriginView { commit_lsn: i64_at(s, 0), name }, rest),
            )
        }
    }

    fn parse_body(buf: &mut Bytes) -> (r: Result<Self, Error>) {
        ensure_remaining(buf, 8)?;
        Ok(Origin { commit_lsn: get_i64(buf), name: read_cstring(buf)? })
    }
}

/// A column description of a relation.
pub open spec fn column(s: Seq<u8>) -> Parsed<ColumnView> {
    if s.len() < 1 {
        Parsed::eof(s, 1)
    } else {
        cstring(s.skip(1)).chain(
            |name: Seq<char>, t: Seq<u8>|
                if t.len() < 8 {
                    Parsed::eof(t, 8)
                } else {
                    Parsed::ok(
                        ColumnView {
                            flags: i8_at(s, 0),
                            name,
                            type_id: i32_at(t, 0),
                            type_modifier: i32_at(t, 4),
                        },
                        t.skip(8),
                    )
                },
        )
    }
}

/// `n` more column descriptions, behind those in `seen`.
pub open spec fn columns(seen: Seq<ColumnView>, n: nat, s: Seq<u8>) -> Parsed<Seq<ColumnView>>
    decreases n,
{
    if n == 0 {
        Parsed::ok(seen, s)
    } else {
        column(s).chain(
            |c: ColumnView, rest: Seq<u8>| columns(seen.push(c), (n - 1) as nat, rest),
        )
    }
}

pub open spec fn column_views(v: Seq<Column>) -> Seq<ColumnView> {
    v.map_values(|c: Column| c@)
}

/// Reading column descriptions returned `r` and left `rest`, as `p` says.
pub open spec fn columns_read(
    r: Result<Vec<Column>, Error>,
    rest: Seq<u8>,
    p: Parsed<Seq<ColumnView>>,
) -> bool {
    &&& rest == p.rest
    &&& match (r, p.out) {
        (Ok(v), Ok(w)) => column_views(v@) == w,
        (Err(e), Err(f)) => e == f,
        _ => false,
    }
}

/// Takes a column description of a relation.
fn read_column(buf: &mut Bytes) -> (r: Result<Column, Error>)
    ensures
        reads(r, octets(*final(buf)), column(octets(*old(buf)))),
{
    ensure_remaining(buf, 1)?;
    let flags = get_i8(buf);
    let name = read_cstring(buf)?;
    ensure_remaining(buf, 4 + 4)?;
    Ok(Column { flags, name, type_id: get_i32(buf), type_modifier: get_i32(buf) })
}

/// Takes `count` column descriptions. The count is not trusted with an
/// allocation: it may exceed what the buffer can hold.
fn read_columns(buf: &mut Bytes, count: usize) -> (r: Result<Vec<Column>, Error>)
    ensures
        columns_read(
            r,
            octets(*final(buf)),
            columns(Seq::empty(), count as nat, octets(*old(buf))),
        ),
{
    let mut read: Vec<Column> = Vec::new();
    let ghost start = octets(*buf);
    assert(column_views(read@) =~= Seq::empty());
    let mut i: usize = 0;
    while i < count
        invariant
            i <= count,
            start == octets(*old(buf)),
            columns(Seq::empty(), count as nat, start) == columns(
                column_views(read@),
                (count - i) as nat,
                octets(*buf),
            ),
        decreases count - i,
    {
        let c = read_column(buf)?;
        assert(column_views(read@.push(c)) =~= column_views(read@).push(c@));
        read.push(c);
        i += 1;
    }
    Ok(read)
}

impl PgOutputMessage for Relation {
    /// `R`
    const TAG: u8 = 0x52;

    open spec fn body(s: Seq<u8>) -> Parsed<RelationView> {
        if s.len() < 4 {
            Parsed::eof(s, 4)
        } else {
            cstring(s.skip(4)).chain(
                |namespace: Seq<char>, t: Seq<u8>|
                    cstring(t).chain(
                        |name: Seq<char>, u: Seq<u8>|
                            if u.len() < 3 {
                                Parsed::eof(u, 3)
                            } else {
                                columns(
                                    Seq::empty(),
                                    count_of(i16_at(u, 1) as int) as nat,
                                    u.skip(3),
                                ).chain(
                                    |columns: Seq<ColumnView>, rest: Seq<u8>|
                                        Parsed::ok(
                                            RelationView {
                                                xid: None,
                                                relation_id: i32_at(s, 0),
                                                namespace,
                                                name,
                                                replica_identity: i8_at(u, 0),
                                                columns,
                                            },
                                            rest,
                                        ),
                                )
                            },
                    ),
            )
        }
    }

    fn parse_body(buf: &mut Bytes) -> (r: Result<Self, Error>) {
        ensure_remaining(buf, 4)?;
        let relation_id = get_i32(buf);

        let namespace = read_cstring(buf)?;
        let name = read_cstring(buf)?;

        ensure_remaining(buf, 1 + 2)?;
        let replica_identity = get_i8(buf);
        let column_count = to_count(get_i16(buf) as i32);

        let columns = read_columns(buf, column_count)?;

        Ok(Relation { xid: None, relation_id, namespace, name, replica_identity, columns })
    }
}

impl PgOutputMessage for Type {
    /// `Y`
    const TAG: u8 = 0x59;

    open spec fn body(s: Seq<u8>) -> Parsed<TypeView> {
        if s.len() < 4 {
            Parsed::eof(s, 4)
        } else {
            cstring(s.skip(4)).chain(
                |namespace: Seq<char>, t: Seq<u8>|
                    cstring(t).chain(
                        |name: Seq<char>, rest: Seq<u8>|
                            Parsed::ok(
                                TypeView { xid: None, type_id: i32_at(s, 0), namespace, name },
                                rest,
                            ),
                    ),
            )
        }
    }

    fn parse_body(buf: &mut Bytes) -> (r: Result<Self, Error>) {
        ensure_remaining(buf, 4)?;
        let type_id = get_i32(buf);
        Ok(
            Type {
                xid: None,
                type_id,
                namespace: read_cstring(buf)?,
                name: read_cstring(buf)?,
            },
        )
    }
}

/// Bytes behind their length, a number of four bytes.
pub open spec fn sized(s: Seq<u8>) -> Parsed<Seq<u8>> {
    if s.len() < 4 {
        Parsed::eof(s, 4)
    } else {
        let n = count_of(i32_at(s, 0) as int);
        let t = s.skip(4);
        if t.len() < n {
            Parsed::eof(t, n)
        } else {
            Parsed::ok(t.take(n), t.skip(n))
        }
    }
}

/// Takes bytes behind their length.
fn read_sized(buf: &mut Bytes) -> (r: Result<Bytes, Error>)
    ensures
        octets(*final(buf)) == sized(octets(*old(buf))).rest,
        match (r, sized(octets(*old(buf))).out) {
            (Ok(b), Ok(t)) => octets(b) == t,
            (Err(e), Err(f)) => e == f,
            _ => false,
        },
{
    ensure_remaining(buf, 4)?;
    let len = to_count(get_i32(buf));
    ensure_remaining(buf, len)?;
    Ok(buf.split_to(len))
}

/// A column value: `n`, `u`, or `t` with the bytes of the text.
pub open spec fn tuple_value(s: Seq<u8>) -> Parsed<TupleValueView> {
    if s.len() < 1 {
        Parsed::eof(s, 1)
    } else if s[0] == 0x6e {
        Parsed::ok(TupleValueView::Null, s.skip(1))
    } else if s[0] == 0x75 {
        Parsed::ok(TupleValueView::UnchangedToast, s.skip(1))
    } else if s[0] == 0x74 {
        sized(s.skip(1)).chain(
            |t: Seq<u8>, rest: Seq<u8>| Parsed::ok(TupleValueView::Text(t), rest),
        )
    } else {
        Parsed::fail(Error::UnsupportedTupleValue { tag: s[0] }, s.skip(1))
    }
}

/// `n` more column values, behind those in `seen`.
pub open spec fn tuple_values(seen: Seq<TupleValueView>, n: nat, s: Seq<u8>) -> Parsed<
    Seq<TupleValueView>,
>
    decreases n,
{
    if n == 0 {
        Parsed::ok(seen, s)
    } else {
        tuple_value(s).chain(
            |v: TupleValueView, rest: Seq<u8>| tuple_values(seen.push(v), (n - 1) as nat, rest),
        )
    }
}

/// A row: the number of its columns, in two bytes, and their values.
pub open spec fn tuple_data(s: Seq<u8>) -> Parsed<Seq<TupleValueView>> {
    if s.len() < 2 {
        Parsed::eof(s, 2)
    } else {
        tuple_values(Seq::empty(), count_of(i16_at(s, 0) as int) as nat, s.skip(2))
    }
}

/// Takes a column value.
fn read_tuple_value(buf: &mut Bytes) -> (r: Result<TupleValue, Error>)
    ensures
        reads(r, octets(*final(buf)), tuple_value(octets(*old(buf)))),
{
    ensure_remaining(buf, 1)?;
    let tag = get_u8(buf);
    match tag {
        0x6e => Ok(TupleValue::Null),
        0x75 => Ok(TupleValue::UnchangedToast),
        0x74 => Ok(TupleValue::Text(read_sized(buf)?)),
        other => Err(Error::UnsupportedTupleValue { tag: other }),
    }
}

/// Takes a row. The number of columns is not trusted with an allocation: it may
/// exceed what the buffer can hold.
pub fn read_tuple_data(buf: &mut Bytes) -> (r: Result<TupleData, Error>)
    ensures
        reads(r, octets(*final(buf)), tuple_data(octets(*old(buf)))),
{
    ensure_remaining(buf, 2)?;
    let column_count = to_count(get_i16(buf) as i32);
    let mut row = TupleData { columns: Vec::new() };
    assert(row@ =~= Seq::empty());
    let mut i: usize = 0;
    while i < column_count
        invariant
            i <= column_count,
            tuple_data(octets(*old(buf))) == tuple_values(
                row@,
                (column_count - i) as nat,
                octets(*buf),
            ),
        decreases column_count - i,
    {
        let value = read_tuple_value(buf)?;
        let ghost before = row@;
        row.columns.push(value);
        assert(row@ =~= before.push(value@));
        i += 1;
    }
    Ok(row)
}

impl PgOutputMessage for Insert {
    /// `I`
    const TAG: u8 = 0x49;

    open spec fn body(s: Seq<u8>) -> Parsed<InsertView> {
        if s.len() < 5 {
            Parsed::eof(s, 5)
        } else if s[4] != 0x4e {
            Parsed::fail(Error::ExpectedNewTuple { tag: s[4] }, s.skip(5))
        } else {
            tuple_data(s.skip(5)).chain(
                |new_tuple: Seq<TupleValueView>, rest: Seq<u8>|
                    Parsed::ok(
                        InsertView { xid: None, relation_id: i32_at(s, 0), new_tuple },
                        rest,
                    ),
            )
        }
    }

    fn parse_body(buf: &mut Bytes) -> (r: Result<Self, Error>) {
        ensure_remaining(buf, 4 + 1)?;
        let relation_id = get_i32(buf);
        let tuple_tag = get_u8(buf);
        if tuple_tag != 0x4e {
            return Err(Error::ExpectedNewTuple { tag: tuple_tag });
        }
        Ok(Insert { xid: None, relation_id, new_tuple: read_tuple_data(buf)? })
    }
}

/// A new row behind its tag `N`.
pub open spec fn tagged_new_tuple(s: Seq<u8>) -> Parsed<Seq<TupleValueView>> {
    if s.len() < 1 {
        Parsed::eof(s, 1)
    } else if s[0] != 0x4e {
        Parsed::fail(Error::ExpectedNewTuple { tag: s[0] }, s.skip(1))
    } else {
        tuple_data(s.skip(1))
    }
}

impl PgOutputMessage for Update {
    /// `U`
    const TAG: u8 = 0x55;

    /// The old row comes first, behind `K` or `O`; where it is left out, the new
    /// row stands alone.
    open spec fn body(s: Seq<u8>) -> Parsed<UpdateView> {
        if s.len() < 5 {
            Parsed::eof(s, 5)
        } else if s[4] == 0x4b || s[4] == 0x4f {
            tuple_data(s.skip(5)).chain(
                |old_row: Seq<TupleValueView>, t: Seq<u8>|
                    tagged_new_tuple(t).chain(
                        |new_tuple: Seq<TupleValueView>, rest: Seq<u8>|
                            Parsed::ok(
                                UpdateView {
                                    xid: None,
                                    relation_id: i32_at(s, 0),
                                    old_tuple: Some(
                                        if s[4] == 0x4b {
                                            OldTupleView::Key(old_row)
                                        } else {
                                            OldTupleView::Old(old_row)
                                        },
                                    ),
                                    new_tuple,
                                },
                                rest,
                            ),
                    ),
            )
        } else if s[4] == 0x4e {
            tuple_data(s.skip(5)).chain(
                |new_tuple: Seq<TupleValueView>, rest: Seq<u8>|
                    Parsed::ok(
                        UpdateView {
                            xid: None,
                            relation_id: i32_at(s, 0),
                            old_tuple: None,
                            new_tuple,
                        },
                        rest,
                    ),
            )
        } else {
            Parsed::fail(Error::UnexpectedUpdateTuple { tag: s[4] }, s.skip(5))
        }
    }

    fn parse_body(buf: &mut Bytes) -> (r: Result<Self, Error>) {
        ensure_remaining(buf, 4 + 1)?;
        let relation_id = get_i32(buf);
        let tuple_tag = get_u8(buf);

        let old_tuple = match tuple_tag {
            0x4b => Some(OldTuple::Key(read_tuple_data(buf)?)),
            0x4f => Some(OldTuple::Old(read_tuple_data(buf)?)),
            0x4e => None,
            other => return Err(Error::UnexpectedUpdateTuple { tag: other }),
        };

        let new_tuple = if tuple_tag == 0x4e {
            read_tuple_data(buf)?
        } else {
            ensure_remaining(buf, 1)?;
            let next_tag = get_u8(buf);
            if next_tag != 0x4e {
                return Err(Error::ExpectedNewTuple { tag: next_tag });
            }
            read_tuple_data(buf)?
        };

        Ok(Update { xid: None, relation_id, old_tuple, new_tuple })
    }
}

impl PgOutputMessage for Delete {
    /// `D`
    const TAG: u8 = 0x44;

    open spec fn body(s: Seq<u8>) -> Parsed<DeleteView> {
        if s.len() < 5 {
            Parsed::eof(s, 5)
        } else if s[4] == 0x4b || s[4] == 0x4f {
            tuple_data(s.skip(5)).chain(
                |old_row: Seq<TupleValueView>, rest: Seq<u8>|
                    Parsed::ok(
                        DeleteView {
                            xid: None,
                            relation_id: i32_at(s, 0),
                            old_tuple: if s[4] == 0x4b {
                                OldTupleView::Key(old_row)
                            } else {
                                OldTupleView::Old(old_row)
                            },
                        },
                        rest,
                    ),
            )
        } else {
            Parsed::fail(Error::UnexpectedDeleteTuple { tag: s[4] }, s.skip(5))
        }
    }

    fn parse_body(buf: &mut Bytes) -> (r: Result<Self, Error>) {
        ensure_remaining(buf, 4 + 1)?;
        let relation_id = get_i32(buf);
        let tuple_tag = get_u8(buf);
        let old_tuple = match tuple_tag {
            0x4b => OldTuple::Key(read_tuple_data(buf)?),
            0x4f => OldTuple::Old(read_tuple_data(buf)?),
            other => return Err(Error::UnexpectedDeleteTuple { tag: other }),
        };
        Ok(Delete { xid: None, relation_id, old_tuple })
    }
}

impl PgOutputMessage for Truncate {
    /// `T`
    const TAG: u8 = 0x54;

    /// The number of relations, the options, and the relation ids.
    open spec fn body(s: Seq<u8>) -> Parsed<TruncateView> {
        if s.len() < 5 {
            Parsed::eof(s, 5)
        } else {
            let n = count_of(i32_at(s, 0) as int);
            let t = s.skip(5);
            if t.len() < n * 4 {
                Parsed::eof(t, n * 4 % (usize::MAX + 1))
            } else {
                Parsed::ok(
                    TruncateView {
                        xid: None,
                        relation_ids: Seq::new(n as nat, |i: int| i32_at(t, 4 * i)),
                        options: TruncateOptions {
                            cascade: s[4] & 0b0000_0001 != 0,
                            restart_identity: s[4] & 0b0000_0010 != 0,
                        },
                    },
                    t.skip(n * 4),
                )
            }
        }
    }

    fn parse_body(buf: &mut Bytes) -> (r: Result<Self, Error>) {
        ensure_remaining(buf, 4 + 1)?;
        let relation_count = to_count(get_i32(buf));
        let raw_options = get_u8(buf);

        let ids_len = relation_count.wrapping_mul(4);
        proof {
            lemma_mod_bound(relation_count * 4, usize::MAX + 1);
            if relation_count * 4 <= usize::MAX {
                lemma_small_mod((relation_count * 4) as nat, (usize::MAX + 1) as nat);
            }
            assert(ids_len == relation_count * 4 % (usize::MAX + 1));
        }
        let have = buf.len();
        if relation_count > usize::MAX / 4 || have < ids_len {
            return Err(Error::UnexpectedEof { need: ids_len, have });
        }
        let ghost t = octets(*buf);
        let mut relation_ids: Vec<i32> = Vec::with_capacity(relation_count);
        let mut i: usize = 0;
        while i < relation_count
            invariant
                i <= relation_count,
                relation_count * 4 <= t.len(),
                octets(*buf) == t.skip(4 * i),
                relation_ids@ == Seq::new(i as nat, |j: int| i32_at(t, 4 * j)),
            decreases relation_count - i,
        {
            relation_ids.push(get_i32(buf));
            i += 1;
            assert(relation_ids@ =~= Seq::new(i as nat, |j: int| i32_at(t, 4 * j)));
        }

        Ok(
            Truncate {
                xid: None,
                relation_ids,
                options: TruncateOptions {
                    cascade: raw_options & 0b0000_0001 != 0,
                    restart_identity: raw_options & 0b0000_0010 != 0,
                },
            },
        )
    }
}

impl PgOutputMessage for Message {
    /// `M`
    const TAG: u8 = 0x4d;

    open spec fn body(s: Seq<u8>) -> Parsed<MessageView> {
        if s.len() < 9 {
            Parsed::eof(s, 9)
        } else {
            cstring(s.skip(9)).chain(
                |prefix: Seq<char>, t: Seq<u8>|
                    sized(t).chain(
                        |content: Seq<u8>, rest: Seq<u8>|
                            Parsed::ok(
                                MessageView {
                                    xid: None,
                                    flags: i8_at(s, 0),
                                    lsn: i64_at(s, 1),
                                    prefix,
                                    content,
                                },
                                rest,
                            ),
                    ),
            )
        }
    }

    fn parse_body(buf: &mut Bytes) -> (r: Result<Self, Error>) {
        ensure_remaining(buf, 1 + 8)?;
        let flags = get_i8(buf);
        let lsn = get_i64(buf);
        let prefix = read_cstring(buf)?;
        let content = read_sized(buf)?;
        Ok(Message { xid: None, flags, lsn, prefix, content })
    }
}

impl PgOutputMessage for StreamStart {
    /// `S`
    const TAG: u8 = 0x53;

    open spec fn body(s: Seq<u8>) -> Parsed<StreamStart> {
        if s.len() < 5 {
            Parsed::eof(s, 5)
        } else {
            Parsed::ok(StreamStart { xid: i32_at(s, 0), first_segment: s[4] != 0 }, s.skip(5))
        }
    }

    fn parse_body(buf: &mut Bytes) -> (r: Result<Self, Error>) {
        ensure_remaining(buf, 4 + 1)?;
        Ok(StreamStart { xid: get_i32(buf), first_segment: get_u8(buf) != 0 })
    }
}

impl PgOutputMessage for StreamStop {
    /// `E`
    const TAG: u8 = 0x45;

    open spec fn body(s: Seq<u8>) -> Parsed<StreamStop> {
        Parsed::ok(StreamStop, s)
    }

    fn parse_body(_buf: &mut Bytes) -> (r: Result<Self, Error>) {
        Ok(StreamStop)
    }
}

impl PgOutputMessage for StreamCommit {
    /// `c`
    const TAG: u8 = 0x63;

    open spec fn body(s: Seq<u8>) -> Parsed<StreamCommit> {
        if s.len() < 29 {
            Parsed::eof(s, 29)
        } else {
            Parsed::ok(
                StreamCommit {
                    xid: i32_at(s, 0),
                    flags: i8_at(s, 4),
                    commit_lsn: i64_at(s, 5),
                    end_lsn: i64_at(s, 13),
                    commit_timestamp: i64_at(s, 21),
                },
                s.skip(29),
            )
        }
    }

    fn parse_body(buf: &mut Bytes) -> (r: Result<Self, Error>) {
        ensure_remaining(buf, 4 + 1 + 8 + 8 + 8)?;
        Ok(
            StreamCommit {
                xid: get_i32(buf),
                flags: get_i8(buf),
                commit_lsn: get_i64(buf),
                end_lsn: get_i64(buf),
                commit_timestamp: get_i64(buf),
            },
        )
    }
}

impl PgOutputMessage for StreamAbort {
    /// `A`
    const TAG: u8 = 0x41;

    open spec fn body(s: Seq<u8>) -> Parsed<StreamAbort> {
        if s.len() < 8 {
            Parsed::eof(s, 8)
        } else {
            Parsed::ok(StreamAbort { xid: i32_at(s, 0), subxid: i32_at(s, 4) }, s.skip(8))
        }
    }

    fn parse_body(buf: &mut Bytes) -> (r: Result<Self, Error>) {
        ensure_remaining(buf, 4 + 4)?;
        Ok(StreamAbort { xid: get_i32(buf), subxid: get_i32(buf) })
    }
}

/// What a payload of the logical replication stream says: its first byte tells
/// the kind of the message (`B`, `M`, `C`, `O`, `R`, `Y`, `I`, `U`, `D`, `T`, `S`,
/// `E`, `c` or `A`). Bytes behind the message are ignored.
pub open spec fn logical_message(payload: Seq<u8>) -> Result<LogicalReplicationView, Error> {
    if payload.len() < 1 {
        Err(eof(payload, 1))
    } else {
        let tag = payload[0];
        let s = payload.skip(1);
        if tag == 0x42 {
            wrap(Begin::body(s).out, |m| LogicalReplicationView::Begin(m))
        } else if tag == 0x4d {
            wrap(Message::body(s).out, |m| LogicalReplicationView::Message(m))
        } else if tag == 0x43 {
            wrap(Commit::body(s).out, |m| LogicalReplicationView::Commit(m))
        } else if tag == 0x4f {
            wrap(Origin::body(s).out, |m| LogicalReplicationView::Origin(m))
        } else if tag == 0x52 {
            wrap(Relation::body(s).out, |m| LogicalReplicationView::Relation(m))
        } else if tag == 0x59 {
            wrap(Type::body(s).out, |m| LogicalReplicationView::Type(m))
        } else if tag == 0x49 {
            wrap(Insert::body(s).out, |m| LogicalReplicationView::Insert(m))
        } else if tag == 0x55 {
            wrap(Update::body(s).out, |m| LogicalReplicationView::Update(m))
        } else if tag == 0x44 {
            wrap(Delete::body(s).out, |m| LogicalReplicationView::Delete(m))
        } else if tag == 0x54 {
            wrap(Truncate::body(s).out, |m| LogicalReplicationView::Truncate(m))
        } else if tag == 0x53 {
            wrap(StreamStart::body(s).out, |m| LogicalReplicationView::StreamStart(m))
        } else if tag == 0x45 {
            wrap(StreamStop::body(s).out, |m| LogicalReplicationView::StreamStop(m))
        } else if tag == 0x63 {
            wrap(StreamCommit::body(s).out, |m| LogicalReplicationView::StreamCommit(m))
        } else if tag == 0x41 {
            wrap(StreamAbort::body(s).out, |m| LogicalReplicationView::StreamAbort(m))
        } else {
            Err(Error::UnsupportedLogicalMessage { tag })
        }
    }
}

/// Decodes a payload of the logical replication stream.
pub fn parse(payload: Bytes) -> (r: Result<LogicalReplicationMessage, Error>)
    ensures
        agrees(r, logical_message(octets(payload))),
{
    let mut payload = payload;
    ensure_remaining(&payload, 1)?;
    let tag = get_u8(&mut payload);
    if tag == Begin::TAG {
        match Begin::parse_body(&mut payload) {
            Ok(m) => Ok(LogicalReplicationMessage::Begin(m)),
            Err(e) => Err(e),
        }
    } else if tag == Message::TAG {
        match Message::parse_body(&mut payload) {
            Ok(m) => Ok(LogicalReplicationMessage::Message(m)),
            Err(e) => Err(e),
        }
    } else if tag == Commit::TAG {
        match Commit::parse_body(&mut payload) {
            Ok(m) => Ok(LogicalReplicationMessage::Commit(m)),
            Err(e) => Err(e),
        }
    } else if tag == Origin::TAG {
        match Origin::parse_body(&mut payload) {
            Ok(m) => Ok(LogicalReplicationMessage::Origin(m)),
            Err(e) => Err(e),
        }
    } else if tag == Relation::TAG {
        match Relation::parse_body(&mut payload) {
            Ok(m) => Ok(LogicalReplicationMessage::Relation(m)),
            Err(e) => Err(e),
        }
    } else if tag == Type::TAG {
        match Type::parse_body(&mut payload) {
            Ok(m) => Ok(LogicalReplicationMessage::Type(m)),
            Err(e) => Err(e),
        }
    } else if tag == Insert::TAG {
        match Insert::parse_body(&mut payload) {
            Ok(m) => Ok(LogicalReplicationMessage::Insert(m)),
            Err(e) => Err(e),
        }
    } else if tag == Update::TAG {
        match Update::parse_body(&mut payload) {
            Ok(m) => Ok(LogicalReplicationMessage::Update(m)),
            Err(e) => Err(e),
        }
    } else if tag == Delete::TAG {
        match Delete::parse_body(&mut payload) {
            Ok(m) => Ok(LogicalReplicationMessage::Delete(m)),
            Err(e) => Err(e),
        }
    } else if tag == Truncate::TAG {
        match Truncate::parse_body(&mut payload) {
            Ok(m) => Ok(LogicalReplicationMessage::Truncate(m)),
            Err(e) => Err(e),
        }
    } else if tag == StreamStart::TAG {
        match StreamStart::parse_body(&mut payload) {
            Ok(m) => Ok(LogicalReplicationMessage::StreamStart(m)),
            Err(e) => Err(e),
        }
    } else if tag == StreamStop::TAG {
        match StreamStop::parse_body(&mut payload) {
            Ok(m) => Ok(LogicalReplicationMessage::StreamStop(m)),
            Err(e) => Err(e),
        }
    } else if tag == StreamCommit::TAG {
        match StreamCommit::parse_body(&mut payload) {
            Ok(m) => Ok(LogicalReplicationMessage::StreamCommit(m)),
            Err(e) => Err(e),
        }
    } else if tag == StreamAbort::TAG {
        match StreamAbort::parse_body(&mut payload) {
            Ok(m) => Ok(LogicalReplicationMessage::StreamAbort(m)),
            Err(e) => Err(e),
        }
    } else {
        Err(Error::UnsupportedLogicalMessage { tag })
    }
}

} // verus!
