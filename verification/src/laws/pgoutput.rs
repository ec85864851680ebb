//! What holds of the messages of the replication stream.

use vstd::prelude::*;

use crate::octets::{i16_at, i32_at, i64_at, i8_at};
use crate::pgoutput::{
    column, columns, logical_message, sized, tuple_data, tuple_value, tuple_values, Begin,
    ColumnView, Commit, Delete, Insert, Message, Origin, PgOutputMessage, Relation, StreamAbort,
    StreamCommit, StreamStart, StreamStop, Truncate, TupleValueView, Type, Update,
};
use crate::wire::{count_of, cstring, lemma_position, position, Parsed};

verus! {

/// Column values take up at least a byte each.
proof fn lemma_values_read(seen: Seq<TupleValueView>, n: nat, s: Seq<u8>)
    ensures
        match tuple_values(seen, n, s).out {
            Ok(row) => row.len() == seen.len() + n && n <= s.len(),
            Err(_) => true,
        },
    decreases n,
{
    if n > 0 {
        match tuple_value(s).out {
            Ok(v) => {
                assert(tuple_value(s).rest.len() < s.len());
                lemma_values_read(seen.push(v), (n - 1) as nat, tuple_value(s).rest);
            },
            Err(_) => {},
        }
    }
}

/// A row has as many values as it announces, and no row announces a negative
/// number of them. (No buffer is longer than `isize::MAX`.)
pub proof fn rows_are_as_announced(s: Seq<u8>)
    requires
        s.len() <= isize::MAX,
    ensures
        match tuple_data(s).out {
            Ok(row) => row.len() == i16_at(s, 0),
            Err(_) => true,
        },
        s.len() >= 2 && i16_at(s, 0) < 0 ==> tuple_data(s).out is Err,
{
    if s.len() >= 2 {
        lemma_values_read(
            Seq::empty(),
            count_of(i16_at(s, 0) as int) as nat,
            s.skip(2),
        );
    }
}

/// Column descriptions take up at least a byte each.
proof fn lemma_columns_read(seen: Seq<ColumnView>, n: nat, s: Seq<u8>)
    ensures
        match columns(seen, n, s).out {
            Ok(read) => read.len() == seen.len() + n && n <= s.len(),
            Err(_) => true,
        },
    decreases n,
{
    if n > 0 {
        match column(s).out {
            Ok(c) => {
                lemma_position(s.skip(1), 0);
                assert(column(s).rest.len() < s.len());
                lemma_columns_read(seen.push(c), (n - 1) as nat, column(s).rest);
            },
            Err(_) => {},
        }
    }
}

/// A relation has as many columns as it announces, behind its name, and none
/// announces a negative number of them.
pub proof fn relations_are_as_announced(s: Seq<u8>)
    requires
        s.len() <= isize::MAX,
    ensures
        match Relation::body(s).out {
            Ok(relation) => relation.columns.len() == i16_at(
                cstring(cstring(s.skip(4)).rest).rest,
                1,
            ),
            Err(_) => true,
        },
{
    match Relation::body(s).out {
        Ok(relation) => {
            let t = cstring(s.skip(4)).rest;
            let u = cstring(t).rest;
            lemma_position(s.skip(4), 0);
            lemma_position(t, 0);
            lemma_columns_read(
                Seq::empty(),
                count_of(i16_at(u, 1) as int) as nat,
                u.skip(3),
            );
        },
        Err(_) => {},
    }
}

/// Bytes behind their length are as many as it says, and none are behind a
/// negative length.
pub proof fn sized_bytes_are_as_announced(s: Seq<u8>)
    requires
        s.len() <= isize::MAX,
    ensures
        match sized(s).out {
            Ok(t) => t.len() == i32_at(s, 0) && t == s.subrange(4, 4 + t.len() as int),
            Err(_) => true,
        },
{
    match sized(s).out {
        Ok(t) => assert(t =~= s.subrange(4, 4 + t.len() as int)),
        Err(_) => {},
    }
}

/// As many relations are truncated as are announced.
pub proof fn truncations_are_as_announced(s: Seq<u8>)
    requires
        s.len() <= isize::MAX,
    ensures
        match Truncate::body(s).out {
            Ok(truncate) => truncate.relation_ids.len() == i32_at(s, 0),
            Err(_) => true,
        },
{
}

// Bytes behind a message do not change what it says.

broadcast proof fn skip_append(s: Seq<u8>, more: Seq<u8>, n: int)
    requires
        0 <= n <= s.len(),
    ensures
        #[trigger] (s + more).skip(n) == s.skip(n) + more,
{
    assert((s + more).skip(n) =~= s.skip(n) + more);
}

broadcast proof fn take_append(s: Seq<u8>, more: Seq<u8>, n: int)
    requires
        0 <= n <= s.len(),
    ensures
        #[trigger] (s + more).take(n) == s.take(n),
{
    assert((s + more).take(n) =~= s.take(n));
}

broadcast proof fn i8_at_append(s: Seq<u8>, more: Seq<u8>, i: int)
    requires
        0 <= i < s.len(),
    ensures
        #[trigger] i8_at(s + more, i) == i8_at(s, i),
{
}

broadcast proof fn i16_at_append(s: Seq<u8>, more: Seq<u8>, i: int)
    requires
        0 <= i,
        i + 2 <= s.len(),
    ensures
        #[trigger] i16_at(s + more, i) == i16_at(s, i),
{
}

broadcast proof fn i32_at_append(s: Seq<u8>, more: Seq<u8>, i: int)
    requires
        0 <= i,
        i + 4 <= s.len(),
    ensures
        #[trigger] i32_at(s + more, i) == i32_at(s, i),
{
}

broadcast proof fn i64_at_append(s: Seq<u8>, more: Seq<u8>, i: int)
    requires
        0 <= i,
        i + 8 <= s.len(),
    ensures
        #[trigger] i64_at(s + more, i) == i64_at(s, i),
{
}

broadcast group group_append {
    skip_append,
    take_append,
    i8_at_append,
    i16_at_append,
    i32_at_append,
    i64_at_append,
}

/// Where `p` succeeds, `q` gives the same value, and leaves `more` bytes besides.
spec fn stable<T>(p: Parsed<T>, q: Parsed<T>, more: Seq<u8>) -> bool {
    match p.out {
        Ok(v) => q == Parsed::ok(v, p.rest + more),
        Err(_) => true,
    }
}

proof fn lemma_cstring_stable(s: Seq<u8>, more: Seq<u8>)
    ensures
        stable(cstring(s), cstring(s + more), more),
{
    broadcast use group_append;

    lemma_position(s, 0);
    lemma_position(s + more, 0);
    match position(s, 0) {
        Some(n) => {
            assert((s + more)[n] == 0);
            assert(forall|i: int| 0 <= i < n ==> (s + more)[i] == s[i]);
            assert(position(s + more, 0) == Some(n));
        },
        None => {},
    }
}

proof fn lemma_sized_stable(s: Seq<u8>, more: Seq<u8>)
    ensures
        stable(sized(s), sized(s + more), more),
{
    broadcast use group_append;

}

proof fn lemma_values_stable(seen: Seq<TupleValueView>, n: nat, s: Seq<u8>, more: Seq<u8>)
    ensures
        stable(tuple_values(seen, n, s), tuple_values(seen, n, s + more), more),
    decreases n,
{
    broadcast use group_append;

    if n > 0 && s.len() > 0 {
        lemma_sized_stable(s.skip(1), more);
        assert(stable(tuple_value(s), tuple_value(s + more), more));
        match tuple_value(s).out {
            Ok(v) => lemma_values_stable(
                seen.push(v),
                (n - 1) as nat,
                tuple_value(s).rest,
                more,
            ),
            Err(_) => {},
        }
    }
}

proof fn lemma_row_stable(s: Seq<u8>, more: Seq<u8>)
    ensures
        stable(tuple_data(s), tuple_data(s + more), more),
{
    broadcast use group_append;

    if s.len() >= 2 {
        lemma_values_stable(
            Seq::empty(),
            count_of(i16_at(s, 0) as int) as nat,
            s.skip(2),
            more,
        );
    }
}

proof fn lemma_columns_stable(seen: Seq<ColumnView>, n: nat, s: Seq<u8>, more: Seq<u8>)
    ensures
        stable(columns(seen, n, s), columns(seen, n, s + more), more),
    decreases n,
{
    broadcast use group_append;

    if n > 0 && s.len() > 0 {
        lemma_cstring_stable(s.skip(1), more);
        assert(stable(column(s), column(s + more), more));
        match column(s).out {
            Ok(c) => lemma_columns_stable(seen.push(c), (n - 1) as nat, column(s).rest, more),
            Err(_) => {},
        }
    }
}

proof fn lemma_begin_stable(s: Seq<u8>, more: Seq<u8>)
    ensures
        stable(Begin::body(s), Begin::body(s + more), more),
{
    broadcast use group_append;

}

proof fn lemma_commit_stable(s: Seq<u8>, more: Seq<u8>)
    ensures
        stable(Commit::body(s), Commit::body(s + more), more),
{
    broadcast use group_append;

}

proof fn lemma_stream_start_stable(s: Seq<u8>, more: Seq<u8>)
    ensures
        stable(StreamStart::body(s), StreamStart::body(s + more), more),
{
    broadcast use group_append;

}

proof fn lemma_stream_stop_stable(s: Seq<u8>, more: Seq<u8>)
    ensures
        stable(StreamStop::body(s), StreamStop::body(s + more), more),
{
    broadcast use group_append;

}

proof fn lemma_stream_commit_stable(s: Seq<u8>, more: Seq<u8>)
    ensures
        stable(StreamCommit::body(s), StreamCommit::body(s + more), more),
{
    broadcast use group_append;

}

proof fn lemma_stream_abort_stable(s: Seq<u8>, more: Seq<u8>)
    ensures
        stable(StreamAbort::body(s), StreamAbort::body(s + more), more),
{
    broadcast use group_append;

}

proof fn lemma_origin_stable(s: Seq<u8>, more: Seq<u8>)
    ensures
        stable(Origin::body(s), Origin::body(s + more), more),
{
    broadcast use group_append;

    if s.len() >= 8 {
        lemma_cstring_stable(s.skip(8), more);
    }
}

proof fn lemma_type_stable(s: Seq<u8>, more: Seq<u8>)
    ensures
        stable(Type::body(s), Type::body(s + more), more),
{
    broadcast use group_append;

    if s.len() >= 4 {
        lemma_cstring_stable(s.skip(4), more);
        lemma_cstring_stable(cstring(s.skip(4)).rest, more);
    }
}

proof fn lemma_relation_stable(s: Seq<u8>, more: Seq<u8>)
    ensures
        stable(Relation::body(s), Relation::body(s + more), more),
{
    broadcast use group_append;

    if s.len() >= 4 {
        lemma_cstring_stable(s.skip(4), more);
        lemma_cstring_stable(cstring(s.skip(4)).rest, more);
        let u = cstring(cstring(s.skip(4)).rest).rest;
        if u.len() >= 3 {
            lemma_columns_stable(
                Seq::empty(),
                count_of(i16_at(u, 1) as int) as nat,
                u.skip(3),
                more,
            );
        }
    }
}

proof fn lemma_insert_stable(s: Seq<u8>, more: Seq<u8>)
    ensures
        stable(Insert::body(s), Insert::body(s + more), more),
{
    broadcast use group_append;

    if s.len() >= 5 {
        lemma_row_stable(s.skip(5), more);
    }
}

proof fn lemma_delete_stable(s: Seq<u8>, more: Seq<u8>)
    ensures
        stable(Delete::body(s), Delete::body(s + more), more),
{
    broadcast use group_append;

    if s.len() >= 5 {
        lemma_row_stable(s.skip(5), more);
    }
}

proof fn lemma_update_stable(s: Seq<u8>, more: Seq<u8>)
    ensures
        stable(Update::body(s), Update::body(s + more), more),
{
    broadcast use group_append;

    if s.len() >= 5 {
        lemma_row_stable(s.skip(5), more);
        let t = tuple_data(s.skip(5)).rest;
        if t.len() >= 1 {
            lemma_row_stable(t.skip(1), more);
        }
    }
}

proof fn lemma_message_stable(s: Seq<u8>, more: Seq<u8>)
    ensures
        stable(Message::body(s), Message::body(s + more), more),
{
    broadcast use group_append;

    if s.len() >= 9 {
        lemma_cstring_stable(s.skip(9), more);
        lemma_sized_stable(cstring(s.skip(9)).rest, more);
    }
}

proof fn lemma_truncate_stable(s: Seq<u8>, more: Seq<u8>)
    ensures
        stable(Truncate::body(s), Truncate::body(s + more), more),
{
    broadcast use group_append;

    if s.len() >= 5 {
        let n = count_of(i32_at(s, 0) as int);
        let t = s.skip(5);
        if n * 4 <= t.len() {
            assert(Seq::new(n as nat, |i: int| i32_at(t + more, 4 * i)) =~= Seq::new(
                n as nat,
                |i: int| i32_at(t, 4 * i),
            ));
        }
    }
}

/// Bytes behind a message do not change what it says.
pub proof fn trailing_bytes_are_ignored(payload: Seq<u8>, more: Seq<u8>)
    requires
        logical_message(payload) is Ok,
    ensures
        logical_message(payload + more) == logical_message(payload),
{
    let s = payload.skip(1);
    assert((payload + more).skip(1) =~= s + more);
    lemma_begin_stable(s, more);
    lemma_message_stable(s, more);
    lemma_commit_stable(s, more);
    lemma_origin_stable(s, more);
    lemma_relation_stable(s, more);
    lemma_type_stable(s, more);
    lemma_insert_stable(s, more);
    lemma_update_stable(s, more);
    lemma_delete_stable(s, more);
    lemma_truncate_stable(s, more);
    lemma_stream_start_stable(s, more);
    lemma_stream_stop_stable(s, more);
    lemma_stream_commit_stable(s, more);
    lemma_stream_abort_stable(s, more);
}

} // verus!
