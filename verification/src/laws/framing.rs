//! What is written can be read back, and frames are told apart.

use vstd::prelude::*;
use vstd::utf8::{encode_scalar, encode_utf8, encode_utf8_decode_utf8, encode_utf8_valid_utf8};

use crate::backend::{backend_message, length_error, message_of, MAX_FRAME_SIZE};
use crate::machine::{next_frame, Frame};
use crate::octets::{i32_at, i32_octets, u32_at, u32_octets};
use crate::protocol::framed;
use crate::wire::{cstr_octets, cstring, lemma_position, position, Parsed};

verus! {

/// The four bytes of an unsigned number read as that number.
pub proof fn unsigned_round_trip(n: u32)
    ensures
        u32_octets(n).len() == 4,
        u32_at(u32_octets(n), 0) == n,
{
}

/// Four bytes are those of the unsigned number that they read as.
pub proof fn unsigned_read_is_written(s: Seq<u8>)
    requires
        s.len() == 4,
    ensures
        u32_octets(u32_at(s, 0)) == s,
{
}

/// The four bytes of a signed number read as that number.
pub proof fn signed_round_trip(n: i32)
    ensures
        i32_octets(n).len() == 4,
        i32_at(i32_octets(n), 0) == n,
{
}

/// The encoding of a character other than the zero character holds no zero byte.
proof fn lemma_scalar_without_zero(c: char)
    requires
        c != '\0',
    ensures
        !encode_scalar(c as u32).contains(0),
{
    let v = c as u32;
    assert(v != 0);
    assert(v <= 0x7f ==> (v & 0x7f) as u8 != 0 || v == 0) by (bit_vector);
    assert(forall|b: u8| #[trigger] (0xc0 | b) != 0u8) by (bit_vector);
    assert(forall|b: u8| #[trigger] (0xe0 | b) != 0u8) by (bit_vector);
    assert(forall|b: u8| #[trigger] (0xf0 | b) != 0u8) by (bit_vector);
    assert(forall|b: u8| #[trigger] (0x80 | b) != 0u8) by (bit_vector);
}

/// The encoding of a text without the zero character holds no zero byte.
proof fn lemma_text_without_zero(text: Seq<char>)
    requires
        !text.contains('\0'),
    ensures
        !encode_utf8(text).contains(0),
    decreases text.len(),
{
    if text.len() > 0 {
        assert(text.contains(text[0]));
        lemma_scalar_without_zero(text[0]);
        assert(!text.drop_first().contains('\0')) by {
            assert forall|i: int| 0 <= i < text.drop_first().len() implies text.drop_first()[i]
                != '\0' by {
                assert(text.contains(text[i + 1]));
            }
        }
        lemma_text_without_zero(text.drop_first());
        let first = encode_scalar(text[0] as u32);
        let others = encode_utf8(text.drop_first());
        assert forall|i: int| 0 <= i < (first + others).len() implies (first + others)[i] != 0 by {
            if i < first.len() {
                assert(first.contains(first[i]));
            } else {
                assert(others.contains(others[i - first.len()]));
            }
        }
    }
}

/// A text without the zero character that was written with its terminator is read
/// back, and what follows it is left.
pub proof fn cstring_round_trip(text: Seq<char>, rest: Seq<u8>)
    requires
        !text.contains('\0'),
    ensures
        cstring(cstr_octets(text) + rest) == Parsed::ok(text, rest),
{
    let s = cstr_octets(text) + rest;
    let n = encode_utf8(text).len() as int;
    lemma_text_without_zero(text);
    lemma_position(s, 0);
    assert(s[n] == 0);
    assert(position(s, 0) == Some(n)) by {
        assert forall|i: int| 0 <= i < n implies s[i] != 0 by {
            assert(encode_utf8(text).contains(encode_utf8(text)[i]));
        }
    }
    assert(s.take(n) =~= encode_utf8(text));
    assert(s.skip(n + 1) =~= rest);
    encode_utf8_valid_utf8(text);
    encode_utf8_decode_utf8(text);
}

/// A frame is taken whole, whatever follows it.
pub proof fn frame_is_taken_whole(tag: u8, body: Seq<u8>, more: Seq<u8>)
    requires
        4 + body.len() <= MAX_FRAME_SIZE,
    ensures
        next_frame(framed(tag, body) + more) == Frame::Whole(framed(tag, body), more),
{
    let frame = framed(tag, body);
    let data = frame + more;
    assert(u32_at(data, 1) == 4 + body.len());
    assert(data.take(frame.len() as int) =~= frame);
    assert(data.skip(frame.len() as int) =~= more);
}

/// A frame that lacks its last bytes is waited for.
pub proof fn frame_is_waited_for(tag: u8, body: Seq<u8>, n: int)
    requires
        4 + body.len() <= MAX_FRAME_SIZE,
        0 <= n < framed(tag, body).len(),
    ensures
        next_frame(framed(tag, body).take(n)) == Frame::Partial,
{
    if n >= 5 {
        assert(u32_at(framed(tag, body).take(n), 1) == 4 + body.len());
    }
}

/// The parts of a frame.
proof fn lemma_frame_parts(tag: u8, body: Seq<u8>)
    requires
        4 + body.len() <= MAX_FRAME_SIZE,
    ensures
        framed(tag, body).len() == 5 + body.len(),
        framed(tag, body)[0] == tag,
        u32_at(framed(tag, body), 1) == 4 + body.len(),
        framed(tag, body).skip(5) == body,
        body.take(body.len() as int) == body,
{
    assert(framed(tag, body).skip(5) =~= body);
    assert(body.take(body.len() as int) =~= body);
}

/// A frame says what its body says.
pub proof fn frame_is_decoded(tag: u8, body: Seq<u8>)
    requires
        4 + body.len() <= MAX_FRAME_SIZE,
    ensures
        backend_message(framed(tag, body)) == message_of(tag, body),
{
    lemma_frame_parts(tag, body);
    let length = u32_at(framed(tag, body), 1);
    assert(length - 4 == body.len());
    assert(length_error(length) is None);
}

} // verus!
