//! The messages of the server are read as it writes them, and what is none is
//! refused.

use vstd::prelude::*;

use crate::backend::{
    backend_message, copy_formats, message_of, replication_message, Authentication,
    AuthenticationSasl, AuthenticationSaslContinue, AuthenticationSaslFinal, AuthenticationView,
    BackendKeyData, CommandComplete, CopyBothResponse, CopyBothView, CopyData, CopyFormat,
    ErrorResponse, MessageFormat, MessageFormatView, ParameterStatus, PrimaryKeepAlive,
    ReadyForQuery, ReplicationMessage, ReplicationView, XLogData,
};
use crate::error::Error;
use crate::laws::backend::{
    authentication_is_read, command_is_read, cstrs_octets, is_name, key_data_is_read,
    mechanisms_octets, parameter_is_read, raw_bodies_are_read, ready_for_query_is_read,
};
use crate::laws::format::{
    big_endian, copy_both_octets, format_octets, formats_octets, frame_octets, i32_is_read,
    i64_is_read, i8_is_read, keepalive_octets, key_data_octets, number_lengths,
    numbers_are_big_endian, ready_octets, terminated, text_is_read, u16_is_read, u32_is_read,
    xlog_octets,
};
use crate::laws::framing::{frame_is_decoded, frame_is_taken_whole};
use crate::machine::{next_frame, Frame};
use crate::octets::octets;
use crate::protocol::framed;
use crate::wire::Parsed;

verus! {

/// The largest length that a frame can have.
pub open spec fn max_frame() -> int {
    0x100_0000
}

/// A frame is its tag, the length of what follows the tag, and the body.
pub proof fn frames_are_framed(tag: u8, body: Seq<u8>)
    requires
        4 + body.len() <= u32::MAX,
    ensures
        framed(tag, body) == frame_octets(tag, body),
{
    numbers_are_big_endian((4 + body.len()) as u32, 0);
}

/// A frame says what its body says, and the machine takes it as one.
pub proof fn frames_are_read(tag: u8, body: Seq<u8>, more: Seq<u8>)
    requires
        4 + body.len() <= max_frame(),
    ensures
        backend_message(frame_octets(tag, body)) == message_of(tag, body),
        next_frame(frame_octets(tag, body) + more) == Frame::Whole(frame_octets(tag, body), more),
{
    frames_are_framed(tag, body);
    frame_is_decoded(tag, body);
    frame_is_taken_whole(tag, body, more);
}

/// A frame whose length cannot be is refused: one that does not count the length
/// field itself, or one beyond the limit.
pub proof fn impossible_lengths_are_refused(tag: u8, length: u32, rest: Seq<u8>)
    requires
        length < 4 || length > max_frame(),
    ensures
        ({
            let data = seq![tag] + big_endian(length as int, 4) + rest;
            let e = if length < 4 {
                Error::InvalidFrameLength { length: length as usize }
            } else {
                Error::FrameTooLarge { length: length as usize }
            };
            &&& next_frame(data) == Frame::Bad(e)
            &&& backend_message(data) == Err::<MessageFormatView, Error>(e)
        }),
{
    let data = seq![tag] + big_endian(length as int, 4) + rest;
    number_lengths(length as int);
    assert(data.subrange(1, 5) =~= big_endian(length as int, 4));
    u32_is_read(data, 1, length);
}

/// Bytes that end before their frame does are waited for by the machine, and are no
/// message.
pub proof fn cut_frames_are_no_message(tag: u8, length: u32, rest: Seq<u8>)
    requires
        4 <= length <= max_frame(),
        rest.len() < length - 4,
    ensures
        ({
            let data = seq![tag] + big_endian(length as int, 4) + rest;
            &&& next_frame(data) == Frame::Partial
            &&& backend_message(data) == Err::<MessageFormatView, Error>(
                Error::UnexpectedEof { need: (length - 4) as usize, have: rest.len() as usize },
            )
        }),
{
    let data = seq![tag] + big_endian(length as int, 4) + rest;
    number_lengths(length as int);
    assert(data.subrange(1, 5) =~= big_endian(length as int, 4));
    u32_is_read(data, 1, length);
    assert(data.skip(5) =~= rest);
}

/// Fewer than five bytes are no frame.
pub proof fn short_frames_are_no_message(data: Seq<u8>)
    requires
        data.len() < 5,
    ensures
        next_frame(data) == Frame::Partial,
        backend_message(data) == Err::<MessageFormatView, Error>(
            Error::UnexpectedEof { need: 5, have: data.len() as usize },
        ),
{
}

// The messages.

/// `R`: the acceptance of the client is read.
pub proof fn auth_ok_is_decoded()
    ensures
        message_of(0x52, big_endian(0, 4)) == Ok::<MessageFormatView, Error>(
            MessageFormat::Authentication(Authentication::AuthOk)@,
        ),
{
    authentication_is_read(Seq::empty(), Seq::empty());
    numbers_are_big_endian(0, 0);
}

/// Texts with their terminators, one behind the other.
pub open spec fn names_octets(names: Seq<String>) -> Seq<u8>
    decreases names.len(),
{
    if names.len() == 0 {
        Seq::empty()
    } else {
        terminated(names[0]@) + names_octets(names.skip(1))
    }
}

/// Names are written as they are read.
proof fn lemma_names(names: Seq<String>)
    requires
        forall|i: int|
            0 <= i < names.len() ==> (#[trigger] names[i])@.len() > 0 && !names[i]@.contains('\0'),
    ensures
        cstrs_octets(names.map_values(|s: String| s@)) == names_octets(names),
    decreases names.len(),
{
    let texts = names.map_values(|s: String| s@);
    if names.len() > 0 {
        let others = names.skip(1);
        assert(texts.skip(1) =~= others.map_values(|s: String| s@));
        assert forall|i: int| 0 <= i < others.len() implies (#[trigger] others[i])@.len() > 0
            && !others[i]@.contains('\0') by {
            assert(others[i] == names[i + 1]);
        }
        lemma_names(others);
        assert(names[0]@.len() > 0);
        text_is_read(names[0]@, Seq::empty());
    }
}

/// `R`: the offer of mechanisms is read, with all of them in their order.
pub proof fn sasl_is_decoded(m: AuthenticationSasl)
    requires
        forall|i: int|
            0 <= i < m.mechanisms@.len() ==> (#[trigger] m.mechanisms@[i])@.len() > 0
                && !m.mechanisms@[i]@.contains('\0'),
    ensures
        message_of(0x52, big_endian(10, 4) + names_octets(m.mechanisms@) + seq![0u8]) == Ok::<
            MessageFormatView,
            Error,
        >(MessageFormat::Authentication(Authentication::Sasl(m))@),
        Authentication::Sasl(m)@ == AuthenticationView::Sasl(
            m.mechanisms@.map_values(|s: String| s@),
        ),
{
    let texts = m.mechanisms@.map_values(|s: String| s@);
    lemma_names(m.mechanisms@);
    assert forall|i: int| 0 <= i < texts.len() implies is_name(#[trigger] texts[i]) by {
        assert(m.mechanisms@[i]@.len() > 0);
    }
    authentication_is_read(texts, Seq::empty());
    numbers_are_big_endian(0, 10);
    assert(big_endian(10, 4) + names_octets(m.mechanisms@) + seq![0u8] =~= big_endian(10, 4)
        + mechanisms_octets(texts));
}

/// `R`: the messages of an exchange are read.
pub proof fn sasl_data_is_decoded(c: AuthenticationSaslContinue, f: AuthenticationSaslFinal)
    ensures
        message_of(0x52, big_endian(11, 4) + octets(c.data)) == Ok::<MessageFormatView, Error>(
            MessageFormat::Authentication(Authentication::SaslContinue(c))@,
        ),
        Authentication::SaslContinue(c)@ == AuthenticationView::SaslContinue(octets(c.data)),
        message_of(0x52, big_endian(12, 4) + octets(f.data)) == Ok::<MessageFormatView, Error>(
            MessageFormat::Authentication(Authentication::SaslFinal(f))@,
        ),
        Authentication::SaslFinal(f)@ == AuthenticationView::SaslFinal(octets(f.data)),
{
    authentication_is_read(Seq::empty(), octets(c.data));
    authentication_is_read(Seq::empty(), octets(f.data));
    numbers_are_big_endian(0, 11);
    numbers_are_big_endian(0, 12);
}

/// Other requests for authentication are refused.
pub proof fn other_authentication_is_refused(code: i32, rest: Seq<u8>)
    requires
        code != 0,
        code != 10,
        code != 11,
        code != 12,
    ensures
        message_of(0x52, big_endian(code as int, 4) + rest) == Err::<MessageFormatView, Error>(
            Error::UnsupportedAuthentication { code },
        ),
{
    let s = big_endian(code as int, 4) + rest;
    number_lengths(code as int);
    assert(s.subrange(0, 4) =~= big_endian(code as int, 4));
    i32_is_read(s, 0, code);
}

/// Codes of formats are read, one after the other.
proof fn lemma_formats(seen: Seq<CopyFormat>, formats: Seq<CopyFormat>, rest: Seq<u8>)
    ensures
        copy_formats(seen, formats.len(), formats_octets(formats) + rest) == Parsed::ok(
            seen + formats,
            rest,
        ),
    decreases formats.len(),
{
    if formats.len() == 0 {
        assert(formats_octets(formats) + rest =~= rest);
        assert(seen + formats =~= seen);
    } else {
        let others = formats.skip(1);
        let s = formats_octets(formats) + rest;
        number_lengths(0);
        number_lengths(1);
        assert(s.subrange(0, 2) =~= format_octets(formats[0]));
        match formats[0] {
            CopyFormat::Text => u16_is_read(s, 0, 0),
            CopyFormat::Binary => u16_is_read(s, 0, 1),
        }
        assert(s.skip(2) =~= formats_octets(others) + rest);
        lemma_formats(seen.push(formats[0]), others, rest);
        assert(seen.push(formats[0]) + others =~= seen + formats);
    }
}

/// `W`: the answer to a request to copy is read, with all its formats.
pub proof fn copy_both_is_decoded(m: CopyBothResponse)
    requires
        m.column_formats@.len() <= u16::MAX,
    ensures
        message_of(0x57, copy_both_octets(m)) == Ok::<MessageFormatView, Error>(
            MessageFormat::CopyBothResponse(m)@,
        ),
        m@ == (CopyBothView { format: m.format, column_formats: m.column_formats@ }),
{
    let s = copy_both_octets(m);
    let n = m.column_formats@.len() as int;
    number_lengths(0);
    number_lengths(1);
    number_lengths(n);
    assert(s.subrange(0, 2) =~= format_octets(m.format));
    match m.format {
        CopyFormat::Text => u16_is_read(s, 0, 0),
        CopyFormat::Binary => u16_is_read(s, 0, 1),
    }
    assert(s.subrange(2, 4) =~= big_endian(n, 2));
    u16_is_read(s, 2, n as u16);
    assert(s.skip(4) =~= formats_octets(m.column_formats@) + Seq::<u8>::empty());
    lemma_formats(Seq::empty(), m.column_formats@, Seq::empty());
    assert(Seq::<CopyFormat>::empty() + m.column_formats@ =~= m.column_formats@);
}

/// Codes of formats other than 0 and 1 are refused.
pub proof fn other_formats_are_refused(code: u16, rest: Seq<u8>)
    requires
        code > 1,
        rest.len() >= 2,
    ensures
        message_of(0x57, big_endian(code as int, 2) + rest) == Err::<MessageFormatView, Error>(
            Error::UnsupportedCopyFormat,
        ),
        CopyFormat::of_code(0) == Ok::<CopyFormat, Error>(CopyFormat::Text),
        CopyFormat::of_code(1) == Ok::<CopyFormat, Error>(CopyFormat::Binary),
        CopyFormat::of_code(code) == Err::<CopyFormat, Error>(Error::UnsupportedCopyFormat),
{
    let s = big_endian(code as int, 2) + rest;
    number_lengths(code as int);
    assert(s.subrange(0, 2) =~= big_endian(code as int, 2));
    u16_is_read(s, 0, code);
}

/// `d` and `E`: copied data and the fields of an error are the whole body.
pub proof fn raw_bodies_are_decoded(d: CopyData, e: ErrorResponse)
    ensures
        message_of(0x64, octets(d.payload)) == Ok::<MessageFormatView, Error>(
            MessageFormat::CopyData(d)@,
        ),
        d@ == octets(d.payload),
        message_of(0x45, octets(e.fields)) == Ok::<MessageFormatView, Error>(
            MessageFormat::ErrorResponse(e)@,
        ),
        e@ == octets(e.fields),
{
    raw_bodies_are_read(octets(d.payload));
    raw_bodies_are_read(octets(e.fields));
}

/// `C`: the tag of a command is read.
pub proof fn command_complete_is_decoded(m: CommandComplete)
    requires
        !m.tag@.contains('\0'),
    ensures
        message_of(0x43, terminated(m.tag@)) == Ok::<MessageFormatView, Error>(
            MessageFormat::CommandComplete(m)@,
        ),
        m@ == m.tag@,
{
    command_is_read(m.tag@);
    text_is_read(m.tag@, Seq::empty());
}

/// `S`: a parameter is read, its name and its value.
pub proof fn parameter_status_is_decoded(m: ParameterStatus)
    requires
        !m.name@.contains('\0'),
        !m.value@.contains('\0'),
    ensures
        message_of(0x53, terminated(m.name@) + terminated(m.value@)) == Ok::<
            MessageFormatView,
            Error,
        >(MessageFormat::ParameterStatus(m)@),
        m@.name == m.name@,
        m@.value == m.value@,
{
    parameter_is_read(m.name@, m.value@);
    text_is_read(m.name@, Seq::empty());
    text_is_read(m.value@, Seq::empty());
}

/// `K`: key data is read.
pub proof fn backend_key_data_is_decoded(m: BackendKeyData)
    ensures
        message_of(0x4b, key_data_octets(m)) == Ok::<MessageFormatView, Error>(
            MessageFormat::BackendKeyData(m)@,
        ),
        m@ == m,
{
    key_data_is_read(m.process_id, m.secret_key);
    numbers_are_big_endian(0, m.process_id);
    numbers_are_big_endian(0, m.secret_key);
}

/// `Z`: the status of a server that waits for a command is read.
pub proof fn ready_for_query_is_decoded(m: ReadyForQuery)
    ensures
        message_of(0x5a, ready_octets(m)) == Ok::<MessageFormatView, Error>(
            MessageFormat::ReadyForQuery(m)@,
        ),
        m@ == m,
{
    ready_for_query_is_read(m.tx_status);
}

/// Messages of other kinds are refused.
pub proof fn other_tags_are_refused(tag: u8, body: Seq<u8>)
    requires
        // R, W, d, E, C, S, K, Z
        tag != 0x52 && tag != 0x57 && tag != 0x64 && tag != 0x45,
        tag != 0x43 && tag != 0x53 && tag != 0x4b && tag != 0x5a,
    ensures
        message_of(tag, body) == Err::<MessageFormatView, Error>(
            Error::UnsupportedBackendMessage { tag },
        ),
{
}

/// Bodies that end before their fields do are refused.
pub proof fn short_bodies_are_refused(body: Seq<u8>)
    ensures
        body.len() < 4 ==> message_of(0x52, body) == Err::<MessageFormatView, Error>(
            Error::UnexpectedEof { need: 4, have: body.len() as usize },
        ),
        body.len() < 4 ==> message_of(0x57, body) == Err::<MessageFormatView, Error>(
            Error::UnexpectedEof { need: 4, have: body.len() as usize },
        ),
        body.len() < 8 ==> message_of(0x4b, body) == Err::<MessageFormatView, Error>(
            Error::UnexpectedEof { need: 8, have: body.len() as usize },
        ),
        body.len() < 1 ==> message_of(0x5a, body) == Err::<MessageFormatView, Error>(
            Error::UnexpectedEof { need: 1, have: 0 },
        ),
{
}

// The replication stream.

/// `w`: a piece of the log is read, with its positions.
pub proof fn xlog_is_decoded(m: XLogData)
    ensures
        replication_message(xlog_octets(m)) == Ok::<ReplicationView, Error>(
            ReplicationMessage::XlogData(m)@,
        ),
        m@.start_lsn == m.start_lsn,
        m@.end_lsn == m.end_lsn,
        m@.send_time == m.send_time,
        m@.wal_data == octets(m.wal_data),
{
    let p = xlog_octets(m);
    let s = p.skip(1);
    number_lengths(m.start_lsn as int);
    number_lengths(m.end_lsn as int);
    number_lengths(m.send_time as int);
    assert(s.subrange(0, 8) =~= big_endian(m.start_lsn as int, 8));
    i64_is_read(s, 0, m.start_lsn);
    assert(s.subrange(8, 16) =~= big_endian(m.end_lsn as int, 8));
    i64_is_read(s, 8, m.end_lsn);
    assert(s.subrange(16, 24) =~= big_endian(m.send_time as int, 8));
    i64_is_read(s, 16, m.send_time);
    assert(s.skip(24) =~= octets(m.wal_data));
    assert(p[0] == 0x77);
}

/// `k`: a sign of life is read.
pub proof fn keepalive_is_decoded(m: PrimaryKeepAlive, more: Seq<u8>)
    ensures
        replication_message(keepalive_octets(m) + more) == Ok::<ReplicationView, Error>(
            ReplicationMessage::PrimaryKeepAlive(m)@,
        ),
        m@ == m,
{
    let p = keepalive_octets(m) + more;
    let s = p.skip(1);
    number_lengths(m.end_lsn as int);
    number_lengths(m.send_time as int);
    number_lengths(m.reply_requested as int);
    assert(s.subrange(0, 8) =~= big_endian(m.end_lsn as int, 8));
    i64_is_read(s, 0, m.end_lsn);
    assert(s.subrange(8, 16) =~= big_endian(m.send_time as int, 8));
    i64_is_read(s, 8, m.send_time);
    i8_is_read(s, 16, m.reply_requested);
    assert(p[0] == 0x6b);
}

/// Payloads that are neither, or end before their fields do, are refused.
pub proof fn other_payloads_are_refused(tag: u8, rest: Seq<u8>)
    ensures
        replication_message(Seq::empty()) == Err::<ReplicationView, Error>(
            Error::UnexpectedEof { need: 1, have: 0 },
        ),
        tag != 0x77 && tag != 0x6b ==> replication_message(seq![tag] + rest) == Err::<
            ReplicationView,
            Error,
        >(Error::UnsupportedReplicationMessage { tag }),
        rest.len() < 24 ==> replication_message(seq![0x77u8] + rest) == Err::<
            ReplicationView,
            Error,
        >(Error::UnexpectedEof { need: 24, have: rest.len() as usize }),
        rest.len() < 17 ==> replication_message(seq![0x6bu8] + rest) == Err::<
            ReplicationView,
            Error,
        >(Error::UnexpectedEof { need: 17, have: rest.len() as usize }),
{
    assert((seq![tag] + rest).skip(1) =~= rest);
    assert((seq![0x77u8] + rest).skip(1) =~= rest);
    assert((seq![0x6bu8] + rest).skip(1) =~= rest);
}

} // verus!
