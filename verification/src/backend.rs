//! The messages that the server sends.

use bytes::Bytes;
use vstd::prelude::*;

use crate::error::Error;
use crate::octets::{
    get_i32, get_i64, get_i8, get_u16, get_u32, get_u8, i32_at, i64_at, i8_at, octets, u16_at,
    u32_at,
};
use crate::wire::{agrees, cstring, ensure_remaining, eof, read_cstring, reads, wrap, Parsed};

verus! {

broadcast use crate::octets::group_skip;

/// The largest frame that is accepted, as its length field counts it.
pub const MAX_FRAME_SIZE: usize = 0x100_0000;

/// A message from the server.
pub enum MessageFormat {
    Authentication(Authentication),
    CopyBothResponse(CopyBothResponse),
    CopyData(CopyData),
    ErrorResponse(ErrorResponse),
    CommandComplete(CommandComplete),
    ParameterStatus(ParameterStatus),
    BackendKeyData(BackendKeyData),
    ReadyForQuery(ReadyForQuery),
}

/// A step of the authentication exchange.
pub enum Authentication {
    AuthOk,
    Sasl(AuthenticationSasl),
    SaslContinue(AuthenticationSaslContinue),
    SaslFinal(AuthenticationSaslFinal),
}

/// SASL authentication is required.
pub struct AuthenticationSasl {
    pub mechanisms: Vec<String>,
}

/// A SASL challenge.
pub struct AuthenticationSaslContinue {
    pub data: Bytes,
}

/// The end of a SASL exchange.
pub struct AuthenticationSaslFinal {
    pub data: Bytes,
}

/// The server is ready to copy in both directions.
pub struct CopyBothResponse {
    pub format: CopyFormat,
    pub column_formats: Vec<CopyFormat>,
}

/// How copied data is written.
#[derive(Debug, Clone, Copy, PartialEq, Eq, Structural)]
pub enum CopyFormat {
    Text,
    Binary,
}

/// Copied data.
pub struct CopyData {
    pub payload: Bytes,
}

/// An error report.
pub struct ErrorResponse {
    pub fields: Bytes,
}

/// A command was completed.
pub struct CommandComplete {
    pub tag: String,
}

/// The value of a server parameter.
pub struct ParameterStatus {
    pub name: String,
    pub value: String,
}

/// What a cancel request has to quote.
pub struct BackendKeyData {
    pub process_id: i32,
    pub secret_key: i32,
}

/// The server waits for a command.
pub struct ReadyForQuery {
    pub tx_status: u8,
}

/// A message of the replication stream.
pub enum ReplicationMessage {
    XlogData(XLogData),
    PrimaryKeepAlive(PrimaryKeepAlive),
}

/// A piece of the write-ahead log.
pub struct XLogData {
    pub start_lsn: i64,
    pub end_lsn: i64,
    pub send_time: i64,
    pub wal_data: Bytes,
}

/// A sign of life from the server.
pub struct PrimaryKeepAlive {
    pub end_lsn: i64,
    pub send_time: i64,
    pub reply_requested: i8,
}

// What the messages say, apart from how they are held in memory.

/// The texts of a list of strings.
pub open spec fn texts(v: Seq<String>) -> Seq<Seq<char>> {
    v.map_values(|s: String| s@)
}

/// What an [`Authentication`] says.
pub enum AuthenticationView {
    AuthOk,
    /// The mechanisms on offer.
    Sasl(Seq<Seq<char>>),
    SaslContinue(Seq<u8>),
    SaslFinal(Seq<u8>),
}

impl View for Authentication {
    type V = AuthenticationView;

    open spec fn view(&self) -> AuthenticationView {
        match *self {
            Authentication::AuthOk => AuthenticationView::AuthOk,
            Authentication::Sasl(s) => AuthenticationView::Sasl(texts(s.mechanisms@)),
            Authentication::SaslContinue(s) => AuthenticationView::SaslContinue(octets(s.data)),
            Authentication::SaslFinal(s) => AuthenticationView::SaslFinal(octets(s.data)),
        }
    }
}

/// What a [`CopyBothResponse`] says.
pub struct CopyBothView {
    pub format: CopyFormat,
    pub column_formats: Seq<CopyFormat>,
}

impl View for CopyBothResponse {
    type V = CopyBothView;

    open spec fn view(&self) -> CopyBothView {
        CopyBothView { format: self.format, column_formats: self.column_formats@ }
    }
}

impl View for CopyData {
    type V = Seq<u8>;

    open spec fn view(&self) -> Seq<u8> {
        octets(self.payload)
    }
}

impl View for ErrorResponse {
    type V = Seq<u8>;

    open spec fn view(&self) -> Seq<u8> {
        octets(self.fields)
    }
}

impl View for CommandComplete {
    type V = Seq<char>;

    open spec fn view(&self) -> Seq<char> {
        self.tag@
    }
}

/// What a [`ParameterStatus`] says.
pub struct ParameterView {
    pub name: Seq<char>,
    pub value: Seq<char>,
}

impl View for ParameterStatus {
    type V = ParameterView;

    open spec fn view(&self) -> ParameterView {
        ParameterView { name: self.name@, value: self.value@ }
    }
}

impl View for BackendKeyData {
    type V = BackendKeyData;

    open spec fn view(&self) -> BackendKeyData {
        *self
    }
}

impl View for ReadyForQuery {
    type V = ReadyForQuery;

    open spec fn view(&self) -> ReadyForQuery {
        *self
    }
}

/// What an [`XLogData`] says.
pub struct XLogView {
    pub start_lsn: i64,
    pub end_lsn: i64,
    pub send_time: i64,
    pub wal_data: Seq<u8>,
}

impl View for XLogData {
    type V = XLogView;

    open spec fn view(&self) -> XLogView {
        XLogView {
            start_lsn: self.start_lsn,
            end_lsn: self.end_lsn,
            send_time: self.send_time,
            wal_data: octets(self.wal_data),
        }
    }
}

impl View for PrimaryKeepAlive {
    type V = PrimaryKeepAlive;

    open spec fn view(&self) -> PrimaryKeepAlive {
        *self
    }
}

/// What a [`MessageFormat`] says.
pub enum MessageFormatView {
    Authentication(AuthenticationView),
    CopyBothResponse(CopyBothView),
    CopyData(Seq<u8>),
    ErrorResponse(Seq<u8>),
    CommandComplete(Seq<char>),
    ParameterStatus(ParameterView),
    BackendKeyData(BackendKeyData),
    ReadyForQuery(ReadyForQuery),
}

impl View for MessageFormat {
    type V = MessageFormatView;

    open spec fn view(&self) -> MessageFormatView {
        match *self {
            MessageFormat::Authentication(m) => MessageFormatView::Authentication(m@),
            MessageFormat::CopyBothResponse(m) => MessageFormatView::CopyBothResponse(m@),
            MessageFormat::CopyData(m) => MessageFormatView::CopyData(m@),
            MessageFormat::ErrorResponse(m) => MessageFormatView::ErrorResponse(m@),
            MessageFormat::CommandComplete(m) => MessageFormatView::CommandComplete(m@),
            MessageFormat::ParameterStatus(m) => MessageFormatView::ParameterStatus(m@),
            MessageFormat::BackendKeyData(m) => MessageFormatView::BackendKeyData(m@),
            MessageFormat::ReadyForQuery(m) => MessageFormatView::ReadyForQuery(m@),
        }
    }
}

/// What a [`ReplicationMessage`] says.
pub enum ReplicationView {
    XlogData(XLogView),
    PrimaryKeepAlive(PrimaryKeepAlive),
}

impl View for ReplicationMessage {
    type V = ReplicationView;

    open spec fn view(&self) -> ReplicationView {
        match *self {
            ReplicationMessage::XlogData(m) => ReplicationView::XlogData(m@),
            ReplicationMessage::PrimaryKeepAlive(m) => ReplicationView::PrimaryKeepAlive(m@),
        }
    }
}

// The formats.

/// A message kind: the tag byte that announces it, and the format of its body.
pub trait BackendMessage: Sized + View {
    const TAG: u8;

    /// What reading a message of this kind from the body `s` comes to.
    spec fn body(s: Seq<u8>) -> Parsed<Self::V>;

    /// Takes the message from the front of `buf`.
    fn parse_body(buf: &mut Bytes) -> (r: Result<Self, Error>)
        ensures
            reads(r, octets(*final(buf)), Self::body(octets(*old(buf)))),
    ;
}

/// The names of SASL mechanisms, behind those in `seen`: strings up to an empty
/// one, or up to the end of the body.
pub open spec fn mechanisms(seen: Seq<Seq<char>>, s: Seq<u8>) -> Parsed<Seq<Seq<char>>>
    decreases s.len(),
{
    if s.len() == 0 {
        Parsed::ok(seen, s)
    } else {
        let name = cstring(s);
        match name.out {
            Err(e) => Parsed::fail(e, name.rest),
            Ok(m) => if m.len() == 0 {
                Parsed::ok(seen, name.rest)
            } else {
                proof {
                    crate::wire::lemma_position(s, 0);
                }
                mechanisms(seen.push(m), name.rest)
            },
        }
    }
}

/// Takes the names of SASL mechanisms.
fn read_mechanisms(buf: &mut Bytes) -> (r: Result<Vec<String>, Error>)
    ensures
        octets(*final(buf)) == mechanisms(Seq::empty(), octets(*old(buf))).rest,
        match (r, mechanisms(Seq::empty(), octets(*old(buf))).out) {
            (Ok(v), Ok(w)) => texts(v@) == w,
            (Err(e), Err(f)) => e == f,
            _ => false,
        },
{
    let mut names: Vec<String> = Vec::new();
    assert(texts(names@) =~= Seq::empty());
    while buf.len() > 0
        invariant_except_break
            mechanisms(Seq::empty(), octets(*old(buf))) == mechanisms(texts(names@), octets(*buf)),
        ensures
            mechanisms(Seq::empty(), octets(*old(buf))) == Parsed::ok(texts(names@), octets(*buf)),
        decreases octets(*buf).len(),
    {
        proof {
            crate::wire::lemma_position(octets(*buf), 0);
        }
        let mechanism = read_cstring(buf)?;
        if mechanism.as_str().is_empty() {
            break;
        }
        assert(texts(names@.push(mechanism)) =~= texts(names@).push(mechanism@));
        names.push(mechanism);
    }
    Ok(names)
}

impl BackendMessage for Authentication {
    /// `R`
    const TAG: u8 = 0x52;

    open spec fn body(s: Seq<u8>) -> Parsed<AuthenticationView> {
        if s.len() < 4 {
            Parsed::eof(s, 4)
        } else {
            let code = i32_at(s, 0);
            let t = s.skip(4);
            if code == 0 {
                Parsed::ok(AuthenticationView::AuthOk, t)
            } else if code == 10 {
                mechanisms(Seq::empty(), t).chain(
                    |names: Seq<Seq<char>>, rest: Seq<u8>|
                        Parsed::ok(AuthenticationView::Sasl(names), rest),
                )
            } else if code == 11 {
                Parsed::ok(AuthenticationView::SaslContinue(t), Seq::empty())
            } else if code == 12 {
                Parsed::ok(AuthenticationView::SaslFinal(t), Seq::empty())
            } else {
                Parsed::fail(Error::UnsupportedAuthentication { code }, t)
            }
        }
    }

    fn parse_body(buf: &mut Bytes) -> (r: Result<Self, Error>) {
        ensure_remaining(buf, 4)?;
        let auth_code = get_i32(buf);
        match auth_code {
            0 => Ok(Authentication::AuthOk),
            10 => {
                let mechanisms = read_mechanisms(buf)?;
                Ok(Authentication::Sasl(AuthenticationSasl { mechanisms }))
            },
            11 => Ok(
                Authentication::SaslContinue(AuthenticationSaslContinue { data: take_all(buf) }),
            ),
            12 => Ok(Authentication::SaslFinal(AuthenticationSaslFinal { data: take_all(buf) })),
            other => Err(Error::UnsupportedAuthentication { code: other }),
        }
    }
}

/// Takes all that is left.
fn take_all(buf: &mut Bytes) -> (all: Bytes)
    ensures
        octets(all) == octets(*old(buf)),
        octets(*final(buf)) == Seq::<u8>::empty(),
{
    let ghost s = octets(*buf);
    let n = buf.len();
    let all = buf.split_to(n);
    assert(s.take(n as int) =~= s);
    assert(s.skip(n as int) =~= Seq::empty());
    all
}

impl CopyFormat {
    /// The format that a code stands for.
    pub open spec fn of_code(value: u16) -> Result<CopyFormat, Error> {
        if value == 0 {
            Ok(CopyFormat::Text)
        } else if value == 1 {
            Ok(CopyFormat::Binary)
        } else {
            Err(Error::UnsupportedCopyFormat)
        }
    }

    /// The format that a code stands for.
    pub fn try_from(value: u16) -> (r: Result<CopyFormat, Error>)
        ensures
            r == CopyFormat::of_code(value),
    {
        match value {
            0 => Ok(CopyFormat::Text),
            1 => Ok(CopyFormat::Binary),
            _ => Err(Error::UnsupportedCopyFormat),
        }
    }
}

/// `n` more format codes, behind those in `seen`.
pub open spec fn copy_formats(seen: Seq<CopyFormat>, n: nat, s: Seq<u8>) -> Parsed<Seq<CopyFormat>>
    decreases n,
{
    if n == 0 {
        Parsed::ok(seen, s)
    } else if s.len() < 2 {
        Parsed::eof(s, 2)
    } else {
        match CopyFormat::of_code(u16_at(s, 0)) {
            Ok(f) => copy_formats(seen.push(f), (n - 1) as nat, s.skip(2)),
            Err(e) => Parsed::fail(e, s.skip(2)),
        }
    }
}

impl BackendMessage for CopyBothResponse {
    /// `W`
    const TAG: u8 = 0x57;

    /// The format of the whole, and behind their number those of the columns.
    open spec fn body(s: Seq<u8>) -> Parsed<CopyBothView> {
        if s.len() < 4 {
            Parsed::eof(s, 4)
        } else {
            match CopyFormat::of_code(u16_at(s, 0)) {
                Err(e) => Parsed::fail(e, s.skip(2)),
                Ok(format) => copy_formats(Seq::empty(), u16_at(s, 2) as nat, s.skip(4)).chain(
                    |column_formats: Seq<CopyFormat>, rest: Seq<u8>|
                        Parsed::ok(CopyBothView { format, column_formats }, rest),
                ),
            }
        }
    }

    fn parse_body(buf: &mut Bytes) -> (r: Result<Self, Error>) {
        let ghost s = octets(*buf);
        ensure_remaining(buf, 2 + 2)?;
        let format = CopyFormat::try_from(get_u16(buf))?;
        let column_formats_len = get_u16(buf);
        let mut column_formats: Vec<CopyFormat> = Vec::with_capacity(column_formats_len as usize);
        assert(column_formats@ =~= Seq::empty());
        let mut i: u16 = 0;
        while i < column_formats_len
            invariant
                i <= column_formats_len,
                s == octets(*old(buf)),
                s.len() >= 4,
                CopyFormat::of_code(u16_at(s, 0)) == Ok::<CopyFormat, Error>(format),
                column_formats_len == u16_at(s, 2),
                copy_formats(Seq::empty(), column_formats_len as nat, s.skip(4)) == copy_formats(
                    column_formats@,
                    (column_formats_len - i) as nat,
                    octets(*buf),
                ),
            decreases column_formats_len - i,
        {
            ensure_remaining(buf, 2)?;
            column_formats.push(CopyFormat::try_from(get_u16(buf))?);
            i += 1;
        }
        Ok(CopyBothResponse { format, column_formats })
    }
}

impl BackendMessage for CopyData {
    /// `d`
    const TAG: u8 = 0x64;

    open spec fn body(s: Seq<u8>) -> Parsed<Seq<u8>> {
        Parsed::ok(s, Seq::empty())
    }

    fn parse_body(buf: &mut Bytes) -> (r: Result<Self, Error>) {
        Ok(CopyData { payload: take_all(buf) })
    }
}

impl BackendMessage for ErrorResponse {
    /// `E`
    const TAG: u8 = 0x45;

    open spec fn body(s: Seq<u8>) -> Parsed<Seq<u8>> {
        Parsed::ok(s, Seq::empty())
    }

    fn parse_body(buf: &mut Bytes) -> (r: Result<Self, Error>) {
        Ok(ErrorResponse { fields: take_all(buf) })
    }
}

impl BackendMessage for CommandComplete {
    /// `C`
    const TAG: u8 = 0x43;

    open spec fn body(s: Seq<u8>) -> Parsed<Seq<char>> {
        cstring(s)
    }

    fn parse_body(buf: &mut Bytes) -> (r: Result<Self, Error>) {
        let tag = read_cstring(buf)?;
        Ok(CommandComplete { tag })
    }
}

impl BackendMessage for ParameterStatus {
    /// `S`
    const TAG: u8 = 0x53;

    open spec fn body(s: Seq<u8>) -> Parsed<ParameterView> {
        cstring(s).chain(
            |name: Seq<char>, t: Seq<u8>|
                cstring(t).chain(
                    |value: Seq<char>, rest: Seq<u8>|
                        Parsed::ok(ParameterView { name, value }, rest),
                ),
        )
    }

    fn parse_body(buf: &mut Bytes) -> (r: Result<Self, Error>) {
        let name = read_cstring(buf)?;
        let value = read_cstring(buf)?;
        Ok(ParameterStatus { name, value })
    }
}

impl BackendMessage for BackendKeyData {
    /// `K`
    const TAG: u8 = 0x4b;

    open spec fn body(s: Seq<u8>) -> Parsed<BackendKeyData> {
        if s.len() < 8 {
            Parsed::eof(s, 8)
        } else {
            Parsed::ok(
                BackendKeyData { process_id: i32_at(s, 0), secret_key: i32_at(s, 4) },
                s.skip(8),
            )
        }
    }

    fn parse_body(buf: &mut Bytes) -> (r: Result<Self, Error>) {
        ensure_remaining(buf, 8)?;
        Ok(BackendKeyData { process_id: get_i32(buf), secret_key: get_i32(buf) })
    }
}

impl BackendMessage for ReadyForQuery {
    /// `Z`
    const TAG: u8 = 0x5a;

    open spec fn body(s: Seq<u8>) -> Parsed<ReadyForQuery> {
        if s.len() < 1 {
            Parsed::eof(s, 1)
        } else {
            Parsed::ok(ReadyForQuery { tx_status: s[0] }, s.skip(1))
        }
    }

    fn parse_body(buf: &mut Bytes) -> (r: Result<Self, Error>) {
        ensure_remaining(buf, 1)?;
        Ok(ReadyForQuery { tx_status: get_u8(buf) })
    }
}

impl BackendMessage for XLogData {
    /// `w`
    const TAG: u8 = 0x77;

    open spec fn body(s: Seq<u8>) -> Parsed<XLogView> {
        if s.len() < 24 {
            Parsed::eof(s, 24)
        } else {
            Parsed::ok(
                XLogView {
                    start_lsn: i64_at(s, 0),
                    end_lsn: i64_at(s, 8),
                    send_time: i64_at(s, 16),
                    wal_data: s.skip(24),
                },
                Seq::empty(),
            )
        }
    }

    fn parse_body(buf: &mut Bytes) -> (r: Result<Self, Error>) {
        ensure_remaining(buf, 8 + 8 + 8)?;
        Ok(
            XLogData {
                start_lsn: get_i64(buf),
                end_lsn: get_i64(buf),
                send_time: get_i64(buf),
                wal_data: take_all(buf),
            },
        )
    }
}

impl BackendMessage for PrimaryKeepAlive {
    /// `k`
    const TAG: u8 = 0x6b;

    open spec fn body(s: Seq<u8>) -> Parsed<PrimaryKeepAlive> {
        if s.len() < 17 {
            Parsed::eof(s, 17)
        } else {
            Parsed::ok(
                PrimaryKeepAlive {
                    end_lsn: i64_at(s, 0),
                    send_time: i64_at(s, 8),
                    reply_requested: i8_at(s, 16),
                },
                s.skip(17),
            )
        }
    }

    fn parse_body(buf: &mut Bytes) -> (r: Result<Self, Error>) {
        ensure_remaining(buf, 8 + 8 + 1)?;
        Ok(
            PrimaryKeepAlive {
                end_lsn: get_i64(buf),
                send_time: get_i64(buf),
                reply_requested: get_i8(buf),
            },
        )
    }
}

/// What a payload of the replication stream says: its first byte tells the kind
/// of the message (`w` or `k`). Bytes behind the message are ignored.
pub open spec fn replication_message(payload: Seq<u8>) -> Result<ReplicationView, Error> {
    if payload.len() < 1 {
        Err(eof(payload, 1))
    } else {
        let tag = payload[0];
        let s = payload.skip(1);
        if tag == 0x77 {
            wrap(XLogData::body(s).out, |m| ReplicationView::XlogData(m))
        } else if tag == 0x6b {
            wrap(PrimaryKeepAlive::body(s).out, |m| ReplicationView::PrimaryKeepAlive(m))
        } else {
            Err(Error::UnsupportedReplicationMessage { tag })
        }
    }
}

/// Decodes a payload of the replication stream.
pub fn parse_replication_message(payload: Bytes) -> (r: Result<ReplicationMessage, Error>)
    ensures
        agrees(r, replication_message(octets(payload))),
{
    let mut payload = payload;
    ensure_remaining(&payload, 1)?;
    let tag = get_u8(&mut payload);
    if tag == XLogData::TAG {
        match XLogData::parse_body(&mut payload) {
            Ok(m) => Ok(ReplicationMessage::XlogData(m)),
            Err(e) => Err(e),
        }
    } else if tag == PrimaryKeepAlive::TAG {
        match PrimaryKeepAlive::parse_body(&mut payload) {
            Ok(m) => Ok(ReplicationMessage::PrimaryKeepAlive(m)),
            Err(e) => Err(e),
        }
    } else {
        Err(Error::UnsupportedReplicationMessage { tag })
    }
}

/// What is wrong with a frame whose length field says `length`.
pub open spec fn length_error(length: u32) -> Option<Error> {
    if length < 4 {
        Some(Error::InvalidFrameLength { length: length as usize })
    } else if length > MAX_FRAME_SIZE {
        Some(Error::FrameTooLarge { length: length as usize })
    } else {
        None
    }
}

/// What the body `s` of a frame with the given tag says.
pub open spec fn message_of(tag: u8, s: Seq<u8>) -> Result<MessageFormatView, Error> {
    if tag == 0x52 {
        wrap(Authentication::body(s).out, |m| MessageFormatView::Authentication(m))
    } else if tag == 0x57 {
        wrap(CopyBothResponse::body(s).out, |m| MessageFormatView::CopyBothResponse(m))
    } else if tag == 0x64 {
        wrap(CopyData::body(s).out, |m| MessageFormatView::CopyData(m))
    } else if tag == 0x45 {
        wrap(ErrorResponse::body(s).out, |m| MessageFormatView::ErrorResponse(m))
    } else if tag == 0x43 {
        wrap(CommandComplete::body(s).out, |m| MessageFormatView::CommandComplete(m))
    } else if tag == 0x53 {
        wrap(ParameterStatus::body(s).out, |m| MessageFormatView::ParameterStatus(m))
    } else if tag == 0x4b {
        wrap(BackendKeyData::body(s).out, |m| MessageFormatView::BackendKeyData(m))
    } else if tag == 0x5a {
        wrap(ReadyForQuery::body(s).out, |m| MessageFormatView::ReadyForQuery(m))
    } else {
        Err(Error::UnsupportedBackendMessage { tag })
    }
}

/// What a frame says: a tag byte (`R`, `W`, `d`, `E`, `C`, `S`, `K` or `Z`), the
/// length of what follows the tag, and the body. Bytes behind the frame, and
/// bytes of the body behind the message, are ignored.
pub open spec fn backend_message(frame: Seq<u8>) -> Result<MessageFormatView, Error> {
    if frame.len() < 5 {
        Err(eof(frame, 5))
    } else {
        let length = u32_at(frame, 1);
        let s = frame.skip(5);
        match length_error(length) {
            Some(e) => Err(e),
            None => if s.len() < length - 4 {
                Err(eof(s, length - 4))
            } else {
                message_of(frame[0], s.take(length - 4))
            },
        }
    }
}

/// Decodes a frame from the server.
pub fn parse(payload: Bytes) -> (r: Result<MessageFormat, Error>)
    ensures
        agrees(r, backend_message(octets(payload))),
{
    let mut payload = payload;
    ensure_remaining(&payload, 5)?;
    let tag = get_u8(&mut payload);
    let length = get_u32(&mut payload) as usize;

    if length < 4 {
        return Err(Error::InvalidFrameLength { length });
    }
    if length > MAX_FRAME_SIZE {
        return Err(Error::FrameTooLarge { length });
    }
    let body_len = length - 4;
    ensure_remaining(&payload, body_len)?;
    let mut data = payload.split_to(body_len);

    if tag == Authentication::TAG {
        match Authentication::parse_body(&mut data) {
            Ok(m) => Ok(MessageFormat::Authentication(m)),
            Err(e) => Err(e),
        }
    } else if tag == CopyBothResponse::TAG {
        match CopyBothResponse::parse_body(&mut data) {
            Ok(m) => Ok(MessageFormat::CopyBothResponse(m)),
            Err(e) => Err(e),
        }
    } else if tag == CopyData::TAG {
        match CopyData::parse_body(&mut data) {
            Ok(m) => Ok(MessageFormat::CopyData(m)),
            Err(e) => Err(e),
        }
    } else if tag == ErrorResponse::TAG {
        match ErrorResponse::parse_body(&mut data) {
            Ok(m) => Ok(MessageFormat::ErrorResponse(m)),
            Err(e) => Err(e),
        }
    } else if tag == CommandComplete::TAG {
        match CommandComplete::parse_body(&mut data) {
            Ok(m) => Ok(MessageFormat::CommandComplete(m)),
            Err(e) => Err(e),
        }
    } else if tag == ParameterStatus::TAG {
        match ParameterStatus::parse_body(&mut data) {
            Ok(m) => Ok(MessageFormat::ParameterStatus(m)),
            Err(e) => Err(e),
        }
    } else if tag == BackendKeyData::TAG {
        match BackendKeyData::parse_body(&mut data) {
            Ok(m) => Ok(MessageFormat::BackendKeyData(m)),
            Err(e) => Err(e),
        }
    } else if tag == ReadyForQuery::TAG {
        match ReadyForQuery::parse_body(&mut data) {
            Ok(m) => Ok(MessageFormat::ReadyForQuery(m)),
            Err(e) => Err(e),
        }
    } else {
        Err(Error::UnsupportedBackendMessage { tag })
    }
}

} // verus!
