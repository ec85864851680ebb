//! The messages that the client sends.

use bytes::{Bytes, BytesMut};
use vstd::prelude::*;

use crate::error::Error;
use crate::octets::{
    as_slice, i32_octets, mut_octets, octets, put_i32, put_slice, put_u32, put_u8, u32_octets,
};
use crate::wire::{cstr_octets, put_cstr, set_u32};

verus! {

/// Protocol version 3.0.
pub const PROTOCOL_VERSION: u32 = 0x3_0000;

/// What a 32-bit length field says of `n` bytes.
pub open spec fn length_field(n: nat) -> u32 {
    (n % 0x1_0000_0000) as u32
}

/// A message with its tag, and with a length that counts itself and the body.
pub open spec fn framed(tag: u8, body: Seq<u8>) -> Seq<u8> {
    seq![tag] + u32_octets(length_field(4 + body.len())) + body
}

/// What a 32-bit length field says of `n` bytes.
fn to_length_field(n: usize) -> (len: u32)
    ensures
        len == length_field(n as nat),
{
    (n as u64 % 0x1_0000_0000) as u32
}

/// The bits of `n` as a signed number.
fn to_signed(n: u32) -> (s: i32)
    ensures
        i32_octets(s) == u32_octets(n),
{
    if n < 0x8000_0000 {
        n as i32
    } else {
        (n as i64 - 0x1_0000_0000) as i32
    }
}

/// A message that can be written to the server.
pub trait Codec: Sized {
    /// The bytes of the message.
    spec fn message(&self) -> Seq<u8>;

    /// Writes the message. A buffer cannot hold more than `isize::MAX` bytes.
    fn encode(&self) -> (r: Result<Bytes, Error>)
        requires
            self.message().len() <= isize::MAX,
        ensures
            match r {
                Ok(b) => octets(b) == self.message(),
                Err(_) => false,
            },
    ;
}

/// The parameters of a connection, behind the protocol version: names and values
/// by turns, and a zero byte.
pub open spec fn startup_body(
    user_name: Seq<char>,
    database: Seq<char>,
    replication: Seq<char>,
) -> Seq<u8> {
    u32_octets(PROTOCOL_VERSION) + cstr_octets("user"@) + cstr_octets(user_name) + cstr_octets(
        "database"@,
    ) + cstr_octets(database) + cstr_octets("replication"@) + cstr_octets(replication) + seq![0u8]
}

/// The first message of a connection. It has no tag, only its length.
pub open spec fn startup_octets(
    user_name: Seq<char>,
    database: Seq<char>,
    replication: Seq<char>,
) -> Seq<u8> {
    let body = startup_body(user_name, database, replication);
    u32_octets(length_field(4 + body.len())) + body
}

/// Writes the first message of a connection.
pub fn encode_startup(user_name: &str, database: &str, replication: &str) -> (b: Bytes)
    requires
        startup_octets(user_name@, database@, replication@).len() <= isize::MAX,
    ensures
        octets(b) == startup_octets(user_name@, database@, replication@),
{
    let mut buf = BytesMut::new();

    put_u32(&mut buf, 0);

    put_u32(&mut buf, PROTOCOL_VERSION);

    put_cstr(&mut buf, "user");
    put_cstr(&mut buf, user_name);

    put_cstr(&mut buf, "database");
    put_cstr(&mut buf, database);

    put_cstr(&mut buf, "replication");
    put_cstr(&mut buf, replication);

    put_u8(&mut buf, 0);

    let ghost body = startup_body(user_name@, database@, replication@);
    assert(mut_octets(buf) =~= u32_octets(0) + body);
    let len = to_length_field(buf.len());
    set_u32(&mut buf, 0, len);
    assert(mut_octets(buf) =~= startup_octets(user_name@, database@, replication@));

    buf.freeze()
}

/// The request for a connection.
pub struct StartupMessage {
    pub user_name: String,
    pub database: String,
    /// The replication mode, usually `database`.
    pub replication: String,
}

impl Codec for StartupMessage {
    open spec fn message(&self) -> Seq<u8> {
        startup_octets(self.user_name@, self.database@, self.replication@)
    }

    fn encode(&self) -> (r: Result<Bytes, Error>) {
        Ok(
            encode_startup(
                self.user_name.as_str(),
                self.database.as_str(),
                self.replication.as_str(),
            ),
        )
    }
}

/// Writes a message with its tag and length.
fn encode_framed(tag: u8, body: &[u8]) -> (b: Bytes)
    requires
        framed(tag, body@).len() <= isize::MAX,
    ensures
        octets(b) == framed(tag, body@),
{
    let mut buf = BytesMut::new();

    put_u8(&mut buf, tag);

    put_u32(&mut buf, 0);

    put_slice(&mut buf, body);

    let len = to_length_field(buf.len() - 1);
    set_u32(&mut buf, 1, len);
    assert(mut_octets(buf) =~= framed(tag, body@));

    buf.freeze()
}

/// The choice of a SASL mechanism, with the first message of the exchange.
pub struct SASLInitialResponse {
    pub auth_mechanism: String,
    pub data: Bytes,
}

/// The body of a [`SASLInitialResponse`]: the mechanism, and the data behind its
/// length.
pub open spec fn initial_response_body(auth_mechanism: Seq<char>, data: Seq<u8>) -> Seq<u8> {
    cstr_octets(auth_mechanism) + u32_octets(length_field(data.len())) + data
}

impl Codec for SASLInitialResponse {
    open spec fn message(&self) -> Seq<u8> {
        framed(0x70, initial_response_body(self.auth_mechanism@, octets(self.data)))
    }

    fn encode(&self) -> (r: Result<Bytes, Error>) {
        let mut buf = BytesMut::new();

        put_u8(&mut buf, 0x70);

        put_u32(&mut buf, 0);

        put_cstr(&mut buf, self.auth_mechanism.as_str());

        put_i32(&mut buf, to_signed(to_length_field(self.data.len())));
        put_slice(&mut buf, as_slice(&self.data));

        let len = to_length_field(buf.len() - 1);
        set_u32(&mut buf, 1, len);
        assert(mut_octets(buf) =~= self.message());

        Ok(buf.freeze())
    }
}

/// A further message of a SASL exchange.
pub struct SASLResponse {
    pub data: Bytes,
}

impl Codec for SASLResponse {
    open spec fn message(&self) -> Seq<u8> {
        framed(0x70, octets(self.data))
    }

    fn encode(&self) -> (r: Result<Bytes, Error>) {
        Ok(encode_framed(0x70, as_slice(&self.data)))
    }
}

/// A command.
pub struct Query {
    pub sql: String,
}

impl Codec for Query {
    open spec fn message(&self) -> Seq<u8> {
        framed(0x51, cstr_octets(self.sql@))
    }

    fn encode(&self) -> (r: Result<Bytes, Error>) {
        let mut body = BytesMut::new();
        put_cstr(&mut body, self.sql.as_str());
        assert(mut_octets(body) =~= cstr_octets(self.sql@));
        let body = body.freeze();
        Ok(encode_framed(0x51, as_slice(&body)))
    }
}

/// The end of the copied data.
pub struct CopyDone {}

impl Codec for CopyDone {
    open spec fn message(&self) -> Seq<u8> {
        framed(0x63, Seq::empty())
    }

    fn encode(&self) -> (r: Result<Bytes, Error>) {
        let body = BytesMut::new().freeze();
        Ok(encode_framed(0x63, as_slice(&body)))
    }
}

} // verus!
