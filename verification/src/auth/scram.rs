//! The client side of SCRAM-SHA-256, without channel binding.

use bytes::{Bytes, BytesMut};
use rand::rngs::SysError;
use vstd::prelude::*;
use vstd::slice::slice_subrange;
use vstd::utf8::{encode_utf8, is_ascii_chars_encode_utf8, valid_utf8};

use crate::backend::texts;
use crate::crypto::{
    base64_data, base64_text, base64_unpadded_text, decode_base64, encode_base64,
    encode_base64_unpadded, fill_pbkdf2, fill_random, hmac_code, hmac_sha256_code, is_base64_text,
    pbkdf2_key, sha256, sha256_digest,
};
use crate::error::{Error, ServerFirstField};
use crate::octets::{
    as_slice, bytes_from_vec, mut_octets, octets, opt_octets, put_slice, put_u8,
};
use crate::protocol::{SASLInitialResponse, SASLResponse};
use crate::wire::{
    agrees, find, has_prefix, lemma_position, position, read_text, starts_with, strip_prefix,
};

verus! {

/// The name of the mechanism.
pub const SCRAM_SHA_256_NAME: &'static str = "SCRAM-SHA-256";

/// How many random bytes the client's nonce is made of.
pub const CLIENT_NONCE_LEN: usize = 18;

/// A comma.
pub const COMMA: u8 = 0x2c;

/// The client's side of an exchange.
#[derive(Debug)]
pub struct ScramClient {
    server_mechanisms: Vec<String>,
    mechanism: String,
    client_nonce: String,
    password: String,
    server_first_message: Option<Bytes>,
    client_and_server_nonce: Option<Bytes>,
    salt: Option<Bytes>,
    iterations: Option<u32>,
}

/// What a [`ScramClient`] knows.
pub struct ScramView {
    pub server_mechanisms: Seq<Seq<char>>,
    pub mechanism: Seq<char>,
    pub client_nonce: Seq<char>,
    pub password: Seq<char>,
    pub server_first_message: Option<Seq<u8>>,
    pub client_and_server_nonce: Option<Seq<u8>>,
    pub salt: Option<Seq<u8>>,
    pub iterations: Option<u32>,
}

impl View for ScramClient {
    type V = ScramView;

    closed spec fn view(&self) -> ScramView {
        ScramView {
            server_mechanisms: texts(self.server_mechanisms@),
            mechanism: self.mechanism@,
            client_nonce: self.client_nonce@,
            password: self.password@,
            server_first_message: opt_octets(self.server_first_message),
            client_and_server_nonce: opt_octets(self.client_and_server_nonce),
            salt: opt_octets(self.salt),
            iterations: self.iterations,
        }
    }
}

// Decimal numbers.

/// The number that a sequence of decimal digits stands for.
pub open spec fn decimal_value(digits: Seq<u8>) -> nat
    decreases digits.len(),
{
    if digits.len() == 0 {
        0
    } else {
        decimal_value(digits.drop_last()) * 10 + (digits.last() - 0x30) as nat
    }
}

/// All of `s` are the characters `0` to `9`.
pub open spec fn all_digits(s: Seq<u8>) -> bool {
    forall|i: int| 0 <= i < s.len() ==> 0x30 <= #[trigger] s[i] <= 0x39
}

/// The 32-bit number that `s` writes in decimal: digits, at least one, possibly
/// behind a plus sign.
pub open spec fn decimal(s: Seq<u8>) -> Option<u32> {
    let digits = if s.len() > 0 && s[0] == 0x2b {
        s.skip(1)
    } else {
        s
    };
    if digits.len() > 0 && all_digits(digits) && decimal_value(digits) <= u32::MAX {
        Some(decimal_value(digits) as u32)
    } else {
        None
    }
}

/// Further digits do not make a number smaller.
proof fn lemma_decimal_grows(digits: Seq<u8>, n: int)
    requires
        0 <= n <= digits.len(),
    ensures
        decimal_value(digits.take(n)) <= decimal_value(digits),
    decreases digits.len() - n,
{
    if n < digits.len() {
        lemma_decimal_grows(digits, n + 1);
        assert(digits.take(n + 1).drop_last() =~= digits.take(n));
    } else {
        assert(digits.take(n) =~= digits);
    }
}

/// Reads a 32-bit number in decimal.
pub fn parse_decimal(s: &[u8]) -> (r: Option<u32>)
    ensures
        r == decimal(s@),
{
    let start: usize = if s.len() > 0 && s[0] == 0x2b {
        1
    } else {
        0
    };
    let ghost digits = s@.skip(start as int);
    assert(s@.skip(0) =~= s@);
    if s.len() == start {
        return None;
    }
    let mut value: u64 = 0;
    let mut i: usize = start;
    assert(digits.take(0) =~= Seq::empty());
    while i < s.len()
        invariant
            start <= i <= s@.len(),
            digits == s@.skip(start as int),
            decimal(s@) == if digits.len() > 0 && all_digits(digits) && decimal_value(digits)
                <= u32::MAX {
                Some(decimal_value(digits) as u32)
            } else {
                None::<u32>
            },
            all_digits(digits.take(i - start)),
            value == decimal_value(digits.take(i - start)),
            value <= u32::MAX,
        decreases s@.len() - i,
    {
        let c = s[i];
        assert(digits[i - start] == c);
        if c < 0x30 || c > 0x39 {
            return None;
        }
        let ghost before = digits.take(i - start);
        let ghost after = digits.take(i - start + 1);
        assert(after.drop_last() =~= before);
        assert(all_digits(after)) by {
            assert forall|j: int| 0 <= j < after.len() implies 0x30 <= #[trigger] after[j]
                <= 0x39 by {
                if j < before.len() {
                    assert(after[j] == before[j]);
                }
            }
        }
        value = value * 10 + (c - 0x30) as u64;
        i += 1;
        if value > u32::MAX as u64 {
            proof {
                lemma_decimal_grows(digits, i - start);
            }
            return None;
        }
    }
    assert(digits.take(i - start) =~= digits);
    Some(value as u32)
}

// The server's first message.

/// What follows `prefix` in `s`.
pub open spec fn after(s: Seq<u8>, prefix: Seq<char>) -> Option<Seq<u8>> {
    if has_prefix(s, encode_utf8(prefix)) {
        Some(s.skip(encode_utf8(prefix).len() as int))
    } else {
        None
    }
}

/// The attributes of a server-first-message, as they are written.
pub struct ServerFirstText {
    pub nonce: Seq<u8>,
    pub salt: Seq<u8>,
    pub iterations: Seq<u8>,
}

/// The attributes of a server-first-message: `r=`, `s=` and `i=`, with commas in
/// between.
pub open spec fn server_first_text(data: Seq<u8>) -> Result<ServerFirstText, Error> {
    match after(data, "r="@) {
        None => Err(Error::InvalidServerFirst { missing: ServerFirstField::Nonce }),
        Some(a) => match position(a, COMMA) {
            None => Err(Error::InvalidServerFirst { missing: ServerFirstField::Salt }),
            Some(n) => match after(a.skip(n + 1), "s="@) {
                None => Err(Error::InvalidServerFirst { missing: ServerFirstField::Salt }),
                Some(b) => match position(b, COMMA) {
                    None => Err(Error::InvalidServerFirst { missing: ServerFirstField::Iterations }),
                    Some(m) => match after(b.skip(m + 1), "i="@) {
                        None => Err(
                            Error::InvalidServerFirst { missing: ServerFirstField::Iterations },
                        ),
                        Some(c) => Ok(
                            ServerFirstText { nonce: a.take(n), salt: b.take(m), iterations: c },
                        ),
                    },
                },
            },
        },
    }
}

/// The attributes of a server-first-message.
pub struct ServerFirst<'a> {
    pub nonce: &'a [u8],
    pub salt: &'a [u8],
    pub iterations: &'a [u8],
}

impl<'a> View for ServerFirst<'a> {
    type V = ServerFirstText;

    open spec fn view(&self) -> ServerFirstText {
        ServerFirstText { nonce: self.nonce@, salt: self.salt@, iterations: self.iterations@ }
    }
}

/// Finds the attributes of a server-first-message.
pub fn split_server_first<'a>(data: &'a [u8]) -> (r: Result<ServerFirst<'a>, Error>)
    ensures
        agrees(r, server_first_text(data@)),
{
    let buf = match strip_prefix(data, "r=".as_bytes()) {
        Some(buf) => buf,
        None => return Err(Error::InvalidServerFirst { missing: ServerFirstField::Nonce }),
    };
    let idx = match find(buf, COMMA) {
        Some(idx) => idx,
        None => return Err(Error::InvalidServerFirst { missing: ServerFirstField::Salt }),
    };
    proof {
        lemma_position(buf@, COMMA);
    }
    let nonce = slice_subrange(buf, 0, idx);
    let end = buf.len();
    let rest = slice_subrange(buf, idx + 1, end);

    let buf = match strip_prefix(rest, "s=".as_bytes()) {
        Some(buf) => buf,
        None => return Err(Error::InvalidServerFirst { missing: ServerFirstField::Salt }),
    };
    let idx = match find(buf, COMMA) {
        Some(idx) => idx,
        None => return Err(Error::InvalidServerFirst { missing: ServerFirstField::Iterations }),
    };
    proof {
        lemma_position(buf@, COMMA);
    }
    let salt = slice_subrange(buf, 0, idx);
    let end = buf.len();
    let rest = slice_subrange(buf, idx + 1, end);

    match strip_prefix(rest, "i=".as_bytes()) {
        Some(iterations) => Ok(ServerFirst { nonce, salt, iterations }),
        None => Err(Error::InvalidServerFirst { missing: ServerFirstField::Iterations }),
    }
}

// The exchange.

/// Byte by byte exclusive or, as far as both sides reach.
pub open spec fn xor(a: Seq<u8>, b: Seq<u8>) -> Seq<u8> {
    Seq::new(
        if a.len() <= b.len() {
            a.len()
        } else {
            b.len()
        },
        |i: int| a[i] ^ b[i],
    )
}

/// Byte by byte exclusive or, as far as both sides reach.
pub fn xor_octets(a: &[u8], b: &[u8]) -> (r: Vec<u8>)
    ensures
        r@ == xor(a@, b@),
{
    let mut r: Vec<u8> = Vec::new();
    let mut i: usize = 0;
    while i < a.len() && i < b.len()
        invariant
            i <= a@.len(),
            i <= b@.len(),
            r@ == Seq::new(i as nat, |j: int| a@[j] ^ b@[j]),
        decreases a@.len() - i,
    {
        r.push(a[i] ^ b[i]);
        i += 1;
        assert(r@ =~= Seq::new(i as nat, |j: int| a@[j] ^ b@[j]));
    }
    r
}

/// What proves to the server that the client knows the password.
pub open spec fn client_proof(salted_password: Seq<u8>, auth_message: Seq<u8>) -> Seq<u8> {
    let client_key = hmac_sha256_code(salted_password, encode_utf8("Client Key"@));
    xor(client_key, hmac_sha256_code(sha256_digest(client_key), auth_message))
}

/// What proves to the client that the server knows the password.
pub open spec fn server_signature(salted_password: Seq<u8>, auth_message: Seq<u8>) -> Seq<u8> {
    hmac_sha256_code(
        hmac_sha256_code(salted_password, encode_utf8("Server Key"@)),
        auth_message,
    )
}

impl ScramView {
    /// A client that has heard nothing from the server yet.
    pub open spec fn fresh(
        server_mechanisms: Seq<Seq<char>>,
        password: Seq<char>,
        client_nonce: Seq<char>,
    ) -> ScramView {
        ScramView {
            server_mechanisms,
            mechanism: SCRAM_SHA_256_NAME@,
            client_nonce,
            password,
            server_first_message: None,
            client_and_server_nonce: None,
            salt: None,
            iterations: None,
        }
    }

    /// What starting an exchange comes to, where `draw` is what the random
    /// number source gave.
    pub open spec fn start(
        server_mechanisms: Seq<Seq<char>>,
        password: Seq<char>,
        draw: Option<Seq<u8>>,
    ) -> Result<ScramView, Error> {
        if !server_mechanisms.contains(SCRAM_SHA_256_NAME@) {
            Err(Error::UnsupportedMechanisms)
        } else {
            match draw {
                None => Err(Error::NonceUnavailable),
                Some(bytes) => Ok(
                    ScramView::fresh(server_mechanisms, password, base64_unpadded_text(bytes)),
                ),
            }
        }
    }

    pub open spec fn client_first_bare(self) -> Seq<u8> {
        encode_utf8("n=,r="@) + encode_utf8(self.client_nonce)
    }

    pub open spec fn client_first(self) -> Seq<u8> {
        encode_utf8("n,,"@) + self.client_first_bare()
    }

    pub open spec fn without_proof(self) -> Result<Seq<u8>, Error> {
        match self.client_and_server_nonce {
            None => Err(Error::MissingNonce),
            Some(nonce) => Ok(encode_utf8("c=biws"@) + encode_utf8(",r="@) + nonce),
        }
    }

    pub open spec fn auth_message(self) -> Result<Seq<u8>, Error> {
        match self.server_first_message {
            None => Err(Error::MissingServerFirst),
            Some(server_first) => match self.without_proof() {
                Err(e) => Err(e),
                Ok(w) => Ok(
                    self.client_first_bare() + seq![COMMA] + server_first + seq![COMMA] + w,
                ),
            },
        }
    }

    pub open spec fn salted_password(self) -> Result<Seq<u8>, Error> {
        match (self.salt, self.iterations) {
            (None, _) => Err(Error::MissingSalt),
            (_, None) => Err(Error::MissingIterations),
            (Some(salt), Some(rounds)) => Ok(
                pbkdf2_key(encode_utf8(self.password), salt, rounds, 32),
            ),
        }
    }

    /// The client's last message, around the text of a proof.
    pub open spec fn with_proof(self, proof_text: Seq<char>) -> Result<Seq<u8>, Error> {
        match self.without_proof() {
            Err(e) => Err(e),
            Ok(w) => Ok(w + encode_utf8(",p="@) + encode_utf8(proof_text)),
        }
    }

    pub open spec fn client_final(self) -> Result<Seq<u8>, Error> {
        match (self.salted_password(), self.auth_message()) {
            (Err(e), _) => Err(e),
            (_, Err(e)) => Err(e),
            (Ok(key), Ok(message)) => self.with_proof(base64_text(client_proof(key, message))),
        }
    }

    /// The signature that the server has to send.
    pub open spec fn expected_signature(self) -> Result<Seq<u8>, Error> {
        match (self.salted_password(), self.auth_message()) {
            (Err(e), _) => Err(e),
            (_, Err(e)) => Err(e),
            (Ok(key), Ok(message)) => Ok(
                encode_utf8(base64_text(server_signature(key, message))),
            ),
        }
    }

    /// What the decoded attributes of a server-first-message come to: `salt` is
    /// what the salt decodes to.
    pub open spec fn accept_server_first(
        self,
        nonce: Seq<u8>,
        salt: Option<Seq<u8>>,
        iterations: Seq<u8>,
    ) -> (Result<(), Error>, ScramView) {
        let prefix = encode_utf8(self.client_nonce);
        match salt {
            None => (Err(Error::InvalidSalt), self),
            Some(salt) => if !valid_utf8(iterations) {
                (Err(Error::InvalidUtf8), self)
            } else {
                match decimal(iterations) {
                    None => (Err(Error::InvalidIterations), self),
                    Some(rounds) => if rounds == 0 {
                        (Err(Error::ZeroIterations), self)
                    } else if !has_prefix(nonce, prefix) {
                        (Err(Error::NonceMismatch), self)
                    } else if nonce.len() <= prefix.len() {
                        (Err(Error::NonceNotExtended), self)
                    } else {
                        (
                            Ok(()),
                            ScramView {
                                client_and_server_nonce: Some(nonce),
                                salt: Some(salt),
                                iterations: Some(rounds),
                                ..self
                            },
                        )
                    },
                }
            },
        }
    }

    /// What a server-first-message comes to. The message is kept also where it
    /// is refused.
    pub open spec fn server_first(self, data: Seq<u8>) -> (Result<(), Error>, ScramView) {
        let kept = ScramView { server_first_message: Some(data), ..self };
        match server_first_text(data) {
            Err(e) => (Err(e), kept),
            Ok(t) => kept.accept_server_first(t.nonce, base64_data(t.salt), t.iterations),
        }
    }

    /// What a server-final-message comes to.
    pub open spec fn server_final(self, data: Seq<u8>) -> Result<(), Error> {
        if after(data, "v="@) is None {
            Err(Error::InvalidServerFinal)
        } else {
            match self.expected_signature() {
                Err(e) => Err(e),
                Ok(expected) => signature_check(data, expected),
            }
        }
    }

    /// The client's last message fits in a buffer. The proof takes 47 bytes.
    pub open spec fn final_fits(self) -> bool {
        &&& fits(self.auth_message())
        &&& match self.without_proof() {
            Ok(w) => w.len() + 47 <= isize::MAX,
            Err(_) => true,
        }
    }
}

/// A message, where there is one, fits in a buffer.
pub open spec fn fits(message: Result<Seq<u8>, Error>) -> bool {
    match message {
        Ok(m) => m.len() <= isize::MAX,
        Err(_) => true,
    }
}

/// A server-final-message must hold the expected signature.
pub open spec fn signature_check(data: Seq<u8>, expected: Seq<u8>) -> Result<(), Error> {
    match after(data, "v="@) {
        None => Err(Error::InvalidServerFinal),
        Some(signature) => if signature == expected {
            Ok(())
        } else {
            Err(Error::InvalidServerSignature)
        },
    }
}

/// Checks the signature of a server-final-message.
pub fn check_signature(data: &[u8], expected: &[u8]) -> (r: Result<(), Error>)
    ensures
        r == signature_check(data@, expected@),
{
    let signature = match strip_prefix(data, "v=".as_bytes()) {
        Some(signature) => signature,
        None => return Err(Error::InvalidServerFinal),
    };
    assert(signature@.take(signature@.len() as int) =~= signature@);
    if signature.len() != expected.len() || !starts_with(signature, expected) {
        return Err(Error::InvalidServerSignature);
    }
    Ok(())
}

/// Something that the random number source can give: nothing, or as many bytes
/// as were asked for.
pub open spec fn is_draw(draw: Option<Seq<u8>>) -> bool {
    match draw {
        Some(bytes) => bytes.len() == CLIENT_NONCE_LEN,
        None => true,
    }
}

/// The bytes of a nonce, if the random number source has filled them.
fn drawn(filled: Result<(), SysError>, nonce_bytes: [u8; CLIENT_NONCE_LEN]) -> (r: Option<
    [u8; CLIENT_NONCE_LEN],
>)
    ensures
        r == match filled {
            Ok(()) => Some(nonce_bytes),
            Err(_) => None,
        },
{
    match filled {
        Ok(()) => Some(nonce_bytes),
        Err(_) => None,
    }
}

/// Draws the random bytes of a nonce. Whether the random number source gives any
/// rests on the system, and which ones on chance, so nothing is said of either:
/// [`drawn`] says what becomes of each answer of the source.
fn draw_nonce() -> (r: Option<[u8; CLIENT_NONCE_LEN]>) {
    let mut nonce_bytes: [u8; CLIENT_NONCE_LEN] = [0;CLIENT_NONCE_LEN];
    let filled = fill_random(&mut nonce_bytes);
    drawn(filled, nonce_bytes)
}

/// What was drawn, as a sequence.
pub open spec fn draw_of(drawn: Option<[u8; CLIENT_NONCE_LEN]>) -> Option<Seq<u8>> {
    match drawn {
        Some(bytes) => Some(bytes@),
        None => None,
    }
}

/// Tells whether SCRAM-SHA-256 is among the mechanisms on offer.
pub fn offers_scram(server_mechanisms: &Vec<String>) -> (r: bool)
    ensures
        r == texts(server_mechanisms@).contains(SCRAM_SHA_256_NAME@),
{
    let name = SCRAM_SHA_256_NAME.to_owned();
    let mut i: usize = 0;
    while i < server_mechanisms.len()
        invariant
            i <= server_mechanisms@.len(),
            name@ == SCRAM_SHA_256_NAME@,
            forall|j: int| 0 <= j < i ==> server_mechanisms@[j]@ != name@,
        decreases server_mechanisms@.len() - i,
    {
        if server_mechanisms[i] == name {
            assert(texts(server_mechanisms@)[i as int] == name@);
            return true;
        }
        i += 1;
    }
    false
}

impl ScramClient {
    /// Starts an exchange with a nonce of the caller's.
    pub fn with_nonce(
        server_mechanisms: Vec<String>,
        password: String,
        client_nonce: String,
    ) -> (client: ScramClient)
        ensures
            client@ == ScramView::fresh(texts(server_mechanisms@), password@, client_nonce@),
    {
        ScramClient {
            server_mechanisms,
            mechanism: SCRAM_SHA_256_NAME.to_owned(),
            client_nonce,
            password,
            server_first_message: None,
            client_and_server_nonce: None,
            salt: None,
            iterations: None,
        }
    }

    /// Starts an exchange with a nonce of the bytes that were drawn, if there are
    /// any and the server offers the mechanism.
    pub fn with_draw(
        server_mechanisms: Vec<String>,
        password: String,
        drawn: Option<[u8; CLIENT_NONCE_LEN]>,
    ) -> (r: Result<ScramClient, Error>)
        ensures
            agrees(
                r,
                ScramView::start(texts(server_mechanisms@), password@, draw_of(drawn)),
            ),
            match r {
                Ok(client) => client@.client_nonce.len() == 24 && is_base64_text(
                    client@.client_nonce,
                ),
                Err(_) => true,
            },
    {
        if !offers_scram(&server_mechanisms) {
            return Err(Error::UnsupportedMechanisms);
        }
        let nonce_bytes = match drawn {
            Some(nonce_bytes) => nonce_bytes,
            None => return Err(Error::NonceUnavailable),
        };
        let client_nonce = encode_base64_unpadded(&nonce_bytes);
        Ok(ScramClient::with_nonce(server_mechanisms, password, client_nonce))
    }

    /// Starts an exchange with a random nonce, if the server offers the
    /// mechanism.
    pub fn new(server_mechanisms: Vec<String>, password: String) -> (r: Result<ScramClient, Error>)
        ensures
            exists|draw: Option<Seq<u8>>| #[trigger]
                is_draw(draw) && agrees(
                    r,
                    ScramView::start(texts(server_mechanisms@), password@, draw),
                ),
            match r {
                Ok(client) => client@.client_nonce.len() == 24 && is_base64_text(
                    client@.client_nonce,
                ),
                Err(_) => true,
            },
    {
        let drawn = if offers_scram(&server_mechanisms) {
            draw_nonce()
        } else {
            None
        };
        assert(is_draw(draw_of(drawn)));
        ScramClient::with_draw(server_mechanisms, password, drawn)
    }

    /// The client's choice of the mechanism, with its first message.
    pub fn initial_response(&self) -> (r: SASLInitialResponse)
        requires
            self@.client_first().len() <= isize::MAX,
        ensures
            r.auth_mechanism@ == self@.mechanism,
            octets(r.data) == self@.client_first(),
    {
        SASLInitialResponse {
            auth_mechanism: self.mechanism.clone(),
            data: self.client_first_message(),
        }
    }

    /// The client's last message.
    pub fn final_response(&self) -> (r: Result<SASLResponse, Error>)
        requires
            self@.final_fits(),
        ensures
            match (r, self@.client_final()) {
                (Ok(response), Ok(m)) => octets(response.data) == m,
                (Err(e), Err(f)) => e == f,
                _ => false,
            },
            match (r, self@.without_proof()) {
                (Ok(response), Ok(w)) => octets(response.data).len() == w.len() + 47,
                _ => true,
            },
    {
        Ok(SASLResponse { data: self.client_final_message()? })
    }

    /// Takes the server's first message.
    pub fn handle_server_first(&mut self, data: Bytes) -> (r: Result<(), Error>)
        ensures
            (r, final(self)@) == old(self)@.server_first(octets(data)),
    {
        self.server_first_message = Some(data.clone());
        let t = split_server_first(as_slice(&data))?;
        let salt_decoded = match decode_base64(t.salt) {
            Ok(salt) => Some(salt),
            Err(_) => None,
        };
        self.accept_server_first(t.nonce, salt_decoded, t.iterations)
    }

    /// Takes the attributes of the server's first message; `salt` is what the
    /// salt decodes to.
    pub fn accept_server_first(
        &mut self,
        nonce: &[u8],
        salt: Option<Vec<u8>>,
        iterations: &[u8],
    ) -> (r: Result<(), Error>)
        ensures
            (r, final(self)@) == old(self)@.accept_server_first(
                nonce@,
                match salt {
                    Some(v) => Some(v@),
                    None => None,
                },
                iterations@,
            ),
    {
        let client_and_server_nonce = Bytes::copy_from_slice(nonce);
        let salt_decoded = match salt {
            Some(salt) => salt,
            None => return Err(Error::InvalidSalt),
        };
        read_text(iterations)?;
        let iterations = match parse_decimal(iterations) {
            Some(iterations) => iterations,
            None => return Err(Error::InvalidIterations),
        };

        if iterations == 0 {
            return Err(Error::ZeroIterations);
        }
        let client_nonce = self.client_nonce.as_str().as_bytes();
        if !starts_with(nonce, client_nonce) {
            return Err(Error::NonceMismatch);
        }
        if nonce.len() <= client_nonce.len() {
            return Err(Error::NonceNotExtended);
        }
        self.client_and_server_nonce = Some(client_and_server_nonce);
        self.salt = Some(bytes_from_vec(salt_decoded));
        self.iterations = Some(iterations);

        Ok(())
    }

    /// Takes the server's last message.
    pub fn handle_server_final(&mut self, data: Bytes) -> (r: Result<(), Error>)
        requires
            fits(old(self)@.auth_message()),
        ensures
            r == old(self)@.server_final(octets(data)),
            final(self)@ == old(self)@,
    {
        let message = as_slice(&data);
        if !starts_with(message, "v=".as_bytes()) {
            return Err(Error::InvalidServerFinal);
        }
        let salted_password = self.salted_password()?;
        let auth_message = self.auth_message()?;

        let server_key = hmac_sha256(&salted_password, "Server Key".as_bytes())?;
        let signature = hmac_sha256(server_key.as_slice(), as_slice(&auth_message))?;

        let expected_signature = encode_base64(signature.as_slice());
        check_signature(message, expected_signature.as_str().as_bytes())
    }

    fn client_first_message(&self) -> (m: Bytes)
        requires
            self@.client_first().len() <= isize::MAX,
        ensures
            octets(m) == self@.client_first(),
    {
        let mut result = BytesMut::new();

        put_slice(&mut result, as_slice(&self.client_gs2_header()));
        put_slice(&mut result, as_slice(&self.client_first_message_bare()));
        assert(mut_octets(result) =~= self@.client_first());

        result.freeze()
    }

    fn client_final_message(&self) -> (r: Result<Bytes, Error>)
        requires
            self@.final_fits(),
        ensures
            match (r, self@.client_final()) {
                (Ok(b), Ok(m)) => octets(b) == m,
                (Err(e), Err(f)) => e == f,
                _ => false,
            },
            match (r, self@.without_proof()) {
                (Ok(b), Ok(w)) => octets(b).len() == w.len() + 47,
                _ => true,
            },
    {
        let salted_password = self.salted_password()?;
        let auth_message = self.auth_message()?;

        let client_key = hmac_sha256(&salted_password, "Client Key".as_bytes())?;
        let stored_key = sha256(client_key.as_slice());
        let client_signature = hmac_sha256(stored_key.as_slice(), as_slice(&auth_message))?;

        let client_proof = xor_octets(client_key.as_slice(), client_signature.as_slice());

        let client_proof_encoded = encode_base64(client_proof.as_slice());
        proof {
            reveal_strlit(",p=");
            is_ascii_chars_encode_utf8(",p="@);
            is_ascii_chars_encode_utf8(client_proof_encoded@);
        }
        self.message_with_proof(client_proof_encoded.as_str())
    }

    /// Puts the text of a proof behind the rest of the client's last message.
    pub fn message_with_proof(&self, proof_text: &str) -> (r: Result<Bytes, Error>)
        requires
            fits(self@.with_proof(proof_text@)),
        ensures
            match (r, self@.with_proof(proof_text@)) {
                (Ok(b), Ok(m)) => octets(b) == m,
                (Err(e), Err(f)) => e == f,
                _ => false,
            },
    {
        let client_message_without_proof = self.client_message_without_proof()?;

        let mut result = BytesMut::new();

        put_slice(&mut result, as_slice(&client_message_without_proof));
        put_slice(&mut result, ",p=".as_bytes());
        put_slice(&mut result, proof_text.as_bytes());
        proof {
            let w = octets(client_message_without_proof);
            assert(mut_octets(result) =~= w + encode_utf8(",p="@) + encode_utf8(proof_text@));
        }

        Ok(result.freeze())
    }

    fn client_first_message_bare(&self) -> (m: Bytes)
        requires
            self@.client_first_bare().len() <= isize::MAX,
        ensures
            octets(m) == self@.client_first_bare(),
    {
        let mut buf = BytesMut::new();

        put_slice(&mut buf, "n=,r=".as_bytes());
        put_slice(&mut buf, self.client_nonce.as_str().as_bytes());
        assert(mut_octets(buf) =~= self@.client_first_bare());

        buf.freeze()
    }

    fn client_gs2_header(&self) -> (m: Bytes)
        ensures
            octets(m) == encode_utf8("n,,"@),
    {
        Bytes::from_static("n,,".as_bytes())
    }

    /// The password, salted and stretched.
    pub fn salted_password(&self) -> (r: Result<[u8; 32], Error>)
        ensures
            match (r, self@.salted_password()) {
                (Ok(key), Ok(k)) => key@ == k,
                (Err(e), Err(f)) => e == f,
                _ => false,
            },
    {
        let salt = match &self.salt {
            Some(salt) => salt,
            None => return Err(Error::MissingSalt),
        };
        let iterations = match self.iterations {
            Some(iterations) => iterations,
            None => return Err(Error::MissingIterations),
        };
        let mut out: [u8; 32] = [0;32];
        fill_pbkdf2(self.password.as_str().as_bytes(), as_slice(salt), iterations, &mut out);
        Ok(out)
    }

    /// What both sides sign.
    pub fn auth_message(&self) -> (r: Result<Bytes, Error>)
        requires
            fits(self@.auth_message()),
        ensures
            match (r, self@.auth_message()) {
                (Ok(b), Ok(m)) => octets(b) == m,
                (Err(e), Err(f)) => e == f,
                _ => false,
            },
    {
        let server_first_message = match &self.server_first_message {
            Some(message) => message,
            None => return Err(Error::MissingServerFirst),
        };
        let client_message_without_proof = self.client_message_without_proof()?;

        let mut result = BytesMut::new();

        put_slice(&mut result, as_slice(&self.client_first_message_bare()));
        put_u8(&mut result, COMMA);
        put_slice(&mut result, as_slice(server_first_message));
        put_u8(&mut result, COMMA);
        put_slice(&mut result, as_slice(&client_message_without_proof));
        proof {
            let w = octets(client_message_without_proof);
            assert(mut_octets(result) =~= self@.client_first_bare() + seq![COMMA] + octets(
                *server_first_message,
            ) + seq![COMMA] + w);
        }

        Ok(result.freeze())
    }

    fn client_message_without_proof(&self) -> (r: Result<Bytes, Error>)
        requires
            fits(self@.without_proof()),
        ensures
            match (r, self@.without_proof()) {
                (Ok(b), Ok(m)) => octets(b) == m,
                (Err(e), Err(f)) => e == f,
                _ => false,
            },
    {
        let nonce = match &self.client_and_server_nonce {
            Some(nonce) => nonce,
            None => return Err(Error::MissingNonce),
        };
        let mut result = BytesMut::new();

        put_slice(&mut result, "c=biws".as_bytes());
        put_slice(&mut result, ",r=".as_bytes());
        put_slice(&mut result, as_slice(nonce));
        assert(mut_octets(result) =~= encode_utf8("c=biws"@) + encode_utf8(",r="@) + octets(
            *nonce,
        ));

        Ok(result.freeze())
    }
}

/// The HMAC-SHA-256 of `data` under `key`. A zero byte behind a key that is shorter
/// than a block of the digest changes nothing, and a key that is longer stands for
/// its digest.
pub fn hmac_sha256(key: &[u8], data: &[u8]) -> (r: Result<Vec<u8>, Error>)
    ensures
        match r {
            Ok(code) => {
                &&& code@ == hmac_sha256_code(key@, data@)
                &&& code@.len() == 32
                &&& key@.len() < 64 ==> code@ == hmac_sha256_code(key@.push(0), data@)
                &&& key@.len() > 64 ==> code@ == hmac_sha256_code(sha256_digest(key@), data@)
            },
            Err(_) => false,
        },
{
    match hmac_code(key, data) {
        Ok(code) => Ok(code),
        Err(_) => Err(Error::InvalidHmacKey),
    }
}

} // verus!
