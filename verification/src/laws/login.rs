//! A login, from the password of the connection to the messages on the wire.
//!
//! The exchange of RFC 5802 is written out here from what both sides know: the
//! password, the nonces, the salt and the number of iterations.

use vstd::prelude::*;
use vstd::utf8::encode_utf8;

use crate::auth::scram::{all_digits, decimal, decimal_value, is_draw, xor, ScramView, COMMA};
use crate::backend::AuthenticationView;
use crate::crypto::{
    base64_data, base64_text, base64_unpadded_text, hmac_sha256_code, is_base64_text, pbkdf2_key,
    sha256_digest,
};
use crate::error::{Error, ServerFirstField};
use crate::laws::format::{
    big_endian, frame_octets, number_lengths, numbers_are_big_endian, terminated, text_is_read,
};
use crate::laws::machine::{offer_begins_exchange, only_expected_signature_logs_in};
use crate::laws::scram::{server_first_is_read, server_first_message};
use crate::laws::server::frames_are_framed;
use crate::machine::{AuthView, ConnectParams, CoreView, StateView};
use crate::protocol::{framed, initial_response_body};
use crate::wire::has_prefix;

verus! {

/// The client's first message without its header: no user name, and the nonce.
pub open spec fn first_bare(nonce: Seq<char>) -> Seq<u8> {
    encode_utf8("n=,r="@) + encode_utf8(nonce)
}

/// The client's last message without its proof: the header in base64, and the nonce
/// of both sides.
pub open spec fn last_bare(both: Seq<u8>) -> Seq<u8> {
    encode_utf8("c=biws"@) + encode_utf8(",r="@) + both
}

/// What both sides sign: the three messages, with commas in between.
pub open spec fn signed_text(nonce: Seq<char>, server_first: Seq<u8>, both: Seq<u8>) -> Seq<u8> {
    first_bare(nonce) + seq![0x2cu8] + server_first + seq![0x2cu8] + last_bare(both)
}

/// The key that the password, the salt and the iterations give.
pub open spec fn password_key(password: Seq<char>, salt: Seq<u8>, rounds: u32) -> Seq<u8> {
    pbkdf2_key(encode_utf8(password), salt, rounds, 32)
}

/// The client's proof: its key, with its signature of the messages over it.
pub open spec fn proof_of(key: Seq<u8>, message: Seq<u8>) -> Seq<u8> {
    let client_key = hmac_sha256_code(key, encode_utf8("Client Key"@));
    xor(client_key, hmac_sha256_code(sha256_digest(client_key), message))
}

/// The server's signature of the messages.
pub open spec fn signature_of(key: Seq<u8>, message: Seq<u8>) -> Seq<u8> {
    hmac_sha256_code(hmac_sha256_code(key, encode_utf8("Server Key"@)), message)
}

/// An exchange that is started holds the password that was given, whole, and offers
/// the text of what was drawn for a nonce.
pub proof fn password_is_kept(
    offered: Seq<Seq<char>>,
    password: Seq<char>,
    nonce: Seq<char>,
    bytes: Seq<u8>,
)
    ensures
        is_draw(Some(bytes)) <==> bytes.len() == 18,
        ScramView::fresh(offered, password, nonce).password == password,
        ScramView::fresh(offered, password, nonce).client_nonce == nonce,
        offered.contains("SCRAM-SHA-256"@) ==> {
            let started = ScramView::start(offered, password, Some(bytes));
            &&& started is Ok
            &&& started->Ok_0.password == password
            &&& started->Ok_0.client_nonce == base64_unpadded_text(bytes)
            &&& started->Ok_0.mechanism == "SCRAM-SHA-256"@
        },
        offered.contains("SCRAM-SHA-256"@) ==> ScramView::start(offered, password, None) == Err::<
            ScramView,
            Error,
        >(Error::NonceUnavailable),
        !offered.contains("SCRAM-SHA-256"@) ==> ScramView::start(offered, password, Some(bytes))
            == Err::<ScramView, Error>(Error::UnsupportedMechanisms),
{
}

/// What follows from the server's first message is a function of the password of
/// the client: its last message proves it, and the signature that it expects is
/// made with it.
pub proof fn answer_proves_password(
    client: ScramView,
    password: Seq<char>,
    nonce: Seq<char>,
    both: Seq<u8>,
    server_first: Seq<u8>,
    salt: Seq<u8>,
    rounds: u32,
)
    requires
        client.password == password,
        client.client_nonce == nonce,
        client.server_first_message == Some(server_first),
        client.client_and_server_nonce == Some(both),
        client.salt == Some(salt),
        client.iterations == Some(rounds),
    ensures
        ({
            let key = password_key(password, salt, rounds);
            let message = signed_text(nonce, server_first, both);
            &&& client.client_final() == Ok::<Seq<u8>, Error>(
                last_bare(both) + encode_utf8(",p="@) + encode_utf8(
                    base64_text(proof_of(key, message)),
                ),
            )
            &&& client.expected_signature() == Ok::<Seq<u8>, Error>(
                encode_utf8(base64_text(signature_of(key, message))),
            )
        }),
{
}

/// A message of the server that is accepted is kept, and so are its nonce, its salt
/// decoded and its iterations; the password stays.
pub proof fn accepted_values_are_kept(
    client: ScramView,
    both: Seq<u8>,
    salt_text: Seq<u8>,
    iterations: Seq<u8>,
)
    requires
        !both.contains(COMMA),
        !salt_text.contains(COMMA),
        client.server_first(server_first_message(both, salt_text, iterations)).0 is Ok,
    ensures
        ({
            let first = server_first_message(both, salt_text, iterations);
            let told = client.server_first(first).1;
            &&& told.password == client.password
            &&& told.client_nonce == client.client_nonce
            &&& told.server_first_message == Some(first)
            &&& told.client_and_server_nonce == Some(both)
            &&& told.salt == base64_data(salt_text) && told.salt is Some
            &&& told.iterations == decimal(iterations) && told.iterations is Some
        }),
{
    server_first_is_read(both, salt_text, iterations);
}

/// A login with the password of the connection's parameters. Behind the startup
/// message, the client answers the offer of the mechanism with its nonce, and an
/// accepted message of the server with the proof of that password. It is logged in
/// by the signature that is made with that password.
pub proof fn login_proves_password(
    core: CoreView,
    params: ConnectParams,
    offered: Seq<Seq<char>>,
    bytes: Seq<u8>,
    both: Seq<u8>,
    salt_text: Seq<u8>,
    iterations: Seq<u8>,
)
    requires
        core.state is Disconnected,
        offered.contains("SCRAM-SHA-256"@),
        !both.contains(COMMA),
        !salt_text.contains(COMMA),
    ensures
        ({
            let nonce = base64_unpadded_text(bytes);
            let first = server_first_message(both, salt_text, iterations);
            let asked = core.connect(params@).1.on_authentication(
                AuthenticationView::Sasl(offered),
                Some(bytes),
            ).1;
            let (r, answered) = asked.on_authentication(
                AuthenticationView::SaslContinue(first),
                None,
            );
            r is Ok ==> {
                &&& base64_data(salt_text) matches Some(salt)
                &&& decimal(iterations) matches Some(rounds)
                &&& {
                    let key = password_key(params.password@, salt, rounds);
                    let message = signed_text(nonce, first, both);
                    &&& answered.outgoing == asked.outgoing.push(
                        framed(
                            0x70,
                            last_bare(both) + encode_utf8(",p="@) + encode_utf8(
                                base64_text(proof_of(key, message)),
                            ),
                        ),
                    )
                    &&& forall|data: Seq<u8>|
                        (#[trigger] answered.on_authentication(
                            AuthenticationView::SaslFinal(data),
                            None,
                        )).0 is Ok <==> data == encode_utf8("v="@) + encode_utf8(
                            base64_text(signature_of(key, message)),
                        )
                }
            }
        }),
{
    let nonce = base64_unpadded_text(bytes);
    let first = server_first_message(both, salt_text, iterations);
    let client = ScramView::fresh(offered, params.password@, nonce);
    let connected = core.connect(params@).1;
    password_is_kept(offered, params.password@, nonce, bytes);
    offer_begins_exchange(connected, params@, offered, bytes);
    let asked = connected.on_authentication(AuthenticationView::Sasl(offered), Some(bytes)).1;
    let (r, answered) = asked.on_authentication(AuthenticationView::SaslContinue(first), None);
    if r is Ok {
        let told = client.server_first(first).1;
        lemma_answered(asked, client, first);
        accepted_values_are_kept(client, both, salt_text, iterations);
        let salt = base64_data(salt_text)->Some_0;
        let rounds = decimal(iterations)->Some_0;
        answer_proves_password(told, params.password@, nonce, both, first, salt, rounds);
        let key = password_key(params.password@, salt, rounds);
        let message = signed_text(nonce, first, both);
        assert forall|data: Seq<u8>|
            (#[trigger] answered.on_authentication(
                AuthenticationView::SaslFinal(data),
                None,
            )).0 is Ok <==> data == encode_utf8("v="@) + encode_utf8(
                base64_text(signature_of(key, message)),
            ) by {
            only_expected_signature_logs_in(answered, told, data);
        }
    }
}

/// An answer is sent only to a message that the client accepts.
proof fn lemma_answered(core: CoreView, client: ScramView, first: Seq<u8>)
    requires
        core.state == StateView::Authenticating(AuthView::Scram(client)),
        core.on_authentication(AuthenticationView::SaslContinue(first), None).0 is Ok,
    ensures
        ({
            let told = client.server_first(first).1;
            let answered = core.on_authentication(
                AuthenticationView::SaslContinue(first),
                None,
            ).1;
            &&& client.server_first(first).0 is Ok
            &&& told.client_final() is Ok
            &&& answered == core.send(framed(0x70, told.client_final()->Ok_0)).to(
                StateView::Authenticating(AuthView::Scram(told)),
            )
        }),
{
}

/// The first message of the exchange on the wire: the mechanism, and the length of
/// the header, the missing user name and the nonce, and these.
pub proof fn first_message_is_written(nonce: Seq<char>, offered: Seq<Seq<char>>, password: Seq<char>)
    requires
        nonce.len() == 24,
        is_base64_text(nonce),
    ensures
        ({
            let client = ScramView::fresh(offered, password, nonce);
            let data = encode_utf8("n,,"@) + first_bare(nonce);
            &&& client.client_first() == data
            &&& framed(0x70, initial_response_body(client.mechanism, client.client_first()))
                == frame_octets(
                0x70,
                terminated("SCRAM-SHA-256"@) + big_endian(data.len() as int, 4) + data,
            )
        }),
{
    let client = ScramView::fresh(offered, password, nonce);
    let data = encode_utf8("n,,"@) + first_bare(nonce);
    crate::crypto::lemma_base64_is_ascii(nonce);
    vstd::utf8::is_ascii_chars_encode_utf8(nonce);
    reveal_strlit("n=,r=");
    vstd::utf8::is_ascii_chars_encode_utf8("n=,r="@);
    reveal_strlit("n,,");
    vstd::utf8::is_ascii_chars_encode_utf8("n,,"@);
    reveal_strlit("SCRAM-SHA-256");
    vstd::utf8::is_ascii_chars_encode_utf8("SCRAM-SHA-256"@);
    text_is_read("SCRAM-SHA-256"@, Seq::empty());
    number_lengths(data.len() as int);
    numbers_are_big_endian(data.len() as u32, 0);
    let body = terminated("SCRAM-SHA-256"@) + big_endian(data.len() as int, 4) + data;
    assert(initial_response_body(client.mechanism, data) =~= body);
    frames_are_framed(0x70, body);
}

// Decimal numbers.

/// `n` in decimal digits.
pub open spec fn digits_of(n: nat) -> Seq<u8>
    decreases n,
{
    if n < 10 {
        seq![(0x30 + n) as u8]
    } else {
        digits_of(n / 10).push((0x30 + n % 10) as u8)
    }
}

/// Digits stand for the number that they write.
proof fn lemma_digits(n: nat)
    ensures
        digits_of(n).len() > 0,
        all_digits(digits_of(n)),
        decimal_value(digits_of(n)) == n,
    decreases n,
{
    let s = digits_of(n);
    if n < 10 {
        assert(s.drop_last() =~= Seq::empty());
        assert(decimal_value(s.drop_last()) == 0);
    } else {
        lemma_digits(n / 10);
        let front = digits_of(n / 10);
        assert(s.drop_last() =~= front);
        assert forall|i: int| 0 <= i < s.len() implies 0x30 <= #[trigger] s[i] <= 0x39 by {
            if i < front.len() {
                assert(s[i] == front[i]);
            }
        }
    }
}

/// A number that is written in decimal is read as that number, also behind a plus
/// sign, if it has 32 bits, and is refused if it has more.
pub proof fn decimal_is_read(n: nat)
    ensures
        n <= u32::MAX ==> decimal(digits_of(n)) == Some(n as u32),
        n <= u32::MAX ==> decimal(seq![0x2bu8] + digits_of(n)) == Some(n as u32),
        n > u32::MAX ==> decimal(digits_of(n)) is None,
{
    lemma_digits(n);
    let s = digits_of(n);
    assert(s[0] != 0x2b) by {
        assert(0x30 <= s[0]);
    }
    assert((seq![0x2bu8] + s).skip(1) =~= s);
}

/// What holds anything but digits is no number, and neither is nothing.
pub proof fn no_decimal_is_refused(s: Seq<u8>, i: int)
    requires
        0 < i < s.len(),
        !(0x30 <= s[i] <= 0x39),
    ensures
        decimal(s) is None,
        decimal(Seq::empty()) is None,
        decimal(seq![0x2bu8]) is None,
{
    if s[0] == 0x2b {
        assert(s.skip(1)[i - 1] == s[i]);
    }
}

// What is refused.

/// Byte by byte, the exclusive or of two sequences of one length.
pub proof fn xor_is_bytewise(a: Seq<u8>, b: Seq<u8>)
    requires
        a.len() == b.len(),
    ensures
        xor(a, b).len() == a.len(),
        forall|i: int| 0 <= i < a.len() ==> #[trigger] xor(a, b)[i] == a[i] ^ b[i],
{
}

/// A message of the server is refused where its salt does not decode, it announces
/// no iterations, or its nonce does not go on from the client's. What is refused
/// teaches the client nothing but the message itself.
pub proof fn bad_values_are_refused(
    client: ScramView,
    both: Seq<u8>,
    salt_text: Seq<u8>,
    rounds: u32,
)
    requires
        !both.contains(COMMA),
        !salt_text.contains(COMMA),
    ensures
        ({
            let mine = encode_utf8(client.client_nonce);
            let first = server_first_message(both, salt_text, digits_of(rounds as nat));
            let (r, told) = client.server_first(first);
            let extended = both.len() > mine.len() && both.take(mine.len() as int) == mine;
            &&& r is Ok <==> base64_data(salt_text) is Some && rounds > 0 && extended
            &&& base64_data(salt_text) is None ==> r == Err::<(), Error>(Error::InvalidSalt)
            &&& base64_data(salt_text) is Some && rounds == 0 ==> r == Err::<(), Error>(
                Error::ZeroIterations,
            )
            &&& base64_data(salt_text) is Some && rounds > 0 && both == mine ==> r == Err::<
                (),
                Error,
            >(Error::NonceNotExtended)
            &&& base64_data(salt_text) is Some && rounds > 0 && !extended && both != mine
                ==> r == Err::<(), Error>(Error::NonceMismatch)
            &&& r is Err ==> told == ScramView { server_first_message: Some(first), ..client }
        }),
{
    let mine = encode_utf8(client.client_nonce);
    let digits = digits_of(rounds as nat);
    server_first_is_read(both, salt_text, digits);
    decimal_is_read(rounds as nat);
    crate::laws::scram::lemma_decimal_is_text(digits);
    assert(both.take(both.len() as int) =~= both);
    if both.len() == mine.len() && both.take(mine.len() as int) == mine {
        assert(both =~= mine);
    }
}

/// A message of the server that does not begin with its nonce is refused.
pub proof fn nonce_comes_first(client: ScramView, data: Seq<u8>)
    requires
        !has_prefix(data, encode_utf8("r="@)),
    ensures
        client.server_first(data).0 == Err::<(), Error>(
            Error::InvalidServerFirst { missing: ServerFirstField::Nonce },
        ),
{
}

} // verus!
