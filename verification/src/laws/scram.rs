//! What holds of a SCRAM exchange.

use vstd::prelude::*;
use vstd::utf8::{
    encode_utf8, encode_utf8_valid_utf8, is_ascii_chars, is_ascii_chars_encode_utf8, valid_utf8,
};

use crate::auth::scram::{
    after, decimal, server_first_text, server_signature, xor, ScramView, ServerFirstText, COMMA,
};
use crate::crypto::{
    base64_data, base64_text, is_base64_char, is_base64_text, lemma_base64_is_ascii, pbkdf2_key,
};
use crate::error::Error;
use crate::wire::{has_prefix, lemma_position, position};

verus! {

/// A server-first-message with these attributes.
pub open spec fn server_first_message(
    nonce: Seq<u8>,
    salt: Seq<u8>,
    iterations: Seq<u8>,
) -> Seq<u8> {
    encode_utf8("r="@) + nonce + seq![COMMA] + encode_utf8("s="@) + salt + seq![COMMA]
        + encode_utf8("i="@) + iterations
}

/// A server-final-message with this signature.
pub open spec fn server_final_message(signature: Seq<u8>) -> Seq<u8> {
    encode_utf8("v="@) + signature
}

/// Behind a prefix stands what was put there.
proof fn lemma_after(prefix: Seq<char>, s: Seq<u8>)
    ensures
        after(encode_utf8(prefix) + s, prefix) == Some(s),
{
    let p = encode_utf8(prefix);
    assert((p + s).take(p.len() as int) =~= p);
    assert((p + s).skip(p.len() as int) =~= s);
}

/// The first `b` stands behind a part without any.
proof fn lemma_position_behind(s: Seq<u8>, b: u8, rest: Seq<u8>)
    requires
        !s.contains(b),
    ensures
        position(s + seq![b] + rest, b) == Some(s.len() as int),
        (s + seq![b] + rest).take(s.len() as int) == s,
        (s + seq![b] + rest).skip(s.len() as int + 1) == rest,
{
    let all = s + seq![b] + rest;
    lemma_position(all, b);
    assert(all[s.len() as int] == b);
    assert forall|i: int| 0 <= i < s.len() implies all[i] != b by {
        assert(s.contains(s[i]));
    }
    assert(all.take(s.len() as int) =~= s);
    assert(all.skip(s.len() as int + 1) =~= rest);
}

/// The attributes of a server-first-message are read as they were written, if the
/// nonce and the salt hold no comma.
pub proof fn server_first_is_read(nonce: Seq<u8>, salt: Seq<u8>, iterations: Seq<u8>)
    requires
        !nonce.contains(COMMA),
        !salt.contains(COMMA),
    ensures
        server_first_text(server_first_message(nonce, salt, iterations)) == Ok::<
            ServerFirstText,
            Error,
        >(ServerFirstText { nonce, salt, iterations }),
{
    let c = encode_utf8("i="@) + iterations;
    let b = salt + seq![COMMA] + c;
    let a = nonce + seq![COMMA] + (encode_utf8("s="@) + b);
    assert(server_first_message(nonce, salt, iterations) =~= encode_utf8("r="@) + a);
    lemma_after("r="@, a);
    lemma_position_behind(nonce, COMMA, encode_utf8("s="@) + b);
    lemma_after("s="@, b);
    lemma_position_behind(salt, COMMA, c);
    lemma_after("i="@, iterations);
}

/// A number in decimal is ASCII text.
pub proof fn lemma_decimal_is_text(s: Seq<u8>)
    requires
        decimal(s) is Some,
    ensures
        valid_utf8(s),
{
    let chars = s.map_values(|b: u8| b as char);
    assert forall|i: int| 0 <= i < s.len() implies s[i] < 0x80 by {
        if s[0] == 0x2b && i > 0 {
            assert(s.skip(1)[i - 1] == s[i]);
        }
    }
    assert(is_ascii_chars(chars));
    is_ascii_chars_encode_utf8(chars);
    assert(encode_utf8(chars) =~= s);
    encode_utf8_valid_utf8(chars);
}

/// Base64 holds no comma.
pub proof fn lemma_base64_without_comma(text: Seq<char>)
    requires
        is_base64_text(text),
    ensures
        !encode_utf8(text).contains(COMMA),
{
    lemma_base64_is_ascii(text);
    is_ascii_chars_encode_utf8(text);
    assert forall|i: int| 0 <= i < text.len() implies encode_utf8(text)[i] != COMMA by {
        assert(is_base64_char(text[i]));
        assert(text[i] as u8 == encode_utf8(text)[i]);
    }
}

/// What a client has accepted of the server extends its own nonce, and holds a
/// positive number of iterations. Nothing else of the client has changed.
pub proof fn accepted_nonce_extends(client: ScramView, data: Seq<u8>)
    requires
        client.server_first(data).0 is Ok,
    ensures
        ({
            let told = client.server_first(data).1;
            &&& told.client_and_server_nonce matches Some(nonce)
            &&& has_prefix(nonce, encode_utf8(client.client_nonce))
            &&& nonce.len() > encode_utf8(client.client_nonce).len()
            &&& told.iterations matches Some(rounds)
            &&& rounds > 0
            &&& told == ScramView {
                server_first_message: Some(data),
                client_and_server_nonce: told.client_and_server_nonce,
                salt: told.salt,
                iterations: told.iterations,
                ..client
            }
        }),
{
}

/// A client that has accepted the server's first message can answer it, and knows
/// the signature to expect.
pub proof fn accepted_exchange_goes_on(client: ScramView, data: Seq<u8>)
    requires
        client.server_first(data).0 is Ok,
    ensures
        client.server_first(data).1.client_final() is Ok,
        client.server_first(data).1.expected_signature() is Ok,
{
}

/// The server's last message is accepted if it is the one with the expected
/// signature, and only then.
pub proof fn only_expected_signature_is_accepted(
    client: ScramView,
    data: Seq<u8>,
    expected: Seq<u8>,
)
    requires
        client.expected_signature() == Ok::<Seq<u8>, Error>(expected),
    ensures
        client.server_final(data) is Ok <==> data == server_final_message(expected),
{
    lemma_after("v="@, expected);
    match after(data, "v="@) {
        Some(signature) => {
            assert(data =~= encode_utf8("v="@) + signature);
        },
        None => {},
    }
}

/// A client that has not accepted a message of the server accepts no signature.
pub proof fn no_signature_before_server_first(
    server_mechanisms: Seq<Seq<char>>,
    password: Seq<char>,
    client_nonce: Seq<char>,
    data: Seq<u8>,
)
    ensures
        ScramView::fresh(server_mechanisms, password, client_nonce).server_final(data) is Err,
{
}

/// An honest server is accepted. It extends the nonce, and sends a salt and a
/// number of iterations. With the password it comes to the signature that the
/// client expects.
pub proof fn honest_server_is_accepted(
    client: ScramView,
    extension: Seq<u8>,
    salt_text: Seq<u8>,
    iterations: Seq<u8>,
)
    requires
        extension.len() > 0,
        !(encode_utf8(client.client_nonce) + extension).contains(COMMA),
        !salt_text.contains(COMMA),
        decimal(iterations) matches Some(rounds) && rounds > 0,
    ensures
        base64_data(salt_text) is Some ==> ({
            let nonce = encode_utf8(client.client_nonce) + extension;
            let (r, told) = client.server_first(
                server_first_message(nonce, salt_text, iterations),
            );
            let key = pbkdf2_key(
                encode_utf8(client.password),
                base64_data(salt_text).unwrap(),
                decimal(iterations).unwrap(),
                32,
            );
            &&& r == Ok::<(), Error>(())
            &&& told.client_and_server_nonce == Some(nonce)
            &&& told.salt == base64_data(salt_text)
            &&& told.iterations == decimal(iterations)
            &&& told.auth_message() matches Ok(message)
            &&& told.server_final(
                server_final_message(encode_utf8(base64_text(server_signature(key, message)))),
            ) == Ok::<(), Error>(())
        }),
{
    let prefix = encode_utf8(client.client_nonce);
    let nonce = prefix + extension;
    assert(nonce.take(prefix.len() as int) =~= prefix);
    server_first_is_read(nonce, salt_text, iterations);
    lemma_decimal_is_text(iterations);
    let told = client.server_first(server_first_message(nonce, salt_text, iterations)).1;
    match told.expected_signature() {
        Ok(expected) => only_expected_signature_is_accepted(
            told,
            server_final_message(expected),
            expected,
        ),
        Err(_) => {},
    }
}

/// Who knows the other side of an exclusive or gets the first side back. So the
/// server finds the client's key in the client's proof.
pub proof fn xor_is_undone(a: Seq<u8>, b: Seq<u8>)
    requires
        a.len() <= b.len(),
    ensures
        xor(xor(a, b), b) == a,
{
    assert forall|i: int| 0 <= i < a.len() implies xor(xor(a, b), b)[i] == a[i] by {
        let x = a[i];
        let y = b[i];
        assert((x ^ y) ^ y == x) by (bit_vector);
    }
    assert(xor(xor(a, b), b) =~= a);
}

} // verus!
