use bytes::Bytes;

use pg_replication::auth::scram::{
    check_signature, parse_decimal, xor_octets, ScramClient, CLIENT_NONCE_LEN, SCRAM_SHA_256_NAME,
};
use pg_replication::{hmac_sha256, Error, ServerFirstField};

const NONCE: &str = "rOprNGfwEbeRWgbNEkqO";
const SERVER_FIRST: &str =
    "r=rOprNGfwEbeRWgbNEkqO%hvYDpWUa2RaTCAfuxFIlj)hNlF$k0,s=W22ZaJ0SNY7soEsUEjb6gQ==,i=4096";

fn client() -> ScramClient {
    ScramClient::with_nonce(
        vec![SCRAM_SHA_256_NAME.to_string()],
        "pencil".to_string(),
        NONCE.to_string(),
    )
}

fn hear(data: &str) -> Result<(), Error> {
    client().handle_server_first(Bytes::copy_from_slice(data.as_bytes()))
}

#[test]
fn first_message_offers_the_nonce() {
    let response = client().initial_response();
    assert_eq!(response.auth_mechanism, "SCRAM-SHA-256");
    assert_eq!(&response.data[..], b"n,,n=,r=rOprNGfwEbeRWgbNEkqO");
}

#[test]
fn exchange_with_known_values() {
    let mut client = client();
    client.handle_server_first(Bytes::from_static(SERVER_FIRST.as_bytes())).unwrap();

    let key = client.salted_password().unwrap();
    assert_eq!(&key[..8], &[0xc4, 0xa4, 0x95, 0x10, 0x32, 0x3a, 0xb4, 0xf9]);
    assert_eq!(key[31], 0x5d);

    let message = client.auth_message().unwrap();
    let expected = format!(
        "n=,r={NONCE},{SERVER_FIRST},c=biws,r=rOprNGfwEbeRWgbNEkqO%hvYDpWUa2RaTCAfuxFIlj)hNlF$k0"
    );
    assert_eq!(&message[..], expected.as_bytes());

    let last = client.final_response().unwrap();
    assert_eq!(
        &last.data[..],
        "c=biws,r=rOprNGfwEbeRWgbNEkqO%hvYDpWUa2RaTCAfuxFIlj)hNlF$k0,\
         p=qvT2SWdEH5Q06albL+hjSYuUhCG7VndFyzIb7CK4n9k="
            .as_bytes()
    );

    assert_eq!(
        client.handle_server_final(Bytes::from_static(
            b"v=3HO6Qt1M4MKJrmlKaoOqLAI0/0TV0HZe7J9H3MBtSOg="
        )),
        Ok(())
    );
    assert_eq!(
        client.handle_server_final(Bytes::from_static(
            b"v=6rriTRBi23WpRR/wtup+mMhUZUn/dB5nLTJRsjl95G4="
        )),
        Err(Error::InvalidServerSignature)
    );
    assert_eq!(
        client.handle_server_final(Bytes::from_static(b"e=other-error")),
        Err(Error::InvalidServerFinal)
    );
}

#[test]
fn nothing_is_signed_before_the_server_spoke() {
    let mut client = client();
    assert_eq!(client.salted_password(), Err(Error::MissingSalt));
    assert_eq!(client.auth_message(), Err(Error::MissingServerFirst));
    assert_eq!(client.message_with_proof("p"), Err(Error::MissingNonce));
    assert!(matches!(client.final_response(), Err(Error::MissingSalt)));
    assert_eq!(
        client.handle_server_final(Bytes::from_static(b"v=AAAA")),
        Err(Error::MissingSalt)
    );

    // A message that was refused is kept, and nothing of what it says.
    assert!(client.handle_server_first(Bytes::from_static(b"r=")).is_err());
    assert_eq!(client.auth_message(), Err(Error::MissingNonce));
    assert_eq!(client.salted_password(), Err(Error::MissingSalt));
}

#[test]
fn attributes_of_the_first_message_are_wanted() {
    let missing = |field: ServerFirstField| Err(Error::InvalidServerFirst { missing: field });
    assert_eq!(hear("x=1"), missing(ServerFirstField::Nonce));
    assert_eq!(hear("r=abc"), missing(ServerFirstField::Salt));
    assert_eq!(hear("r=abc,i=1"), missing(ServerFirstField::Salt));
    assert_eq!(hear("r=abc,s=AAAA"), missing(ServerFirstField::Iterations));
    assert_eq!(hear("r=abc,s=AAAA,x=1"), missing(ServerFirstField::Iterations));
}

#[test]
fn values_of_the_first_message_are_checked() {
    let nonce = format!("{NONCE}more");
    assert_eq!(hear(&format!("r={nonce},s=c2FsdA==,i=1")), Ok(()));
    assert_eq!(hear(&format!("r={nonce},s=c2FsdA,i=1")), Err(Error::InvalidSalt));
    assert_eq!(hear(&format!("r={nonce},s=?,i=1")), Err(Error::InvalidSalt));
    assert_eq!(hear(&format!("r={nonce},s=c2FsdA==,i=")), Err(Error::InvalidIterations));
    assert_eq!(hear(&format!("r={nonce},s=c2FsdA==,i=-1")), Err(Error::InvalidIterations));
    assert_eq!(hear(&format!("r={nonce},s=c2FsdA==,i=1,x")), Err(Error::InvalidIterations));
    assert_eq!(hear(&format!("r={nonce},s=c2FsdA==,i=4294967296")), Err(Error::InvalidIterations));
    assert_eq!(hear(&format!("r={nonce},s=c2FsdA==,i=0")), Err(Error::ZeroIterations));
    assert_eq!(hear("r=other,s=c2FsdA==,i=1"), Err(Error::NonceMismatch));
    assert_eq!(hear(&format!("r={NONCE},s=c2FsdA==,i=1")), Err(Error::NonceNotExtended));

    let mut data = format!("r={nonce},s=c2FsdA==,i=").into_bytes();
    data.push(0xff);
    assert_eq!(client().handle_server_first(Bytes::from(data)), Err(Error::InvalidUtf8));
}

#[test]
fn salt_is_decoded_before_it_is_used() {
    let mut encoded = client();
    let told = format!("r={NONCE}x,s=c2FsdA==,i=1");
    encoded.handle_server_first(Bytes::from(told.into_bytes())).unwrap();
    let mut decoded = client();
    decoded
        .accept_server_first(format!("{NONCE}x").as_bytes(), Some(b"salt".to_vec()), b"1")
        .unwrap();
    assert_eq!(encoded.salted_password(), decoded.salted_password());
}

#[test]
fn new_clients_have_nonces_of_their_own() {
    let offered = vec!["OTHER".to_string(), SCRAM_SHA_256_NAME.to_string()];
    let one = ScramClient::new(offered.clone(), "secret".to_string()).unwrap().initial_response();
    let two = ScramClient::new(offered, "secret".to_string()).unwrap().initial_response();
    assert_eq!(one.data.len(), 32);
    assert_eq!(two.data.len(), 32);
    assert_ne!(one.data, two.data);
    // The text is base64: not the bytes that were drawn, of which there are fewer.
    assert!(one.data[8..].iter().all(|b| b.is_ascii_alphanumeric() || *b == b'+' || *b == b'/'));
}

#[test]
fn mechanism_must_be_on_offer() {
    let r = ScramClient::new(vec!["SCRAM-SHA-1".to_string()], "secret".to_string());
    assert!(matches!(r, Err(Error::UnsupportedMechanisms)));
    let r = ScramClient::new(Vec::new(), "secret".to_string());
    assert!(matches!(r, Err(Error::UnsupportedMechanisms)));
}

#[test]
fn decimal_numbers() {
    assert_eq!(parse_decimal(b"0"), Some(0));
    assert_eq!(parse_decimal(b"+4096"), Some(4096));
    assert_eq!(parse_decimal(b"007"), Some(7));
    assert_eq!(parse_decimal(b"4294967295"), Some(u32::MAX));
    assert_eq!(parse_decimal(b"4294967296"), None);
    assert_eq!(parse_decimal(b""), None);
    assert_eq!(parse_decimal(b"+"), None);
    assert_eq!(parse_decimal(b"-0"), None);
    assert_eq!(parse_decimal(b" 1"), None);
}

#[test]
fn exclusive_or_is_its_own_inverse() {
    let a = [1u8, 2, 0xff];
    let b = [0xf0u8, 0x0f, 0xff, 7];
    let mixed = xor_octets(&a, &b);
    assert_eq!(mixed, vec![0xf1, 0x0d, 0]);
    assert_eq!(xor_octets(&mixed, &b), a.to_vec());
}

#[test]
fn signatures_must_match_whole() {
    assert_eq!(check_signature(b"v=abc", b"abc"), Ok(()));
    assert_eq!(check_signature(b"v=ab", b"abc"), Err(Error::InvalidServerSignature));
    assert_eq!(check_signature(b"v=abcd", b"abc"), Err(Error::InvalidServerSignature));
    assert_eq!(check_signature(b"abc", b"abc"), Err(Error::InvalidServerFinal));
}

#[test]
fn hmac_of_known_values() {
    let code = hmac_sha256(b"key", b"The quick brown fox jumps over the lazy dog").unwrap();
    assert_eq!(
        code,
        vec![
            0xf7, 0xbc, 0x83, 0xf4, 0x30, 0x53, 0x84, 0x24, 0xb1, 0x32, 0x98, 0xe6, 0xaa, 0x6f,
            0xb1, 0x43, 0xef, 0x4d, 0x59, 0xa1, 0x49, 0x46, 0x17, 0x59, 0x97, 0x47, 0x9d, 0xbc,
            0x2d, 0x1a, 0x3c, 0xd8,
        ]
    );
}

#[test]
fn nonce_is_the_text_of_what_was_drawn() {
    let offered = vec![SCRAM_SHA_256_NAME.to_string()];
    let mut bytes = [0u8; CLIENT_NONCE_LEN];
    for i in 0..CLIENT_NONCE_LEN {
        bytes[i] = i as u8;
    }
    let client =
        ScramClient::with_draw(offered.clone(), "secret".to_string(), Some(bytes)).unwrap();
    assert_eq!(&client.initial_response().data[..], b"n,,n=,r=AAECAwQFBgcICQoLDA0ODxAR");

    let r = ScramClient::with_draw(offered, "secret".to_string(), None);
    assert!(matches!(r, Err(Error::NonceUnavailable)));
    let r = ScramClient::with_draw(Vec::new(), "secret".to_string(), Some(bytes));
    assert!(matches!(r, Err(Error::UnsupportedMechanisms)));
}

#[test]
fn hmac_keys_are_filled_up_or_digested() {
    let code = hmac_sha256(b"key", b"data").unwrap();
    assert_eq!(hmac_sha256(b"key\0", b"data").unwrap(), code);
    assert_ne!(hmac_sha256(b"kex", b"data").unwrap(), code);
    assert_eq!(hmac_sha256(b"", b"data"), hmac_sha256(b"\0", b"data"));

    // The digest of 65 letters `a`.
    let digest = [
        0x63, 0x53, 0x61, 0xc4, 0x8b, 0xb9, 0xea, 0xb1, 0x41, 0x98, 0xe7,
        0x6e, 0xa8, 0xab, 0x7f, 0x1a, 0x41, 0x68, 0x5d, 0x6a, 0xd6, 0x2a,
        0xa9, 0x14, 0x6d, 0x30, 0x1d, 0x4f, 0x17, 0xeb, 0x0a, 0xe0,
    ];
    let long = [b'a'; 65];
    assert_eq!(hmac_sha256(&long, b"data"), hmac_sha256(&digest, b"data"));
}
