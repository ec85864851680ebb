//! The messages of the server are read as the protocol writes them.

use vstd::prelude::*;

use crate::backend::{
    mechanisms, message_of, AuthenticationView, BackendKeyData, MessageFormatView, ParameterView,
    ReadyForQuery,
};
use crate::error::Error;
use crate::laws::framing::{cstring_round_trip, signed_round_trip};
use crate::octets::{i32_at, i32_octets};
use crate::wire::{cstr_octets, Parsed};

verus! {

/// Texts with their terminators, one behind the other.
pub open spec fn cstrs_octets(names: Seq<Seq<char>>) -> Seq<u8>
    decreases names.len(),
{
    if names.len() == 0 {
        Seq::empty()
    } else {
        cstr_octets(names[0]) + cstrs_octets(names.skip(1))
    }
}

/// A list of names, and an empty one at its end.
pub open spec fn mechanisms_octets(names: Seq<Seq<char>>) -> Seq<u8> {
    cstrs_octets(names) + seq![0u8]
}

/// A name that a list can hold: not empty, and without the zero character.
pub open spec fn is_name(name: Seq<char>) -> bool {
    name.len() > 0 && !name.contains('\0')
}

proof fn lemma_mechanisms_read(seen: Seq<Seq<char>>, names: Seq<Seq<char>>)
    requires
        forall|i: int| 0 <= i < names.len() ==> is_name(#[trigger] names[i]),
    ensures
        mechanisms(seen, mechanisms_octets(names)) == Parsed::ok(seen + names, Seq::<u8>::empty()),
    decreases names.len(),
{
    let s = mechanisms_octets(names);
    if names.len() == 0 {
        let none: Seq<char> = Seq::empty();
        cstring_round_trip(none, Seq::empty());
        assert(s =~= cstr_octets(none) + Seq::<u8>::empty());
        assert(seen + names =~= seen);
    } else {
        let others = names.skip(1);
        let rest = mechanisms_octets(others);
        assert(s =~= cstr_octets(names[0]) + rest);
        assert(is_name(names[0]));
        cstring_round_trip(names[0], rest);
        assert forall|i: int| 0 <= i < others.len() implies is_name(#[trigger] others[i]) by {
            assert(is_name(names[i + 1]));
        }
        lemma_mechanisms_read(seen.push(names[0]), others);
        assert(seen.push(names[0]) + others =~= seen + names);
    }
}

/// The code of an authentication message is read.
proof fn lemma_code(code: i32, rest: Seq<u8>)
    ensures
        i32_at(i32_octets(code) + rest, 0) == code,
        (i32_octets(code) + rest).skip(4) == rest,
{
    signed_round_trip(code);
    assert((i32_octets(code) + rest).skip(4) =~= rest);
}

/// Each authentication message is read: the acceptance, the offer of mechanisms,
/// and the two messages of an exchange.
pub proof fn authentication_is_read(names: Seq<Seq<char>>, data: Seq<u8>)
    requires
        forall|i: int| 0 <= i < names.len() ==> is_name(#[trigger] names[i]),
    ensures
        message_of(0x52, i32_octets(0)) == Ok::<MessageFormatView, Error>(
            MessageFormatView::Authentication(AuthenticationView::AuthOk),
        ),
        message_of(0x52, i32_octets(10) + mechanisms_octets(names)) == Ok::<
            MessageFormatView,
            Error,
        >(MessageFormatView::Authentication(AuthenticationView::Sasl(names))),
        message_of(0x52, i32_octets(11) + data) == Ok::<MessageFormatView, Error>(
            MessageFormatView::Authentication(AuthenticationView::SaslContinue(data)),
        ),
        message_of(0x52, i32_octets(12) + data) == Ok::<MessageFormatView, Error>(
            MessageFormatView::Authentication(AuthenticationView::SaslFinal(data)),
        ),
{
    lemma_code(0, Seq::empty());
    assert(i32_octets(0) + Seq::<u8>::empty() =~= i32_octets(0));
    lemma_code(10, mechanisms_octets(names));
    lemma_mechanisms_read(Seq::empty(), names);
    assert(Seq::<Seq<char>>::empty() + names =~= names);
    lemma_code(11, data);
    lemma_code(12, data);
}

/// A parameter is read with its name and its value.
pub proof fn parameter_is_read(name: Seq<char>, value: Seq<char>)
    requires
        !name.contains('\0'),
        !value.contains('\0'),
    ensures
        message_of(0x53, cstr_octets(name) + cstr_octets(value)) == Ok::<MessageFormatView, Error>(
            MessageFormatView::ParameterStatus(ParameterView { name, value }),
        ),
{
    cstring_round_trip(name, cstr_octets(value));
    cstring_round_trip(value, Seq::empty());
    assert(cstr_octets(value) + Seq::<u8>::empty() =~= cstr_octets(value));
}

/// Key data is read.
pub proof fn key_data_is_read(process_id: i32, secret_key: i32)
    ensures
        message_of(0x4b, i32_octets(process_id) + i32_octets(secret_key)) == Ok::<
            MessageFormatView,
            Error,
        >(MessageFormatView::BackendKeyData(BackendKeyData { process_id, secret_key })),
{
    let s = i32_octets(process_id) + i32_octets(secret_key);
    signed_round_trip(process_id);
    signed_round_trip(secret_key);
    assert(i32_at(s, 0) == i32_at(i32_octets(process_id), 0));
    assert(i32_at(s, 4) == i32_at(i32_octets(secret_key), 0));
}

/// The tag of a command is read.
pub proof fn command_is_read(tag: Seq<char>)
    requires
        !tag.contains('\0'),
    ensures
        message_of(0x43, cstr_octets(tag)) == Ok::<MessageFormatView, Error>(
            MessageFormatView::CommandComplete(tag),
        ),
{
    cstring_round_trip(tag, Seq::empty());
    assert(cstr_octets(tag) + Seq::<u8>::empty() =~= cstr_octets(tag));
}

/// Copied data, and the fields of an error, are what the frame holds.
pub proof fn raw_bodies_are_read(body: Seq<u8>)
    ensures
        message_of(0x64, body) == Ok::<MessageFormatView, Error>(MessageFormatView::CopyData(body)),
        message_of(0x45, body) == Ok::<MessageFormatView, Error>(
            MessageFormatView::ErrorResponse(body),
        ),
{
}

/// The status of a server that waits for a command is read.
pub proof fn ready_for_query_is_read(tx_status: u8)
    ensures
        message_of(0x5a, seq![tx_status]) == Ok::<MessageFormatView, Error>(
            MessageFormatView::ReadyForQuery(ReadyForQuery { tx_status }),
        ),
{
}

} // verus!
