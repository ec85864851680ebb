//! Reading and writing the elementary fields of the wire format.

use bytes::{Bytes, BytesMut};
use vstd::prelude::*;
use vstd::slice::slice_to_vec;
use vstd::utf8::{decode_utf8, encode_utf8, valid_utf8};

use crate::error::Error;
use crate::octets::{
    advance, as_mut_slice, as_slice, mut_octets, octets, put_slice, put_u8, u32_octets,
};

verus! {

/// What reading a value from the front of a byte sequence comes to: the value or
/// the reason why there is none, and the bytes that are left unread.
pub struct Parsed<T> {
    pub out: Result<T, Error>,
    pub rest: Seq<u8>,
}

impl<T> Parsed<T> {
    pub open spec fn ok(v: T, rest: Seq<u8>) -> Self {
        Parsed { out: Ok(v), rest }
    }

    pub open spec fn fail(e: Error, rest: Seq<u8>) -> Self {
        Parsed { out: Err(e), rest }
    }

    /// The failure to find `need` bytes at the front of `s`.
    pub open spec fn eof(s: Seq<u8>, need: int) -> Self {
        Parsed::fail(eof(s, need), s)
    }

    /// Goes on with `f` behind the value; a failure stays what it is.
    pub open spec fn chain<U>(self, f: spec_fn(T, Seq<u8>) -> Parsed<U>) -> Parsed<U> {
        match self.out {
            Ok(v) => f(v, self.rest),
            Err(e) => Parsed::fail(e, self.rest),
        }
    }
}

/// The error of asking for `need` bytes where only those of `s` are left.
pub open spec fn eof(s: Seq<u8>, need: int) -> Error {
    Error::UnexpectedEof { need: need as usize, have: s.len() as usize }
}

/// `out` with `f` applied to its value.
pub open spec fn wrap<T, U>(out: Result<T, Error>, f: spec_fn(T) -> U) -> Result<U, Error> {
    match out {
        Ok(v) => Ok(f(v)),
        Err(e) => Err(e),
    }
}

/// An executable outcome is the one that a specification gives.
pub open spec fn agrees<T: View>(r: Result<T, Error>, out: Result<T::V, Error>) -> bool {
    match (r, out) {
        (Ok(v), Ok(w)) => v@ == w,
        (Err(e), Err(f)) => e == f,
        _ => false,
    }
}

/// An executable reader returned `r` and left `rest`, as `p` says.
pub open spec fn reads<T: View>(r: Result<T, Error>, rest: Seq<u8>, p: Parsed<T::V>) -> bool {
    agrees(r, p.out) && rest == p.rest
}

/// A signed count, taken as an unsigned machine word: a negative one becomes
/// larger than any buffer.
pub open spec fn count_of(c: int) -> int {
    if c >= 0 {
        c
    } else {
        c + usize::MAX + 1
    }
}

/// Takes a signed count as an unsigned machine word.
pub fn to_count(c: i32) -> (n: usize)
    ensures
        n == count_of(c as int),
{
    if c >= 0 {
        c as usize
    } else {
        usize::MAX - (-1 - c) as usize
    }
}

/// Where `b` stands in `s` for the first time.
pub open spec fn position(s: Seq<u8>, b: u8) -> Option<int>
    decreases s.len(),
{
    if s.len() == 0 {
        None
    } else if s[0] == b {
        Some(0)
    } else {
        match position(s.skip(1), b) {
            Some(n) => Some(n + 1),
            None => None,
        }
    }
}

/// `position` finds the first of the places where `b` stands, if there is one.
pub proof fn lemma_position(s: Seq<u8>, b: u8)
    ensures
        match position(s, b) {
            Some(n) => 0 <= n < s.len() && s[n] == b && forall|i: int| 0 <= i < n ==> s[i] != b,
            None => forall|i: int| 0 <= i < s.len() ==> s[i] != b,
        },
    decreases s.len(),
{
    if s.len() > 0 && s[0] != b {
        lemma_position(s.skip(1), b);
        match position(s.skip(1), b) {
            Some(n) => {
                assert forall|i: int| 0 <= i < n + 1 implies s[i] != b by {
                    if i > 0 {
                        assert(s.skip(1)[i - 1] != b);
                    }
                }
            },
            None => {
                assert forall|i: int| 0 <= i < s.len() implies s[i] != b by {
                    if i > 0 {
                        assert(s.skip(1)[i - 1] != b);
                    }
                }
            },
        }
    }
}

/// The first place where `b` stands in `s`.
pub fn find(s: &[u8], b: u8) -> (r: Option<usize>)
    ensures
        match r {
            Some(n) => position(s@, b) == Some(n as int),
            None => position(s@, b) is None,
        },
{
    let mut i: usize = 0;
    while i < s.len()
        invariant
            i <= s@.len(),
            forall|j: int| 0 <= j < i ==> s@[j] != b,
        decreases s@.len() - i,
    {
        if s[i] == b {
            proof {
                lemma_position(s@, b);
            }
            return Some(i);
        }
        i += 1;
    }
    proof {
        lemma_position(s@, b);
    }
    None
}

/// Checks that at least `required` bytes are left.
pub fn ensure_remaining(buf: &Bytes, required: usize) -> (r: Result<(), Error>)
    ensures
        r == if octets(*buf).len() < required {
            Err::<(), Error>(eof(octets(*buf), required as int))
        } else {
            Ok::<(), Error>(())
        },
{
    let have = buf.len();
    if have < required {
        return Err(Error::UnexpectedEof { need: required, have });
    }
    Ok(())
}

/// `std::string::FromUtf8Error`, the error of `String::from_utf8`. Nothing is said
/// of what it holds.
#[verifier::external_type_specification]
#[verifier::external_body]
pub struct ExFromUtf8Error(std::string::FromUtf8Error);

/// `String::from_utf8`: the text that the bytes of `v` encode, an error where
/// they are not valid UTF-8.
pub assume_specification[ String::from_utf8 ](v: Vec<u8>) -> (r: Result<
    String,
    std::string::FromUtf8Error,
>)
    ensures
        match r {
            Ok(s) => valid_utf8(v@) && s@ == decode_utf8(v@),
            Err(_) => !valid_utf8(v@),
        },
;

/// Text from bytes that must be UTF-8.
pub open spec fn text(s: Seq<u8>) -> Result<Seq<char>, Error> {
    if valid_utf8(s) {
        Ok(decode_utf8(s))
    } else {
        Err(Error::InvalidUtf8)
    }
}

/// Decodes bytes that must be UTF-8.
pub fn read_text(s: &[u8]) -> (r: Result<String, Error>)
    ensures
        agrees(r, text(s@)),
{
    match String::from_utf8(slice_to_vec(s)) {
        Ok(t) => Ok(t),
        Err(_) => Err(Error::InvalidUtf8),
    }
}

/// A string that ends with a zero byte. The terminator is consumed also where
/// the bytes before it are not text.
pub open spec fn cstring(s: Seq<u8>) -> Parsed<Seq<char>> {
    match position(s, 0) {
        Some(n) => Parsed { out: text(s.take(n)), rest: s.skip(n + 1) },
        None => Parsed::fail(Error::MissingTerminator, s),
    }
}

/// Takes a string that ends with a zero byte.
pub fn read_cstring(buf: &mut Bytes) -> (r: Result<String, Error>)
    ensures
        reads(r, octets(*final(buf)), cstring(octets(*old(buf)))),
{
    let nul_pos = match find(as_slice(buf), 0) {
        Some(n) => n,
        None => return Err(Error::MissingTerminator),
    };
    proof {
        lemma_position(octets(*buf), 0);
    }
    let ghost s = octets(*buf);
    let raw = buf.split_to(nul_pos);
    advance(buf, 1);
    assert(s.skip(nul_pos as int).skip(1) == s.skip(nul_pos + 1));
    read_text(as_slice(&raw))
}

/// A string as the protocol writes it: its UTF-8 bytes and a zero byte.
pub open spec fn cstr_octets(s: Seq<char>) -> Seq<u8> {
    encode_utf8(s).push(0)
}

/// Appends a string and its terminator.
pub fn put_cstr(buf: &mut BytesMut, s: &str)
    requires
        mut_octets(*old(buf)).len() + cstr_octets(s@).len() <= isize::MAX,
    ensures
        mut_octets(*final(buf)) == mut_octets(*old(buf)) + cstr_octets(s@),
{
    put_slice(buf, s.as_bytes());
    put_u8(buf, 0);
}

/// Overwrites the four bytes from `at` on with `n`, the most significant first.
pub fn set_u32(buf: &mut BytesMut, at: usize, n: u32)
    requires
        at + 4 <= mut_octets(*old(buf)).len(),
    ensures
        mut_octets(*final(buf)) == mut_octets(*old(buf)).take(at as int) + u32_octets(n)
            + mut_octets(*old(buf)).skip(at + 4),
{
    let ghost before = mut_octets(*buf);
    let s = as_mut_slice(buf);
    s[at] = (n / 0x100_0000) as u8;
    s[at + 1] = (n / 0x1_0000 % 0x100) as u8;
    s[at + 2] = (n / 0x100 % 0x100) as u8;
    s[at + 3] = (n % 0x100) as u8;
    assert(s@ == before.take(at as int) + u32_octets(n) + before.skip(at + 4));
}

/// `s` starts with `prefix`.
pub open spec fn has_prefix(s: Seq<u8>, prefix: Seq<u8>) -> bool {
    prefix.len() <= s.len() && s.take(prefix.len() as int) == prefix
}

/// Tells whether `s` starts with `prefix`.
pub fn starts_with(s: &[u8], prefix: &[u8]) -> (r: bool)
    ensures
        r == has_prefix(s@, prefix@),
{
    if s.len() < prefix.len() {
        return false;
    }
    let mut i: usize = 0;
    while i < prefix.len()
        invariant
            prefix@.len() <= s@.len(),
            i <= prefix@.len(),
            forall|j: int| 0 <= j < i ==> s@[j] == prefix@[j],
        decreases prefix@.len() - i,
    {
        if s[i] != prefix[i] {
            assert(s@.take(prefix@.len() as int)[i as int] != prefix@[i as int]);
            return false;
        }
        i += 1;
    }
    assert(s@.take(prefix@.len() as int) =~= prefix@);
    true
}

/// What follows `prefix` in `s`, if `s` starts with it.
pub fn strip_prefix<'a>(s: &'a [u8], prefix: &[u8]) -> (r: Option<&'a [u8]>)
    ensures
        match r {
            Some(t) => has_prefix(s@, prefix@) && t@ == s@.skip(prefix@.len() as int),
            None => !has_prefix(s@, prefix@),
        },
{
    if starts_with(s, prefix) {
        Some(vstd::slice::slice_subrange(s, prefix.len(), s.len()))
    } else {
        None
    }
}

} // verus!
