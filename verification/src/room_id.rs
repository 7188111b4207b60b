//! Room identifiers and their text form.

use crate::text::{chars_of, hex, lemma_hex_roundtrip, parse_hex, parse_hex_u32, push_digits};
use vstd::prelude::*;

verus! {

/// Short numeric code that identifies a room. Its text form is the number in
/// lower-case hexadecimal, without padding.
#[derive(Copy, Clone, PartialEq, Eq, Hash, Debug, Structural)]
pub struct RoomId {
    id: u32,
}

/// The text was not the hexadecimal form of a 32-bit number.
#[derive(Copy, Clone, PartialEq, Eq, Debug, Structural)]
pub struct RoomIdParseError;

impl View for RoomId {
    type V = u32;

    closed spec fn view(&self) -> u32 {
        self.id
    }
}

impl RoomId {
    /// The identifier with the number `id`.
    pub fn new(id: u32) -> (r: Self)
        ensures
            r@ == id,
    {
        Self { id }
    }

    /// The number behind the identifier.
    pub fn as_u32(&self) -> (id: u32)
        ensures
            id == self@,
    {
        self.id
    }

    /// Reads an identifier from its text form: hexadecimal digits in either
    /// case, with an optional `+` before them. Anything else, white space
    /// included, is an error, and so is a number of more than 32 bits.
    pub fn from_str(s: &str) -> (r: Result<RoomId, RoomIdParseError>)
        ensures
            match r {
                Ok(id) => parse_hex_u32(s@) == Some(id@),
                Err(_) => parse_hex_u32(s@) is None,
            },
    {
        let cs = chars_of(s);
        assert(cs@.subrange(0, cs.len() as int) =~= s@);
        match parse_hex(&cs, 0, cs.len()) {
            Some(id) => Ok(RoomId { id }),
            None => Err(RoomIdParseError),
        }
    }

    /// The text form of the identifier.
    pub fn to_string(&self) -> (s: String)
        ensures
            s@ == hex(self@ as nat),
    {
        let mut s = String::new();
        push_digits(&mut s, self.id as u64, 16);
        assert(s@ =~= hex(self@ as nat));
        s
    }
}

/// The text form of an identifier reads back as that identifier.
pub proof fn lemma_text_roundtrip(id: RoomId)
    ensures
        parse_hex_u32(hex(id@ as nat)) == Some(id@),
{
    lemma_hex_roundtrip(id@ as nat);
}

} // verus!
