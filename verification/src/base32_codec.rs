//! Inputs that exercise the base32 codec: what to try for arbitrary bytes, and what must come of
//! it.

use crate::text::bytes_of;
use vstd::prelude::*;
use vstd::slice::slice_subrange;
use vstd::utf8::{decode_utf8, valid_utf8};

verus! {

/// The most bytes of an input that are used.
pub const MAX_INPUT: usize = 16384;

/// The codec's alphabet.
pub const ALPHABET: &'static str = "0123456789ABCDEFGHJKMNPQRSTVWXYZ";

/// What is not of the alphabet and yet may stand in an encoded text: a separator, and letters that
/// look like others.
pub const STRANGERS: &'static str = "-oilU";

/// The symbol for a byte: mostly one of the codec's alphabet, at times a stranger, and at times one
/// that no encoded text holds.
pub open spec fn symbol(byte: u8) -> char {
    let k = byte as int % 40;
    if k < ALPHABET@.len() {
        ALPHABET@[k]
    } else if k < ALPHABET@.len() + STRANGERS@.len() {
        STRANGERS@[k - ALPHABET@.len()]
    } else {
        '#'
    }
}

/// The symbols for bytes, one for each.
pub open spec fn symbols(bytes: Seq<u8>) -> Seq<char> {
    bytes.map_values(|byte: u8| symbol(byte))
}

/// The symbol for a byte.
fn symbol_for(byte: u8) -> (r: char)
    ensures
        r == symbol(byte),
{
    proof {
        reveal_strlit("0123456789ABCDEFGHJKMNPQRSTVWXYZ");
        reveal_strlit("-oilU");
    }
    let k = (byte % 40) as usize;
    if k < 32 {
        ALPHABET.get_char(k)
    } else if k < 37 {
        STRANGERS.get_char(k - 32)
    } else {
        '#'
    }
}

/// The part of an input that is used.
pub open spec fn used(data: Seq<u8>) -> Seq<u8> {
    if data.len() <= MAX_INPUT {
        data
    } else {
        data.take(MAX_INPUT as int)
    }
}

/// The part of an input that is used.
pub fn bounded(data: &[u8]) -> (r: &[u8])
    ensures
        r@ == used(data@),
{
    if data.len() <= MAX_INPUT {
        data
    } else {
        slice_subrange(data, 0, MAX_INPUT)
    }
}

/// A text of symbols, one for each byte.
pub fn structured_ascii(data: &[u8]) -> (r: String)
    ensures
        r@ == symbols(data@),
{
    let mut r = String::new();
    assert(r@ =~= symbols(data@.take(0)));
    for i in 0..data.len()
        invariant
            r@ == symbols(data@.take(i as int)),
    {
        r.push(symbol_for(data[i]));
        assert(r@ =~= symbols(data@.take(i + 1)));
    }
    assert(data@.take(data@.len() as int) =~= data@);
    r
}

/// What to try on the codec, and what must come of it.
#[derive(Debug, PartialEq, Eq)]
pub enum CodecTrial {
    /// Decoding the text must not fail badly, whatever comes of it.
    Decode(String),
    /// Decoding what encoding the bytes gives must give the bytes.
    RoundTrip(Vec<u8>),
    /// Decoding the text must be refused.
    Refuse(String),
    /// There is nothing to try.
    Nothing,
}

/// What a [`CodecTrial`] says.
pub enum Trial {
    Decode(Seq<char>),
    RoundTrip(Seq<u8>),
    Refuse(Seq<char>),
    Nothing,
}

impl View for CodecTrial {
    type V = Trial;

    open spec fn view(&self) -> Trial {
        match *self {
            CodecTrial::Decode(text) => Trial::Decode(text@),
            CodecTrial::RoundTrip(bytes) => Trial::RoundTrip(bytes@),
            CodecTrial::Refuse(text) => Trial::Refuse(text@),
            CodecTrial::Nothing => Trial::Nothing,
        }
    }
}

/// What to try for an input: its first byte chooses among decoding an encoding, decoding its text,
/// and decoding symbols of which the last is none of the alphabet's.
pub open spec fn trial_of(data: Seq<u8>) -> Trial {
    if data.len() == 0 {
        Trial::Decode(Seq::empty())
    } else {
        let input = used(data.drop_first());
        if data[0] % 3 == 0 {
            Trial::RoundTrip(input)
        } else if data[0] % 3 == 1 {
            if valid_utf8(input) {
                Trial::Decode(decode_utf8(input))
            } else {
                Trial::Nothing
            }
        } else {
            Trial::Refuse(symbols(input) + "#"@)
        }
    }
}

/// Decides what to try for an input.
pub fn codec_trial(data: &[u8]) -> (r: CodecTrial)
    ensures
        r@ == trial_of(data@),
{
    if data.len() == 0 {
        let empty = String::new();
        assert(empty@ =~= Seq::empty());
        return CodecTrial::Decode(empty);
    }
    let mode = data[0] % 3;
    let rest = slice_subrange(data, 1, data.len());
    assert(rest@ =~= data@.drop_first());
    let input = bounded(rest);
    if mode == 0 {
        CodecTrial::RoundTrip(bytes_of(input))
    } else if mode == 1 {
        match String::from_utf8(bytes_of(input)) {
            Ok(text) => CodecTrial::Decode(text),
            Err(_) => CodecTrial::Nothing,
        }
    } else {
        let mut text = structured_ascii(input);
        text.append("#");
        CodecTrial::Refuse(text)
    }
}

} // verus!
