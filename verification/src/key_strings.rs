//! Inputs that exercise key strings: what to try for arbitrary bytes, and what must come of it.

use crate::base32_codec::{structured_ascii, symbols};
use crate::text;
use crate::text::bytes_of;
use vstd::prelude::*;
use vstd::slice::slice_subrange;

verus! {

/// The most bytes of a payload that are used.
pub const MAX_PAYLOAD: usize = 16384;

/// The part of a payload that is used.
pub open spec fn used(data: Seq<u8>) -> Seq<u8> {
    if data.len() <= MAX_PAYLOAD {
        data
    } else {
        data.take(MAX_PAYLOAD as int)
    }
}

/// The part of a payload that is used.
pub fn bounded(data: &[u8]) -> (r: &[u8])
    ensures
        r@ == used(data@),
{
    if data.len() <= MAX_PAYLOAD {
        data
    } else {
        slice_subrange(data, 0, MAX_PAYLOAD)
    }
}

/// The body of a key string: a symbol for each byte.
pub fn body_text(data: &[u8]) -> (r: String)
    ensures
        r@ == symbols(data@),
{
    structured_ascii(data)
}

/// The prefix of a key, by its payload.
pub open spec fn prefix_for(payload: Seq<u8>) -> Seq<char> {
    let first = if payload.len() == 0 {
        0u8
    } else {
        payload[0]
    };
    if first % 3 == 0 {
        "SK"@
    } else if first % 3 == 1 {
        "RK"@
    } else {
        "MT"@
    }
}

/// What to try on key strings of version one, and what must come of it.
#[derive(Debug, PartialEq, Eq)]
pub enum KeyTrial {
    /// Decoding the text as a key with prefix `SK` must not fail badly, whatever comes of it.
    Decode(String),
    /// Decoding what encoding the payload with prefix `SK` gives must give the payload.
    RoundTrip(Vec<u8>),
    /// Decoding the text as a key with prefix `SK` must be refused.
    Refuse(String),
    /// The payload, encoded with the prefix, must be refused under another version, and under
    /// prefix `SK` unless it is that one.
    WrongVersion { prefix: String, payload: Vec<u8> },
}

/// What a [`KeyTrial`] says.
pub enum Trial {
    Decode(Seq<char>),
    RoundTrip(Seq<u8>),
    Refuse(Seq<char>),
    WrongVersion { prefix: Seq<char>, payload: Seq<u8> },
}

impl View for KeyTrial {
    type V = Trial;

    open spec fn view(&self) -> Trial {
        match *self {
            KeyTrial::Decode(text) => Trial::Decode(text@),
            KeyTrial::RoundTrip(payload) => Trial::RoundTrip(payload@),
            KeyTrial::Refuse(text) => Trial::Refuse(text@),
            KeyTrial::WrongVersion { prefix, payload } => Trial::WrongVersion {
                prefix: prefix@,
                payload: payload@,
            },
        }
    }
}

/// What to try for an input: its first byte chooses among decoding an encoding, decoding symbols
/// without a header, decoding symbols of which the last is none of the alphabet's, and decoding
/// under a wrong version or prefix.
pub open spec fn trial_of(data: Seq<u8>) -> Trial {
    if data.len() == 0 {
        Trial::Decode(Seq::empty())
    } else {
        let payload = used(data.drop_first());
        if data[0] % 4 == 0 {
            Trial::RoundTrip(payload)
        } else if data[0] % 4 == 1 {
            Trial::Refuse(symbols(payload))
        } else if data[0] % 4 == 2 {
            Trial::Refuse("SK1-"@ + symbols(payload) + "#"@)
        } else {
            Trial::WrongVersion { prefix: prefix_for(payload), payload }
        }
    }
}

/// Decides what to try for an input.
pub fn key_trial(data: &[u8]) -> (r: KeyTrial)
    ensures
        r@ == trial_of(data@),
{
    if data.len() == 0 {
        let empty = String::new();
        assert(empty@ =~= Seq::empty());
        return KeyTrial::Decode(empty);
    }
    let mode = data[0] % 4;
    let rest = slice_subrange(data, 1, data.len());
    assert(rest@ =~= data@.drop_first());
    let payload = bounded(rest);
    if mode == 0 {
        KeyTrial::RoundTrip(bytes_of(payload))
    } else if mode == 1 {
        KeyTrial::Refuse(body_text(payload))
    } else if mode == 2 {
        KeyTrial::Refuse(text::join3("SK1-", &body_text(payload), "#"))
    } else {
        let first: u8 = if payload.len() == 0 {
            0
        } else {
            payload[0]
        };
        let prefix = if first % 3 == 0 {
            "SK"
        } else if first % 3 == 1 {
            "RK"
        } else {
            "MT"
        };
        KeyTrial::WrongVersion { prefix: prefix.to_owned(), payload: bytes_of(payload) }
    }
}

/// What stands behind the first hyphen of a text: nothing where there is none.
pub open spec fn behind_hyphen(s: Seq<char>) -> Seq<char>
    decreases s.len(),
{
    if s.len() == 0 {
        Seq::empty()
    } else if s[0] == '-' {
        s.drop_first()
    } else {
        behind_hyphen(s.drop_first())
    }
}

/// An encoded key under a version that it does not have.
pub fn wrong_version(prefix: &str, encoded: &str) -> (r: String)
    ensures
        r@ == prefix@ + "2-"@ + behind_hyphen(encoded@),
{
    let n = encoded.unicode_len();
    let mut i: usize = 0;
    assert(encoded@.skip(0) =~= encoded@);
    for c in it: encoded.chars()
        invariant
            it.seq() == encoded@,
            n == encoded@.len(),
            i == it.index(),
            behind_hyphen(encoded@) == behind_hyphen(encoded@.skip(i as int)),
    {
        assert(encoded@.skip(i as int)[0] == c);
        assert(encoded@.skip(i as int).drop_first() =~= encoded@.skip(i + 1));
        if c == '-' {
            let body = encoded.substring_char(i + 1, n);
            assert(body@ =~= encoded@.skip(i + 1));
            return text::join3(prefix, "2-", body);
        }
        i = i + 1;
    }
    assert(encoded@.skip(n as int) =~= Seq::empty());
    let r = text::join(prefix, "2-");
    assert(r@ =~= prefix@ + "2-"@ + Seq::<char>::empty());
    r
}

} // verus!
