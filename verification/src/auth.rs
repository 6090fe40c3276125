//! Signing in to the server: the session token, and the login that the browser completes on a
//! loopback address.
//!
//! The command line asks the server for a single-use code, which the browser hands back to a
//! listener on `127.0.0.1`, and swaps the code for the session in the body of a request. A
//! callback that carries a session instead of a code is refused: the command line did not ask for
//! one.

use crate::error::{Error, Fault};
use crate::keychain::Keychain;
use vstd::prelude::*;
use vstd::utf8::{decode_utf8, encode_utf8, valid_utf8};

verus! {

/// The keychain entry that holds the server session token.
pub const KC_SERVER_SESSION: &'static str = "server-session";

/// `std::string::FromUtf8Error`, which `String::from_utf8` gives for bytes that are no UTF-8.
#[verifier::external_type_specification]
#[verifier::external_body]
pub struct ExFromUtf8Error(std::string::FromUtf8Error);

/// `String::from_utf8` of the standard library: bytes that are valid UTF-8 give the text that they
/// encode, and other bytes are an error.
pub assume_specification[ String::from_utf8 ](vec: Vec<u8>) -> (r: Result<
    String,
    std::string::FromUtf8Error,
>)
    ensures
        match r {
            Ok(s) => valid_utf8(vec@) && s@ == decode_utf8(vec@),
            Err(_) => !valid_utf8(vec@),
        },
;

/// The session that stored bytes are, or why they are none.
pub open spec fn session_stored(stored: Option<Seq<u8>>) -> Result<Option<Seq<char>>, Fault> {
    match stored {
        None => Ok(None),
        Some(bytes) => if valid_utf8(bytes) {
            Ok(Some(decode_utf8(bytes)))
        } else {
            Err(Fault::Keychain("stored session token is not valid UTF-8"@))
        },
    }
}

/// What the keychain holds as the session.
pub open spec fn session_entry(entries: Map<Seq<char>, Seq<u8>>) -> Option<Seq<u8>> {
    if entries.contains_key(KC_SERVER_SESSION@) {
        Some(entries[KC_SERVER_SESSION@])
    } else {
        None
    }
}

/// Stores the session token. The answer, and what becomes of the keychain, are those of one
/// request to store it, whether the request succeeds or fails.
pub fn store_session<K: Keychain>(keychain: &mut K, token: &str) -> (r: Result<(), Error>)
    ensures
        old(keychain).set_gives(KC_SERVER_SESSION@, encode_utf8(token@), final(keychain), r),
        final(keychain).reliable() == old(keychain).reliable(),
        old(keychain).reliable() ==> r is Ok,
        r is Ok ==> final(keychain).entries() == old(keychain).entries().insert(
            KC_SERVER_SESSION@,
            encode_utf8(token@),
        ),
{
    keychain.set(KC_SERVER_SESSION, token.as_bytes())
}

/// Whether `r` is what reading a session token from stored bytes gives.
pub open spec fn reads_session(stored: Option<Vec<u8>>, r: Result<Option<String>, Error>) -> bool {
    let bytes = match stored {
        Some(bytes) => Some(bytes@),
        None => None,
    };
    match session_stored(bytes) {
        Ok(session) => r matches Ok(token) && session == (match token {
            Some(t) => Some(t@),
            None => None,
        }),
        Err(f) => r matches Err(e) && e@ == f,
    }
}

/// Whether `r` is what comes of the keychain's answer to the request for the session: its failure
/// as it is, and otherwise the session that it holds.
pub open spec fn hands_on(
    answer: Result<Option<Vec<u8>>, Error>,
    r: Result<Option<String>, Error>,
) -> bool {
    match answer {
        Ok(stored) => reads_session(stored, r),
        Err(e) => r == Err::<Option<String>, Error>(e),
    }
}

/// Reads a session token. Bytes that are no text are refused, not repaired: a repaired token would
/// look right and be wrong.
pub fn read_session(stored: Option<Vec<u8>>) -> (r: Result<Option<String>, Error>)
    ensures
        reads_session(stored, r),
{
    match stored {
        None => Ok(None),
        Some(bytes) => match String::from_utf8(bytes) {
            Ok(token) => Ok(Some(token)),
            Err(_) => Err(Error::Keychain("stored session token is not valid UTF-8".to_owned())),
        },
    }
}

/// The stored session token, if there is one. A failure of the keychain is handed on as it is.
pub fn current_session<K: Keychain>(keychain: &K) -> (r: Result<Option<String>, Error>)
    ensures
        exists|answer: Result<Option<Vec<u8>>, Error>| #[trigger]
            keychain.get_gives(KC_SERVER_SESSION@, answer) && hands_on(answer, r),
        match r {
            Ok(token) => session_stored(session_entry(keychain.entries())) == Ok::<
                Option<Seq<char>>,
                Fault,
            >(
                match token {
                    Some(t) => Some(t@),
                    None => None,
                },
            ),
            Err(e) => keychain.reliable() ==> session_stored(session_entry(keychain.entries()))
                == Err::<Option<Seq<char>>, Fault>(e@),
        },
{
    let answer = keychain.get(KC_SERVER_SESSION);
    let ghost given = answer;
    let r = match answer {
        Ok(stored) => read_session(stored),
        Err(error) => Err(error),
    };
    assert(keychain.get_gives(KC_SERVER_SESSION@, given) && hands_on(given, r));
    r
}

/// Forgets the session token. The answer, and what becomes of the keychain, are those of one
/// request to remove it, whether the request succeeds or fails.
pub fn clear_session<K: Keychain>(keychain: &mut K) -> (r: Result<(), Error>)
    ensures
        old(keychain).delete_gives(KC_SERVER_SESSION@, final(keychain), r),
        final(keychain).reliable() == old(keychain).reliable(),
        old(keychain).reliable() ==> r is Ok,
        r is Ok ==> final(keychain).entries() == old(keychain).entries().remove(KC_SERVER_SESSION@),
{
    keychain.delete(KC_SERVER_SESSION)
}

/// A session that was stored is the current one, and one that was cleared is gone.
pub proof fn law_sessions_round_trip(entries: Map<Seq<char>, Seq<u8>>, token: Seq<char>)
    ensures
        session_stored(session_entry(entries.insert(KC_SERVER_SESSION@, encode_utf8(token))))
            == Ok::<Option<Seq<char>>, Fault>(Some(token)),
        session_stored(session_entry(entries.remove(KC_SERVER_SESSION@))) == Ok::<
            Option<Seq<char>>,
            Fault,
        >(None),
{
    vstd::utf8::encode_utf8_valid_utf8(token);
    vstd::utf8::encode_utf8_decode_utf8(token);
}

} // verus!
