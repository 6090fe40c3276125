//! What a login sends and keeps, read back from what it writes.

use crate::auth::{hands_on, session_entry, session_stored};
use crate::error::{Error, Fault};
use crate::login::{
    escaped, escaped_char, exchanged, fits, hex_of, login_address, login_query, page, ExchangeReply,
};
use crate::text::natural;
use crate::urls::{address_of, ends_with, pairs_of, reading_of, with_query};
use vstd::prelude::*;
use vstd::utf8::{decode_utf8, encode_utf8, valid_utf8};

verus! {

/// The server is asked at its login path for a code, under our state, to be sent to our listener's
/// port on the loopback address. Where the server's address cannot be used, the error is one of
/// input, and ends with what is wrong with the address.
pub proof fn law_logins_ask_for_a_code(server: Seq<char>, port: u16, state: Seq<char>)
    ensures
        ({
            let asked = login_query(port, state);
            let written = with_query(server + "/auth/github/login"@, asked);
            &&& asked.len() == 3
            &&& asked[0].0 == "redirect_uri"@
            &&& asked[0].1 == "http://127.0.0.1:"@ + natural(port as nat) + "/"@
            &&& asked[1] == ("state"@, state)
            &&& asked[2] == ("mode"@, "code"@)
            &&& match login_address(server, port, state) {
                Ok(address) => written matches Ok(w) && w == address,
                Err(f) => written matches Err(detail) && f == Fault::Input(
                    "invalid server URL: "@ + detail,
                ),
            }
        }),
{
}

/// A login is attempted exactly where neither the login address of the server nor the state has
/// more than sixteen mebi characters.
pub proof fn law_logins_are_attempted(server: Seq<char>, state: Seq<char>)
    ensures
        fits(server, state) <==> server.len() + 18 <= 16_777_216 && state.len() <= 16_777_216,
{
    reveal_strlit("/auth/github/login");
}

/// A swap gives the token that the server handed out, and otherwise an error of the network or of
/// the server that holds what came.
pub proof fn law_swaps_hand_on_what_came(reply: ExchangeReply)
    ensures
        exchanged(reply) is Ok <==> reply is Token,
        match reply {
            ExchangeReply::Unsent(detail) => exchanged(reply) matches Err(f) && f == Fault::Network(
                detail@,
            ),
            ExchangeReply::Refused { status, body } => exchanged(reply) matches Err(f) && f
                == Fault::Server("code exchange failed: "@ + status@ + ": "@ + body@),
            ExchangeReply::Unreadable(detail) => exchanged(reply) matches Err(f) && f
                == Fault::Server(detail@),
            ExchangeReply::Token(token) => exchanged(reply) matches Ok(t) && t == token@,
        },
{
}

/// The number that a lower-case hexadecimal digit stands for, if the character is one.
pub open spec fn digit_read(c: char) -> Option<int> {
    if '0' <= c <= '9' {
        Some(c as int - '0' as int)
    } else if 'a' <= c <= 'f' {
        Some(c as int - 'a' as int + 10)
    } else {
        None
    }
}

/// Bytes that are written as hexadecimal digits are read back from them, two for each byte, the
/// higher first.
pub proof fn law_hexadecimal_digits_read_back(bytes: Seq<u8>)
    ensures
        hex_of(bytes).len() == 2 * bytes.len(),
        forall|i: int|
            0 <= i < bytes.len() ==> {
                &&& digit_read(hex_of(bytes)[2 * i]) is Some
                &&& digit_read(hex_of(bytes)[2 * i + 1]) is Some
                &&& (#[trigger] bytes[i]) as int == 16 * digit_read(hex_of(bytes)[2 * i])->0
                    + digit_read(hex_of(bytes)[2 * i + 1])->0
            },
{
    reveal_strlit("0123456789abcdef");
    assert forall|i: int| 0 <= i < bytes.len() implies {
        &&& digit_read(hex_of(bytes)[2 * i]) is Some
        &&& digit_read(hex_of(bytes)[2 * i + 1]) is Some
        &&& (#[trigger] bytes[i]) as int == 16 * digit_read(hex_of(bytes)[2 * i])->0 + digit_read(
            hex_of(bytes)[2 * i + 1],
        )->0
    } by {
        lemma_digit(bytes[i] as int / 16);
        lemma_digit(bytes[i] as int % 16);
        assert(hex_of(bytes)[2 * i] == "0123456789abcdef"@[bytes[i] as int / 16]);
        assert(hex_of(bytes)[2 * i + 1] == "0123456789abcdef"@[bytes[i] as int % 16]);
    }
}

/// The digit for a number is read as that number.
proof fn lemma_digit(n: int)
    requires
        0 <= n < 16,
    ensures
        digit_read("0123456789abcdef"@[n]) == Some(n),
{
    reveal_strlit("0123456789abcdef");
}

/// A text is escaped character by character: an ampersand and a double quote become their names,
/// and every other character stays as it is.
pub proof fn law_texts_are_escaped_by_character(a: Seq<char>, b: Seq<char>, c: char)
    ensures
        escaped(Seq::empty()) == Seq::<char>::empty(),
        escaped(a + b) == escaped(a) + escaped(b),
        escaped(seq!['&']) == "&amp;"@,
        escaped(seq!['"']) == "&quot;"@,
        c != '&' && c != '"' ==> escaped(seq![c]) == seq![c],
{
    lemma_escaped_parts(a, b);
    lemma_escaped_one('&');
    lemma_escaped_one('"');
    lemma_escaped_one(c);
}

proof fn lemma_escaped_one(c: char)
    ensures
        escaped(seq![c]) == escaped_char(c),
{
    assert(seq![c].drop_last() =~= Seq::empty());
    assert(escaped(Seq::empty()) =~= Seq::empty());
    assert(escaped(seq![c]) =~= escaped_char(c));
}

proof fn lemma_escaped_parts(a: Seq<char>, b: Seq<char>)
    ensures
        escaped(a + b) == escaped(a) + escaped(b),
    decreases b.len(),
{
    if b.len() == 0 {
        assert(a + b =~= a);
        assert(escaped(a) + escaped(b) =~= escaped(a));
    } else {
        lemma_escaped_parts(a, b.drop_last());
        assert((a + b).drop_last() =~= a + b.drop_last());
        assert(escaped(a + b) =~= escaped(a) + escaped(b));
    }
}

/// The page of a login leads to its address twice: by itself, and by a link.
pub proof fn law_pages_lead_to_the_address(url: Seq<char>)
    ensures
        page(url)
            == "<!doctype html><html><head><meta http-equiv=\"refresh\" content=\"0;url="@
            + escaped(url)
            + "\"></head><body><p>Sotto: authorise this login by opening <a href=\""@ + escaped(url)
            + "\">this link</a>.</p></body></html>"@,
{
}

/// The session is what the keychain holds under one name: none where it holds nothing there, the
/// text of the bytes where they are one, and an error of the keychain where they are not.
pub proof fn law_sessions_are_kept_under_one_name(entries: Map<Seq<char>, Seq<u8>>)
    ensures
        ({
            let name = "server-session"@;
            let read = session_stored(session_entry(entries));
            &&& !entries.contains_key(name) ==> read == Ok::<Option<Seq<char>>, Fault>(None)
            &&& entries.contains_key(name) && valid_utf8(entries[name]) ==> read == Ok::<
                Option<Seq<char>>,
                Fault,
            >(Some(decode_utf8(entries[name])))
            &&& entries.contains_key(name) && !valid_utf8(entries[name]) ==> read == Err::<
                Option<Seq<char>>,
                Fault,
            >(Fault::Keychain("stored session token is not valid UTF-8"@))
        }),
{
}

/// A token that was stored is read back whatever it is, other secrets leave the session alone, and
/// a session leaves other secrets alone.
pub proof fn law_sessions_are_kept_apart(
    entries: Map<Seq<char>, Seq<u8>>,
    token: Seq<char>,
    other: Seq<char>,
    secret: Seq<u8>,
)
    requires
        other != "server-session"@,
    ensures
        ({
            let stored = entries.insert("server-session"@, encode_utf8(token));
            &&& session_stored(session_entry(stored)) == Ok::<Option<Seq<char>>, Fault>(Some(token))
            &&& session_entry(entries.insert(other, secret)) == session_entry(entries)
            &&& session_entry(entries.remove(other)) == session_entry(entries)
            &&& stored.contains_key(other) == entries.contains_key(other)
            &&& entries.contains_key(other) ==> stored[other] == entries[other]
        }),
{
    vstd::utf8::encode_utf8_valid_utf8(token);
    vstd::utf8::encode_utf8_decode_utf8(token);
}

/// What a keychain answers is read as it is: its failure stays its failure, nothing is no session,
/// a text is that session, and other bytes are an error.
pub proof fn law_answers_of_the_keychain_are_handed_on(
    answer: Result<Option<Vec<u8>>, Error>,
    r: Result<Option<String>, Error>,
)
    requires
        hands_on(answer, r),
    ensures
        match answer {
            Err(e) => r == Err::<Option<String>, Error>(e),
            Ok(None) => r == Ok::<Option<String>, Error>(None),
            Ok(Some(bytes)) => if valid_utf8(bytes@) {
                r matches Ok(token) && token is Some && token->0@ == decode_utf8(bytes@)
            } else {
                r matches Err(e) && e@ == Fault::Keychain(
                    "stored session token is not valid UTF-8"@,
                )
            },
        },
{
}

/// A list of named values says each of them, in its order and no other.
pub proof fn law_lists_say_every_pair(pairs: Seq<(String, String)>)
    ensures
        pairs_of(pairs).len() == pairs.len(),
        forall|i: int|
            0 <= i < pairs.len() ==> #[trigger] pairs_of(pairs)[i] == (pairs[i].0@, pairs[i].1@),
{
}

/// A reading of a query says its names and values, and a written address its text; what is wrong
/// is said as it is.
pub proof fn law_readings_say_what_they_hold(
    read: Result<Vec<(String, String)>, String>,
    written: Result<String, String>,
)
    ensures
        match read {
            Ok(pairs) => reading_of(read) matches Ok(said) && said == pairs_of(pairs@),
            Err(detail) => reading_of(read) matches Err(said) && said == detail@,
        },
        match written {
            Ok(address) => address_of(written) matches Ok(said) && said == address@,
            Err(detail) => address_of(written) matches Err(said) && said == detail@,
        },
{
}

/// A query ends with some names and values if it is others followed by them.
pub proof fn law_queries_end_with_what_was_appended(
    front: Seq<(Seq<char>, Seq<char>)>,
    query: Seq<(Seq<char>, Seq<char>)>,
    pairs: Seq<(Seq<char>, Seq<char>)>,
)
    ensures
        ends_with(front + pairs, pairs),
        ends_with(query, pairs) ==> exists|rest: Seq<(Seq<char>, Seq<char>)>|
            query == #[trigger] (rest + pairs),
{
    assert((front + pairs).skip(front.len() as int) =~= pairs);
    if ends_with(query, pairs) {
        let rest = query.take(query.len() - pairs.len());
        assert(query =~= rest + pairs);
    }
}

} // verus!
