//! What a login sends the browser and the server: the address to authorise at, the page that leads
//! there, and the request that swaps a login code for a session.

use crate::error::{Error, Fault};
use crate::ordered::lemma_concat_members;
use crate::text;
use crate::text::natural;
use crate::urls::{append_query, ends_with, pairs_of, query_of, with_query, MAX_ADDRESS};
use vstd::prelude::*;

verus! {

/// How long a login waits for the browser, in seconds.
pub const CALLBACK_TIMEOUT_SECONDS: u64 = 5 * 60;

/// How long a peer may take to send its request line, in seconds.
pub const READ_TIMEOUT_SECONDS: u64 = 10;

/// The address of the loopback listener.
pub open spec fn loopback(port: u16) -> Seq<char> {
    "http://127.0.0.1:"@ + natural(port as nat) + "/"@
}

/// What the server is asked for: a code for our listener, under our state.
pub open spec fn login_query(port: u16, state: Seq<char>) -> Seq<(Seq<char>, Seq<char>)> {
    seq![
        ("redirect_uri"@, loopback(port)),
        ("state"@, state),
        ("mode"@, "code"@),
    ]
}

/// Where the browser authorises a login, or why it cannot.
pub open spec fn login_address(server: Seq<char>, port: u16, state: Seq<char>) -> Result<
    Seq<char>,
    Fault,
> {
    match with_query(server + "/auth/github/login"@, login_query(port, state)) {
        Ok(address) => Ok(address),
        Err(detail) => Err(Fault::Input("invalid server URL: "@ + detail)),
    }
}

/// Reports a server address that cannot be used.
pub fn checked_login_url(address: Result<String, String>) -> (r: Result<String, Error>)
    ensures
        match address {
            Ok(a) => r matches Ok(url) && url@ == a@,
            Err(detail) => r matches Err(e) && e@ == Fault::Input(
                "invalid server URL: "@ + detail@,
            ),
        },
{
    match address {
        Ok(url) => Ok(url),
        Err(detail) => Err(Error::Input(text::join("invalid server URL: ", &detail))),
    }
}

/// Whether the texts that a login address is made of are short enough to be written as one.
pub open spec fn fits(server: Seq<char>, state: Seq<char>) -> bool {
    &&& (server + "/auth/github/login"@).len() <= MAX_ADDRESS
    &&& state.len() <= MAX_ADDRESS
}

/// The address at which the browser authorises a login: it asks the server for a code, to be handed
/// to our listener under our state. Whoever reads the query of the address finds those three at its
/// end.
pub fn authorize_url(server: &str, port: u16, state: &str) -> (r: Result<String, Error>)
    requires
        fits(server@, state@),
    ensures
        match login_address(server@, port, state@) {
            Ok(address) => r matches Ok(url) && url@ == address,
            Err(f) => r matches Err(e) && e@ == f,
        },
        r matches Ok(url) ==> (query_of(url@) matches Ok(query) ==> ends_with(
            query,
            login_query(port, state@),
        )),
{
    proof {
        reveal_strlit("http://127.0.0.1:");
        reveal_strlit("/");
        reveal_strlit("redirect_uri");
        reveal_strlit("state");
        reveal_strlit("mode");
        reveal_strlit("code");
        text::lemma_natural_is_short(port as nat);
    }
    let redirect = text::join3("http://127.0.0.1:", &text::natural_text(port as u64), "/");
    let mut pairs: Vec<(String, String)> = Vec::new();
    pairs.push(("redirect_uri".to_owned(), redirect));
    pairs.push(("state".to_owned(), state.to_owned()));
    pairs.push(("mode".to_owned(), "code".to_owned()));
    assert(pairs_of(pairs@) =~= login_query(port, state@));
    checked_login_url(append_query(&text::join(server, "/auth/github/login"), &pairs))
}

/// The address at which the browser authorises a login, as [`authorize_url`] gives it, whatever the
/// texts that it is made of. Nothing is attempted with texts that are too long.
pub fn login_url(server: &str, port: u16, state: &str) -> (r: Option<Result<String, Error>>)
    ensures
        r is Some <==> fits(server@, state@),
        r matches Some(answer) ==> match login_address(server@, port, state@) {
            Ok(address) => answer matches Ok(url) && url@ == address,
            Err(f) => answer matches Err(e) && e@ == f,
        },
        r matches Some(Ok(url)) ==> (query_of(url@) matches Ok(query) ==> ends_with(
            query,
            login_query(port, state@),
        )),
{
    let address = text::join(server, "/auth/github/login");
    if address.as_str().unicode_len() <= MAX_ADDRESS && state.unicode_len() <= MAX_ADDRESS {
        Some(authorize_url(server, port, state))
    } else {
        None
    }
}

/// The request that swaps a login code for a session: where it goes and what its body holds.
#[derive(Debug)]
pub struct ExchangeRequest {
    pub url: String,
    pub body: Vec<(String, String)>,
}

/// The request that swaps a login code for a session. The code stands in the body alone: where the
/// request goes does not depend on it.
pub fn exchange_request(server: &str, code: &str, state: &str) -> (r: ExchangeRequest)
    ensures
        r.url@ == server@ + "/auth/github/exchange"@,
        pairs_of(r.body@) == seq![("code"@, code@), ("state"@, state@)],
{
    let mut body: Vec<(String, String)> = Vec::new();
    body.push(("code".to_owned(), code.to_owned()));
    body.push(("state".to_owned(), state.to_owned()));
    assert(pairs_of(body@) =~= seq![("code"@, code@), ("state"@, state@)]);
    ExchangeRequest { url: text::join(server, "/auth/github/exchange"), body }
}

/// What came of the request that swaps a login code for a session.
#[derive(Debug)]
pub enum ExchangeReply {
    /// The request could not be sent.
    Unsent(String),
    /// The server refused, with a status and a body.
    Refused { status: String, body: String },
    /// The server accepted, with a body that holds no token.
    Unreadable(String),
    /// The server handed out a token.
    Token(String),
}

/// The session that came of a swap, or why there is none.
pub open spec fn exchanged(reply: ExchangeReply) -> Result<Seq<char>, Fault> {
    match reply {
        ExchangeReply::Unsent(detail) => Err(Fault::Network(detail@)),
        ExchangeReply::Refused { status, body } => Err(
            Fault::Server("code exchange failed: "@ + status@ + ": "@ + body@),
        ),
        ExchangeReply::Unreadable(detail) => Err(Fault::Server(detail@)),
        ExchangeReply::Token(token) => Ok(token@),
    }
}

/// The session that came of a swap, or why there is none.
pub fn exchange_outcome(reply: ExchangeReply) -> (r: Result<String, Error>)
    ensures
        match exchanged(reply) {
            Ok(token) => r matches Ok(t) && t@ == token,
            Err(f) => r matches Err(e) && e@ == f,
        },
{
    match reply {
        ExchangeReply::Unsent(detail) => Err(Error::Network(detail)),
        ExchangeReply::Refused { status, body } => {
            let head = text::join3("code exchange failed: ", &status, ": ");
            Err(Error::Server(text::join(&head, &body)))
        },
        ExchangeReply::Unreadable(detail) => Err(Error::Server(detail)),
        ExchangeReply::Token(token) => Ok(token),
    }
}

/// The hexadecimal digits, in their order.
pub const HEX_DIGITS: &'static str = "0123456789abcdef";

/// Bytes as two lower-case hexadecimal digits each.
pub open spec fn hex_of(bytes: Seq<u8>) -> Seq<char> {
    Seq::new(
        2 * bytes.len(),
        |i: int|
            HEX_DIGITS@[if i % 2 == 0 {
                bytes[i / 2] as int / 16
            } else {
                bytes[i / 2] as int % 16
            }],
    )
}

/// Writes bytes as two lower-case hexadecimal digits each. Random bytes become the state of a login
/// and the name of its page in this form.
pub fn hex(bytes: &[u8]) -> (r: String)
    ensures
        r@ == hex_of(bytes@),
{
    proof {
        reveal_strlit("0123456789abcdef");
    }
    let mut r = String::new();
    for i in 0..bytes.len()
        invariant
            HEX_DIGITS@.len() == 16,
            r@ == hex_of(bytes@.take(i as int)),
    {
        let byte = bytes[i];
        r.push(HEX_DIGITS.get_char((byte / 16) as usize));
        r.push(HEX_DIGITS.get_char((byte % 16) as usize));
        assert(r@ =~= hex_of(bytes@.take(i + 1)));
    }
    assert(bytes@.take(bytes@.len() as int) =~= bytes@);
    r
}

/// The name of the page that leads the browser to the address of a login.
pub fn redirect_file_name(process: u32, nonce: &[u8]) -> (r: String)
    ensures
        r@ == "sotto-login-"@ + natural(process as nat) + "-"@ + hex_of(nonce@) + ".html"@,
{
    let head = text::join3("sotto-login-", &text::natural_text(process as u64), "-");
    text::join3(&head, &hex(nonce), ".html")
}

/// A character as it stands in a double-quoted attribute. Nothing but the ampersand and the quote
/// changes, so that the query of an address survives.
pub open spec fn escaped_char(c: char) -> Seq<char> {
    if c == '&' {
        "&amp;"@
    } else if c == '"' {
        "&quot;"@
    } else {
        seq![c]
    }
}

/// A text as it stands in a double-quoted attribute.
pub open spec fn escaped(s: Seq<char>) -> Seq<char>
    decreases s.len(),
{
    if s.len() == 0 {
        Seq::empty()
    } else {
        escaped(s.drop_last()) + escaped_char(s.last())
    }
}

/// Writes a text as it stands in a double-quoted attribute.
pub fn escape(s: &str) -> (r: String)
    ensures
        r@ == escaped(s@),
{
    let mut r = String::new();
    assert(escaped(s@.take(0)) =~= Seq::empty());
    for c in it: s.chars()
        invariant
            it.seq() == s@,
            r@ == escaped(s@.take(it.index() as int)),
    {
        let ghost i = it.index() as int;
        assert(s@.take(i + 1).drop_last() =~= s@.take(i));
        assert(s@.take(i + 1).last() == c);
        if c == '&' {
            r.append("&amp;");
        } else if c == '"' {
            r.append("&quot;");
        } else {
            let ghost before = r@;
            r.push(c);
            assert(r@ =~= before + seq![c]);
        }
    }
    assert(s@.take(s@.len() as int) =~= s@);
    r
}

/// The page that leads the browser to an address.
pub open spec fn page(url: Seq<char>) -> Seq<char> {
    "<!doctype html><html><head><meta http-equiv=\"refresh\" content=\"0;url="@ + escaped(url)
        + "\"></head><body><p>Sotto: authorise this login by opening <a href=\""@ + escaped(url)
        + "\">this link</a>.</p></body></html>"@
}

/// Writes the page that leads the browser to an address.
pub fn redirect_page(url: &str) -> (r: String)
    ensures
        r@ == page(url@),
{
    let address = escape(url);
    let head = text::join3(
        "<!doctype html><html><head><meta http-equiv=\"refresh\" content=\"0;url=",
        &address,
        "\"></head><body><p>Sotto: authorise this login by opening <a href=\"",
    );
    text::join3(&head, &address, "\">this link</a>.</p></body></html>")
}

/// No quote of an address ends the attribute that it stands in.
pub proof fn law_escaped_text_has_no_quote(s: Seq<char>)
    ensures
        !escaped(s).contains('"'),
    decreases s.len(),
{
    if s.len() > 0 {
        law_escaped_text_has_no_quote(s.drop_last());
        reveal_strlit("&amp;");
        reveal_strlit("&quot;");
        let front = escaped(s.drop_last());
        let end = escaped_char(s.last());
        assert(!end.contains('"')) by {
            assert forall|k: int| 0 <= k < end.len() implies end[k] != '"' by {
                if s.last() == '&' {
                    assert(end =~= seq!['&', 'a', 'm', 'p', ';']);
                } else if s.last() == '"' {
                    assert(end =~= seq!['&', 'q', 'u', 'o', 't', ';']);
                }
            }
        }
        lemma_concat_members(front, end);
    }
}

} // verus!
