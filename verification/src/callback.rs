//! The request with which the browser completes a login.

use crate::error::{Error, Fault};
use crate::text;
use crate::text::{is_white_space, natural, white_space};
use crate::urls::{pairs_of, query_of, query_pairs, MAX_ADDRESS};
use vstd::prelude::*;
use vstd::utf8::encode_utf8;

verus! {

/// The longest request line that is looked at, in bytes. The callback is a short request.
pub const MAX_REQUEST_LINE: usize = 8192;

/// How many characters at the front of a text are not white space.
pub open spec fn word_len(s: Seq<char>) -> int
    decreases s.len(),
{
    if s.len() == 0 || white_space(s[0]) {
        0
    } else {
        1 + word_len(s.drop_first())
    }
}

/// The words of a text: what white space separates.
pub open spec fn words(s: Seq<char>) -> Seq<Seq<char>>
    decreases s.len(),
{
    if s.len() == 0 {
        Seq::empty()
    } else if white_space(s[0]) {
        words(s.drop_first())
    } else {
        let n = word_len(s);
        if 0 < n <= s.len() {
            seq![s.take(n)] + words(s.skip(n))
        } else {
            Seq::empty()
        }
    }
}

/// Whether a text begins with another.
pub open spec fn starts_with(s: Seq<char>, start: Seq<char>) -> bool {
    start.is_prefix_of(s)
}

/// The target of a callback request line, `GET /… HTTP/…`. A line with another method, without a
/// target or a version, or with more words is malformed.
pub open spec fn target_of(request_line: Seq<char>) -> Result<Seq<char>, Fault> {
    let parts = words(request_line);
    if parts.len() == 3 && parts[0] == "GET"@ && starts_with(parts[1], "/"@) && starts_with(
        parts[2],
        "HTTP/"@,
    ) {
        Ok(parts[1])
    } else {
        Err(Fault::Server("malformed callback request"@))
    }
}

proof fn lemma_word_len(s: Seq<char>)
    ensures
        0 <= word_len(s) <= s.len(),
        forall|i: int| 0 <= i < word_len(s) ==> !white_space(#[trigger] s[i]),
        word_len(s) < s.len() ==> white_space(s[word_len(s)]),
    decreases s.len(),
{
    if s.len() > 0 && !white_space(s[0]) {
        let rest = s.drop_first();
        lemma_word_len(rest);
        assert forall|i: int| 0 <= i < word_len(s) implies !white_space(#[trigger] s[i]) by {
            if i > 0 {
                assert(rest[i - 1] == s[i]);
            }
        }
    }
}

/// The length of a word, from where it ends.
proof fn lemma_word_ends(s: Seq<char>, n: int)
    requires
        0 <= n <= s.len(),
        forall|i: int| 0 <= i < n ==> !white_space(#[trigger] s[i]),
        n < s.len() ==> white_space(s[n]),
    ensures
        word_len(s) == n,
{
    lemma_word_len(s);
    let k = word_len(s);
    if k < n {
        assert(white_space(s[k]));
    } else if n < k {
        assert(!white_space(s[n]));
    }
}

fn chars_of(s: &str) -> (r: Vec<char>)
    ensures
        r@ == s@,
{
    let mut r: Vec<char> = Vec::new();
    for c in it: s.chars()
        invariant
            it.seq() == s@,
            r@ == s@.take(it.index() as int),
    {
        assert(s@.take(it.index() + 1) =~= s@.take(it.index() as int).push(s@[it.index() as int]));
        r.push(c);
    }
    assert(s@.take(s@.len() as int) =~= s@);
    r
}

/// The words that ranges of a text are.
pub open spec fn ranges_of(s: Seq<char>, ranges: Seq<(usize, usize)>) -> Seq<Seq<char>> {
    ranges.map_values(|range: (usize, usize)| s.subrange(range.0 as int, range.1 as int))
}

/// Where the words of a text begin and end.
fn word_ranges(s: &str) -> (r: Vec<(usize, usize)>)
    ensures
        ranges_of(s@, r@) == words(s@),
        forall|k: int| 0 <= k < r@.len() ==> (#[trigger] r@[k]).0 <= r@[k].1 <= s@.len(),
{
    let chars = chars_of(s);
    let mut ranges: Vec<(usize, usize)> = Vec::new();
    let mut i: usize = 0;
    assert(s@.skip(0) =~= s@);
    assert(ranges_of(s@, ranges@) + words(s@) =~= words(s@));
    while i < chars.len()
        invariant
            chars@ == s@,
            i <= s@.len(),
            words(s@) == ranges_of(s@, ranges@) + words(s@.skip(i as int)),
            forall|k: int|
                0 <= k < ranges@.len() ==> (#[trigger] ranges@[k]).0 <= ranges@[k].1 <= s@.len(),
        decreases s@.len() - i,
    {
        let ghost rest = s@.skip(i as int);
        assert(rest[0] == s@[i as int]);
        if is_white_space(chars[i]) {
            assert(rest.drop_first() =~= s@.skip(i + 1));
            i = i + 1;
        } else {
            let start = i;
            while i < chars.len() && !is_white_space(chars[i])
                invariant
                    chars@ == s@,
                    start <= i <= s@.len(),
                    rest == s@.skip(start as int),
                    forall|k: int| 0 <= k < i - start ==> !white_space(#[trigger] rest[k]),
                decreases s@.len() - i,
            {
                assert(rest[i - start] == s@[i as int]);
                i = i + 1;
            }
            let ghost n = i - start;
            proof {
                if n < rest.len() {
                    assert(rest[n] == s@[i as int]);
                }
                lemma_word_ends(rest, n);
                lemma_word_len(rest);
                assert(n > 0);
                assert(rest.take(n) =~= s@.subrange(start as int, i as int));
                assert(rest.skip(n) =~= s@.skip(i as int));
            }
            let ghost before = ranges@;
            ranges.push((start, i));
            proof {
                assert(ranges_of(s@, ranges@) =~= ranges_of(s@, before).push(
                    s@.subrange(start as int, i as int),
                ));
                assert(words(s@) =~= ranges_of(s@, ranges@) + words(s@.skip(i as int)));
            }
        }
    }
    assert(words(s@.skip(i as int)) =~= Seq::empty());
    assert(words(s@) =~= ranges_of(s@, ranges@));
    ranges
}

/// Whether a text begins with another.
fn begins_with(s: &str, start: &str) -> (r: bool)
    ensures
        r == starts_with(s@, start@),
{
    let a = chars_of(s);
    let b = chars_of(start);
    if a.len() < b.len() {
        return false;
    }
    for i in 0..b.len()
        invariant
            a@ == s@,
            b@ == start@,
            b@.len() <= a@.len(),
            forall|k: int| 0 <= k < i ==> a@[k] == b@[k],
    {
        if a[i] != b[i] {
            assert(start@[i as int] != s@[i as int]);
            return false;
        }
    }
    true
}

/// Reads a callback request line, `GET /… HTTP/…`, and gives its target.
pub fn request_target(request_line: &str) -> (r: Result<&str, Error>)
    ensures
        match target_of(request_line@) {
            Ok(target) => r matches Ok(t) && t@ == target,
            Err(f) => r matches Err(e) && e@ == f,
        },
        r matches Ok(t) ==> t@.len() <= request_line@.len(),
{
    let ranges = word_ranges(request_line);
    let ghost parts = words(request_line@);
    assert(parts.len() == ranges@.len());
    if ranges.len() == 3 {
        assert(parts[0] == request_line@.subrange(ranges@[0].0 as int, ranges@[0].1 as int));
        assert(parts[1] == request_line@.subrange(ranges@[1].0 as int, ranges@[1].1 as int));
        assert(parts[2] == request_line@.subrange(ranges@[2].0 as int, ranges@[2].1 as int));
        let method = request_line.substring_char(ranges[0].0, ranges[0].1);
        let target = request_line.substring_char(ranges[1].0, ranges[1].1);
        let version = request_line.substring_char(ranges[2].0, ranges[2].1);
        if text::same(method, "GET") && begins_with(target, "/") && begins_with(version, "HTTP/") {
            return Ok(target);
        }
    }
    Err(Error::Server("malformed callback request".to_owned()))
}

/// The target of a request line as it was read, up to one byte more than is looked at.
pub open spec fn bounded_target_of(request_line: Seq<char>) -> Result<Seq<char>, Fault> {
    if encode_utf8(request_line).len() > MAX_REQUEST_LINE {
        Err(Fault::Server("callback request too large"@))
    } else {
        target_of(request_line)
    }
}

/// Reads a request line of a loopback peer, which may be too long, and gives its target.
pub fn callback_target(request_line: &str) -> (r: Result<String, Error>)
    ensures
        match bounded_target_of(request_line@) {
            Ok(target) => r matches Ok(t) && t@ == target,
            Err(f) => r matches Err(e) && e@ == f,
        },
        r matches Ok(t) ==> t@.len() <= MAX_REQUEST_LINE,
{
    proof {
        text::lemma_encoding_is_no_shorter(request_line@);
    }
    if request_line.as_bytes().len() > MAX_REQUEST_LINE {
        return Err(Error::Server("callback request too large".to_owned()));
    }
    let target = request_target(request_line)?;
    Ok(target.to_owned())
}

/// The last value of a name, if it has one.
pub open spec fn last_value(pairs: Seq<(Seq<char>, Seq<char>)>, name: Seq<char>) -> Option<
    Seq<char>,
>
    decreases pairs.len(),
{
    if pairs.len() == 0 {
        None
    } else if pairs.last().0 == name {
        Some(pairs.last().1)
    } else {
        last_value(pairs.drop_last(), name)
    }
}

/// The login code that a callback's query carries, or why the callback is refused.
///
/// The state comes first: whoever does not know it learns nothing. A session without a code, from
/// someone who knows the state, means that the server is too old.
pub open spec fn code_in(pairs: Seq<(Seq<char>, Seq<char>)>, expected_state: Seq<char>) -> Result<
    Seq<char>,
    Fault,
> {
    match last_value(pairs, "state"@) {
        None => Err(Fault::Server("callback missing state"@)),
        Some(state) => if state != expected_state {
            Err(Fault::Server("callback state mismatch (possible CSRF)"@))
        } else {
            match last_value(pairs, "code"@) {
                Some(code) => Ok(code),
                None => if last_value(pairs, "session"@) is Some {
                    Err(Fault::LegacyServer)
                } else {
                    Err(Fault::Server("callback missing code"@))
                },
            }
        },
    }
}

/// The address that a callback target stands for on the listener.
pub open spec fn callback_address(target: Seq<char>) -> Seq<char> {
    "http://127.0.0.1"@ + target
}

/// The login code that a callback target carries, or why the callback is refused.
pub open spec fn code_of(target: Seq<char>, expected_state: Seq<char>) -> Result<Seq<char>, Fault> {
    match query_of(callback_address(target)) {
        Err(detail) => Err(Fault::Server("invalid callback request: "@ + detail)),
        Ok(pairs) => code_in(pairs, expected_state),
    }
}

/// `ct_eq` of `subtle::ConstantTimeEq` on byte slices: whether they have the same length and the
/// same bytes. That the time it takes depends on the lengths alone is left unsaid.
#[verifier::external_body]
fn equal_in_constant_time(a: &[u8], b: &[u8]) -> (r: bool)
    ensures
        r == (a@ == b@),
{
    bool::from(subtle::ConstantTimeEq::ct_eq(a, b))
}

/// The last value of a name, if it has one.
fn find_value<'a>(pairs: &'a Vec<(String, String)>, name: &str) -> (r: Option<&'a String>)
    ensures
        last_value(pairs_of(pairs@), name@) == (match r {
            Some(value) => Some(value@),
            None => None,
        }),
{
    let ghost all = pairs_of(pairs@);
    let mut i: usize = pairs.len();
    assert(all.take(i as int) =~= all);
    while i > 0
        invariant
            i <= pairs@.len(),
            all == pairs_of(pairs@),
            last_value(all.take(i as int), name@) == last_value(all, name@),
        decreases i,
    {
        assert(all.take(i as int).last() == (pairs@[i - 1].0@, pairs@[i - 1].1@));
        assert(all.take(i as int).drop_last() =~= all.take(i - 1));
        if text::same(&pairs[i - 1].0, name) {
            return Some(&pairs[i - 1].1);
        }
        i = i - 1;
    }
    None
}

/// Finds the login code in the query of a callback, and refuses a callback that is not the awaited
/// one. States are compared in constant time.
pub fn interpret_callback(pairs: &Vec<(String, String)>, expected_state: &str) -> (r: Result<
    String,
    Error,
>)
    ensures
        match code_in(pairs_of(pairs@), expected_state@) {
            Ok(code) => r matches Ok(c) && c@ == code,
            Err(f) => r matches Err(e) && e@ == f,
        },
{
    match find_value(pairs, "state") {
        None => {
            return Err(Error::Server("callback missing state".to_owned()));
        },
        Some(state) => {
            proof {
                if encode_utf8(state@) == encode_utf8(expected_state@) {
                    text::lemma_encoding_is_injective(state@, expected_state@);
                }
            }
            if !equal_in_constant_time(state.as_str().as_bytes(), expected_state.as_bytes()) {
                return Err(Error::Server("callback state mismatch (possible CSRF)".to_owned()));
            }
        },
    }
    if let Some(code) = find_value(pairs, "code") {
        return Ok(code.clone());
    }
    if find_value(pairs, "session").is_some() {
        return Err(Error::LegacyServer);
    }
    Err(Error::Server("callback missing code".to_owned()))
}

/// Finds the login code in a callback target, `/?code=…&state=…`, and refuses a callback that is
/// not the awaited one.
pub fn parse_callback(target: &str, expected_state: &str) -> (r: Result<String, Error>)
    requires
        callback_address(target@).len() <= MAX_ADDRESS,
    ensures
        match code_of(target@, expected_state@) {
            Ok(code) => r matches Ok(c) && c@ == code,
            Err(f) => r matches Err(e) && e@ == f,
        },
{
    match query_pairs(&text::join("http://127.0.0.1", target)) {
        Ok(pairs) => interpret_callback(&pairs, expected_state),
        Err(detail) => Err(Error::Server(text::join("invalid callback request: ", &detail))),
    }
}

/// What happens on the loopback listener.
#[derive(Debug)]
pub enum CallbackEvent {
    /// The login has taken too long.
    DeadlinePassed,
    /// No peer is waiting.
    NobodyWaiting,
    /// The listener failed.
    ListenerFailed(String),
    /// A peer's connection could not be set up.
    PeerUnusable,
    /// A peer's request line could not be read in time.
    Unread(String),
    /// A peer sent a request line.
    RequestLine(String),
}

/// What the listener does next.
#[derive(Debug)]
pub enum CallbackAction {
    /// Looks for the next peer.
    Listen,
    /// Looks for the next peer after a pause.
    Pause,
    /// Tells the peer that the login failed, and looks for the next one.
    Reject,
    /// Ends the login, after telling the peer whether it succeeded where there is one.
    Finish { reply: Option<bool>, outcome: Result<String, Error> },
}

/// What a [`CallbackAction`] says.
pub enum Reaction {
    Listen,
    Pause,
    Reject,
    Finish { reply: Option<bool>, outcome: Result<Seq<char>, Fault> },
}

impl View for CallbackAction {
    type V = Reaction;

    open spec fn view(&self) -> Reaction {
        match *self {
            CallbackAction::Listen => Reaction::Listen,
            CallbackAction::Pause => Reaction::Pause,
            CallbackAction::Reject => Reaction::Reject,
            CallbackAction::Finish { reply, outcome } => Reaction::Finish {
                reply,
                outcome: match outcome {
                    Ok(code) => Ok(code@),
                    Err(error) => Err(error@),
                },
            },
        }
    }
}

/// What follows from a callback: a code ends the login, and so does a server that is too old.
/// Anything else is junk, which neither ends nor uses up the login.
pub open spec fn verdict(parsed: Result<Seq<char>, Fault>) -> Reaction {
    match parsed {
        Ok(code) => Reaction::Finish { reply: Some(true), outcome: Ok(code) },
        Err(Fault::LegacyServer) => Reaction::Finish {
            reply: Some(false),
            outcome: Err(Fault::LegacyServer),
        },
        Err(_) => Reaction::Reject,
    }
}

/// What a request line of a peer says: a login code, or why it is refused.
pub open spec fn code_from(request_line: Seq<char>, expected_state: Seq<char>) -> Result<
    Seq<char>,
    Fault,
> {
    match bounded_target_of(request_line) {
        Err(f) => Err(f),
        Ok(target) => code_of(target, expected_state),
    }
}

/// How the listener reacts to what happens.
pub open spec fn reaction(
    event: CallbackEvent,
    expected_state: Seq<char>,
    overall_seconds: u64,
) -> Reaction {
    match event {
        CallbackEvent::DeadlinePassed => Reaction::Finish {
            reply: None,
            outcome: Err(
                Fault::Network(
                    "login timed out waiting for the browser callback after "@ + natural(
                        overall_seconds as nat,
                    ) + "s"@,
                ),
            ),
        },
        CallbackEvent::NobodyWaiting => Reaction::Pause,
        CallbackEvent::ListenerFailed(detail) => Reaction::Finish {
            reply: None,
            outcome: Err(Fault::Io(detail@)),
        },
        CallbackEvent::PeerUnusable => Reaction::Listen,
        CallbackEvent::Unread(_) => Reaction::Reject,
        CallbackEvent::RequestLine(line) => verdict(code_from(line@, expected_state)),
    }
}

/// Decides what follows from a callback.
pub fn judge_callback(parsed: Result<String, Error>) -> (r: CallbackAction)
    ensures
        r@ == verdict(
            match parsed {
                Ok(code) => Ok(code@),
                Err(error) => Err(error@),
            },
        ),
{
    match parsed {
        Ok(code) => CallbackAction::Finish { reply: Some(true), outcome: Ok(code) },
        Err(Error::LegacyServer) => CallbackAction::Finish {
            reply: Some(false),
            outcome: Err(Error::LegacyServer),
        },
        Err(_) => CallbackAction::Reject,
    }
}

/// Decides how the listener reacts to what happens.
pub fn react(event: CallbackEvent, expected_state: &str, overall_seconds: u64) -> (r:
    CallbackAction)
    ensures
        r@ == reaction(event, expected_state@, overall_seconds),
{
    match event {
        CallbackEvent::DeadlinePassed => {
            let detail = text::join3(
                "login timed out waiting for the browser callback after ",
                &text::natural_text(overall_seconds),
                "s",
            );
            CallbackAction::Finish { reply: None, outcome: Err(Error::Network(detail)) }
        },
        CallbackEvent::NobodyWaiting => CallbackAction::Pause,
        CallbackEvent::ListenerFailed(detail) => CallbackAction::Finish {
            reply: None,
            outcome: Err(Error::Io(detail)),
        },
        CallbackEvent::PeerUnusable => CallbackAction::Listen,
        CallbackEvent::Unread(_) => CallbackAction::Reject,
        CallbackEvent::RequestLine(line) => {
            let parsed = match callback_target(&line) {
                Ok(target) => {
                    proof {
                        reveal_strlit("http://127.0.0.1");
                    }
                    parse_callback(&target, expected_state)
                },
                Err(error) => Err(error),
            };
            judge_callback(parsed)
        },
    }
}

/// The answer to a callback connection.
pub open spec fn response(ok: bool) -> Seq<char> {
    let status = if ok {
        "200 OK"@
    } else {
        "400 Bad Request"@
    };
    let body = if ok {
        "<html><body>Sotto: login complete - you can close this tab.</body></html>"@
    } else {
        "<html><body>Sotto: login failed.</body></html>"@
    };
    "HTTP/1.1 "@ + status + "\r\nContent-Type: text/html\r\nContent-Length: "@ + natural(
        encode_utf8(body).len(),
    ) + "\r\nConnection: close\r\n\r\n"@ + body
}

/// Writes the answer to a callback connection.
pub fn callback_response(ok: bool) -> (r: String)
    ensures
        r@ == response(ok),
{
    let status = if ok {
        "200 OK"
    } else {
        "400 Bad Request"
    };
    let body = if ok {
        "<html><body>Sotto: login complete - you can close this tab.</body></html>"
    } else {
        "<html><body>Sotto: login failed.</body></html>"
    };
    let length = text::natural_text(body.as_bytes().len() as u64);
    let head = text::join3(
        "HTTP/1.1 ",
        status,
        "\r\nContent-Type: text/html\r\nContent-Length: ",
    );
    let headers = text::join3(&head, &length, "\r\nConnection: close\r\n\r\n");
    text::join(&headers, body)
}

/// Only the awaited callback ends a login with a code: the listener finishes with a code exactly
/// where a request line of acceptable length targets a query with the expected state and that code.
/// A callback with another state is rejected, whatever else it carries.
pub proof fn law_only_the_expected_state_logs_in(
    line: String,
    expected_state: Seq<char>,
    overall_seconds: u64,
    pairs: Seq<(Seq<char>, Seq<char>)>,
)
    requires
        bounded_target_of(line@) is Ok,
    ensures
        query_of(callback_address(bounded_target_of(line@)->Ok_0)) == Ok::<
            Seq<(Seq<char>, Seq<char>)>,
            Seq<char>,
        >(pairs) ==> {
            let reaction = reaction(
                CallbackEvent::RequestLine(line),
                expected_state,
                overall_seconds,
            );
            &&& last_value(pairs, "state"@) != Some(expected_state) ==> reaction == Reaction::Reject
            &&& last_value(pairs, "state"@) == Some(expected_state) ==> match last_value(
                pairs,
                "code"@,
            ) {
                Some(code) => reaction == (Reaction::Finish {
                    reply: Some(true),
                    outcome: Ok(code),
                }),
                None => reaction == (if last_value(pairs, "session"@) is Some {
                    Reaction::Finish { reply: Some(false), outcome: Err(Fault::LegacyServer) }
                } else {
                    Reaction::Reject
                }),
            }
        },
{
}

/// Junk neither ends nor uses up a login: a request line that is too long or malformed is rejected.
pub proof fn law_junk_is_rejected(line: String, expected_state: Seq<char>, overall_seconds: u64)
    requires
        bounded_target_of(line@) is Err,
    ensures
        reaction(CallbackEvent::RequestLine(line), expected_state, overall_seconds)
            == Reaction::Reject,
{
}

} // verus!
