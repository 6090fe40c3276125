//! How callbacks are read and answered, said of the request lines and queries themselves.

use crate::callback::{
    bounded_target_of, code_in, code_of, last_value, reaction, response, starts_with, target_of,
    verdict, word_len, words, CallbackEvent, Reaction,
};
use crate::error::Fault;
use crate::text::{natural, white_space};
use crate::text_laws::{is_space, law_blank_texts_hold_white_space_alone};
use crate::urls::query_of;
use vstd::prelude::*;
use vstd::utf8::encode_utf8;

verus! {

/// Whether a query holds a name, and `value` stands where the name stands last.
pub open spec fn is_last(
    pairs: Seq<(Seq<char>, Seq<char>)>,
    name: Seq<char>,
    value: Seq<char>,
) -> bool {
    exists|k: int|
        0 <= k < pairs.len() && #[trigger] pairs[k] == (name, value) && forall|j: int|
            k < j < pairs.len() ==> (#[trigger] pairs[j]).0 != name
}

/// Whether a query does not hold a name.
pub open spec fn is_absent(pairs: Seq<(Seq<char>, Seq<char>)>, name: Seq<char>) -> bool {
    forall|k: int| 0 <= k < pairs.len() ==> (#[trigger] pairs[k]).0 != name
}

/// Of a name that occurs in a query the last value is taken, whatever it is, and a name is missing
/// only where it does not occur.
pub proof fn law_the_last_value_is_taken(
    pairs: Seq<(Seq<char>, Seq<char>)>,
    name: Seq<char>,
    value: Seq<char>,
)
    ensures
        last_value(pairs, name) == Some(value) <==> is_last(pairs, name, value),
        last_value(pairs, name) is None <==> is_absent(pairs, name),
    decreases pairs.len(),
{
    if pairs.len() > 0 {
        let front = pairs.drop_last();
        let n = pairs.len() - 1;
        law_the_last_value_is_taken(front, name, value);
        assert(pairs[n] == pairs.last());
        assert(forall|k: int| 0 <= k < n ==> #[trigger] front[k] == pairs[k]);
        assert(forall|k: int| 0 <= k < n ==> #[trigger] pairs[k] == front[k]);
        if pairs.last().0 == name {
            if is_last(pairs, name, value) {
                let k = choose|k: int|
                    0 <= k < pairs.len() && #[trigger] pairs[k] == (name, value) && forall|j: int|
                        k < j < pairs.len() ==> (#[trigger] pairs[j]).0 != name;
                assert(k == n);
            }
            if pairs.last().1 == value {
                assert(pairs[n] == (name, value));
                assert(is_last(pairs, name, value));
            }
        } else {
            if is_last(front, name, value) {
                let k = choose|k: int|
                    0 <= k < front.len() && #[trigger] front[k] == (name, value) && forall|j: int|
                        k < j < front.len() ==> (#[trigger] front[j]).0 != name;
                assert(pairs[k] == (name, value));
                assert(is_last(pairs, name, value));
            }
            if is_last(pairs, name, value) {
                let k = choose|k: int|
                    0 <= k < pairs.len() && #[trigger] pairs[k] == (name, value) && forall|j: int|
                        k < j < pairs.len() ==> (#[trigger] pairs[j]).0 != name;
                assert(front[k] == (name, value));
                assert(is_last(front, name, value));
            }
        }
    }
}

/// What a query is answered.
///
/// Without a state, or with another state than the expected one, it is refused, whatever else it
/// holds. With the expected state its code is taken, whatever it is, and also if it holds a
/// session. A session without a code means that the server is too old.
pub proof fn law_queries_are_answered(
    pairs: Seq<(Seq<char>, Seq<char>)>,
    expected_state: Seq<char>,
    state: Seq<char>,
    code: Seq<char>,
)
    ensures
        is_absent(pairs, "state"@) ==> code_in(pairs, expected_state) == Err::<Seq<char>, Fault>(
            Fault::Server("callback missing state"@),
        ),
        is_last(pairs, "state"@, state) && state != expected_state ==> code_in(
            pairs,
            expected_state,
        ) == Err::<Seq<char>, Fault>(Fault::Server("callback state mismatch (possible CSRF)"@)),
        is_last(pairs, "state"@, expected_state) && is_last(pairs, "code"@, code) ==> code_in(
            pairs,
            expected_state,
        ) == Ok::<Seq<char>, Fault>(code),
        is_last(pairs, "state"@, expected_state) && is_absent(pairs, "code"@) && !is_absent(
            pairs,
            "session"@,
        ) ==> code_in(pairs, expected_state) == Err::<Seq<char>, Fault>(Fault::LegacyServer),
        is_last(pairs, "state"@, expected_state) && is_absent(pairs, "code"@) && is_absent(
            pairs,
            "session"@,
        ) ==> code_in(pairs, expected_state) == Err::<Seq<char>, Fault>(
            Fault::Server("callback missing code"@),
        ),
{
    law_the_last_value_is_taken(pairs, "state"@, state);
    law_the_last_value_is_taken(pairs, "state"@, expected_state);
    law_the_last_value_is_taken(pairs, "code"@, code);
    law_the_last_value_is_taken(pairs, "session"@, code);
}

/// A target is read as an address on the loopback listener: what is wrong with the address is
/// reported, and its query is answered.
pub proof fn law_targets_are_read_as_addresses(
    target: Seq<char>,
    expected_state: Seq<char>,
)
    ensures
        match query_of("http://127.0.0.1"@ + target) {
            Ok(pairs) => code_of(target, expected_state) == code_in(pairs, expected_state),
            Err(detail) => code_of(target, expected_state) == Err::<Seq<char>, Fault>(
                Fault::Server("invalid callback request: "@ + detail),
            ),
        },
{
}

/// Whether a text is white space alone.
pub open spec fn is_gap(s: Seq<char>) -> bool {
    forall|i: int| 0 <= i < s.len() ==> is_space(#[trigger] s[i])
}

/// Whether a text is one word.
pub open spec fn is_word(s: Seq<char>) -> bool {
    s.len() > 0 && forall|i: int| 0 <= i < s.len() ==> !is_space(#[trigger] s[i])
}

/// A request line: three words, with white space between them and perhaps around them.
pub struct RequestLine {
    pub before: Seq<char>,
    pub method: Seq<char>,
    pub first_gap: Seq<char>,
    pub target: Seq<char>,
    pub second_gap: Seq<char>,
    pub version: Seq<char>,
    pub after: Seq<char>,
}

impl RequestLine {
    /// Whether the parts are what they are called.
    pub open spec fn well_formed(self) -> bool {
        &&& is_gap(self.before)
        &&& is_word(self.method)
        &&& is_gap(self.first_gap) && self.first_gap.len() > 0
        &&& is_word(self.target)
        &&& is_gap(self.second_gap) && self.second_gap.len() > 0
        &&& is_word(self.version)
        &&& is_gap(self.after)
    }

    /// The line as it is sent.
    pub open spec fn text(self) -> Seq<char> {
        self.before + (self.method + (self.first_gap + (self.target + (self.second_gap + (
        self.version + self.after)))))
    }

    /// Whether the line asks for a target on this host by the method and protocol of a browser.
    pub open spec fn is_callback(self) -> bool {
        &&& self.method == "GET"@
        &&& self.target[0] == '/'
        &&& self.version.len() >= 5
        &&& self.version[0] == 'H'
        &&& self.version[1] == 'T'
        &&& self.version[2] == 'T'
        &&& self.version[3] == 'P'
        &&& self.version[4] == '/'
    }
}

proof fn lemma_spaces()
    ensures
        forall|c: char| #[trigger] white_space(c) <==> is_space(c),
        forall|c: char| #[trigger] is_space(c) <==> white_space(c),
{
    assert forall|c: char| #[trigger] white_space(c) <==> is_space(c) by {
        law_blank_texts_hold_white_space_alone(seq![c]);
        assert(seq![c][0] == c);
    }
}

proof fn lemma_gap_then(gap: Seq<char>, rest: Seq<char>)
    requires
        is_gap(gap),
    ensures
        words(gap + rest) == words(rest),
    decreases gap.len(),
{
    lemma_spaces();
    if gap.len() == 0 {
        assert(gap + rest =~= rest);
    } else {
        assert((gap + rest)[0] == gap[0]);
        assert((gap + rest).drop_first() =~= gap.drop_first() + rest);
        lemma_gap_then(gap.drop_first(), rest);
    }
}

proof fn lemma_word_len_of(word: Seq<char>, rest: Seq<char>)
    requires
        forall|i: int| 0 <= i < word.len() ==> !is_space(#[trigger] word[i]),
        rest.len() > 0 ==> is_space(rest[0]),
    ensures
        word_len(word + rest) == word.len(),
    decreases word.len(),
{
    lemma_spaces();
    if word.len() == 0 {
        assert(word + rest =~= rest);
    } else {
        assert((word + rest)[0] == word[0]);
        assert((word + rest).drop_first() =~= word.drop_first() + rest);
        lemma_word_len_of(word.drop_first(), rest);
    }
}

proof fn lemma_word_then(word: Seq<char>, rest: Seq<char>)
    requires
        is_word(word),
        rest.len() > 0 ==> is_space(rest[0]),
    ensures
        words(word + rest) == seq![word] + words(rest),
{
    lemma_spaces();
    lemma_word_len_of(word, rest);
    let s = word + rest;
    assert(s[0] == word[0]);
    assert(s.take(word.len() as int) =~= word);
    assert(s.skip(word.len() as int) =~= rest);
}

proof fn lemma_no_words(gap: Seq<char>)
    requires
        is_gap(gap),
    ensures
        words(gap).len() == 0,
{
    lemma_gap_then(gap, Seq::empty());
    assert(gap + Seq::<char>::empty() =~= gap);
}

/// The first word of a text, with the gap before it and what follows it.
proof fn lemma_first_word(s: Seq<char>) -> (parts: (Seq<char>, Seq<char>, Seq<char>))
    ensures
        words(s).len() == 0 ==> is_gap(s),
        words(s).len() > 0 ==> {
            &&& s == parts.0 + (parts.1 + parts.2)
            &&& is_gap(parts.0)
            &&& is_word(parts.1)
            &&& parts.2.len() > 0 ==> is_space(parts.2[0])
            &&& words(s) == seq![parts.1] + words(parts.2)
        },
    decreases s.len(),
{
    lemma_spaces();
    if s.len() == 0 {
        (s, s, s)
    } else if white_space(s[0]) {
        let parts = lemma_first_word(s.drop_first());
        let gap = seq![s[0]] + parts.0;
        if words(s).len() > 0 {
            let tail = parts.1 + parts.2;
            assert(s =~= seq![s[0]] + s.drop_first());
            assert(seq![s[0]] + (parts.0 + tail) =~= gap + tail);
            assert(is_gap(gap)) by {
                assert forall|i: int| 0 <= i < gap.len() implies is_space(#[trigger] gap[i]) by {
                    if i > 0 {
                        assert(gap[i] == parts.0[i - 1]);
                    }
                }
            }
        } else {
            let rest = s.drop_first();
            assert forall|i: int| 0 <= i < s.len() implies is_space(#[trigger] s[i]) by {
                if i > 0 {
                    assert(rest[i - 1] == s[i]);
                }
            }
        }
        (gap, parts.1, parts.2)
    } else {
        let n = word_len(s);
        lemma_word_len_bounds(s);
        let word = s.take(n);
        let rest = s.skip(n);
        assert(s =~= Seq::<char>::empty() + (word + rest));
        assert forall|i: int| 0 <= i < word.len() implies !is_space(#[trigger] word[i]) by {
            assert(word[i] == s[i]);
        }
        if rest.len() > 0 {
            assert(rest[0] == s[n]);
        }
        (Seq::empty(), word, rest)
    }
}

proof fn lemma_word_len_bounds(s: Seq<char>)
    ensures
        0 <= word_len(s) <= s.len(),
        s.len() > 0 && !white_space(s[0]) ==> word_len(s) > 0,
        forall|i: int| 0 <= i < word_len(s) ==> !white_space(#[trigger] s[i]),
        word_len(s) < s.len() ==> white_space(s[word_len(s)]),
    decreases s.len(),
{
    if s.len() > 0 && !white_space(s[0]) {
        let rest = s.drop_first();
        lemma_word_len_bounds(rest);
        assert forall|i: int| 0 <= i < word_len(s) implies !white_space(#[trigger] s[i]) by {
            if i > 0 {
                assert(rest[i - 1] == s[i]);
            }
        }
    }
}

proof fn lemma_is_callback(line: RequestLine)
    requires
        line.well_formed(),
    ensures
        line.is_callback() <==> line.method == "GET"@ && starts_with(line.target, "/"@)
            && starts_with(line.version, "HTTP/"@),
{
    reveal_strlit("/");
    reveal_strlit("HTTP/");
    assert("/"@ =~= seq!['/']);
    assert("HTTP/"@ =~= seq!['H', 'T', 'T', 'P', '/']);
    let t = line.target;
    let v = line.version;
    if line.is_callback() {
        assert("/"@ =~= t.subrange(0, 1));
        assert("HTTP/"@ =~= v.subrange(0, 5));
    }
    if starts_with(t, "/"@) {
        assert(t[0] == "/"@[0]);
    }
    if starts_with(v, "HTTP/"@) {
        assert(v.subrange(0, 5) =~= "HTTP/"@);
        assert(v[0] == "HTTP/"@[0]);
        assert(v[1] == "HTTP/"@[1]);
        assert(v[2] == "HTTP/"@[2]);
        assert(v[3] == "HTTP/"@[3]);
        assert(v[4] == "HTTP/"@[4]);
    }
}

/// Of a line of three words the target is taken, whatever it is, if the line is a callback, and any
/// other line is malformed.
pub proof fn law_callback_lines_give_their_target(line: RequestLine)
    requires
        line.well_formed(),
    ensures
        line.is_callback() ==> target_of(line.text()) == Ok::<Seq<char>, Fault>(line.target),
        !line.is_callback() ==> target_of(line.text()) == Err::<Seq<char>, Fault>(
            Fault::Server("malformed callback request"@),
        ),
{
    let tail = line.version + line.after;
    let fourth = line.second_gap + tail;
    let third = line.target + fourth;
    let second = line.first_gap + third;
    let first = line.method + second;
    lemma_no_words(line.after);
    lemma_word_then(line.version, line.after);
    lemma_gap_then(line.second_gap, tail);
    assert(fourth[0] == line.second_gap[0]);
    lemma_word_then(line.target, fourth);
    lemma_gap_then(line.first_gap, third);
    assert(second[0] == line.first_gap[0]);
    lemma_word_then(line.method, second);
    lemma_gap_then(line.before, first);
    assert(words(line.text()) =~= seq![line.method, line.target, line.version]);
    lemma_is_callback(line);
}

/// A target is taken only from a line of three words that is a callback.
pub proof fn law_targets_come_from_callback_lines(text: Seq<char>) -> (line: RequestLine)
    requires
        target_of(text) is Ok,
    ensures
        line.well_formed(),
        line.text() == text,
        line.is_callback(),
        target_of(text) == Ok::<Seq<char>, Fault>(line.target),
{
    let a = lemma_first_word(text);
    let all = words(text);
    assert(words(a.2) =~= all.drop_first());
    let b = lemma_first_word(a.2);
    assert(words(b.2) =~= all.drop_first().drop_first());
    let c = lemma_first_word(b.2);
    assert(words(c.2) =~= all.drop_first().drop_first().drop_first());
    lemma_first_word(c.2);
    assert(all[0] == a.1);
    assert(all[1] == b.1);
    assert(all[2] == c.1);
    let line = RequestLine {
        before: a.0,
        method: a.1,
        first_gap: b.0,
        target: b.1,
        second_gap: c.0,
        version: c.1,
        after: c.2,
    };
    assert(b.0.len() > 0) by {
        if b.0.len() == 0 {
            assert(a.2[0] == b.1[0]);
        }
    }
    assert(c.0.len() > 0) by {
        if c.0.len() == 0 {
            assert(b.2[0] == c.1[0]);
        }
    }
    assert(line.text() =~= text);
    lemma_is_callback(line);
    line
}

/// A line of more than 8192 bytes is not looked at, and any other line is, whatever it holds. What
/// is not taken from a line is reported as malformed.
pub proof fn law_only_long_lines_are_too_large(line: Seq<char>)
    ensures
        encode_utf8(line).len() > 8192 ==> bounded_target_of(line) == Err::<Seq<char>, Fault>(
            Fault::Server("callback request too large"@),
        ),
        encode_utf8(line).len() <= 8192 ==> bounded_target_of(line) == target_of(line),
        target_of(line) is Err ==> target_of(line) == Err::<Seq<char>, Fault>(
            Fault::Server("malformed callback request"@),
        ),
{
}

/// The awaited callback always logs in: a line of acceptable length whose target stands for a query
/// with the expected state and a code ends the login with that code, and tells the peer so.
pub proof fn law_the_awaited_callback_logs_in(
    line: String,
    parts: RequestLine,
    expected_state: Seq<char>,
    overall_seconds: u64,
    pairs: Seq<(Seq<char>, Seq<char>)>,
    code: Seq<char>,
)
    requires
        line@ == parts.text(),
        parts.well_formed(),
        parts.is_callback(),
        encode_utf8(line@).len() <= 8192,
        is_last(pairs, "state"@, expected_state),
        is_last(pairs, "code"@, code),
    ensures
        query_of("http://127.0.0.1"@ + parts.target) == Ok::<
            Seq<(Seq<char>, Seq<char>)>,
            Seq<char>,
        >(pairs) ==> reaction(CallbackEvent::RequestLine(line), expected_state, overall_seconds)
            == (Reaction::Finish { reply: Some(true), outcome: Ok(code) }),
{
    law_callback_lines_give_their_target(parts);
    law_queries_are_answered(pairs, expected_state, expected_state, code);
}

/// How the listener reacts to what happens, whatever the texts and numbers in it.
///
/// A login that takes too long ends with the time that it was given. Without a peer the listener
/// pauses. A listener that fails ends the login with what failed. A peer that cannot be used is
/// passed over, and one whose line cannot be read is told that the login failed. A line ends the
/// login with its code, or because the server is too old, and is refused otherwise.
pub proof fn law_events_are_answered(
    event: CallbackEvent,
    expected_state: Seq<char>,
    overall_seconds: u64,
)
    ensures
        ({
            let r = reaction(event, expected_state, overall_seconds);
            match event {
                CallbackEvent::DeadlinePassed => r == (Reaction::Finish {
                    reply: None,
                    outcome: Err(
                        Fault::Network(
                            "login timed out waiting for the browser callback after "@ + natural(
                                overall_seconds as nat,
                            ) + "s"@,
                        ),
                    ),
                }),
                CallbackEvent::NobodyWaiting => r == Reaction::Pause,
                CallbackEvent::ListenerFailed(detail) => r == (Reaction::Finish {
                    reply: None,
                    outcome: Err(Fault::Io(detail@)),
                }),
                CallbackEvent::PeerUnusable => r == Reaction::Listen,
                CallbackEvent::Unread(_) => r == Reaction::Reject,
                CallbackEvent::RequestLine(line) => match bounded_target_of(line@) {
                    Err(_) => r == Reaction::Reject,
                    Ok(target) => match code_of(target, expected_state) {
                        Ok(code) => r == (Reaction::Finish {
                            reply: Some(true),
                            outcome: Ok(code),
                        }),
                        Err(f) => if f == Fault::LegacyServer {
                            r == (Reaction::Finish {
                                reply: Some(false),
                                outcome: Err(Fault::LegacyServer),
                            })
                        } else {
                            r == Reaction::Reject
                        },
                    },
                },
            }
        }),
{
}

/// A code ends the login with it, an old server ends it without one, and the peer is told either
/// way. Any other error is the peer's alone: it is rejected, and the login goes on.
pub proof fn law_callbacks_are_judged(parsed: Result<Seq<char>, Fault>)
    ensures
        match parsed {
            Ok(code) => verdict(parsed) == (Reaction::Finish {
                reply: Some(true),
                outcome: Ok(code),
            }),
            Err(f) => if f is LegacyServer {
                verdict(parsed) == (Reaction::Finish {
                    reply: Some(false),
                    outcome: Err(Fault::LegacyServer),
                })
            } else {
                verdict(parsed) is Reject
            },
        },
{
}

/// A peer is answered that its callback was accepted or refused, in a response that declares the
/// length of its body in bytes.
pub proof fn law_responses_declare_their_length(ok: bool)
    ensures
        ({
            let body = if ok {
                "<html><body>Sotto: login complete - you can close this tab.</body></html>"@
            } else {
                "<html><body>Sotto: login failed.</body></html>"@
            };
            let status = if ok {
                "200 OK"@
            } else {
                "400 Bad Request"@
            };
            response(ok) == "HTTP/1.1 "@ + status
                + "\r\nContent-Type: text/html\r\nContent-Length: "@ + natural(
                encode_utf8(body).len(),
            ) + "\r\nConnection: close\r\n\r\n"@ + body
        }),
{
}

} // verus!
