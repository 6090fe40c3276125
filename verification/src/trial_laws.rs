//! What is tried on the codec and on key strings, in terms of the bytes of an input.

use crate::base32_codec;
use crate::base32_codec::{symbol, symbols};
use crate::key_strings;
use crate::key_strings::{behind_hyphen, prefix_for};
use vstd::prelude::*;
use vstd::utf8::{decode_utf8, valid_utf8};

verus! {

/// Every byte has one symbol, in its place. By the byte's remainder it is one of the thirty-two of
/// the alphabet, one of five strangers, or one that no encoded text holds.
pub proof fn law_every_byte_has_its_symbol(bytes: Seq<u8>)
    ensures
        symbols(bytes).len() == bytes.len(),
        forall|i: int|
            0 <= i < bytes.len() ==> {
                let k = (#[trigger] bytes[i]) as int % 40;
                symbols(bytes)[i] == (if k < 32 {
                    "0123456789ABCDEFGHJKMNPQRSTVWXYZ"@[k]
                } else if k == 32 {
                    '-'
                } else if k == 33 {
                    'o'
                } else if k == 34 {
                    'i'
                } else if k == 35 {
                    'l'
                } else if k == 36 {
                    'U'
                } else {
                    '#'
                })
            },
{
    reveal_strlit("0123456789ABCDEFGHJKMNPQRSTVWXYZ");
    reveal_strlit("-oilU");
    assert forall|i: int| 0 <= i < bytes.len() implies symbols(bytes)[i] == symbol(
        #[trigger] bytes[i],
    ) by {}
}

/// The first sixteen kilobytes of an input are used, and all of a shorter one.
pub proof fn law_long_inputs_are_cut(data: Seq<u8>)
    ensures
        data.len() <= 16384 ==> base32_codec::used(data) == data && key_strings::used(data) == data,
        data.len() > 16384 ==> {
            &&& base32_codec::used(data) == data.subrange(0, 16384)
            &&& key_strings::used(data) == data.subrange(0, 16384)
        },
{
    if data.len() > 16384 {
        assert(data.take(16384) =~= data.subrange(0, 16384));
    }
}

/// The first byte of an input chooses what is tried on the codec with those behind it: to decode
/// what encoding them gives, to decode them as a text where they are one, and to have their symbols
/// refused for a last one that no encoded text holds. Without a byte the empty text is decoded.
pub proof fn law_first_bytes_choose_the_codec_trial(first: u8, rest: Seq<u8>)
    ensures
        base32_codec::trial_of(Seq::empty()) == base32_codec::Trial::Decode(Seq::empty()),
        ({
            let input = base32_codec::used(rest);
            let trial = base32_codec::trial_of(seq![first] + rest);
            &&& first % 3 == 0 ==> trial == base32_codec::Trial::RoundTrip(input)
            &&& first % 3 == 1 && valid_utf8(input) ==> trial == base32_codec::Trial::Decode(
                decode_utf8(input),
            )
            &&& first % 3 == 1 && !valid_utf8(input) ==> trial is Nothing
            &&& first % 3 == 2 ==> {
                &&& trial is Refuse
                &&& trial->Refuse_0.len() == input.len() + 1
                &&& trial->Refuse_0.drop_last() == symbols(input)
                &&& trial->Refuse_0.last() == '#'
            }
        }),
{
    reveal_strlit("#");
    let data = seq![first] + rest;
    let input = base32_codec::used(rest);
    assert(data.drop_first() =~= rest);
    assert(data[0] == first);
    assert((symbols(input) + "#"@).drop_last() =~= symbols(input));
}

/// The first byte of an input chooses what is tried on key strings with those behind it: to decode
/// what encoding them gives, to have their symbols refused for want of a header, or for a last one
/// that no encoded text holds, and to have them refused under a wrong version or prefix. Without a
/// byte the empty text is decoded.
pub proof fn law_first_bytes_choose_the_key_trial(first: u8, rest: Seq<u8>)
    ensures
        key_strings::trial_of(Seq::empty()) == key_strings::Trial::Decode(Seq::empty()),
        ({
            let payload = key_strings::used(rest);
            let trial = key_strings::trial_of(seq![first] + rest);
            &&& first % 4 == 0 ==> trial == key_strings::Trial::RoundTrip(payload)
            &&& first % 4 == 1 ==> trial == key_strings::Trial::Refuse(symbols(payload))
            &&& first % 4 == 2 ==> {
                &&& trial is Refuse
                &&& trial->Refuse_0 == seq!['S', 'K', '1', '-'] + symbols(payload) + seq!['#']
            }
            &&& first % 4 == 3 ==> trial == (key_strings::Trial::WrongVersion {
                prefix: prefix_for(payload),
                payload,
            })
        }),
{
    reveal_strlit("#");
    reveal_strlit("SK1-");
    let data = seq![first] + rest;
    assert(data.drop_first() =~= rest);
    assert(data[0] == first);
    assert("SK1-"@ =~= seq!['S', 'K', '1', '-']);
    assert("#"@ =~= seq!['#']);
}

/// The first byte of a payload chooses its prefix among three, and an empty payload has the first.
pub proof fn law_first_bytes_choose_the_prefix(first: u8, rest: Seq<u8>)
    ensures
        prefix_for(Seq::empty()) == "SK"@,
        first % 3 == 0 ==> prefix_for(seq![first] + rest) == "SK"@,
        first % 3 == 1 ==> prefix_for(seq![first] + rest) == "RK"@,
        first % 3 == 2 ==> prefix_for(seq![first] + rest) == "MT"@,
{
    assert((seq![first] + rest)[0] == first);
}

/// What stands behind the first hyphen is all that follows it, further hyphens with it, and nothing
/// where there is no hyphen.
pub proof fn law_what_follows_the_first_hyphen(head: Seq<char>, tail: Seq<char>)
    requires
        !head.contains('-'),
    ensures
        behind_hyphen(head) == Seq::<char>::empty(),
        behind_hyphen(head + seq!['-'] + tail) == tail,
    decreases head.len(),
{
    let text = head + seq!['-'] + tail;
    if head.len() == 0 {
        assert(text[0] == '-');
        assert(text.drop_first() =~= tail);
        assert(behind_hyphen(head) =~= Seq::<char>::empty());
    } else {
        let next = head.drop_first();
        assert(head.contains(head[0]));
        assert forall|c: char| next.contains(c) implies head.contains(c) by {
            let k = choose|k: int| 0 <= k < next.len() && next[k] == c;
            assert(head[k + 1] == c);
        }
        law_what_follows_the_first_hyphen(next, tail);
        assert(text[0] == head[0]);
        assert(text.drop_first() =~= next + seq!['-'] + tail);
    }
}

} // verus!
