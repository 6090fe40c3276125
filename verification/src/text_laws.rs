//! What holds of texts: which are blank, how they are ordered, and how numbers are written.

use crate::text::{before, blank, bytes_before, decimal, natural, white_space, DIGITS};
use vstd::prelude::*;
use vstd::utf8::encode_utf8;

verus! {

/// The characters that Unicode calls white space.
pub open spec fn is_space(c: char) -> bool {
    ||| c == '\t' || c == '\n' || c == '\u{b}' || c == '\u{c}' || c == '\r'
    ||| c == ' ' || c == '\u{85}' || c == '\u{a0}' || c == '\u{1680}'
    ||| c == '\u{2000}' || c == '\u{2001}' || c == '\u{2002}' || c == '\u{2003}'
    ||| c == '\u{2004}' || c == '\u{2005}' || c == '\u{2006}' || c == '\u{2007}'
    ||| c == '\u{2008}' || c == '\u{2009}' || c == '\u{200a}'
    ||| c == '\u{2028}' || c == '\u{2029}' || c == '\u{202f}' || c == '\u{205f}'
    ||| c == '\u{3000}'
}

proof fn lemma_space(c: char)
    ensures
        white_space(c) <==> is_space(c),
{
}

/// A text is blank exactly if each of its characters is white space. A text with any other
/// character, however many it has, is not.
pub proof fn law_blank_texts_hold_white_space_alone(s: Seq<char>)
    ensures
        blank(s) <==> forall|i: int| 0 <= i < s.len() ==> is_space(#[trigger] s[i]),
{
    assert forall|c: char| #[trigger] white_space(c) <==> is_space(c) by {
        lemma_space(c);
    }
    assert(forall|i: int| 0 <= i < s.len() ==> white_space(#[trigger] s[i]) == is_space(s[i]));
}

/// Whether the first place at which two byte strings differ decides for `a`: its byte is smaller
/// there, or it has none.
pub open spec fn smaller_at(a: Seq<u8>, b: Seq<u8>, k: int) -> bool {
    &&& 0 <= k <= a.len()
    &&& k < b.len()
    &&& a.take(k) == b.take(k)
    &&& k < a.len() ==> a[k] < b[k]
}

/// A text comes before another exactly if its encoding does, at the first byte that differs.
pub proof fn law_byte_order_is_decided_where_texts_differ(a: Seq<char>, b: Seq<char>)
    ensures
        before(a, b) <==> exists|k: int| smaller_at(encode_utf8(a), encode_utf8(b), k),
{
    let x = encode_utf8(a);
    let y = encode_utf8(b);
    lemma_bytes_before(x, y);
    assert forall|k: int| smaller_at(x, y, k) implies before(a, b) by {
        lemma_smaller_comes_before(x, y, k);
    }
}

proof fn lemma_bytes_before(a: Seq<u8>, b: Seq<u8>)
    ensures
        bytes_before(a, b) ==> exists|k: int| smaller_at(a, b, k),
    decreases a.len(),
{
    if bytes_before(a, b) {
        if a.len() == 0 || a[0] != b[0] {
            assert(a.take(0) =~= b.take(0));
            assert(smaller_at(a, b, 0));
        } else {
            let x = a.drop_first();
            let y = b.drop_first();
            lemma_bytes_before(x, y);
            let k = choose|k: int| smaller_at(x, y, k);
            assert(a.take(k + 1) =~= seq![a[0]] + x.take(k));
            assert(b.take(k + 1) =~= seq![b[0]] + y.take(k));
            assert(smaller_at(a, b, k + 1));
        }
    }
}

proof fn lemma_smaller_comes_before(a: Seq<u8>, b: Seq<u8>, k: int)
    requires
        smaller_at(a, b, k),
    ensures
        bytes_before(a, b),
    decreases k,
{
    if k > 0 {
        assert(a.take(k)[0] == b.take(k)[0]);
        let x = a.drop_first();
        let y = b.drop_first();
        assert(x.take(k - 1) =~= a.take(k).drop_first());
        assert(y.take(k - 1) =~= b.take(k).drop_first());
        lemma_smaller_comes_before(x, y, k - 1);
    }
}

/// The number that decimal digits stand for.
pub open spec fn number_read(s: Seq<char>) -> int
    decreases s.len(),
{
    if s.len() == 0 {
        0
    } else {
        10 * number_read(s.drop_last()) + (s.last() as int - '0' as int)
    }
}

/// A number is written in decimal digits alone, without a leading zero, and reads back as itself.
pub proof fn law_numbers_read_back(n: nat)
    ensures
        number_read(natural(n)) == n,
        natural(n).len() > 0,
        forall|i: int| 0 <= i < natural(n).len() ==> '0' <= #[trigger] natural(n)[i] <= '9',
        n > 0 ==> natural(n)[0] != '0',
        n == 0 ==> natural(n).len() == 1,
    decreases n,
{
    reveal_strlit("0123456789");
    assert(forall|d: int| 0 <= d < 10 ==> #[trigger] DIGITS@[d] as int == '0' as int + d);
    if n >= 10 {
        law_numbers_read_back(n / 10);
        let front = natural(n / 10);
        let c = DIGITS@[(n % 10) as int];
        assert(natural(n).drop_last() =~= front);
    } else {
        let s = natural(n);
        assert(s.drop_last() =~= Seq::empty());
        assert(number_read(s.drop_last()) == 0);
    }
}

/// A negative number is its magnitude behind a minus sign, and any other stands without one.
pub proof fn law_signs_are_written(n: int)
    ensures
        n >= 0 ==> decimal(n) == natural(n as nat),
        n < 0 ==> decimal(n) == seq!['-'] + natural((-n) as nat),
{
    reveal_strlit("-");
    assert("-"@ =~= seq!['-']);
}

} // verus!
