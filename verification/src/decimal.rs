//! Decimal text as a mathematical object: which character sequences are
//! canonical, what number a digit string denotes, and what digit string a
//! number is written as.

use vstd::prelude::*;
use vstd::utf8::{encode_utf8, is_ascii_chars, is_ascii_chars_encode_utf8};

verus! {

/// `c` is one of the ten ASCII decimal digits.
pub open spec fn is_digit(c: char) -> bool {
    '0' <= c && c <= '9'
}

/// The number a decimal digit stands for.
pub open spec fn digit_value(c: char) -> nat
    recommends
        is_digit(c),
{
    (c as int - '0' as int) as nat
}

/// The digit that stands for a number below ten.
pub open spec fn digit_char(d: nat) -> char
    recommends
        d < 10,
{
    if d == 0 {
        '0'
    } else if d == 1 {
        '1'
    } else if d == 2 {
        '2'
    } else if d == 3 {
        '3'
    } else if d == 4 {
        '4'
    } else if d == 5 {
        '5'
    } else if d == 6 {
        '6'
    } else if d == 7 {
        '7'
    } else if d == 8 {
        '8'
    } else {
        '9'
    }
}

/// Every character of `s` is a decimal digit.
pub open spec fn all_digits(s: Seq<char>) -> bool {
    forall|i: int| 0 <= i < s.len() ==> is_digit(#[trigger] s[i])
}

/// `s` is canonical decimal text: at least one digit, digits only, and no
/// leading zero except for the single digit `0`.
pub open spec fn is_canonical(s: Seq<char>) -> bool {
    &&& s.len() > 0
    &&& all_digits(s)
    &&& (s.len() == 1 || s[0] != '0')
}

/// The number that a digit string denotes, most significant digit first.
/// The empty string denotes zero.
pub open spec fn decimal_value(s: Seq<char>) -> nat
    decreases s.len(),
{
    if s.len() == 0 {
        0
    } else {
        decimal_value(s.drop_last()) * 10 + digit_value(s.last())
    }
}

/// The canonical decimal text of a number.
pub open spec fn decimal_text(n: nat) -> Seq<char>
    decreases n,
{
    if n < 10 {
        seq![digit_char(n)]
    } else {
        decimal_text(n / 10).push(digit_char(n % 10))
    }
}

/// A digit and its number determine each other.
pub proof fn lemma_digit_round_trip(d: nat)
    requires
        d < 10,
    ensures
        is_digit(digit_char(d)),
        digit_value(digit_char(d)) == d,
{
}

/// The text of a number is canonical.
pub proof fn lemma_text_is_canonical(n: nat)
    ensures
        is_canonical(decimal_text(n)),
    decreases n,
{
    if n < 10 {
        lemma_digit_round_trip(n);
    } else {
        lemma_text_is_canonical(n / 10);
        lemma_digit_round_trip(n % 10);
        let head = decimal_text(n / 10);
        let whole = decimal_text(n);
        assert(whole[0] == head[0]);
        if head.len() == 1 {
            assert(head =~= seq![digit_char(n / 10)]) by {
                if n / 10 >= 10 {
                    lemma_text_is_canonical(n / 10 / 10);
                }
            }
        }
        assert forall|i: int| 0 <= i < whole.len() implies is_digit(#[trigger] whole[i]) by {
            if i < head.len() {
                assert(whole[i] == head[i]);
            }
        }
    }
}

/// The text of a number denotes that number.
pub proof fn lemma_value_of_text(n: nat)
    ensures
        decimal_value(decimal_text(n)) == n,
    decreases n,
{
    if n < 10 {
        lemma_digit_round_trip(n);
        let s = decimal_text(n);
        assert(s.drop_last() =~= Seq::<char>::empty());
        assert(decimal_value(s.drop_last()) == 0);
    } else {
        lemma_value_of_text(n / 10);
        lemma_digit_round_trip(n % 10);
        let head = decimal_text(n / 10);
        let s = decimal_text(n);
        assert(s.drop_last() =~= head);
    }
}

/// A canonical digit string is the text of the number it denotes: no two
/// canonical strings denote the same number.
pub proof fn lemma_text_of_value(s: Seq<char>)
    requires
        is_canonical(s),
    ensures
        decimal_text(decimal_value(s)) == s,
    decreases s.len(),
{
    let d = digit_value(s.last());
    assert(is_digit(s.last()));
    assert(digit_char(d) == s.last());
    let head = s.drop_last();
    if s.len() == 1 {
        assert(head =~= Seq::<char>::empty());
        assert(decimal_value(head) == 0);
        assert(decimal_text(d) =~= s);
    } else {
        assert(head[0] == s[0]);
        assert forall|i: int| 0 <= i < head.len() implies is_digit(#[trigger] head[i]) by {
            assert(head[i] == s[i]);
        }
        lemma_leading_digit_positive(head);
        lemma_text_of_value(head);
        let v = decimal_value(s);
        assert(v / 10 == decimal_value(head));
        assert(v % 10 == d);
        assert(decimal_text(v) =~= s);
    }
}

/// A digit string that starts with a non-zero digit denotes a positive number.
pub proof fn lemma_leading_digit_positive(s: Seq<char>)
    requires
        s.len() > 0,
        all_digits(s),
        s[0] != '0',
    ensures
        decimal_value(s) >= 1,
    decreases s.len(),
{
    let head = s.drop_last();
    if s.len() == 1 {
        assert(is_digit(s[0]));
        assert(head =~= Seq::<char>::empty());
    } else {
        assert(head[0] == s[0]);
        assert forall|i: int| 0 <= i < head.len() implies is_digit(#[trigger] head[i]) by {
            assert(head[i] == s[i]);
        }
        lemma_leading_digit_positive(head);
    }
}

/// Reading more digits never makes the number smaller: a prefix of a digit
/// string denotes at most what the whole string denotes.
pub proof fn lemma_prefix_value_le(s: Seq<char>, k: int)
    requires
        0 <= k <= s.len(),
    ensures
        decimal_value(s.take(k)) <= decimal_value(s),
    decreases s.len(),
{
    if k == s.len() {
        assert(s.take(k) =~= s);
    } else {
        let head = s.drop_last();
        lemma_prefix_value_le(head, k);
        assert(head.take(k) =~= s.take(k));
    }
}

/// The bytes of a text of one-byte characters: each character's code.
pub open spec fn ascii_bytes(s: Seq<char>) -> Seq<u8> {
    Seq::new(s.len(), |i: int| s[i] as u8)
}

/// A digit string is encoded in UTF-8 with one byte for each digit, the
/// digit's ASCII code.
pub proof fn lemma_digits_encoding(s: Seq<char>)
    requires
        all_digits(s),
    ensures
        is_ascii_chars(s),
        encode_utf8(s) == ascii_bytes(s),
{
    assert forall|i: int| 0 <= i < s.len() implies '\0' <= #[trigger] s[i] <= '\u{7f}' by {
        assert(is_digit(s[i]));
    }
    is_ascii_chars_encode_utf8(s);
    assert(encode_utf8(s) =~= ascii_bytes(s));
}

/// Among digit strings, one that starts with a non-zero digit denotes more
/// than any shorter one.
pub proof fn lemma_shorter_is_smaller(a: Seq<char>, b: Seq<char>)
    requires
        all_digits(a),
        all_digits(b),
        a.len() < b.len(),
        b[0] != '0',
    ensures
        decimal_value(a) < decimal_value(b),
    decreases a.len(),
{
    if a.len() == 0 {
        lemma_leading_digit_positive(b);
    } else {
        let a0 = a.drop_last();
        let b0 = b.drop_last();
        assert(is_digit(a.last()));
        assert(is_digit(b.last()));
        assert(b0[0] == b[0]);
        assert forall|i: int| 0 <= i < a0.len() implies is_digit(#[trigger] a0[i]) by {
            assert(a0[i] == a[i]);
        }
        assert forall|i: int| 0 <= i < b0.len() implies is_digit(#[trigger] b0[i]) by {
            assert(b0[i] == b[i]);
        }
        lemma_shorter_is_smaller(a0, b0);
    }
}

} // verus!
