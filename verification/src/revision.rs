//! The revision counter and its canonical decimal text.

use crate::decimal::{
    all_digits, decimal_text, decimal_value, digit_char, is_canonical, is_digit,
    lemma_prefix_value_le, lemma_text_is_canonical, lemma_text_of_value, lemma_value_of_text,
};
use std::cmp::Ordering;
use vstd::prelude::*;
use vstd::string::*;
use vstd::utf8::{is_ascii_chars, is_ascii_chars_encode_utf8};

verus! {

/// A monotonic state version backed by `u64`.
///
/// A revision only moves forward; advancing past the largest magnitude
/// saturates there and never wraps to zero.
#[derive(Debug, Clone, Copy, PartialEq, Eq, Structural, Ord, Hash)]
pub struct Revision(u64);

/// The one error of this crate: a text that is not the decimal form of any
/// revision. It is empty, holds a character that is no decimal digit, or
/// denotes a number above `u64::MAX`.
#[derive(Debug, Clone, Copy, PartialEq, Eq, Structural)]
pub struct InvalidRevisionText;

/// `s` is the canonical text of some revision: canonical decimal text that
/// denotes at most `u64::MAX`.
pub open spec fn is_revision_text(s: Seq<char>) -> bool {
    is_canonical(s) && decimal_value(s) <= u64::MAX
}

impl Revision {
    /// The revision with the given magnitude, as a mathematical value.
    pub closed spec fn spec_new(value: u64) -> Revision {
        Revision(value)
    }

    /// The magnitude of a revision, as a mathematical value.
    pub closed spec fn spec_value(self) -> u64 {
        self.0
    }

    /// The successor of a revision: one more, or the maximum where there is
    /// no more.
    pub open spec fn spec_next(self) -> Revision {
        if self.value() < u64::MAX {
            Revision::new((self.value() + 1) as u64)
        } else {
            Revision::new(u64::MAX)
        }
    }

    /// The canonical text of a revision: the decimal digits of its magnitude.
    pub open spec fn text(self) -> Seq<char> {
        decimal_text(self.value() as nat)
    }

    /// What reading `s` as a revision gives: the number it denotes where `s`
    /// is a non-empty string of decimal digits that denotes at most
    /// `u64::MAX`, and the error for every other string.
    pub open spec fn parsed(s: Seq<char>) -> Result<Revision, InvalidRevisionText> {
        if s.len() > 0 && all_digits(s) && decimal_value(s) <= u64::MAX {
            Ok(Revision::new(decimal_value(s) as u64))
        } else {
            Err(InvalidRevisionText)
        }
    }

    /// A revision holds exactly the magnitude it was made from.
    pub broadcast proof fn lemma_value_of_new(value: u64)
        ensures
            (#[trigger] Revision::new(value)).value() == value,
    {
    }

    /// A revision is determined by its magnitude.
    pub broadcast proof fn lemma_new_of_value(r: Revision)
        ensures
            Revision::new(#[trigger] r.value()) == r,
    {
    }

    /// Advancing adds one below the maximum and stays at the maximum: a
    /// revision never wraps to zero.
    pub proof fn lemma_next_saturates(value: u64)
        ensures
            value < u64::MAX ==> Revision::new(value).next().value() == value + 1,
            value == u64::MAX ==> Revision::new(value).next() == Revision::new(value),
            Revision::new(value).next().value() >= value,
    {
    }

    /// The text of a revision is canonical and denotes its magnitude.
    pub proof fn lemma_text_denotes_value(self)
        ensures
            is_canonical(self.text()),
            decimal_value(self.text()) == self.value(),
    {
        lemma_text_is_canonical(self.value() as nat);
        lemma_value_of_text(self.value() as nat);
    }

    /// Reading the canonical text of a revision gives that revision back.
    pub proof fn lemma_text_round_trip(self)
        ensures
            Revision::parsed(self.text()) == Ok::<Revision, InvalidRevisionText>(self),
    {
        self.lemma_text_denotes_value();
    }

    /// Canonical text is read as the one revision that is written that way:
    /// a revision text is accepted, and the text of what was read is the
    /// text that was read.
    pub proof fn lemma_canonical_text_is_kept(s: Seq<char>)
        requires
            is_revision_text(s),
        ensures
            Revision::parsed(s) is Ok,
            Revision::parsed(s).unwrap().text() == s,
    {
        lemma_text_of_value(s);
    }

    /// Create a revision from a raw `u64`.
    #[verifier::when_used_as_spec(spec_new)]
    pub fn new(value: u64) -> (r: Self)
        ensures
            r == Self::spec_new(value),
            r.value() == value,
    {
        Revision(value)
    }

    /// Get the raw `u64` value.
    #[verifier::when_used_as_spec(spec_value)]
    pub fn value(self) -> (v: u64)
        ensures
            v == self.spec_value(),
    {
        self.0
    }

    /// Next revision (saturating: never wraps to zero).
    #[verifier::when_used_as_spec(spec_next)]
    pub fn next(self) -> (r: Self)
        ensures
            r == self.spec_next(),
            r.value() == if self.value() < u64::MAX {
                self.value() + 1
            } else {
                u64::MAX as int
            },
            r.value() >= self.value(),
    {
        Revision(self.0.saturating_add(1))
    }

    /// The canonical decimal text: the digits of the magnitude, without sign
    /// or leading zeros.
    pub fn to_string(&self) -> (s: String)
        ensures
            s@ == self.text(),
    {
        let mut s = String::new();
        push_decimal(self.0, &mut s);
        s
    }

    /// Read a revision from decimal text.
    ///
    /// Accepts the non-empty strings of ASCII decimal digits that denote a
    /// number of at most `u64::MAX`; every other text is rejected, never
    /// clamped.
    pub fn parse(text: &str) -> (r: Result<Revision, InvalidRevisionText>)
        ensures
            r == Self::parsed(text@),
    {
        if !text.is_ascii() {
            proof {
                if all_digits(text@) {
                    assert forall|k: int| 0 <= k < text@.len() implies '\0' <= #[trigger] text@[k]
                        <= '\u{7f}' by {
                        assert(is_digit(text@[k]));
                    }
                    assert(false);
                }
            }
            return Err(InvalidRevisionText);
        }
        let bytes = text.as_bytes();
        proof {
            is_ascii_chars_encode_utf8(text@);
        }
        let n = bytes.len();
        if n == 0 {
            return Err(InvalidRevisionText);
        }
        let mut acc: u64 = 0;
        let mut i: usize = 0;
        while i < n
            invariant
                i <= n,
                n == bytes@.len(),
                n == text@.len(),
                is_ascii_chars(text@),
                forall|j: int| 0 <= j < n ==> text@[j] as u8 == #[trigger] bytes@[j],
                forall|j: int| 0 <= j < i ==> is_digit(#[trigger] text@[j]),
                acc == decimal_value(text@.take(i as int)),
            decreases n - i,
        {
            let b = bytes[i];
            proof {
                assert(text@[i as int] as u8 == bytes@[i as int]);
                assert('\0' <= text@[i as int] <= '\u{7f}');
                assert(text@.take(i + 1).drop_last() =~= text@.take(i as int));
                lemma_prefix_value_le(text@, i + 1);
            }
            if b < 48 || b > 57 {
                assert(!is_digit(text@[i as int]));
                return Err(InvalidRevisionText);
            }
            assert(is_digit(text@[i as int]));
            let d: u64 = (b - 48) as u64;
            let shifted = match acc.checked_mul(10) {
                Some(x) => x,
                None => {
                    return Err(InvalidRevisionText);
                },
            };
            acc = match shifted.checked_add(d) {
                Some(x) => x,
                None => {
                    return Err(InvalidRevisionText);
                },
            };
            i += 1;
        }
        proof {
            assert(text@.take(n as int) =~= text@);
        }
        Ok(Revision(acc))
    }
}

/// The one-character text of a digit.
fn digit_str(d: u64) -> (s: &'static str)
    requires
        d < 10,
    ensures
        s@ == seq![digit_char(d as nat)],
{
    proof {
        reveal_strlit("0");
        reveal_strlit("1");
        reveal_strlit("2");
        reveal_strlit("3");
        reveal_strlit("4");
        reveal_strlit("5");
        reveal_strlit("6");
        reveal_strlit("7");
        reveal_strlit("8");
        reveal_strlit("9");
    }
    let s = if d == 0 {
        "0"
    } else if d == 1 {
        "1"
    } else if d == 2 {
        "2"
    } else if d == 3 {
        "3"
    } else if d == 4 {
        "4"
    } else if d == 5 {
        "5"
    } else if d == 6 {
        "6"
    } else if d == 7 {
        "7"
    } else if d == 8 {
        "8"
    } else {
        "9"
    };
    assert(s@ =~= seq![digit_char(d as nat)]);
    s
}

/// Append the decimal digits of `n` to `out`, most significant first.
fn push_decimal(n: u64, out: &mut String)
    ensures
        final(out)@ == old(out)@ + decimal_text(n as nat),
    decreases n,
{
    if n >= 10 {
        push_decimal(n / 10, out);
    }
    out.append(digit_str(n % 10));
    proof {
        assert(final(out)@ =~= old(out)@ + decimal_text(n as nat));
    }
}

impl Default for Revision {
    /// The initial revision, zero.
    fn default() -> (r: Self)
        ensures
            r == Revision::new(0),
            r.value() == 0,
    {
        Revision(0)
    }
}

impl From<u64> for Revision {
    fn from(value: u64) -> (r: Self) {
        Revision(value)
    }
}

impl vstd::std_specs::convert::FromSpecImpl<u64> for Revision {
    open spec fn obeys_from_spec() -> bool {
        true
    }

    open spec fn from_spec(value: u64) -> Revision {
        Revision::new(value)
    }
}

impl From<Revision> for u64 {
    fn from(rev: Revision) -> (v: Self) {
        rev.0
    }
}

impl vstd::std_specs::convert::FromSpecImpl<Revision> for u64 {
    open spec fn obeys_from_spec() -> bool {
        true
    }

    open spec fn from_spec(rev: Revision) -> u64 {
        rev.value()
    }
}

impl PartialOrd for Revision {
    /// Revisions are ordered by magnitude.
    fn partial_cmp(&self, other: &Self) -> (r: Option<Ordering>) {
        if self.0 < other.0 {
            Some(Ordering::Less)
        } else if self.0 > other.0 {
            Some(Ordering::Greater)
        } else {
            Some(Ordering::Equal)
        }
    }
}

impl vstd::std_specs::cmp::PartialOrdSpecImpl for Revision {
    open spec fn obeys_partial_cmp_spec() -> bool {
        true
    }

    open spec fn partial_cmp_spec(&self, other: &Self) -> Option<Ordering> {
        if self.value() < other.value() {
            Some(Ordering::Less)
        } else if self.value() > other.value() {
            Some(Ordering::Greater)
        } else {
            Some(Ordering::Equal)
        }
    }
}

} // verus!
