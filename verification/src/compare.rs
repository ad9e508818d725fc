//! The order of revisions carried as text.
//!
//! Two texts are compared by length first and, at equal length, byte by
//! byte. No number is ever built, so the comparison is not bounded by any
//! integer width; on canonical decimal text it is the order of the numbers
//! that the texts denote.

use crate::decimal::{
    all_digits, ascii_bytes, decimal_value, is_canonical, is_digit, lemma_digits_encoding,
    lemma_shorter_is_smaller,
};
use crate::revision::Revision;
use std::cmp::Ordering;
use vstd::prelude::*;
use vstd::std_specs::cmp::PartialOrdSpec;
use vstd::utf8::encode_utf8;

verus! {

/// The length of the longest common prefix of two byte strings: the first
/// index at which they differ, or at which one of them ends.
pub open spec fn common_prefix_len(a: Seq<u8>, b: Seq<u8>) -> int
    decreases a.len(),
{
    if a.len() == 0 || b.len() == 0 || a[0] != b[0] {
        0
    } else {
        1 + common_prefix_len(a.drop_first(), b.drop_first())
    }
}

/// The lexicographic order of two byte strings: the first byte at which they
/// differ decides, and a proper prefix comes before the longer string.
pub open spec fn lexicographic_order(a: Seq<u8>, b: Seq<u8>) -> Ordering {
    let k = common_prefix_len(a, b);
    if k >= a.len() {
        if k >= b.len() {
            Ordering::Equal
        } else {
            Ordering::Less
        }
    } else if k >= b.len() {
        Ordering::Greater
    } else if a[k] < b[k] {
        Ordering::Less
    } else {
        Ordering::Greater
    }
}

/// The order of two byte strings by length first, then lexicographically.
pub open spec fn text_order(a: Seq<u8>, b: Seq<u8>) -> Ordering {
    if a.len() < b.len() {
        Ordering::Less
    } else if a.len() > b.len() {
        Ordering::Greater
    } else {
        lexicographic_order(a, b)
    }
}

/// The order of two revision texts: `text_order` of their UTF-8 bytes.
pub open spec fn revision_order(a: Seq<char>, b: Seq<char>) -> Ordering {
    text_order(encode_utf8(a), encode_utf8(b))
}

/// The order of two natural numbers.
pub open spec fn numeric_order(x: nat, y: nat) -> Ordering {
    if x < y {
        Ordering::Less
    } else if x > y {
        Ordering::Greater
    } else {
        Ordering::Equal
    }
}

/// What the common prefix is: it fits in both strings, the strings agree on
/// it, and they differ right behind it where both go on.
pub proof fn lemma_common_prefix(a: Seq<u8>, b: Seq<u8>)
    ensures
        0 <= common_prefix_len(a, b) <= a.len(),
        common_prefix_len(a, b) <= b.len(),
        forall|j: int| 0 <= j < common_prefix_len(a, b) ==> a[j] == b[j],
        ({
            let k = common_prefix_len(a, b);
            k < a.len() && k < b.len() ==> a[k] != b[k]
        }),
    decreases a.len(),
{
    if a.len() == 0 || b.len() == 0 || a[0] != b[0] {
    } else {
        let a1 = a.drop_first();
        let b1 = b.drop_first();
        lemma_common_prefix(a1, b1);
        let k = common_prefix_len(a1, b1);
        assert forall|j: int| 0 <= j < k + 1 implies a[j] == b[j] by {
            if j > 0 {
                assert(a[j] == a1[j - 1]);
                assert(b[j] == b1[j - 1]);
            }
        }
        if k + 1 < a.len() && k + 1 < b.len() {
            assert(a[k + 1] == a1[k]);
            assert(b[k + 1] == b1[k]);
        }
    }
}

/// The common prefix of two strings of one length, each with one more byte
/// at its end.
proof fn lemma_common_prefix_push(a: Seq<u8>, b: Seq<u8>, x: u8, y: u8)
    requires
        a.len() == b.len(),
    ensures
        common_prefix_len(a, b) < a.len() ==> common_prefix_len(a.push(x), b.push(y))
            == common_prefix_len(a, b),
        common_prefix_len(a, b) >= a.len() && x == y ==> common_prefix_len(a.push(x), b.push(y))
            == a.len() + 1,
        common_prefix_len(a, b) >= a.len() && x != y ==> common_prefix_len(a.push(x), b.push(y))
            == a.len(),
    decreases a.len(),
{
    let ax = a.push(x);
    let by = b.push(y);
    if a.len() == 0 {
        assert(ax.drop_first() =~= Seq::<u8>::empty());
        assert(ax[0] == x && by[0] == y);
        assert(common_prefix_len(ax.drop_first(), by.drop_first()) == 0);
    } else {
        assert(ax[0] == a[0] && by[0] == b[0]);
        if a[0] == b[0] {
            lemma_common_prefix_push(a.drop_first(), b.drop_first(), x, y);
            assert(ax.drop_first() =~= a.drop_first().push(x));
            assert(by.drop_first() =~= b.drop_first().push(y));
        }
    }
}

/// The first index at which two byte strings differ, or at which one ends.
fn first_mismatch(x: &[u8], y: &[u8]) -> (k: usize)
    ensures
        k == common_prefix_len(x@, y@),
        k <= x@.len(),
        k <= y@.len(),
{
    let n = if x.len() < y.len() {
        x.len()
    } else {
        y.len()
    };
    let mut i: usize = 0;
    proof {
        assert(x@.skip(0) =~= x@);
        assert(y@.skip(0) =~= y@);
    }
    while i < n && x[i] == y[i]
        invariant
            i <= n,
            n <= x@.len(),
            n <= y@.len(),
            n == x@.len() || n == y@.len(),
            common_prefix_len(x@, y@) == i + common_prefix_len(x@.skip(i as int), y@.skip(i as int)),
        decreases n - i,
    {
        proof {
            assert(x@.skip(i as int)[0] == x@[i as int]);
            assert(y@.skip(i as int)[0] == y@[i as int]);
            assert(x@.skip(i as int).drop_first() =~= x@.skip(i + 1));
            assert(y@.skip(i as int).drop_first() =~= y@.skip(i + 1));
        }
        i += 1;
    }
    proof {
        if i < n {
            assert(x@.skip(i as int)[0] == x@[i as int]);
            assert(y@.skip(i as int)[0] == y@[i as int]);
        }
    }
    i
}

/// Compare two revision texts in the canonical decimal order.
///
/// The longer text is the greater; texts of one length are compared byte by
/// byte. Nothing is validated and nothing is parsed: the function is a total
/// order on all strings, and on canonical decimal texts it is the order of
/// the numbers they denote, whatever their size.
pub fn compare_revisions(a: &str, b: &str) -> (r: Ordering)
    ensures
        r == revision_order(a@, b@),
{
    let x = a.as_bytes();
    let y = b.as_bytes();
    if x.len() < y.len() {
        Ordering::Less
    } else if x.len() > y.len() {
        Ordering::Greater
    } else {
        let k = first_mismatch(x, y);
        if k >= x.len() {
            Ordering::Equal
        } else if x[k] < y[k] {
            Ordering::Less
        } else {
            Ordering::Greater
        }
    }
}

/// Two texts compare equal exactly when they are the same text.
pub proof fn lemma_equal_iff_same(a: Seq<u8>, b: Seq<u8>)
    ensures
        text_order(a, b) == Ordering::Equal <==> a == b,
{
    lemma_common_prefix(a, b);
    if text_order(a, b) == Ordering::Equal {
        assert(a =~= b);
    }
}

/// Swapping the two texts swaps `Less` and `Greater`.
pub proof fn lemma_order_flips(a: Seq<u8>, b: Seq<u8>)
    ensures
        text_order(a, b) == Ordering::Less <==> text_order(b, a) == Ordering::Greater,
{
    lemma_common_prefix(a, b);
    lemma_common_prefix(b, a);
    let k = common_prefix_len(a, b);
    let m = common_prefix_len(b, a);
    if a.len() == b.len() {
        if k < m {
            assert(b[k] == a[k]);
        }
        if m < k {
            assert(a[m] == b[m]);
        }
    }
}

/// Among digit strings of one length, the order of the texts is the order of
/// the numbers.
proof fn lemma_same_length_order(a: Seq<char>, b: Seq<char>)
    requires
        all_digits(a),
        all_digits(b),
        a.len() == b.len(),
    ensures
        text_order(ascii_bytes(a), ascii_bytes(b)) == numeric_order(
            decimal_value(a),
            decimal_value(b),
        ),
    decreases a.len(),
{
    if a.len() == 0 {
    } else {
        let a0 = a.drop_last();
        let b0 = b.drop_last();
        assert(is_digit(a.last()));
        assert(is_digit(b.last()));
        assert forall|i: int| 0 <= i < a0.len() implies is_digit(#[trigger] a0[i]) by {
            assert(a0[i] == a[i]);
        }
        assert forall|i: int| 0 <= i < b0.len() implies is_digit(#[trigger] b0[i]) by {
            assert(b0[i] == b[i]);
        }
        lemma_same_length_order(a0, b0);
        let x = ascii_bytes(a).last();
        let y = ascii_bytes(b).last();
        assert(ascii_bytes(a) =~= ascii_bytes(a0).push(x));
        assert(ascii_bytes(b) =~= ascii_bytes(b0).push(y));
        lemma_common_prefix_push(ascii_bytes(a0), ascii_bytes(b0), x, y);
        lemma_common_prefix(ascii_bytes(a0), ascii_bytes(b0));
        let k = common_prefix_len(ascii_bytes(a0), ascii_bytes(b0));
        if k < a0.len() {
            assert(ascii_bytes(a)[k] == ascii_bytes(a0)[k]);
            assert(ascii_bytes(b)[k] == ascii_bytes(b0)[k]);
        }
    }
}

/// On canonical decimal texts the order of the texts is the order of the
/// numbers they denote, however many digits they have.
pub proof fn lemma_canonical_order(a: Seq<char>, b: Seq<char>)
    requires
        is_canonical(a),
        is_canonical(b),
    ensures
        revision_order(a, b) == numeric_order(decimal_value(a), decimal_value(b)),
{
    lemma_digits_encoding(a);
    lemma_digits_encoding(b);
    if a.len() < b.len() {
        lemma_shorter_is_smaller(a, b);
    } else if a.len() > b.len() {
        lemma_shorter_is_smaller(b, a);
    } else {
        lemma_same_length_order(a, b);
    }
}

/// Of two magnitudes, the revision of the smaller is the lesser revision,
/// and its text is the lesser text.
pub proof fn lemma_ordering_consistency(v1: u64, v2: u64)
    requires
        v1 < v2,
    ensures
        Revision::new(v1).partial_cmp_spec(&Revision::new(v2)) == Some(Ordering::Less),
        revision_order(Revision::new(v1).text(), Revision::new(v2).text()) == Ordering::Less,
{
    Revision::lemma_value_of_new(v1);
    Revision::lemma_value_of_new(v2);
    lemma_texts_order_as_revisions(Revision::new(v1), Revision::new(v2));
}

/// The texts of two revisions compare as the revisions do.
pub proof fn lemma_texts_order_as_revisions(r1: Revision, r2: Revision)
    ensures
        Some(revision_order(r1.text(), r2.text())) == r1.partial_cmp_spec(&r2),
{
    r1.lemma_text_denotes_value();
    r2.lemma_text_denotes_value();
    lemma_canonical_order(r1.text(), r2.text());
}

/// The order is transitive: what is less than something less is less.
pub proof fn lemma_order_transitive(a: Seq<u8>, b: Seq<u8>, c: Seq<u8>)
    requires
        text_order(a, b) == Ordering::Less,
        text_order(b, c) == Ordering::Less,
    ensures
        text_order(a, c) == Ordering::Less,
{
    lemma_common_prefix(a, b);
    lemma_common_prefix(b, c);
    lemma_common_prefix(a, c);
    if a.len() == b.len() && b.len() == c.len() {
        let i = common_prefix_len(a, b);
        let j = common_prefix_len(b, c);
        let m = common_prefix_len(a, c);
        let k = if i < j {
            i
        } else {
            j
        };
        assert(a[k] < c[k]) by {
            assert(a[k] <= b[k]);
            assert(b[k] <= c[k]);
        }
        assert forall|n: int| 0 <= n < k implies a[n] == c[n] by {
            assert(a[n] == b[n]);
            assert(b[n] == c[n]);
        }
        if m < k {
            assert(a[m] == c[m]);
        }
        if m > k {
            assert(a[k] == c[k]);
        }
    }
}

} // verus!
