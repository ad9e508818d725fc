use state_sync::{InvalidRevisionText, Revision};

#[test]
fn revision_next() {
    let r = Revision::new(0);
    assert_eq!(r.next().value(), 1);
}

#[test]
fn revision_saturating() {
    let r = Revision::new(u64::MAX);
    assert_eq!(r.next().value(), u64::MAX);
}

#[test]
fn revision_display() {
    assert_eq!(Revision::new(42).to_string(), "42");
}

#[test]
fn revision_from_u64() {
    let r: Revision = 10.into();
    assert_eq!(r.value(), 10);
}

#[test]
fn revision_default() {
    assert_eq!(Revision::default().value(), 0);
}

#[test]
fn revision_ordering() {
    let a = Revision::new(1);
    let b = Revision::new(2);
    assert!(a < b);
    assert!(b > a);
    assert_eq!(a, Revision::new(1));
}

#[test]
fn revision_into_u64() {
    let v: u64 = Revision::new(77).into();
    assert_eq!(v, 77);
    assert_eq!(u64::from(Revision::from(u64::MAX)), u64::MAX);
}

#[test]
fn next_adds_one_below_the_maximum() {
    assert_eq!(Revision::new(41).next(), Revision::new(42));
    assert_eq!(Revision::new(9).next().value(), 10);
    assert_eq!(Revision::new(u64::MAX - 1).next().value(), u64::MAX);
}

#[test]
fn next_at_the_maximum_stays_there() {
    let top = Revision::new(u64::MAX);
    assert_eq!(top.next(), top);
    assert_eq!(top.next().next(), top);
}

#[test]
fn next_never_goes_back() {
    for v in [0u64, 1, 9, 10, 4_294_967_295, u64::MAX - 1, u64::MAX] {
        let r = Revision::new(v);
        assert!(r.next() >= r);
    }
}

#[test]
fn ordering_follows_magnitude() {
    assert!(Revision::new(0) < Revision::new(1));
    assert!(Revision::new(9) < Revision::new(10));
    assert!(Revision::new(u64::MAX - 1) < Revision::new(u64::MAX));
    assert!(Revision::new(10) > Revision::new(9));
    assert!(Revision::new(5) <= Revision::new(5));
    assert!(Revision::new(5) >= Revision::new(5));
    assert_eq!(
        Revision::new(3).partial_cmp(&Revision::new(4)),
        Some(std::cmp::Ordering::Less)
    );
    assert_eq!(
        Revision::new(4).partial_cmp(&Revision::new(4)),
        Some(std::cmp::Ordering::Equal)
    );
    assert_eq!(
        Revision::new(5).partial_cmp(&Revision::new(4)),
        Some(std::cmp::Ordering::Greater)
    );
    assert_eq!(Revision::new(3).cmp(&Revision::new(4)), std::cmp::Ordering::Less);
    assert_eq!(Revision::new(3).max(Revision::new(4)), Revision::new(4));
}

#[test]
fn text_of_zero_is_a_single_digit() {
    assert_eq!(Revision::new(0).to_string(), "0");
    assert_eq!(Revision::default().to_string(), "0");
}

#[test]
fn text_has_every_digit_in_place() {
    assert_eq!(Revision::new(7).to_string(), "7");
    assert_eq!(Revision::new(10).to_string(), "10");
    assert_eq!(Revision::new(1000).to_string(), "1000");
    assert_eq!(Revision::new(1234567890).to_string(), "1234567890");
    assert_eq!(Revision::new(9_007_199_254_740_993).to_string(), "9007199254740993");
    assert_eq!(Revision::new(u64::MAX).to_string(), "18446744073709551615");
}

#[test]
fn parse_reads_decimal_digits() {
    assert_eq!(Revision::parse("0"), Ok(Revision::new(0)));
    assert_eq!(Revision::parse("42"), Ok(Revision::new(42)));
    assert_eq!(Revision::parse("1234567890"), Ok(Revision::new(1234567890)));
    assert_eq!(
        Revision::parse("18446744073709551615"),
        Ok(Revision::new(u64::MAX))
    );
    assert_eq!(
        Revision::parse("18446744073709551614"),
        Ok(Revision::new(u64::MAX - 1))
    );
}

#[test]
fn parse_reads_digits_behind_leading_zeros() {
    assert_eq!(Revision::parse("007"), Ok(Revision::new(7)));
    assert_eq!(Revision::parse("00"), Ok(Revision::new(0)));
    assert_eq!(
        Revision::parse("000000000000000000000000000000000001"),
        Ok(Revision::new(1))
    );
}

#[test]
fn parse_rejects_empty_text() {
    assert_eq!(Revision::parse(""), Err(InvalidRevisionText));
}

#[test]
fn parse_rejects_anything_but_digits() {
    assert_eq!(Revision::parse("abc"), Err(InvalidRevisionText));
    assert_eq!(Revision::parse("12a"), Err(InvalidRevisionText));
    assert_eq!(Revision::parse("a12"), Err(InvalidRevisionText));
    assert_eq!(Revision::parse("-1"), Err(InvalidRevisionText));
    assert_eq!(Revision::parse("+1"), Err(InvalidRevisionText));
    assert_eq!(Revision::parse(" 1"), Err(InvalidRevisionText));
    assert_eq!(Revision::parse("1 "), Err(InvalidRevisionText));
    assert_eq!(Revision::parse("1.0"), Err(InvalidRevisionText));
    assert_eq!(Revision::parse("1_000"), Err(InvalidRevisionText));
    assert_eq!(Revision::parse("0x10"), Err(InvalidRevisionText));
    assert_eq!(Revision::parse("/"), Err(InvalidRevisionText));
    assert_eq!(Revision::parse(":"), Err(InvalidRevisionText));
}

#[test]
fn parse_rejects_digits_outside_ascii() {
    assert_eq!(Revision::parse("\u{0663}"), Err(InvalidRevisionText));
    assert_eq!(Revision::parse("4\u{ff12}"), Err(InvalidRevisionText));
    assert_eq!(Revision::parse("12\u{e9}"), Err(InvalidRevisionText));
}

#[test]
fn parse_rejects_magnitudes_above_the_maximum() {
    assert_eq!(
        Revision::parse("18446744073709551616"),
        Err(InvalidRevisionText)
    );
    assert_eq!(
        Revision::parse("18446744073709551620"),
        Err(InvalidRevisionText)
    );
    assert_eq!(
        Revision::parse("99999999999999999999"),
        Err(InvalidRevisionText)
    );
    assert_eq!(
        Revision::parse("100000000000000000000"),
        Err(InvalidRevisionText)
    );
    assert_eq!(
        Revision::parse("0018446744073709551616"),
        Err(InvalidRevisionText)
    );
}

#[test]
fn parse_rejects_an_overflow_even_before_a_bad_character() {
    assert_eq!(
        Revision::parse("184467440737095516160000x"),
        Err(InvalidRevisionText)
    );
}

#[test]
fn text_round_trip() {
    for v in [
        0u64,
        1,
        9,
        10,
        11,
        99,
        100,
        255,
        65_536,
        4_294_967_295,
        4_294_967_296,
        9_999_999_999_999_999_999,
        10_000_000_000_000_000_000,
        u64::MAX - 1,
        u64::MAX,
    ] {
        let r = Revision::new(v);
        assert_eq!(Revision::parse(&r.to_string()), Ok(r));
    }
}

#[test]
fn text_is_canonical() {
    for v in [0u64, 5, 10, 100, 1_000_000, u64::MAX] {
        let s = Revision::new(v).to_string();
        assert!(!s.is_empty());
        assert!(s.bytes().all(|b| b.is_ascii_digit()));
        assert!(s.len() == 1 || !s.starts_with('0'));
        assert_eq!(s, format!("{}", v));
    }
}
