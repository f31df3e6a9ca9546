use core::fmt::Write;
use no_std_strings::{
    str12, str128, str16, str192, str24, str256, str32, str4, str48, str64, str8, str96, tstr,
};

#[test]
fn make_keeps_content_and_length() {
    let s = str16::make("hello");
    assert_eq!(s.len(), 5);
    assert_eq!(s.as_str(), "hello");
    let u = str8::make("aλc");
    assert_eq!(u.len(), 4);
    assert_eq!(u.to_str(), "aλc");
    let e = str4::make("");
    assert_eq!(e.len(), 0);
    let full = str4::make("abc");
    assert_eq!(full.len(), 3);
}

#[test]
fn create_keeps_a_prefix() {
    let s = str8::create("abcdefghij");
    assert_eq!(s, "abcdefg");
    assert_eq!(s.len(), 7);
    // "λ" would straddle the end: it is left out whole
    let t = str4::create("abλ");
    assert_eq!(t, "ab");
    let u = str4::create("aλλ");
    assert_eq!(u, "aλ");
    let v = str8::create("short");
    assert_eq!(v, "short");
}

#[test]
fn try_make_fits_or_hands_back() {
    let ok: Result<str8, &str> = str8::try_make("abcdefg");
    assert_eq!(ok.unwrap(), "abcdefg");
    let err: Result<str8, &str> = str8::try_make("abcdefgh");
    assert_eq!(err.unwrap_err(), "abcdefgh");
}

#[test]
fn new_and_default_are_empty() {
    let s = str32::new();
    assert_eq!(s.len(), 0);
    assert_eq!(s, "");
    assert_eq!(str4::default(), "");
    assert_eq!(str8::default().len(), 0);
    assert_eq!(str12::default().capacity(), 11);
    assert_eq!(str16::default().capacity(), 15);
    assert_eq!(str24::default().capacity(), 23);
    assert_eq!(str32::default().capacity(), 31);
    assert_eq!(str48::default().capacity(), 47);
    assert_eq!(str64::default().capacity(), 63);
    assert_eq!(str96::default().capacity(), 95);
    assert_eq!(str128::default().capacity(), 127);
    assert_eq!(str192::default().capacity(), 191);
    assert_eq!(str256::default().capacity(), 255);
}

#[test]
fn push_overflow_returns_remainder() {
    let mut s = str8::make("abc");
    let rest = s.push("defghij");
    assert_eq!(s.len(), 7);
    assert_eq!(s, "abcdefg");
    assert_eq!(rest, "hij");
}

#[test]
fn push_stops_before_a_character_that_does_not_fit() {
    let mut s = str8::make("abcdef");
    let rest = s.push("λx");
    assert_eq!(s, "abcdef");
    assert_eq!(rest, "λx");
    let mut t = str8::make("abc");
    assert_eq!(t.push_str(""), "");
    assert_eq!(t, "abc");
    assert_eq!(t.push_str("de"), "");
    assert_eq!(t, "abcde");
}

#[test]
fn set_rejects_mismatched_width() {
    let mut s = str8::make("abc");
    assert!(!s.set(0, 'λ'));
    assert_eq!(s, "abc");
    assert!(!s.set(3, 'd'));
    assert_eq!(s, "abc");
}

#[test]
fn set_replaces_same_width() {
    let mut u = str8::make("aλb");
    assert!(u.set(1, 'μ'));
    assert!(!u.set(1, 'c'));
    assert!(u.set(2, 'c'));
    assert_eq!(u, "aμc");
    assert_eq!(u.len(), 4);
    assert_eq!(u.charlen(), 3);
}

#[test]
fn substr_copies_characters() {
    let a = str8::make("abcdef");
    let ab = a.substr(1, 5);
    assert_eq!(ab, "bcde");
    assert_eq!(ab.len(), 4);
    assert_eq!(a.substr(4, 100), "ef");
    assert_eq!(a.substr(6, 8), "");
    assert_eq!(a.substr(3, 3), "");
    let u = str8::make("aλc");
    assert_eq!(u.substr(1, 3), "λc");
    assert_eq!(u.substr(0, 2).len(), 3);
}

#[test]
fn capacity_charlen_push_end_to_end() {
    let mut s = str8::make("aλc");
    assert_eq!(s.capacity(), 7);
    assert_eq!(s.charlen(), 3);
    assert_eq!(s.len(), 4);
    assert_eq!(s.push("1234567"), "4567");
    assert_eq!(s, "aλc123");
    assert_eq!(s.charlen(), 6);
    assert_eq!(s.len(), 7);
}

#[test]
fn truncate_twice_is_truncate_once() {
    let mut a = str16::make("abλdefgh");
    a.truncate(4);
    assert_eq!(a, "abλd");
    let once = a;
    a.truncate(4);
    assert_eq!(a, once);
    a.truncate(10);
    assert_eq!(a, "abλd");
    a.truncate(0);
    assert_eq!(a, "");
}

#[test]
fn truncate_bytes_on_a_boundary() {
    let mut a = str16::make("aλbc");
    a.truncate_bytes(3);
    assert_eq!(a, "aλ");
    a.truncate_bytes(9);
    assert_eq!(a, "aλ");
    a.truncate_bytes(1);
    assert_eq!(a, "a");
}

#[test]
fn clear_empties() {
    let mut a = str8::make("abc");
    a.clear();
    assert_eq!(a, "");
    assert_eq!(a.len(), 0);
    assert_eq!(a.push("xy"), "");
    assert_eq!(a, "xy");
}

#[test]
fn resize_round_trip() {
    let x = str8::make("abcdef");
    let big: str32 = x.resize();
    assert_eq!(big, "abcdef");
    assert_eq!(big.capacity(), 31);
    let back: str8 = big.resize();
    assert_eq!(back, x);
}

#[test]
fn resize_truncates_between_characters() {
    let x = str8::make("aλλλ");
    let small: str4 = x.resize();
    assert_eq!(small, "aλ");
    let y = str16::make("abcdefghij");
    let z: str8 = y.resize();
    assert_eq!(z, "abcdefg");
}

#[test]
fn reallocate_only_when_it_fits() {
    let a = str16::make("abcdefg");
    let b: Option<str8> = a.reallocate();
    assert_eq!(b.unwrap(), "abcdefg");
    let c = str16::make("abcdefgh");
    let d: Option<str8> = c.reallocate();
    assert!(d.is_none());
}

#[test]
fn concatenation_promotes_capacity() {
    let c1 = str8::make("abcd");
    let c2 = str8::make("xyz");
    let c3 = c1 + c2;
    assert_eq!(c3, "abcdxyz");
    assert_eq!(c3.capacity(), 15);
    assert_eq!(c3.len(), 7);
    let f = str8::make("λλλa");
    let g = f + f;
    assert_eq!(g, "λλλaλλλa");
    assert_eq!(g.len(), 14);
}

#[test]
fn concatenation_on_every_rung() {
    assert_eq!(str4::make("abc") + str4::make("def"), "abcdef");
    assert_eq!((str12::make("ab") + str12::make("c")).capacity(), 23);
    assert_eq!((str16::make("ab") + str16::make("c")).capacity(), 31);
    assert_eq!((str24::make("ab") + str24::make("c")).capacity(), 47);
    assert_eq!((str32::make("ab") + str32::make("c")).capacity(), 63);
    assert_eq!((str48::make("ab") + str48::make("c")).capacity(), 95);
    assert_eq!((str64::make("ab") + str64::make("c")).capacity(), 127);
    assert_eq!((str96::make("ab") + str96::make("c")).capacity(), 191);
    let long = "x".repeat(127);
    let a = str128::make(&long);
    let b = a + a;
    assert_eq!(b.len(), 254);
    assert_eq!(b.capacity(), 255);
    assert_eq!(b.as_str(), "x".repeat(254));
}

#[test]
fn ascii_case_conversion() {
    let (upper, lower) = (str8::make("ABC"), str8::make("abc"));
    assert_eq!(upper, lower.to_ascii_upper());
    assert_eq!(lower, upper.to_ascii_lower());
    let mut m = str16::make("aZ λ@[`{");
    m.make_ascii_uppercase();
    assert_eq!(m, "AZ λ@[`{");
    m.make_ascii_lowercase();
    assert_eq!(m, "az λ@[`{");
    let greek = str8::make("λΛ");
    assert_eq!(greek.to_ascii_upper(), "λΛ");
}

#[test]
fn nth_and_bytes() {
    let u = str8::make("aλb");
    assert_eq!(u.nth(1), Some('λ'));
    assert_eq!(u.nth(3), None);
    assert_eq!(u.nth_ascii(3), 'b');
    assert_eq!(u.as_bytes(), "aλb".as_bytes());
    assert!(!u.is_ascii());
    assert!(str8::make("ab").is_ascii());
}

#[test]
fn equality_with_str_both_ways() {
    let a = str8::make("abc");
    assert!(a == "abc");
    assert!("abc" == a);
    assert!(a != "abd");
    assert!("ab" != a);
    let mut b = str8::make("abcdef");
    b.truncate(3);
    // stale bytes past the content do not count
    assert_eq!(a, b);
}

#[test]
fn byte_lexicographic_order() {
    let a = str8::make("abcdef");
    let ab = a.substr(1, 5);
    assert!(a < ab);
    assert!(str8::make("ab") < str8::make("abc"));
    assert!(str8::make("b") > str8::make("abc"));
    assert!(str8::make("z") < str8::make("λ"));
    assert!(str8::make("abc") <= str8::make("abc"));
}

#[test]
fn generic_type_is_usable() {
    let s: tstr<8> = tstr::make("ok");
    let t: str8 = s;
    assert_eq!(t, "ok");
}

#[test]
fn write_str_appends_whole_or_fails() {
    let mut s = str8::new();
    assert!(s.write_str("abc").is_ok());
    assert!(s.write_str("defg").is_ok());
    assert_eq!(s, "abcdefg");
    assert!(s.write_str("h").is_err());
    assert_eq!(s, "abcdefg");
    let mut t = str8::make("abcdef");
    assert!(t.write_str("λ").is_err());
    assert_eq!(t, "abcdef");
}

#[test]
fn deref_and_as_ref_view_the_content() {
    let a = str8::make("abcdef");
    assert_eq!(&a[..3], "abc");
    assert_eq!(&a[2..4], "cd");
    let r: &str = a.as_ref();
    assert_eq!(r, "abcdef");
    assert_eq!(a.chars().count(), 6);
    let u = str8::make("aλc");
    assert_eq!(u.to_str(), "aλc");
    assert_eq!(&u[1..3], "λ");
}
