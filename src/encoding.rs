//! Facts about the UTF-8 encoding of character sequences, built on
//! `vstd::utf8`, and the spec functions that the string contracts use.
use vstd::prelude::*;
use vstd::utf8::*;

verus! {

broadcast use vstd::utf8::group_utf8_lib;

/// Number of bytes in the encoding of the character whose encoding starts
/// with the leading byte `b`.
pub open spec fn lead_width(b: u8) -> int {
    if b <= 0x7f {
        1
    } else if b <= 0xdf {
        2
    } else if b <= 0xef {
        3
    } else {
        4
    }
}

/// Number of bytes in the UTF-8 encoding of `c`.
pub open spec fn char_width(c: char) -> int {
    encode_scalar(c as u32).len() as int
}

/// How many leading characters of `s` fit, whole, in `room` bytes.
pub open spec fn fit_chars(s: Seq<char>, room: int) -> nat
    decreases s.len(),
{
    if s.len() == 0 || char_width(s[0]) > room {
        0
    } else {
        1 + fit_chars(s.drop_first(), room - char_width(s[0]))
    }
}

/// The longest prefix of `s`, cut between characters, whose encoding fits
/// in `room` bytes.
pub open spec fn fit_prefix(s: Seq<char>, room: int) -> Seq<char> {
    s.take(fit_chars(s, room) as int)
}

/// ASCII lower case of a byte: `A`..=`Z` become `a`..=`z`.
pub open spec fn lower_byte(b: u8) -> u8 {
    if 0x41 <= b <= 0x5a {
        (b + 0x20) as u8
    } else {
        b
    }
}

/// ASCII upper case of a byte: `a`..=`z` become `A`..=`Z`.
pub open spec fn upper_byte(b: u8) -> u8 {
    if 0x61 <= b <= 0x7a {
        (b - 0x20) as u8
    } else {
        b
    }
}

/// ASCII lower case of a character; other characters are kept.
pub open spec fn lower_char(c: char) -> char {
    if 'A' <= c <= 'Z' {
        ((c as u32 + 0x20) as u32) as char
    } else {
        c
    }
}

/// ASCII upper case of a character; other characters are kept.
pub open spec fn upper_char(c: char) -> char {
    if 'a' <= c <= 'z' {
        ((c as u32 - 0x20) as u32) as char
    } else {
        c
    }
}

/// The first `n` characters of `s`, or all of `s` when it has no more.
pub open spec fn keep_chars(s: Seq<char>, n: int) -> Seq<char> {
    if 0 <= n < s.len() {
        s.take(n)
    } else {
        s
    }
}

/// Width of a UTF-8 encoded character, read from its leading byte.
pub fn utf8_width(b: u8) -> (r: usize)
    ensures
        r == lead_width(b),
{
    if b <= 0x7f {
        1
    } else if b <= 0xdf {
        2
    } else if b <= 0xef {
        3
    } else {
        4
    }
}

/// Encoding distributes over concatenation.
pub proof fn lemma_encode_concat(a: Seq<char>, b: Seq<char>)
    ensures
        encode_utf8(a + b) == encode_utf8(a) + encode_utf8(b),
    decreases a.len(),
{
    if a.len() == 0 {
        assert(a + b =~= b);
        assert(encode_utf8(a) + encode_utf8(b) =~= encode_utf8(b));
    } else {
        assert((a + b).drop_first() =~= a.drop_first() + b);
        lemma_encode_concat(a.drop_first(), b);
        assert((a + b)[0] == a[0]);
        assert(encode_utf8(a + b) =~= encode_utf8(a) + encode_utf8(b));
    }
}

/// A single character encodes to its scalar encoding.
pub proof fn lemma_encode_single(c: char)
    ensures
        encode_utf8(seq![c]) == encode_scalar(c as u32),
{
    assert(seq![c].drop_first() =~= Seq::<char>::empty());
    assert(encode_utf8(seq![c]) =~= encode_scalar(c as u32) + encode_utf8(Seq::<char>::empty()));
}

/// Every character encodes to between one and four bytes.
pub proof fn lemma_char_width(c: char)
    ensures
        1 <= char_width(c) <= 4,
{
}

/// Splitting the characters splits their encoding.
pub proof fn lemma_encode_split(s: Seq<char>, j: int)
    requires
        0 <= j <= s.len(),
    ensures
        encode_utf8(s) == encode_utf8(s.take(j)) + encode_utf8(s.skip(j)),
{
    assert(s =~= s.take(j) + s.skip(j));
    lemma_encode_concat(s.take(j), s.skip(j));
}

/// Encoding one more character of a prefix appends that character's bytes.
pub proof fn lemma_encode_take_step(s: Seq<char>, j: int)
    requires
        0 <= j < s.len(),
    ensures
        encode_utf8(s.take(j + 1)) == encode_utf8(s.take(j)) + encode_scalar(s[j] as u32),
{
    assert(s.take(j + 1) =~= s.take(j) + seq![s[j]]);
    lemma_encode_concat(s.take(j), seq![s[j]]);
    lemma_encode_single(s[j]);
}

/// The encoding of a prefix is no longer than the whole encoding, and
/// strictly shorter when characters remain.
pub proof fn lemma_encode_prefix_len(s: Seq<char>, j: int)
    requires
        0 <= j <= s.len(),
    ensures
        encode_utf8(s.take(j)).len() <= encode_utf8(s).len(),
        j < s.len() ==> encode_utf8(s.take(j)).len() < encode_utf8(s).len(),
{
    lemma_encode_split(s, j);
    if j < s.len() {
        assert(s.skip(j)[0] == s[j]);
        lemma_char_width(s[j]);
    }
}

/// The byte at which the `j`-th character starts is a leading byte that
/// gives that character's width.
pub proof fn lemma_lead_width(s: Seq<char>, j: int)
    requires
        0 <= j < s.len(),
    ensures
        encode_utf8(s.take(j)).len() < encode_utf8(s).len(),
        lead_width(encode_utf8(s)[encode_utf8(s.take(j)).len() as int]) == char_width(s[j]),
        encode_utf8(s).subrange(
            encode_utf8(s.take(j)).len() as int,
            encode_utf8(s.take(j)).len() + char_width(s[j]),
        ) == encode_scalar(s[j] as u32),
{
    let t = s.skip(j);
    let p = encode_utf8(s.take(j)).len() as int;
    lemma_encode_split(s, j);
    lemma_encode_prefix_len(s, j);
    assert(t[0] == s[j]);
    encode_utf8_first_scalar(t);
    let e = encode_utf8(t);
    assert(encode_utf8(s)[p] == e[0]);
    assert(encode_utf8(s).subrange(p, p + char_width(s[j])) =~= e.subrange(0, char_width(s[j])));
    assert(e.subrange(0, char_width(s[j])) =~= encode_scalar(s[j] as u32));
}

/// The end of an encoded prefix is a character boundary of the whole encoding.
pub proof fn lemma_prefix_boundary(a: Seq<char>, b: Seq<char>)
    ensures
        is_char_boundary(encode_utf8(a + b), encode_utf8(a).len() as int),
    decreases a.len(),
{
    let bytes = encode_utf8(a + b);
    lemma_encode_concat(a, b);
    if a.len() > 0 {
        let ab = a + b;
        assert(ab[0] == a[0]);
        assert(ab.drop_first() =~= a.drop_first() + b);
        encode_utf8_first_scalar(ab);
        lemma_char_width(a[0]);
        assert(pop_first_scalar(bytes) =~= encode_utf8(a.drop_first() + b));
        lemma_prefix_boundary(a.drop_first(), b);
    }
}

/// A sequence encodes to at least one byte per character.
pub proof fn lemma_encode_len(s: Seq<char>)
    ensures
        s.len() <= encode_utf8(s).len(),
    decreases s.len(),
{
    if s.len() > 0 {
        lemma_encode_len(s.drop_first());
        lemma_char_width(s[0]);
    }
}

/// The bytes of a non-ASCII character are all outside the ASCII range.
proof fn lemma_scalar_high_bytes(v: u32)
    requires
        is_scalar(v),
        v > 0x7f,
    ensures
        forall|k: int| 0 <= k < encode_scalar(v).len() ==> encode_scalar(v)[k] >= 0x80,
{
    assert((0xC0 | ((v >> 6) & 0x1F) as u8) >= 0x80u8) by (bit_vector);
    assert((0xE0 | ((v >> 12) & 0x0F) as u8) >= 0x80u8) by (bit_vector);
    assert((0xF0 | ((v >> 18) & 0x7) as u8) >= 0x80u8) by (bit_vector);
    assert((0x80 | (v & 0x3F) as u8) >= 0x80u8) by (bit_vector);
    assert((0x80 | ((v >> 6) & 0x3F) as u8) >= 0x80u8) by (bit_vector);
    assert((0x80 | ((v >> 12) & 0x3F) as u8) >= 0x80u8) by (bit_vector);
}

/// Lower-casing a character lower-cases the bytes of its encoding.
proof fn lemma_lower_scalar(c: char)
    ensures
        encode_scalar(lower_char(c) as u32) == encode_scalar(c as u32).map_values(
            |b: u8| lower_byte(b),
        ),
{
    let v = c as u32;
    if v <= 0x7f {
        if 'A' <= c <= 'Z' {
            let w = (v + 0x20) as u32;
            assert(lower_char(c) as u32 == w);
            assert(((w & 0x7f) as u8) == (((v & 0x7f) as u8) + 0x20) as u8) by (bit_vector)
                requires
                    0x41 <= v <= 0x5a,
                    w == v + 0x20,
            ;
            assert(((v & 0x7f) as u8) == v as u8) by (bit_vector)
                requires
                    v <= 0x7f,
            ;
        } else {
            assert(((v & 0x7f) as u8) == v as u8) by (bit_vector)
                requires
                    v <= 0x7f,
            ;
        }
        assert(encode_scalar(lower_char(c) as u32) =~= encode_scalar(v).map_values(
            |b: u8| lower_byte(b),
        ));
    } else {
        lemma_scalar_high_bytes(v);
        assert(encode_scalar(lower_char(c) as u32) =~= encode_scalar(v).map_values(
            |b: u8| lower_byte(b),
        ));
    }
}

/// Upper-casing a character upper-cases the bytes of its encoding.
proof fn lemma_upper_scalar(c: char)
    ensures
        encode_scalar(upper_char(c) as u32) == encode_scalar(c as u32).map_values(
            |b: u8| upper_byte(b),
        ),
{
    let v = c as u32;
    if v <= 0x7f {
        if 'a' <= c <= 'z' {
            let w = (v - 0x20) as u32;
            assert(upper_char(c) as u32 == w);
            assert(((w & 0x7f) as u8) == (((v & 0x7f) as u8) - 0x20) as u8) by (bit_vector)
                requires
                    0x61 <= v <= 0x7a,
                    w == v - 0x20,
            ;
            assert(((v & 0x7f) as u8) == v as u8) by (bit_vector)
                requires
                    v <= 0x7f,
            ;
        } else {
            assert(((v & 0x7f) as u8) == v as u8) by (bit_vector)
                requires
                    v <= 0x7f,
            ;
        }
        assert(encode_scalar(upper_char(c) as u32) =~= encode_scalar(v).map_values(
            |b: u8| upper_byte(b),
        ));
    } else {
        lemma_scalar_high_bytes(v);
        assert(encode_scalar(upper_char(c) as u32) =~= encode_scalar(v).map_values(
            |b: u8| upper_byte(b),
        ));
    }
}

/// Lower-casing the characters lower-cases the bytes of the encoding.
pub proof fn lemma_encode_lower(s: Seq<char>)
    ensures
        encode_utf8(s.map_values(|c: char| lower_char(c))) == encode_utf8(s).map_values(
            |b: u8| lower_byte(b),
        ),
    decreases s.len(),
{
    let t = s.map_values(|c: char| lower_char(c));
    if s.len() > 0 {
        assert(t.drop_first() =~= s.drop_first().map_values(|c: char| lower_char(c)));
        lemma_encode_lower(s.drop_first());
        lemma_lower_scalar(s[0]);
        assert(encode_utf8(t) =~= encode_utf8(s).map_values(|b: u8| lower_byte(b)));
    } else {
        assert(encode_utf8(t) =~= encode_utf8(s).map_values(|b: u8| lower_byte(b)));
    }
}

/// Upper-casing the characters upper-cases the bytes of the encoding.
pub proof fn lemma_encode_upper(s: Seq<char>)
    ensures
        encode_utf8(s.map_values(|c: char| upper_char(c))) == encode_utf8(s).map_values(
            |b: u8| upper_byte(b),
        ),
    decreases s.len(),
{
    let t = s.map_values(|c: char| upper_char(c));
    if s.len() > 0 {
        assert(t.drop_first() =~= s.drop_first().map_values(|c: char| upper_char(c)));
        lemma_encode_upper(s.drop_first());
        lemma_upper_scalar(s[0]);
        assert(encode_utf8(t) =~= encode_utf8(s).map_values(|b: u8| upper_byte(b)));
    } else {
        assert(encode_utf8(t) =~= encode_utf8(s).map_values(|b: u8| upper_byte(b)));
    }
}

/// The prefix that fits takes whole characters while they fit.
pub proof fn lemma_fit_step(s: Seq<char>, j: int, room: int)
    requires
        0 <= j < s.len(),
    ensures
        char_width(s[j]) > room ==> fit_chars(s.skip(j), room) == 0,
        char_width(s[j]) <= room ==> fit_chars(s.skip(j), room) == 1 + fit_chars(
            s.skip(j + 1),
            room - char_width(s[j]),
        ),
{
    assert(s.skip(j)[0] == s[j]);
    assert(s.skip(j).drop_first() =~= s.skip(j + 1));
}

/// A sequence whose encoding fits is kept whole.
pub proof fn lemma_fit_all(s: Seq<char>, room: int)
    requires
        encode_utf8(s).len() <= room,
    ensures
        fit_chars(s, room) == s.len(),
        fit_prefix(s, room) == s,
    decreases s.len(),
{
    if s.len() > 0 {
        lemma_encode_split(s, 1);
        lemma_encode_take_step(s, 0);
        assert(s.take(0) =~= Seq::<char>::empty());
        assert(s.skip(1) =~= s.drop_first());
        lemma_fit_all(s.drop_first(), room - char_width(s[0]));
    }
    assert(s.take(s.len() as int) =~= s);
}

} // verus!
