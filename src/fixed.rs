//! The length-prefixed fixed-capacity string.
use vstd::prelude::*;
use vstd::slice::slice_subrange;
use vstd::string::{StrSliceExecFns, StringSliceAdditionalSpecFns};
use vstd::utf8::*;
use crate::encoding::{
    char_width, fit_chars, fit_prefix, keep_chars, lemma_encode_concat, lemma_encode_len,
    lemma_encode_lower, lemma_encode_prefix_len, lemma_encode_single, lemma_encode_split,
    lemma_encode_take_step, lemma_encode_upper, lemma_fit_all, lemma_fit_step, lemma_lead_width,
    lemma_prefix_boundary, lower_byte, lower_char, upper_byte, upper_char, utf8_width,
};

verus! {

broadcast use {encode_utf8_valid_utf8, encode_utf8_decode_utf8, decode_utf8_encode_utf8};

/// Overwrites `count` bytes of `dst` from position `at` with the bytes of
/// `src` from position `from`.
fn copy_bytes<const M: usize>(dst: &mut [u8; M], at: usize, src: &[u8], from: usize, count: usize)
    requires
        at + count <= M,
        from + count <= src@.len(),
    ensures
        final(dst)@ == old(dst)@.take(at as int) + src@.subrange(from as int, from + count)
            + old(dst)@.skip(at + count),
{
    let mut q: usize = 0;
    while q < count
        invariant
            q <= count,
            at + count <= M,
            from + count <= src.len(),
            dst@.len() == M,
            dst@ == old(dst)@.take(at as int) + src@.subrange(from as int, from + q) + old(
                dst,
            )@.skip(at + q),
        decreases count - q,
    {
        dst[at + q] = src[from + q];
        q = q + 1;
        assert(dst@ =~= old(dst)@.take(at as int) + src@.subrange(from as int, from + q) + old(
            dst,
        )@.skip(at + q));
    }
}

/// The UTF-8 encoding of `c`: the bytes, of which the first `r.1` count.
fn encode_char(c: char) -> (r: ([u8; 4], usize))
    ensures
        r.1 == char_width(c),
        r.0@.take(r.1 as int) == encode_scalar(c as u32),
{
    let v = c as u32;
    let mut buf = [0u8; 4];
    if v <= 0x7f {
        buf[0] = (v & 0x7f) as u8;
        assert(buf@.take(1) =~= encode_scalar(v));
        (buf, 1)
    } else if v <= 0x7ff {
        buf[0] = 0xc0 | ((v >> 6) & 0x1f) as u8;
        buf[1] = 0x80 | (v & 0x3f) as u8;
        assert(buf@.take(2) =~= encode_scalar(v));
        (buf, 2)
    } else if v <= 0xffff {
        buf[0] = 0xe0 | ((v >> 12) & 0x0f) as u8;
        buf[1] = 0x80 | ((v >> 6) & 0x3f) as u8;
        buf[2] = 0x80 | (v & 0x3f) as u8;
        assert(buf@.take(3) =~= encode_scalar(v));
        (buf, 3)
    } else {
        buf[0] = 0xf0 | ((v >> 18) & 0x07) as u8;
        buf[1] = 0x80 | ((v >> 12) & 0x3f) as u8;
        buf[2] = 0x80 | ((v >> 6) & 0x3f) as u8;
        buf[3] = 0x80 | (v & 0x3f) as u8;
        assert(buf@.take(4) =~= encode_scalar(v));
        (buf, 4)
    }
}

/// Relies on `core::str::from_utf8`: it accepts exactly the byte sequences
/// that are valid UTF-8, and views them as a string.
#[verifier::external_body]
fn str_from_utf8<'a>(b: &'a [u8]) -> (r: Option<&'a str>)
    ensures
        match r {
            Some(s) => s.spec_bytes() == b@,
            None => !valid_utf8(b@),
        },
{
    core::str::from_utf8(b).ok()
}

/// Finds how many leading characters of the encoded `s` fit in `room`
/// bytes: returns the byte length and the character count of that prefix.
fn fit_cut(b: &[u8], room: usize, Ghost(s): Ghost<Seq<char>>) -> (r: (usize, usize))
    requires
        b@ == encode_utf8(s),
    ensures
        r.1 == fit_chars(s, room as int),
        r.1 <= s.len(),
        r.0 == encode_utf8(s.take(r.1 as int)).len(),
        r.0 <= room,
{
    let mut p: usize = 0;
    let mut j: usize = 0;
    let mut full = false;
    assert(s.take(0) =~= Seq::<char>::empty());
    assert(s.skip(0) =~= s);
    proof {
        lemma_encode_len(s);
    }
    while !full && p < b.len()
        invariant
            b@ == encode_utf8(s),
            j <= s.len(),
            s.len() <= b.len(),
            p == encode_utf8(s.take(j as int)).len(),
            p <= room,
            p <= b.len(),
            full ==> fit_chars(s, room as int) == j,
            !full ==> fit_chars(s, room as int) == j + fit_chars(s.skip(j as int), room - p),
        decreases b.len() - p + (if full { 0int } else { 1int }),
    {
        assert(j < s.len()) by {
            if j == s.len() {
                assert(s.take(j as int) =~= s);
            }
        }
        proof {
            lemma_lead_width(s, j as int);
            lemma_fit_step(s, j as int, room - p);
        }
        let w = utf8_width(b[p]);
        if w > room - p {
            full = true;
        } else {
            proof {
                lemma_encode_take_step(s, j as int);
                lemma_encode_prefix_len(s, j + 1);
            }
            p = p + w;
            j = j + 1;
        }
    }
    if !full {
        proof {
            lemma_encode_prefix_len(s, j as int);
            assert(s.skip(j as int) =~= Seq::<char>::empty());
        }
    }
    (p, j)
}

/// A string of at most `N - 1` bytes held in an array of `N` bytes: the
/// first byte is the length, the next ones the UTF-8 content.  Bytes past
/// the content are unspecified.
#[derive(Copy, Clone, Debug)]
pub struct tstr<const N: usize> {
    chrs: [u8; N],
}

impl<const N: usize> tstr<N> {
    #[verifier::type_invariant]
    spec fn inv(self) -> bool {
        &&& 1 <= N <= 256
        &&& (self.chrs@[0] as int) < N
        &&& valid_utf8(self.content())
    }

    /// The content bytes: the `len` bytes after the length byte.
    spec fn content(self) -> Seq<u8> {
        self.chrs@.subrange(1, self.chrs@[0] as int + 1)
    }

    /// The content bytes are the encoding of the view.
    proof fn lemma_content(self)
        requires
            self.inv(),
        ensures
            encode_utf8(self@) == self.content(),
            self.content().len() < N,
    {
    }

    /// Creates an empty string.
    pub fn new() -> (r: tstr<N>)
        requires
            1 <= N <= 256,
        ensures
            r@ == Seq::<char>::empty(),
    {
        let chars = [0u8; N];
        let r = tstr { chrs: chars };
        assert(r.content() =~= Seq::<u8>::empty());
        r
    }

    /// Creates a string holding `s`, which must fit.
    pub fn make(s: &str) -> (r: tstr<N>)
        requires
            1 <= N <= 256,
            encode_utf8(s@).len() < N,
        ensures
            r@ == s@,
    {
        let b = s.as_bytes();
        let n = b.len();
        let mut buf = [0u8; N];
        copy_bytes(&mut buf, 1, b, 0, n);
        buf[0] = n as u8;
        assert(buf@.subrange(1, n + 1) =~= b@);
        tstr { chrs: buf }
    }

    /// Creates a string holding the longest prefix of `s`, cut between
    /// characters, that fits.  A character that would straddle the end is
    /// left out whole, so the content stays valid UTF-8.
    pub fn create(s: &str) -> (r: tstr<N>)
        requires
            1 <= N <= 256,
        ensures
            r@ == fit_prefix(s@, N - 1),
            r@.is_prefix_of(s@),
    {
        let mut t = Self::new();
        t.push(s);
        assert(Seq::<char>::empty() + fit_prefix(s@, N - 1) =~= fit_prefix(s@, N - 1));
        t
    }

    /// Creates a string holding `s`, or hands `s` back when it does not fit.
    pub fn try_make(s: &str) -> (r: Result<tstr<N>, &str>)
        requires
            1 <= N <= 256,
        ensures
            match r {
                Ok(t) => encode_utf8(s@).len() < N && t@ == s@,
                Err(e) => encode_utf8(s@).len() >= N && e == s,
            },
    {
        if s.as_bytes().len() > N - 1 {
            Err(s)
        } else {
            Ok(tstr::make(s))
        }
    }

    /// Appends the longest prefix of `s`, cut between characters, that fits
    /// in the room left, and returns the rest of `s`.
    pub fn push<'t>(&mut self, s: &'t str) -> (r: &'t str)
        ensures
            final(self)@ == old(self)@ + fit_prefix(s@, N - 1 - encode_utf8(old(self)@).len()),
            r@ == s@.skip(fit_chars(s@, N - 1 - encode_utf8(old(self)@).len()) as int),
            old(self)@ + s@ == final(self)@ + r@,
    {
        proof {
            use_type_invariant(&*self);
        }
        let ghost v = self@;
        proof {
            self.lemma_content();
        }
        let len = self.chrs[0] as usize;
        let b = s.as_bytes();
        let (cut, k) = fit_cut(b, N - 1 - len, Ghost(s@));
        let ghost head = s@.take(k as int);
        let ghost tail = s@.skip(k as int);
        proof {
            lemma_encode_prefix_len(s@, k as int);
            lemma_encode_split(s@, k as int);
            assert(head + tail =~= s@);
            lemma_prefix_boundary(head, tail);
        }
        let mut buf = self.chrs;
        copy_bytes(&mut buf, len + 1, b, 0, cut);
        buf[0] = (len + cut) as u8;
        proof {
            assert(b@.take(cut as int) =~= encode_utf8(head));
            assert(buf@.subrange(1, len + cut + 1) =~= self.content() + b@.take(cut as int));
            lemma_encode_concat(v, head);
            assert(buf@.subrange(1, buf@[0] as int + 1) == encode_utf8(v + head));
        }
        self.chrs = buf;
        assert(self@ == v + head);
        let (_, rest) = s.split_at(cut);
        proof {
            assert(rest.spec_bytes() =~= encode_utf8(tail));
            assert(decode_utf8(encode_utf8(rest@)) == rest@);
            assert(decode_utf8(encode_utf8(tail)) == tail);
            assert(v + s@ =~= self@ + rest@);
        }
        rest
    }

    /// Same as [`Self::push`].
    pub fn push_str<'t>(&mut self, s: &'t str) -> (r: &'t str)
        ensures
            final(self)@ == old(self)@ + fit_prefix(s@, N - 1 - encode_utf8(old(self)@).len()),
            r@ == s@.skip(fit_chars(s@, N - 1 - encode_utf8(old(self)@).len()) as int),
            old(self)@ + s@ == final(self)@ + r@,
    {
        self.push(s)
    }

    /// The byte offset at which character `k` starts, with `k` clamped to
    /// the number of characters: returns the offset and the clamped `k`.
    fn char_offset(&self, k: usize) -> (r: (usize, usize))
        ensures
            r.1 == if k < self@.len() { k as int } else { self@.len() as int },
            r.0 == encode_utf8(self@.take(r.1 as int)).len(),
            r.0 <= encode_utf8(self@).len(),
            r.0 == encode_utf8(self@).len() <==> k >= self@.len(),
    {
        proof {
            use_type_invariant(self);
            self.lemma_content();
            lemma_encode_len(self@);
        }
        let ghost v = self@;
        let len = self.chrs[0] as usize;
        let mut p: usize = 0;
        let mut j: usize = 0;
        assert(v.take(0) =~= Seq::<char>::empty());
        while p < len && j < k
            invariant
                len == encode_utf8(v).len(),
                len == self.chrs@[0],
                encode_utf8(v) == self.content(),
                v.len() <= len,
                len < N,
                j <= k,
                j <= v.len(),
                p <= len,
                p == encode_utf8(v.take(j as int)).len(),
            decreases len - p,
        {
            assert(j < v.len()) by {
                if j == v.len() {
                    assert(v.take(j as int) =~= v);
                }
            }
            proof {
                lemma_lead_width(v, j as int);
                lemma_encode_take_step(v, j as int);
                lemma_encode_prefix_len(v, j + 1);
            }
            assert(self.chrs@[1 + p as int] == encode_utf8(v)[p as int]);
            let w = utf8_width(self.chrs[1 + p]);
            p = p + w;
            j = j + 1;
        }
        proof {
            lemma_encode_prefix_len(v, j as int);
            if p == len && j < v.len() {
                assert(false);
            }
            if j == v.len() {
                assert(v.take(j as int) =~= v);
            }
        }
        (p, j)
    }

    /// The number of characters in the string.
    pub fn charlen(&self) -> (r: usize)
        ensures
            r == self@.len(),
    {
        let (_, j) = self.char_offset(N);
        proof {
            use_type_invariant(self);
            self.lemma_content();
            lemma_encode_len(self@);
        }
        j
    }

    /// Keeps the first `n` characters; does nothing when there are no more
    /// than `n`.
    pub fn truncate(&mut self, n: usize)
        ensures
            final(self)@ == keep_chars(old(self)@, n as int),
    {
        proof {
            use_type_invariant(&*self);
            self.lemma_content();
        }
        let ghost v = self@;
        let (p, _) = self.char_offset(n);
        if p < self.chrs[0] as usize {
            let mut buf = self.chrs;
            buf[0] = p as u8;
            proof {
                lemma_encode_split(v, n as int);
                assert(buf@.subrange(1, p + 1) =~= self.content().take(p as int));
                assert(self.content().take(p as int) =~= encode_utf8(v.take(n as int)));
            }
            self.chrs = buf;
        }
    }

    /// Keeps the first `n` bytes; does nothing when there are no more than
    /// `n`.  `n` must fall between two characters.
    pub fn truncate_bytes(&mut self, n: usize)
        requires
            n >= encode_utf8(old(self)@).len() || is_char_boundary(
                encode_utf8(old(self)@),
                n as int,
            ),
        ensures
            final(self)@ == if n < encode_utf8(old(self)@).len() {
                decode_utf8(encode_utf8(old(self)@).take(n as int))
            } else {
                old(self)@
            },
    {
        proof {
            use_type_invariant(&*self);
            self.lemma_content();
        }
        if n < self.chrs[0] as usize {
            let mut buf = self.chrs;
            buf[0] = n as u8;
            proof {
                valid_utf8_split(self.content(), n as int);
                assert(buf@.subrange(1, n + 1) =~= self.content().subrange(0, n as int));
                assert(self.content().take(n as int) =~= self.content().subrange(0, n as int));
            }
            self.chrs = buf;
        }
    }

    /// Empties the string.
    pub fn clear(&mut self)
        ensures
            final(self)@ == Seq::<char>::empty(),
    {
        proof {
            use_type_invariant(&*self);
        }
        let mut buf = self.chrs;
        buf[0] = 0;
        assert(buf@.subrange(1, 1) =~= Seq::<u8>::empty());
        self.chrs = buf;
    }

    /// Replaces character `i` by `c` when both encode to the same number of
    /// bytes; reports whether it did.
    pub fn set(&mut self, i: usize, c: char) -> (r: bool)
        ensures
            r == (i < old(self)@.len() && char_width(c) == char_width(old(self)@[i as int])),
            final(self)@ == if r { old(self)@.update(i as int, c) } else { old(self)@ },
    {
        proof {
            use_type_invariant(&*self);
            self.lemma_content();
        }
        let ghost v = self@;
        let (p, _) = self.char_offset(i);
        if p >= self.chrs[0] as usize {
            return false;
        }
        proof {
            lemma_lead_width(v, i as int);
            lemma_encode_take_step(v, i as int);
            lemma_encode_prefix_len(v, i + 1);
            assert(self.chrs@[1 + p as int] == encode_utf8(v)[p as int]);
        }
        let w = utf8_width(self.chrs[1 + p]);
        let (cb, cw) = encode_char(c);
        if cw != w {
            return false;
        }
        let mut buf = self.chrs;
        copy_bytes(&mut buf, 1 + p, cb.as_slice(), 0, cw);
        proof {
            let u = v.update(i as int, c);
            let pre = v.take(i as int);
            let post = v.skip(i + 1);
            let e = encode_utf8(v);
            assert(u =~= pre + seq![c] + post);
            assert(v =~= pre + seq![v[i as int]] + post);
            lemma_encode_concat(pre + seq![c], post);
            lemma_encode_concat(pre, seq![c]);
            lemma_encode_concat(pre + seq![v[i as int]], post);
            lemma_encode_concat(pre, seq![v[i as int]]);
            lemma_encode_single(c);
            lemma_encode_single(v[i as int]);
            assert(e.take(p as int) =~= encode_utf8(pre));
            assert(e.skip(p + w) =~= encode_utf8(post));
            assert(buf@.subrange(1, buf@[0] as int + 1) =~= e.take(p as int) + encode_scalar(
                c as u32,
            ) + e.skip(p + w));
            assert(encode_utf8(u) =~= encode_utf8(pre) + encode_scalar(c as u32) + encode_utf8(
                post,
            ));
        }
        self.chrs = buf;
        true
    }

    /// Copies out characters `start` up to, not including, `end`; `end` is
    /// clamped to the number of characters, and the copy is empty when
    /// `start` is past the last character or `end <= start`.
    pub fn substr(&self, start: usize, end: usize) -> (r: tstr<N>)
        ensures
            r@ == if start < self@.len() && start < end {
                self@.subrange(start as int, if end < self@.len() { end as int } else { self@.len() as int })
            } else {
                Seq::<char>::empty()
            },
    {
        proof {
            use_type_invariant(self);
            self.lemma_content();
        }
        let ghost v = self@;
        let (ps, _) = self.char_offset(start);
        if ps >= self.chrs[0] as usize || end <= start {
            return Self::new();
        }
        let (pe, je) = self.char_offset(end);
        let mut buf = [0u8; N];
        proof {
            let a = v.take(start as int);
            let m = v.subrange(start as int, je as int);
            assert(v.take(je as int) =~= a + m);
            lemma_encode_concat(a, m);
            lemma_encode_prefix_len(v, je as int);
        }
        copy_bytes(&mut buf, 1, self.chrs.as_slice(), 1 + ps, pe - ps);
        buf[0] = (pe - ps) as u8;
        proof {
            let m = v.subrange(start as int, je as int);
            lemma_encode_split(v, je as int);
            assert(buf@.subrange(1, buf@[0] as int + 1) =~= self.content().subrange(
                ps as int,
                pe as int,
            ));
            assert(self.content().subrange(ps as int, pe as int) =~= encode_utf8(
                v.take(je as int),
            ).subrange(ps as int, pe as int));
            assert(encode_utf8(v.take(je as int)).subrange(ps as int, pe as int) =~= encode_utf8(
                m,
            ));
        }
        tstr { chrs: buf }
    }

    /// The content bytes.
    pub fn as_bytes(&self) -> (r: &[u8])
        ensures
            r@ == encode_utf8(self@),
    {
        proof {
            use_type_invariant(self);
            self.lemma_content();
        }
        let len = self.chrs[0] as usize;
        slice_subrange(self.chrs.as_slice(), 1, len + 1)
    }

    /// The content as a string slice, checked to be UTF-8.
    pub fn as_str(&self) -> (r: &str)
        ensures
            r@ == self@,
    {
        proof {
            use_type_invariant(self);
        }
        let len = self.chrs[0] as usize;
        match str_from_utf8(slice_subrange(self.chrs.as_slice(), 1, len + 1)) {
            Some(s) => {
                assert(decode_utf8(encode_utf8(s@)) == s@);
                s
            },
            None => {
                assert(false);
                ""
            },
        }
    }

    /// The content as a string slice.
    pub fn to_str(&self) -> (r: &str)
        ensures
            r@ == self@,
    {
        self.as_str()
    }

    /// Character `n`, if there is one.
    pub fn nth(&self, n: usize) -> (r: Option<char>)
        ensures
            r == if n < self@.len() { Some(self@[n as int]) } else { None::<char> },
    {
        if n < self.charlen() {
            Some(self.as_str().get_char(n))
        } else {
            None
        }
    }

    /// Byte `n` of the content, read as a character.  Meant for ASCII
    /// strings; bytes past the content are unspecified.
    pub fn nth_ascii(&self, n: usize) -> (r: char)
        requires
            n + 1 < N,
        ensures
            n < encode_utf8(self@).len() ==> r == (encode_utf8(self@)[n as int] as char),
    {
        proof {
            use_type_invariant(self);
            self.lemma_content();
        }
        self.chrs[n + 1] as char
    }

    /// Whether every character is ASCII.
    pub fn is_ascii(&self) -> (r: bool)
        ensures
            r == is_ascii_chars(self@),
    {
        self.as_str().is_ascii()
    }

    /// Lower-cases the ASCII letters in place.
    pub fn make_ascii_lowercase(&mut self)
        ensures
            final(self)@ == old(self)@.map_values(|c: char| lower_char(c)),
    {
        proof {
            use_type_invariant(&*self);
            self.lemma_content();
            lemma_encode_lower(self@);
        }
        let len = self.chrs[0] as usize;
        let mut buf = self.chrs;
        let mut i: usize = 1;
        while i <= len
            invariant
                1 <= i <= len + 1,
                len < N,
                len == self.chrs@[0],
                buf@.len() == N,
                buf@[0] == self.chrs@[0],
                forall|k: int| 1 <= k < i ==> buf@[k] == lower_byte(#[trigger] self.chrs@[k]),
                forall|k: int| i <= k < N ==> buf@[k] == #[trigger] self.chrs@[k],
            decreases len + 1 - i,
        {
            let b = buf[i];
            if b >= 65 && b <= 90 {
                assert(b | 32 == b + 32) by (bit_vector)
                    requires
                        65 <= b <= 90,
                ;
                buf[i] = b | 32;
            }
            i = i + 1;
        }
        proof {
            assert(buf@.subrange(1, len + 1) =~= self.content().map_values(|b: u8| lower_byte(b)));
        }
        self.chrs = buf;
    }

    /// Upper-cases the ASCII letters in place.
    pub fn make_ascii_uppercase(&mut self)
        ensures
            final(self)@ == old(self)@.map_values(|c: char| upper_char(c)),
    {
        proof {
            use_type_invariant(&*self);
            self.lemma_content();
            lemma_encode_upper(self@);
        }
        let len = self.chrs[0] as usize;
        let mut buf = self.chrs;
        let mut i: usize = 1;
        while i <= len
            invariant
                1 <= i <= len + 1,
                len < N,
                len == self.chrs@[0],
                buf@.len() == N,
                buf@[0] == self.chrs@[0],
                forall|k: int| 1 <= k < i ==> buf@[k] == upper_byte(#[trigger] self.chrs@[k]),
                forall|k: int| i <= k < N ==> buf@[k] == #[trigger] self.chrs@[k],
            decreases len + 1 - i,
        {
            let b = buf[i];
            if b >= 97 && b <= 122 {
                buf[i] = b - 32;
            }
            i = i + 1;
        }
        proof {
            assert(buf@.subrange(1, len + 1) =~= self.content().map_values(|b: u8| upper_byte(b)));
        }
        self.chrs = buf;
    }

    /// A copy with the ASCII letters upper-cased.
    pub fn to_ascii_upper(&self) -> (r: Self)
        ensures
            r@ == self@.map_values(|c: char| upper_char(c)),
    {
        let mut cp = *self;
        cp.make_ascii_uppercase();
        cp
    }

    /// A copy with the ASCII letters lower-cased.
    pub fn to_ascii_lower(&self) -> (r: Self)
        ensures
            r@ == self@.map_values(|c: char| lower_char(c)),
    {
        let mut cp = *self;
        cp.make_ascii_lowercase();
        cp
    }

    /// A copy in a string of another capacity, holding the longest prefix,
    /// cut between characters, that fits there.  A character that would
    /// straddle the end is left out whole.
    pub fn resize<const M: usize>(&self) -> (r: tstr<M>)
        requires
            1 <= M <= 256,
        ensures
            r@ == fit_prefix(self@, M - 1),
    {
        proof {
            use_type_invariant(self);
            self.lemma_content();
        }
        let ghost v = self@;
        let len = self.chrs[0] as usize;
        let src = slice_subrange(self.chrs.as_slice(), 1, len + 1);
        let (cut, k) = fit_cut(src, M - 1, Ghost(v));
        proof {
            lemma_encode_prefix_len(v, k as int);
            lemma_encode_split(v, k as int);
        }
        let mut buf = [0u8; M];
        copy_bytes(&mut buf, 1, src, 0, cut);
        buf[0] = cut as u8;
        proof {
            assert(buf@.subrange(1, cut + 1) =~= encode_utf8(v.take(k as int)));
        }
        tstr { chrs: buf }
    }

    /// A copy in a string of another capacity, if the content fits there
    /// whole.
    pub fn reallocate<const M: usize>(&self) -> (r: Option<tstr<M>>)
        requires
            1 <= M <= 256,
        ensures
            match r {
                Some(t) => encode_utf8(self@).len() < M && t@ == self@,
                None => encode_utf8(self@).len() >= M,
            },
    {
        if self.len() < M {
            proof {
                lemma_fit_all(self@, M - 1);
            }
            Some(self.resize())
        } else {
            None
        }
    }

    /// The two strings one after the other, in a string of twice the
    /// capacity, which always has room for both.
    pub fn concat<const M: usize>(&self, other: &tstr<N>) -> (r: tstr<M>)
        requires
            M == 2 * N,
            M <= 256,
        ensures
            r@ == self@ + other@,
            encode_utf8(r@).len() == encode_utf8(self@).len() + encode_utf8(other@).len(),
    {
        proof {
            use_type_invariant(self);
            use_type_invariant(other);
            self.lemma_content();
            other.lemma_content();
            lemma_encode_concat(self@, other@);
        }
        let a = self.chrs[0] as usize;
        let b = other.chrs[0] as usize;
        let mut buf = [0u8; M];
        copy_bytes(&mut buf, 1, self.chrs.as_slice(), 1, a);
        copy_bytes(&mut buf, 1 + a, other.chrs.as_slice(), 1, b);
        buf[0] = (a + b) as u8;
        proof {
            assert(buf@.subrange(1, a + b + 1) =~= self.content() + other.content());
        }
        tstr { chrs: buf }
    }

    /// The length of the string in bytes.
    pub fn len(&self) -> (r: usize)
        ensures
            r == encode_utf8(self@).len(),
            r < N <= 256,
    {
        proof { use_type_invariant(self); }
        self.chrs[0] as usize
    }

    /// The largest number of bytes the string can hold.
    pub fn capacity(&self) -> (r: usize)
        ensures
            r == N - 1,
    {
        proof { use_type_invariant(self); }
        N - 1
    }
}

/// The error of `core::fmt::Write`, carried through as it is.
#[verifier::external_type_specification]
#[verifier::external_body]
pub struct ExFmtError(core::fmt::Error);

/// Relies on `Default` for `core::fmt::Error`, a unit value: nothing to state.
pub assume_specification[ <core::fmt::Error as core::default::Default>::default ]() -> core::fmt::Error;

impl<const N: usize> core::fmt::Write for tstr<N> {
    /// Appends `s` whole, or fails and leaves the string as it was when `s`
    /// does not fit.
    fn write_str(&mut self, s: &str) -> (r: core::fmt::Result)
        ensures
            r is Ok <==> encode_utf8(old(self)@).len() + encode_utf8(s@).len() < N,
            final(self)@ == if r is Ok { old(self)@ + s@ } else { old(self)@ },
    {
        proof {
            use_type_invariant(&*self);
        }
        if s.as_bytes().len() > N - 1 - self.len() {
            return Err(core::fmt::Error::default());
        }
        proof {
            lemma_fit_all(s@, N - 1 - encode_utf8(self@).len());
        }
        self.push(s);
        Ok(())
    }
}

impl<const N: usize> core::convert::AsRef<str> for tstr<N> {
    fn as_ref(&self) -> (r: &str)
        ensures
            r@ == self@,
    {
        self.as_str()
    }
}

impl<const N: usize> core::ops::Deref for tstr<N> {
    type Target = str;

    fn deref(&self) -> (r: &str)
        ensures
            r@ == self@,
    {
        self.as_str()
    }
}

impl<const N: usize> View for tstr<N> {
    type V = Seq<char>;

    /// The characters of the string.
    closed spec fn view(&self) -> Seq<char> {
        decode_utf8(self.content())
    }
}

} // verus!
