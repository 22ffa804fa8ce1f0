//! Permissive decoding of the modified UTF-8 text held by constant-pool entries.
//!
//! The format's text entries are a JVM-specific UTF-8 variant: one-, two- and
//! three-byte sequences encode scalars up to U+FFFF, and the encoding is not
//! guaranteed to be well-formed UTF-8 (NUL is written as an overlong pair,
//! supplementary characters as two surrogate triples). The decoder is therefore
//! deliberately lenient: a well-formed sequence yields the scalar it encodes,
//! overlong encodings are accepted as the scalar they spell, and a surrogate
//! code point or an ill-formed byte is mapped to U+FFFD instead of failing.

use vstd::prelude::*;

verus! {

/// The character standing in for a surrogate code point or an ill-formed byte.
pub const REPLACEMENT: char = '\u{fffd}';

/// Whether `b` has the continuation-byte shape `10xxxxxx`.
pub open spec fn is_continuation(b: u8) -> bool {
    0x80 <= b < 0xC0
}

/// The code point spelled by a two-byte sequence `110xxxxx 10xxxxxx`.
pub open spec fn code_point_2(b0: u8, b1: u8) -> u32 {
    (((b0 as int - 0xC0) * 0x40) + (b1 as int - 0x80)) as u32
}

/// The code point spelled by a three-byte sequence `1110xxxx 10xxxxxx 10xxxxxx`.
pub open spec fn code_point_3(b0: u8, b1: u8, b2: u8) -> u32 {
    (((b0 as int - 0xE0) * 0x1000) + ((b1 as int - 0x80) * 0x40) + (b2 as int - 0x80)) as u32
}

/// The character a decoded code point becomes: itself when it is a Unicode
/// scalar value, U+FFFD when it falls in the surrogate range.
pub open spec fn scalar_char(cp: u32) -> char {
    if cp < 0xD800 || (0xE000 <= cp && cp <= 0x10FFFF) {
        cp as char
    } else {
        REPLACEMENT
    }
}

/// The character decoded at the front of `b`, and how many bytes it consumed.
pub open spec fn decode_front(b: Seq<u8>) -> (char, int)
    recommends
        b.len() > 0,
{
    let b0 = b[0];
    if b0 < 0x80 {
        (b0 as char, 1)
    } else if 0xC0 <= b0 < 0xE0 && b.len() >= 2 && is_continuation(b[1]) {
        (scalar_char(code_point_2(b0, b[1])), 2)
    } else if 0xE0 <= b0 < 0xF0 && b.len() >= 3 && is_continuation(b[1]) && is_continuation(b[2]) {
        (scalar_char(code_point_3(b0, b[1], b[2])), 3)
    } else {
        (REPLACEMENT, 1)
    }
}

/// The text a modified-UTF-8 byte run decodes to, permissively: this function is
/// total, every byte run decodes to some text.
pub open spec fn mutf8_decode(b: Seq<u8>) -> Seq<char>
    decreases b.len(),
{
    if b.len() == 0 {
        Seq::empty()
    } else {
        let (c, w) = decode_front(b);
        seq![c] + mutf8_decode(b.skip(w))
    }
}

/// Relies on char::from_u32 of std: it returns `Some` exactly for Unicode scalar
/// values (code points outside the surrogate range and at most U+10FFFF), and
/// the returned character is that code point.
pub assume_specification[ char::from_u32 ](i: u32) -> (r: Option<char>)
    ensures
        r is Some <==> (i < 0xD800 || (0xE000 <= i && i <= 0x10FFFF)),
        r matches Some(c) ==> c as u32 == i,
;

/// Relies on String::push of std: it appends exactly the given character.
pub assume_specification[ std::string::String::push ](s: &mut String, ch: char)
    ensures
        final(s)@ == old(s)@.push(ch),
;

/// Decodes a modified-UTF-8 byte run into text, permissively.
pub fn decode_mutf8(bytes: &Vec<u8>) -> (r: String)
    ensures
        r@ == mutf8_decode(bytes@),
{
    broadcast use vstd::utf8::char_u32_cast;

    let n = bytes.len();
    let mut s = String::new();
    let mut i: usize = 0;
    proof {
        assert(bytes@.skip(0) =~= bytes@);
        assert(s@ + mutf8_decode(bytes@) =~= mutf8_decode(bytes@));
    }
    while i < n
        invariant
            i <= n,
            n == bytes@.len(),
            s@ + mutf8_decode(bytes@.skip(i as int)) == mutf8_decode(bytes@),
        decreases n - i,
    {
        let ghost suffix = bytes@.skip(i as int);
        let ghost prev = s@;
        let b0 = bytes[i];
        let w: usize;
        if b0 < 0x80 {
            s.push(b0 as char);
            w = 1;
            proof {
                assert(decode_front(suffix) == (((b0 as char), 1int)));
            }
        } else if 0xC0 <= b0 && b0 < 0xE0 && n - i > 1 && 0x80 <= bytes[i + 1] && bytes[i + 1]
            < 0xC0 {
            let b1 = bytes[i + 1];
            let cp: u32 = ((b0 - 0xC0) as u32) * 0x40 + ((b1 - 0x80) as u32);
            let c = char::from_u32(cp).unwrap();
            s.push(c);
            w = 2;
            proof {
                vstd::utf8::char_u32_cast(c, cp);
                assert(cp == code_point_2(b0, b1));
                assert(decode_front(suffix) == ((scalar_char(cp), 2int)));
                assert(s@ == prev.push(scalar_char(cp)));
            }
        } else if 0xE0 <= b0 && b0 < 0xF0 && n - i > 2 && 0x80 <= bytes[i + 1] && bytes[i + 1]
            < 0xC0 && 0x80 <= bytes[i + 2] && bytes[i + 2] < 0xC0 {
            let b1 = bytes[i + 1];
            let b2 = bytes[i + 2];
            let cp: u32 = ((b0 - 0xE0) as u32) * 0x1000 + ((b1 - 0x80) as u32) * 0x40 + ((b2
                - 0x80) as u32);
            if 0xD800 <= cp && cp < 0xE000 {
                s.push(REPLACEMENT);
            } else {
                let c = char::from_u32(cp).unwrap();
                s.push(c);
                proof {
                    vstd::utf8::char_u32_cast(c, cp);
                }
            }
            w = 3;
            proof {
                assert(cp == code_point_3(b0, b1, b2));
                assert(decode_front(suffix) == ((scalar_char(cp), 3int)));
                assert(s@ == prev.push(scalar_char(cp)));
            }
        } else {
            s.push(REPLACEMENT);
            w = 1;
            proof {
                assert(decode_front(suffix) == ((REPLACEMENT, 1int)));
            }
        }
        proof {
            let c = decode_front(suffix).0;
            let wd = decode_front(suffix).1;
            assert(wd == w as int);
            assert(s@ == prev.push(c));
            assert(suffix.len() > 0);
            assert(mutf8_decode(suffix) == seq![c] + mutf8_decode(suffix.skip(wd)));
            assert(suffix.skip(wd) =~= bytes@.skip(i + w));
            assert(prev.push(c) + mutf8_decode(bytes@.skip(i + w)) =~= prev + mutf8_decode(
                suffix,
            ));
        }
        i = i + w;
    }
    proof {
        assert(bytes@.skip(n as int) =~= Seq::<u8>::empty());
        assert(s@ + mutf8_decode(bytes@.skip(n as int)) =~= s@);
    }
    s
}

/// Appends the characters of `t` to `s`.
pub fn append_chars(s: &mut String, t: &str)
    ensures
        final(s)@ == old(s)@ + t@,
{
    let n = t.unicode_len();
    let mut i: usize = 0;
    while i < n
        invariant
            i <= n,
            n == t@.len(),
            s@ == old(s)@ + t@.take(i as int),
        decreases n - i,
    {
        let c = t.get_char(i);
        s.push(c);
        i = i + 1;
        proof {
            assert(s@ =~= old(s)@ + t@.take(i as int));
        }
    }
    proof {
        assert(old(s)@ + t@.take(n as int) =~= old(s)@ + t@);
    }
}

} // verus!
