//! UTF-16, as the Windows API takes and gives text: encoding with a closing
//! zero unit, and lossy decoding (unpaired surrogates become U+FFFD).

use vstd::prelude::*;
use crate::text::chars_of;

verus! {

pub open spec fn is_high_surrogate(u: u16) -> bool {
    0xD800 <= u <= 0xDBFF
}

pub open spec fn is_low_surrogate(u: u16) -> bool {
    0xDC00 <= u <= 0xDFFF
}

pub open spec fn is_surrogate(u: u16) -> bool {
    0xD800 <= u <= 0xDFFF
}

/// The code units of one character.
pub open spec fn char_units(c: char) -> Seq<u16> {
    let v = c as u32;
    if v < 0x10000 {
        seq![v as u16]
    } else {
        let w = (v - 0x10000) as int;
        seq![(0xD800 + w / 1024) as u16, (0xDC00 + w % 1024) as u16]
    }
}

/// `str::encode_utf16`.
pub open spec fn encode(s: Seq<char>) -> Seq<u16>
    decreases s.len(),
{
    if s.len() == 0 {
        Seq::empty()
    } else {
        char_units(s[0]) + encode(s.drop_first())
    }
}

/// The character of a surrogate pair.
pub open spec fn pair_value(hi: u16, lo: u16) -> u32 {
    (0x10000 + (hi - 0xD800) * 1024 + (lo - 0xDC00)) as u32
}

/// The character that stands for what cannot be decoded.
pub open spec fn replacement() -> char {
    '\u{FFFD}'
}

/// `String::from_utf16_lossy`.
pub open spec fn decode_lossy(u: Seq<u16>) -> Seq<char>
    decreases u.len(),
{
    if u.len() == 0 {
        Seq::empty()
    } else if !is_surrogate(u[0]) {
        seq![(u[0] as u32) as char] + decode_lossy(u.drop_first())
    } else if is_high_surrogate(u[0]) && u.len() >= 2 && is_low_surrogate(u[1]) {
        seq![pair_value(u[0], u[1]) as char] + decode_lossy(u.subrange(2, u.len() as int))
    } else {
        seq![replacement()] + decode_lossy(u.drop_first())
    }
}

/// The UTF-16 code units of a text.
pub fn encode_utf16(text: &str) -> (r: Vec<u16>)
    ensures
        r@ == encode(text@),
{
    let v = chars_of(text);
    let mut r: Vec<u16> = Vec::new();
    let mut i: usize = 0;
    assert(v@.skip(0) =~= v@);
    while i < v.len()
        invariant
            i <= v.len(),
            v@ == text@,
            r@ + encode(v@.skip(i as int)) == encode(v@),
        decreases v.len() - i,
    {
        let c = v[i];
        let x = c as u32;
        let ghost rest = v@.skip(i as int);
        assert(rest[0] == c);
        assert(rest.drop_first() =~= v@.skip(i + 1));
        let ghost before = r@;
        if x < 0x10000 {
            r.push(x as u16);
        } else {
            let w = x - 0x10000;
            r.push((0xD800 + w / 1024) as u16);
            r.push((0xDC00 + w % 1024) as u16);
        }
        assert(r@ =~= before + char_units(c));
        assert(r@ + encode(v@.skip(i + 1)) =~= before + (char_units(c) + encode(v@.skip(i + 1))));
        i = i + 1;
    }
    assert(v@.skip(i as int) =~= Seq::<char>::empty());
    assert(r@ + Seq::<u16>::empty() =~= r@);
    r
}

/// The text as a zero-terminated UTF-16 string, as the Windows API takes it.
pub fn wide_null(text: &str) -> (r: Vec<u16>)
    ensures
        r@ == encode(text@).push(0),
{
    let mut r = encode_utf16(text);
    r.push(0);
    r
}

/// Decodes UTF-16 code units, replacing unpaired surrogates with U+FFFD.
pub fn decode_utf16_lossy(units: &[u16]) -> (r: Vec<char>)
    ensures
        r@ == decode_lossy(units@),
{
    let n = units.len();
    let mut r: Vec<char> = Vec::new();
    let mut i: usize = 0;
    assert(units@.skip(0) =~= units@);
    while i < n
        invariant
            i <= n == units@.len(),
            r@ + decode_lossy(units@.skip(i as int)) == decode_lossy(units@),
        decreases n - i,
    {
        let u = units[i];
        let ghost rest = units@.skip(i as int);
        let ghost before = r@;
        assert(rest[0] == u);
        if u < 0xD800 || u > 0xDFFF {
            let c = char::from_u32(u as u32);
            match c {
                Some(c) => {
                    proof {
                        vstd::utf8::char_u32_cast(c, u as u32);
                    }
                    r.push(c);
                },
                None => r.push('\u{FFFD}'),
            }
            assert(rest.drop_first() =~= units@.skip(i + 1));
            assert(r@ =~= before + seq![(u as u32) as char]);
            assert(r@ + decode_lossy(units@.skip(i + 1)) =~= before + (seq![(u as u32) as char]
                + decode_lossy(units@.skip(i + 1))));
            i = i + 1;
        } else if u <= 0xDBFF && i + 1 < n && units[i + 1] >= 0xDC00 && units[i + 1] <= 0xDFFF {
            let lo = units[i + 1];
            assert(rest[1] == lo);
            let v: u32 = 0x10000 + ((u as u32) - 0xD800) * 1024 + ((lo as u32) - 0xDC00);
            assert(v == pair_value(u, lo));
            let c = char::from_u32(v);
            match c {
                Some(c) => {
                    proof {
                        vstd::utf8::char_u32_cast(c, v);
                    }
                    r.push(c);
                },
                None => r.push('\u{FFFD}'),
            }
            assert(rest.subrange(2, rest.len() as int) =~= units@.skip(i + 2));
            assert(r@ =~= before + seq![pair_value(u, lo) as char]);
            assert(r@ + decode_lossy(units@.skip(i + 2)) =~= before + (seq![pair_value(u, lo) as char]
                + decode_lossy(units@.skip(i + 2))));
            i = i + 2;
        } else {
            r.push('\u{FFFD}');
            assert(rest.drop_first() =~= units@.skip(i + 1));
            assert(r@ =~= before + seq![replacement()]);
            assert(r@ + decode_lossy(units@.skip(i + 1)) =~= before + (seq![replacement()]
                + decode_lossy(units@.skip(i + 1))));
            i = i + 1;
        }
    }
    assert(units@.skip(i as int) =~= Seq::<u16>::empty());
    assert(r@ + Seq::<char>::empty() =~= r@);
    r
}

/// Decoding the encoding of a text gives the text back.
pub proof fn lemma_decode_encode(s: Seq<char>)
    ensures
        decode_lossy(encode(s)) == s,
    decreases s.len(),
{
    if s.len() > 0 {
        let c = s[0];
        let rest = encode(s.drop_first());
        lemma_decode_encode(s.drop_first());
        let e = encode(s);
        assert(e == char_units(c) + rest);
        let v = c as u32;
        vstd::utf8::char_is_scalar(c);
        if v < 0x10000 {
            assert(e[0] == v as u16);
            assert((v as u16) as u32 == v);
            assert(!(0xD800 <= v <= 0xDFFF));
            assert(!is_surrogate(e[0]));
            assert(e.drop_first() =~= rest);
            vstd::utf8::char_u32_cast(c, v);
            assert(((e[0] as u32) as char) == c);
        } else {
            let w = (v - 0x10000) as int;
            let hi = (0xD800 + w / 1024) as u16;
            let lo = (0xDC00 + w % 1024) as u16;
            assert(e[0] == hi);
            assert(e[1] == lo);
            assert(is_high_surrogate(hi));
            assert(is_low_surrogate(lo));
            assert(e.subrange(2, e.len() as int) =~= rest);
            assert(w == (w / 1024) * 1024 + w % 1024);
            assert(pair_value(hi, lo) == v);
            vstd::utf8::char_u32_cast(c, v);
            assert((pair_value(hi, lo) as char) == c);
        }
        assert(s =~= seq![c] + s.drop_first());
    }
}

proof fn lemma_encode_push(s: Seq<char>, c: char)
    ensures
        encode(s.push(c)) == encode(s) + char_units(c),
    decreases s.len(),
{
    if s.len() == 0 {
        let t = s.push(c);
        assert(t[0] == c);
        assert(t.drop_first() =~= Seq::<char>::empty());
        assert(encode(t.drop_first()) == Seq::<u16>::empty());
        assert(encode(t) =~= char_units(c));
        assert(encode(s) == Seq::<u16>::empty());
        assert(encode(s) + char_units(c) =~= char_units(c));
    } else {
        lemma_encode_push(s.drop_first(), c);
        assert(s.push(c).drop_first() =~= s.drop_first().push(c));
        assert(s.push(c)[0] == s[0]);
        assert(encode(s.push(c)) =~= char_units(s[0]) + (encode(s.drop_first()) + char_units(c)));
    }
}

/// The zero-terminated UTF-16 form of a text decodes to the text and a
/// closing NUL character.
pub proof fn lemma_wide_null_decodes(s: Seq<char>)
    ensures
        decode_lossy(encode(s).push(0)) == s.push('\0'),
{
    lemma_encode_push(s, '\0');
    assert(char_units('\0') =~= seq![0u16]);
    assert(encode(s).push(0) =~= encode(s) + char_units('\0'));
    lemma_decode_encode(s.push('\0'));
}

} // verus!
