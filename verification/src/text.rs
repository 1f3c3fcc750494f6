//! Character-encoding layer: every parser in this crate works on bytes, and
//! this module gives those bytes a meaning as text.  A buffer is read as
//! UTF-8 when it is valid UTF-8; otherwise each byte is taken as a code
//! point (the usual single-byte fallback for legacy data), so conversion is
//! total and never fails.

use vstd::prelude::*;
use vstd::utf8::{
    decode_utf8, encode_scalar, encode_utf8, encode_utf8_decode_utf8, encode_utf8_valid_utf8,
    valid_utf8,
};

verus! {

/// Each byte read as its own code point.
pub open spec fn latin1_chars(s: Seq<u8>) -> Seq<char> {
    s.map(|_i: int, b: u8| ((b as u32) as char))
}

/// The text a byte buffer stands for: its UTF-8 decoding when the buffer is
/// valid UTF-8, otherwise each byte read as a code point.
pub open spec fn text_of(b: Seq<u8>) -> Seq<char> {
    if valid_utf8(b) {
        decode_utf8(b)
    } else {
        latin1_chars(b)
    }
}

/// Relies on `String::from_utf8`: it returns `Ok` exactly when the bytes are
/// a valid UTF-8 encoding, and the returned string is their decoding.
#[verifier::external_body]
fn utf8_to_string(v: &Vec<u8>) -> (r: Option<String>)
    ensures
        r is Some <==> valid_utf8(v@),
        r matches Some(s) ==> s@ == decode_utf8(v@),
{
    String::from_utf8(v.clone()).ok()
}

/// Appending one character to a sequence appends its scalar encoding.
proof fn lemma_encode_utf8_snoc(cs: Seq<char>, c: char)
    ensures
        encode_utf8(cs.push(c)) == encode_utf8(cs) + encode_scalar(c as u32),
    decreases cs.len(),
{
    if cs.len() == 0 {
        assert(cs.push(c)[0] == c);
        assert(cs.push(c).drop_first() =~= Seq::<char>::empty());
        assert(encode_utf8(Seq::<char>::empty()) =~= Seq::<u8>::empty());
        assert(encode_utf8(cs) =~= Seq::<u8>::empty());
        assert(encode_utf8(cs.push(c)) =~= encode_scalar(c as u32) + Seq::<u8>::empty());
        assert(encode_utf8(cs.push(c)) =~= encode_utf8(cs) + encode_scalar(c as u32));
    } else {
        assert(cs.push(c)[0] == cs[0]);
        assert(cs.push(c).drop_first() =~= cs.drop_first().push(c));
        lemma_encode_utf8_snoc(cs.drop_first(), c);
        assert(encode_utf8(cs.push(c)) =~= encode_utf8(cs) + encode_scalar(c as u32));
    }
}

/// Re-encodes a buffer byte-for-byte as UTF-8, reading each byte as its own
/// code point.
fn latin1_reencode(v: &[u8]) -> (r: Vec<u8>)
    ensures
        r@ == encode_utf8(latin1_chars(v@)),
{
    let n = v.len();
    let mut out: Vec<u8> = Vec::new();
    let mut i: usize = 0;
    assert(latin1_chars(v@.take(0)) =~= Seq::<char>::empty());
    while i < n
        invariant
            n == v@.len(),
            i <= n,
            out@ == encode_utf8(latin1_chars(v@.take(i as int))),
        decreases n - i,
    {
        let b = v[i];
        let ghost c = ((b as u32) as char);
        proof {
            assert(latin1_chars(v@.take(i + 1)) =~= latin1_chars(v@.take(i as int)).push(c));
            lemma_encode_utf8_snoc(latin1_chars(v@.take(i as int)), c);
            assert(c as u32 == b as u32);
        }
        if b < 0x80 {
            out.push(b);
            proof {
                assert(b as u32 & 0x7F == b as u32) by (bit_vector)
                    requires
                        b < 0x80,
                ;
                assert(encode_scalar(c as u32) =~= seq![b]);
            }
        } else {
            let hi: u8 = 0xC0 | (b >> 6);
            let lo: u8 = 0x80 | (b & 0x3F);
            out.push(hi);
            out.push(lo);
            proof {
                assert((0xC0 | (((b as u32) >> 6) & 0x1F)) == (0xC0 | (b >> 6)) as u32
                    && (0x80 | ((b as u32) & 0x3F)) == (0x80 | (b & 0x3F)) as u32) by (bit_vector)
                    requires
                        b >= 0x80,
                ;
                assert(encode_scalar(c as u32) =~= seq![hi, lo]);
            }
        }
        assert(out@ =~= encode_utf8(latin1_chars(v@.take(i + 1))));
        i = i + 1;
    }
    assert(v@.take(n as int) =~= v@);
    out
}

/// Converts a byte buffer to the text it stands for.  Valid UTF-8 decodes
/// exactly; anything else falls back to the byte-as-code-point reading, so
/// the conversion never fails.
pub fn bytes_to_string(v: &Vec<u8>) -> (r: String)
    ensures
        r@ == text_of(v@),
{
    match utf8_to_string(v) {
        Option::Some(s) => s,
        Option::None => {
            let w = latin1_reencode(v.as_slice());
            proof {
                encode_utf8_valid_utf8(latin1_chars(v@));
                encode_utf8_decode_utf8(latin1_chars(v@));
            }
            let s = utf8_to_string(&w);
            s.unwrap()
        },
    }
}

} // verus!

verus! {

/// The `u16` code units stored little-endian in `b`; a trailing odd byte
/// is ignored.
pub open spec fn spec_u16s_le(b: Seq<u8>) -> Seq<u16> {
    Seq::new((b.len() / 2) as nat, |i: int| crate::reader::spec_le_u16(b, 2 * i))
}

/// The replacement character that stands in for an unpaired surrogate.
pub open spec fn spec_replacement() -> char {
    (0xFFFDu32 as char)
}

/// UTF-16 decoding: basic-plane units decode to themselves, a high/low
/// surrogate pair combines into one supplementary code point, and an
/// unpaired surrogate becomes the replacement character rather than an
/// error.
pub open spec fn utf16_chars(u: Seq<u16>) -> Seq<char>
    decreases u.len(),
{
    if u.len() == 0 {
        Seq::empty()
    } else if u[0] < 0xD800 || u[0] >= 0xE000 {
        seq![((u[0] as u32) as char)] + utf16_chars(u.drop_first())
    } else if u[0] < 0xDC00 && u.len() >= 2 && 0xDC00 <= u[1] < 0xE000 {
        seq![
            ((0x10000 + (u[0] - 0xD800) * 0x400 + (u[1] - 0xDC00)) as u32 as char),
        ] + utf16_chars(u.skip(2))
    } else {
        seq![spec_replacement()] + utf16_chars(u.drop_first())
    }
}

/// Appends the UTF-8 encoding of one Unicode scalar.
pub fn push_scalar_utf8(out: &mut Vec<u8>, s: u32)
    requires
        vstd::utf8::is_scalar(s),
    ensures
        final(out)@ == old(out)@ + encode_scalar(s),
{
    let ghost pre = out@;
    if s <= 0x7F {
        let b0: u8 = (s & 0x7F) as u8;
        out.push(b0);
        assert(out@ =~= pre + encode_scalar(s));
    } else if s <= 0x7FF {
        let b0: u8 = 0xC0u8 | (((s >> 6) & 0x1F) as u8);
        let b1: u8 = 0x80u8 | ((s & 0x3F) as u8);
        out.push(b0);
        out.push(b1);
        assert(out@ =~= pre + encode_scalar(s));
    } else if s <= 0xFFFF {
        let b0: u8 = 0xE0u8 | (((s >> 12) & 0x0F) as u8);
        let b1: u8 = 0x80u8 | (((s >> 6) & 0x3F) as u8);
        let b2: u8 = 0x80u8 | ((s & 0x3F) as u8);
        out.push(b0);
        out.push(b1);
        out.push(b2);
        assert(out@ =~= pre + encode_scalar(s));
    } else {
        let b0: u8 = 0xF0u8 | (((s >> 18) & 0x07) as u8);
        let b1: u8 = 0x80u8 | (((s >> 12) & 0x3F) as u8);
        let b2: u8 = 0x80u8 | (((s >> 6) & 0x3F) as u8);
        let b3: u8 = 0x80u8 | ((s & 0x3F) as u8);
        out.push(b0);
        out.push(b1);
        out.push(b2);
        out.push(b3);
        assert(out@ =~= pre + encode_scalar(s));
    }
}

} // verus!

verus! {

/// Reads the little-endian `u16` code units out of a byte buffer.
pub fn utf16_units(b: &[u8]) -> (r: Vec<u16>)
    ensures
        r@ == spec_u16s_le(b@),
{
    let blen = b.len();
    let n = blen / 2;
    let mut out: Vec<u16> = Vec::new();
    let mut i: usize = 0;
    while i < n
        invariant
            blen == b@.len(),
            n == blen / 2,
            i <= n,
            out@.len() == i,
            forall|j: int| 0 <= j < i ==> out@[j] == crate::reader::spec_le_u16(b@, 2 * j),
        decreases n - i,
    {
        out.push(crate::reader::le_u16_at(b, 2 * i));
        i = i + 1;
    }
    assert(out@ =~= spec_u16s_le(b@));
    out
}

/// Encodes a UTF-16 code-unit sequence as UTF-8 bytes, pairing surrogates
/// and replacing unpaired ones.
pub fn utf16_to_utf8(units: &[u16]) -> (r: Vec<u8>)
    ensures
        r@ == encode_utf8(utf16_chars(units@)),
{
    let n = units.len();
    let mut out: Vec<u8> = Vec::new();
    let mut i: usize = 0;
    assert(units@.skip(0) =~= units@);
    assert(Seq::<u8>::empty() + encode_utf8(utf16_chars(units@)) =~= encode_utf8(
        utf16_chars(units@),
    ));
    while i < n
        invariant
            n == units@.len(),
            i <= n,
            encode_utf8(utf16_chars(units@)) == out@ + encode_utf8(
                utf16_chars(units@.skip(i as int)),
            ),
        decreases n - i,
    {
        let ghost u = units@.skip(i as int);
        let ghost pre = out@;
        proof {
            assert(u[0] == units@[i as int]);
            if u.len() >= 2 {
                assert(u[1] == units@[i + 1]);
            }
        }
        let w0 = units[i];
        let mut step: usize = 1;
        if w0 < 0xD800 || w0 >= 0xE000 {
            let v: u32 = w0 as u32;
            let ghost c = ((v as u32) as char);
            proof {
                assert(c as u32 == v);
                assert(utf16_chars(u) == seq![c] + utf16_chars(u.drop_first()));
                assert((seq![c] + utf16_chars(u.drop_first())).drop_first() =~= utf16_chars(
                    u.drop_first(),
                ));
                assert(u.drop_first() =~= units@.skip(i + 1));
            }
            push_scalar_utf8(&mut out, v);
        } else if w0 < 0xDC00 && i + 1 < n && 0xDC00 <= units[i + 1] && units[i + 1] < 0xE000 {
            let w1 = units[i + 1];
            let v: u32 = 0x10000 + ((w0 - 0xD800) as u32) * 0x400 + ((w1 - 0xDC00) as u32);
            let ghost c = (v as char);
            proof {
                assert(vstd::utf8::is_scalar(v));
                assert(c as u32 == v);
                assert(utf16_chars(u) == seq![c] + utf16_chars(u.skip(2)));
                assert((seq![c] + utf16_chars(u.skip(2))).drop_first() =~= utf16_chars(u.skip(2)));
                assert(u.skip(2) =~= units@.skip(i + 2));
            }
            push_scalar_utf8(&mut out, v);
            step = 2;
        } else {
            let v: u32 = 0xFFFD;
            let ghost c = spec_replacement();
            proof {
                assert(c as u32 == v);
                assert(utf16_chars(u) == seq![c] + utf16_chars(u.drop_first()));
                assert((seq![c] + utf16_chars(u.drop_first())).drop_first() =~= utf16_chars(
                    u.drop_first(),
                ));
                assert(u.drop_first() =~= units@.skip(i + 1));
            }
            push_scalar_utf8(&mut out, v);
        }
        proof {
            let stepped = units@.skip(i + step);
            assert(encode_utf8(utf16_chars(u)) == encode_scalar(utf16_chars(u)[0] as u32)
                + encode_utf8(utf16_chars(stepped)));
            assert(pre + (encode_scalar(utf16_chars(u)[0] as u32) + encode_utf8(
                utf16_chars(stepped),
            )) =~= (pre + encode_scalar(utf16_chars(u)[0] as u32)) + encode_utf8(
                utf16_chars(stepped),
            ));
        }
        i = i + step;
    }
    assert(units@.skip(n as int) =~= Seq::<u16>::empty());
    assert(out@ =~= out@ + encode_utf8(utf16_chars(units@.skip(n as int))));
    out
}

/// Decodes UTF-16LE bytes (as stored in directory names and Unicode MAPI
/// properties) into a string.
pub fn utf16le_bytes_to_string(b: &[u8]) -> (r: String)
    ensures
        r@ == utf16_chars(spec_u16s_le(b@)),
{
    let units = utf16_units(b);
    let bytes = utf16_to_utf8(units.as_slice());
    proof {
        encode_utf8_valid_utf8(utf16_chars(spec_u16s_le(b@)));
        encode_utf8_decode_utf8(utf16_chars(spec_u16s_le(b@)));
    }
    let s = utf8_to_string(&bytes);
    s.unwrap()
}

} // verus!

verus! {

/// The bytes themselves when they are valid UTF-8, otherwise their
/// byte-as-code-point re-encoding: always valid UTF-8.
pub open spec fn spec_valid_utf8_of(b: Seq<u8>) -> Seq<u8> {
    if valid_utf8(b) {
        b
    } else {
        encode_utf8(latin1_chars(b))
    }
}

/// Normalizes bytes to valid UTF-8, re-encoding legacy single-byte text.
pub fn to_valid_utf8(v: &[u8]) -> (r: Vec<u8>)
    ensures
        r@ == spec_valid_utf8_of(v@),
{
    let copy = crate::reader::read_bytes(v, 0, v.len());
    assert(copy@ =~= v@);
    match utf8_to_string(&copy) {
        Option::Some(_) => copy,
        Option::None => latin1_reencode(v),
    }
}

} // verus!
