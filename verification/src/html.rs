//! HTML sanitization: removal of `<script>` and `<style>` elements with
//! their contents, and reduction of markup to its visible text.  Works on
//! bytes; matching of tag names is ASCII-case-insensitive.

use vstd::prelude::*;
use vstd::utf8::encode_utf8;

use crate::reader::{
    find_byte, find_sub, lemma_find_byte_bounds, lemma_find_byte_shift_suffix,
    lemma_find_sub_bounds, lemma_find_sub_shift_gen, read_bytes, spec_ascii_lower, spec_find_byte,
    spec_find_sub, ascii_lower,
};

verus! {

/// `b` with every span from an occurrence of `open` through the end of the
/// next occurrence of `close` removed; an unterminated span runs to the
/// end.  Occurrences are found on the ASCII-lowercased text, so `<SCRIPT>`
/// is caught, while the kept bytes stay as written.
pub open spec fn spec_strip_elem(b: Seq<u8>, open: Seq<u8>, close: Seq<u8>) -> Seq<u8>
    decreases b.len(),
    when open.len() > 0 && close.len() > 0
    via spec_strip_elem_dec
{
    let lb = spec_ascii_lower(b);
    let s = spec_find_sub(lb, open, 0);
    if s == b.len() {
        b
    } else {
        let e = spec_find_sub(lb, close, s + open.len());
        if e == b.len() {
            b.subrange(0, s)
        } else {
            b.subrange(0, s) + spec_strip_elem(b.skip(e + close.len()), open, close)
        }
    }
}

#[via_fn]
proof fn spec_strip_elem_dec(b: Seq<u8>, open: Seq<u8>, close: Seq<u8>) {
    let lb = spec_ascii_lower(b);
    lemma_find_sub_bounds(lb, open, 0);
    let s = spec_find_sub(lb, open, 0);
    if s < b.len() {
        lemma_find_sub_bounds(lb, close, s + open.len());
    }
}

/// Removes every `open ... close` span, matching case-insensitively.
pub fn strip_elem(b: &[u8], open: &[u8], close: &[u8]) -> (r: Vec<u8>)
    requires
        open@.len() > 0,
        close@.len() > 0,
    ensures
        r@ == spec_strip_elem(b@, open@, close@),
{
    let n = b.len();
    let lb = ascii_lower(b);
    let mut out: Vec<u8> = Vec::new();
    let mut pos: usize = 0;
    assert(b@.skip(0) =~= b@);
    assert(Seq::<u8>::empty() + spec_strip_elem(b@, open@, close@) =~= spec_strip_elem(
        b@,
        open@,
        close@,
    ));
    while pos < n
        invariant
            pos <= n == b@.len(),
            lb@ == spec_ascii_lower(b@),
            open@.len() > 0,
            close@.len() > 0,
            spec_strip_elem(b@, open@, close@) == out@ + spec_strip_elem(
                b@.skip(pos as int),
                open@,
                close@,
            ),
        decreases n - pos,
    {
        let ghost rest = b@.skip(pos as int);
        let ghost pre = out@;
        proof {
            assert(spec_ascii_lower(rest) =~= lb@.skip(pos as int));
            lemma_find_sub_bounds(lb@, open@, pos as int);
            lemma_find_sub_shift_gen(lb@, open@, pos as int, pos as int);
        }
        let s = find_sub(lb.as_slice(), open, pos);
        if s == n {
            // no further opening tag: keep the rest
            let tail = read_bytes(b, pos, n - pos);
            crate::reader::append_bytes(&mut out, tail.as_slice());
            proof {
                assert(tail@ =~= rest);
                assert(spec_strip_elem(rest, open@, close@) == rest);
                assert(b@.skip(n as int) =~= Seq::<u8>::empty());
            }
            return out;
        }
        proof {
            lemma_find_sub_bounds(lb@, close@, s + open@.len());
            lemma_find_sub_shift_gen(lb@, close@, pos as int, s + open@.len());
            assert(rest.subrange(0, s - pos) =~= b@.subrange(pos as int, s as int));
        }
        let kept = read_bytes(b, pos, s - pos);
        crate::reader::append_bytes(&mut out, kept.as_slice());
        let e = find_sub(lb.as_slice(), close, s + open.len());
        if e == n {
            proof {
                assert(spec_strip_elem(rest, open@, close@) == rest.subrange(0, s - pos));
                assert(out@ =~= pre + rest.subrange(0, s - pos));
                assert(b@.skip(n as int) =~= Seq::<u8>::empty());
                assert(out@ + Seq::<u8>::empty() =~= out@);
            }
            return out;
        }
        proof {
            assert(rest.skip((e + close@.len()) - pos as int) =~= b@.skip(e + close@.len()));
            assert(spec_strip_elem(rest, open@, close@) == rest.subrange(0, s - pos)
                + spec_strip_elem(b@.skip(e + close@.len()), open@, close@));
            assert(pre + (rest.subrange(0, s - pos) + spec_strip_elem(
                b@.skip(e + close@.len()),
                open@,
                close@,
            )) =~= (pre + rest.subrange(0, s - pos)) + spec_strip_elem(
                b@.skip(e + close@.len()),
                open@,
                close@,
            ));
        }
        pos = e + close.len();
    }
    assert(b@.skip(pos as int) =~= Seq::<u8>::empty());
    assert(out@ + spec_strip_elem(b@.skip(pos as int), open@, close@) =~= out@);
    out
}

/// `b` with every `<...>` span removed; an unterminated tag runs to the
/// end.
pub open spec fn spec_strip_tags(b: Seq<u8>) -> Seq<u8>
    decreases b.len(),
    via spec_strip_tags_dec
{
    let s = spec_find_byte(b, 0, 60);
    if s == b.len() {
        b
    } else {
        let e = spec_find_byte(b, s + 1, 62);
        if e == b.len() {
            b.subrange(0, s)
        } else {
            b.subrange(0, s) + spec_strip_tags(b.skip(e + 1))
        }
    }
}

#[via_fn]
proof fn spec_strip_tags_dec(b: Seq<u8>) {
    lemma_find_byte_bounds(b, 0, 60);
    let s = spec_find_byte(b, 0, 60);
    if s < b.len() {
        lemma_find_byte_bounds(b, s + 1, 62);
    }
}

/// Removes every markup tag, keeping the text between tags.
pub fn strip_tags(b: &[u8]) -> (r: Vec<u8>)
    ensures
        r@ == spec_strip_tags(b@),
{
    let n = b.len();
    let mut out: Vec<u8> = Vec::new();
    let mut pos: usize = 0;
    assert(b@.skip(0) =~= b@);
    assert(Seq::<u8>::empty() + spec_strip_tags(b@) =~= spec_strip_tags(b@));
    while pos < n
        invariant
            pos <= n == b@.len(),
            spec_strip_tags(b@) == out@ + spec_strip_tags(b@.skip(pos as int)),
        decreases n - pos,
    {
        let ghost rest = b@.skip(pos as int);
        let ghost pre = out@;
        proof {
            lemma_find_byte_bounds(b@, pos as int, 60);
            lemma_find_byte_shift_suffix(b@, pos as int, pos as int, 60);
        }
        let s = find_byte(b, pos, 60);
        if s == n {
            let tail = read_bytes(b, pos, n - pos);
            crate::reader::append_bytes(&mut out, tail.as_slice());
            proof {
                assert(tail@ =~= rest);
                assert(spec_strip_tags(rest) == rest);
                assert(b@.skip(n as int) =~= Seq::<u8>::empty());
            }
            return out;
        }
        proof {
            lemma_find_byte_bounds(b@, s + 1, 62);
            lemma_find_byte_shift_suffix(b@, pos as int, s + 1, 62);
            assert(rest.subrange(0, s - pos) =~= b@.subrange(pos as int, s as int));
        }
        let kept = read_bytes(b, pos, s - pos);
        crate::reader::append_bytes(&mut out, kept.as_slice());
        let e = find_byte(b, s + 1, 62);
        if e == n {
            proof {
                assert(spec_strip_tags(rest) == rest.subrange(0, s - pos));
                assert(out@ =~= pre + rest.subrange(0, s - pos));
                assert(b@.skip(n as int) =~= Seq::<u8>::empty());
                assert(out@ + Seq::<u8>::empty() =~= out@);
            }
            return out;
        }
        proof {
            assert(rest.skip((e + 1) - pos as int) =~= b@.skip(e + 1));
            assert(spec_strip_tags(rest) == rest.subrange(0, s - pos) + spec_strip_tags(
                b@.skip(e + 1),
            ));
            assert(pre + (rest.subrange(0, s - pos) + spec_strip_tags(b@.skip(e + 1))) =~= (pre
                + rest.subrange(0, s - pos)) + spec_strip_tags(b@.skip(e + 1)));
        }
        pos = e + 1;
    }
    assert(b@.skip(pos as int) =~= Seq::<u8>::empty());
    assert(out@ + spec_strip_tags(b@.skip(pos as int)) =~= out@);
    out
}

/// HTML reduced as the dispatcher requires: `<script>` and `<style>`
/// elements vanish with their contents in every case; the remaining markup
/// is stripped to visible text when `strip_markup` is set, and kept as
/// written otherwise.
pub open spec fn spec_sanitize(b: Seq<u8>, strip_markup: bool) -> Seq<u8> {
    let no_script = spec_strip_elem(b, encode_utf8("<script"@), encode_utf8("</script>"@));
    let no_style = spec_strip_elem(
        no_script,
        encode_utf8("<style"@),
        encode_utf8("</style>"@),
    );
    if strip_markup {
        spec_strip_tags(no_style)
    } else {
        no_style
    }
}

/// Sanitizes an HTML fragment.
pub fn sanitize(b: &[u8], strip_markup: bool) -> (r: Vec<u8>)
    ensures
        r@ == spec_sanitize(b@, strip_markup),
{
    proof {
        reveal_strlit("<script");
        reveal_strlit("</script>");
        reveal_strlit("<style");
        reveal_strlit("</style>");
    }
    let no_script = strip_elem(b, "<script".as_bytes(), "</script>".as_bytes());
    let no_style = strip_elem(no_script.as_slice(), "<style".as_bytes(), "</style>".as_bytes());
    if strip_markup {
        strip_tags(no_style.as_slice())
    } else {
        no_style
    }
}

} // verus!
