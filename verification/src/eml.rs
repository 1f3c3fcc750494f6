//! RFC822 email parsing: header fields, address lists, and multipart
//! bodies with attachment parts.  The parser is total — malformed input
//! yields a message with absent fields, never an error — and works
//! byte-for-byte so that any charset survives untouched until the final
//! text conversion.

use vstd::prelude::*;
use vstd::utf8::encode_utf8;

use crate::reader::{
    ascii_lower, bytes_eq, find_byte, find_sub, lemma_find_byte_bounds, lemma_find_sub_bounds,
    read_bytes, spec_ascii_lower, spec_find_byte, spec_find_sub, spec_starts_with, spec_trim,
    spec_trim_end, starts_with, trim,
};

verus! {

/// Where the header block ends and the body begins: the first blank line,
/// either CRLF CRLF or LF LF.  Without one, everything is headers.
pub open spec fn spec_body_split(b: Seq<u8>, i: int) -> (int, int)
    decreases b.len() - i when 0 <= i <= b.len()
{
    if i + 2 > b.len() {
        (b.len() as int, b.len() as int)
    } else if i + 4 <= b.len() && b[i] == 13 && b[i + 1] == 10 && b[i + 2] == 13 && b[i + 3]
        == 10 {
        (i, i + 4)
    } else if b[i] == 10 && b[i + 1] == 10 {
        (i, i + 2)
    } else {
        spec_body_split(b, i + 1)
    }
}

/// Finds the blank line separating headers from body.
pub fn body_split(b: &[u8]) -> (r: (usize, usize))
    ensures
        (r.0 as int, r.1 as int) == spec_body_split(b@, 0),
        r.0 <= r.1 <= b@.len(),
{
    let n = b.len();
    let mut i: usize = 0;
    while n >= 2 && i <= n - 2
        invariant
            i <= n == b@.len(),
            spec_body_split(b@, 0) == spec_body_split(b@, i as int),
        decreases n - i,
    {
        if n >= 4 && i <= n - 4 && b[i] == 13 && b[i + 1] == 10 && b[i + 2] == 13 && b[i + 3]
            == 10 {
            return (i, i + 4);
        }
        if b[i] == 10 && b[i + 1] == 10 {
            return (i, i + 2);
        }
        i = i + 1;
    }
    (n, n)
}

/// A line with its trailing carriage return removed.
pub open spec fn spec_strip_cr(l: Seq<u8>) -> Seq<u8> {
    if l.len() > 0 && l[l.len() - 1] == 13 {
        l.drop_last()
    } else {
        l
    }
}

/// The lines of a header block, split on line feeds, each without its
/// trailing carriage return.
pub open spec fn spec_split_lines(b: Seq<u8>) -> Seq<Seq<u8>>
    decreases b.len(),
    via spec_split_lines_dec
{
    if b.len() == 0 {
        Seq::empty()
    } else {
        let idx = spec_find_byte(b, 0, 10);
        let line = spec_strip_cr(b.subrange(0, idx));
        if idx == b.len() {
            seq![line]
        } else {
            seq![line] + spec_split_lines(b.skip(idx + 1))
        }
    }
}

#[via_fn]
proof fn spec_split_lines_dec(b: Seq<u8>) {
    if b.len() > 0 {
        lemma_find_byte_bounds(b, 0, 10);
    }
}

/// The views of a list of byte buffers.
pub open spec fn spec_seq_views(v: Seq<Vec<u8>>) -> Seq<Seq<u8>> {
    v.map_values(|x: Vec<u8>| x@)
}

/// Splits a header block into lines.
pub fn split_lines(b: &[u8]) -> (r: Vec<Vec<u8>>)
    ensures
        spec_seq_views(r@) == spec_split_lines(b@),
{
    let n = b.len();
    let mut out: Vec<Vec<u8>> = Vec::new();
    let mut pos: usize = 0;
    assert(b@.skip(0) =~= b@);
    assert(spec_seq_views(out@) + spec_split_lines(b@) =~= spec_split_lines(b@));
    while pos < n
        invariant
            pos <= n == b@.len(),
            spec_split_lines(b@) == spec_seq_views(out@) + spec_split_lines(b@.skip(pos as int)),
        decreases n - pos,
    {
        let ghost rest = b@.skip(pos as int);
        let ghost pre = spec_seq_views(out@);
        let idx = find_byte(b, pos, 10);
        proof {
            lemma_find_byte_bounds(rest, 0, 10);
            assert(spec_find_byte(rest, 0, 10) == idx - pos) by {
                lemma_find_byte_shift(b@, pos as int, idx as int);
            }
            assert(rest.subrange(0, idx - pos) =~= b@.subrange(pos as int, idx as int));
        }
        let mut line = read_bytes(b, pos, idx - pos);
        if line.len() > 0 && line[line.len() - 1] == 13 {
            line.pop();
            assert(line@ =~= spec_strip_cr(b@.subrange(pos as int, idx as int)));
        } else {
            assert(line@ =~= spec_strip_cr(b@.subrange(pos as int, idx as int)));
        }
        out.push(line);
        proof {
            assert(spec_seq_views(out@) =~= pre + seq![line@]);
            if idx == n {
                assert(spec_split_lines(rest) =~= seq![line@]);
                assert(pre + seq![line@] + spec_split_lines(b@.skip(n as int)) =~= pre + seq![
                    line@,
                ]);
            } else {
                assert(rest.skip(idx - pos + 1) =~= b@.skip(idx + 1));
                assert(spec_split_lines(rest) == seq![line@] + spec_split_lines(b@.skip(idx + 1)));
                assert(pre + (seq![line@] + spec_split_lines(b@.skip(idx + 1))) =~= (pre + seq![
                    line@,
                ]) + spec_split_lines(b@.skip(idx + 1)));
            }
        }
        if idx == n {
            assert(spec_seq_views(out@) + spec_split_lines(b@.skip(n as int)) =~= spec_seq_views(
                out@,
            ));
            return out;
        }
        pos = idx + 1;
    }
    assert(spec_seq_views(out@) + spec_split_lines(b@.skip(pos as int)) =~= spec_seq_views(out@));
    out
}

/// Moving the search start out of a suffix shifts the found index with it.
proof fn lemma_find_byte_shift(b: Seq<u8>, pos: int, idx: int)
    requires
        0 <= pos <= b.len(),
        idx == spec_find_byte(b, pos, 10),
    ensures
        spec_find_byte(b.skip(pos), 0, 10) == idx - pos,
    decreases b.len() - pos,
{
    lemma_find_byte_bounds(b, pos, 10);
    lemma_find_byte_shift_gen(b, pos, pos, 10);
}

/// General form: searching the suffix from a shifted origin matches.
proof fn lemma_find_byte_shift_gen(b: Seq<u8>, base: int, from: int, x: u8)
    requires
        0 <= base <= from <= b.len(),
    ensures
        spec_find_byte(b.skip(base), from - base, x) == spec_find_byte(b, from, x) - base,
    decreases b.len() - from,
{
    if from < b.len() {
        assert(b.skip(base)[from - base] == b[from]);
        if b[from] != x {
            lemma_find_byte_shift_gen(b, base, from + 1, x);
        }
    }
}

} // verus!

verus! {

/// The value of the first header line whose (lowercased) name matches, or
/// `None`.  The name is everything before the first colon; the value is
/// trimmed.
pub open spec fn spec_lookup(lines: Seq<Seq<u8>>, name: Seq<u8>) -> Option<Seq<u8>>
    decreases lines.len(),
    via spec_lookup_dec
{
    if lines.len() == 0 {
        None
    } else {
        let l = lines[0];
        let ci = spec_find_byte(l, 0, 58);
        if ci < l.len() && spec_ascii_lower(l.subrange(0, ci)) == name {
            Some(spec_trim(l.subrange(ci + 1, l.len() as int)))
        } else {
            spec_lookup(lines.drop_first(), name)
        }
    }
}

#[via_fn]
proof fn spec_lookup_dec(lines: Seq<Seq<u8>>, name: Seq<u8>) {
    if lines.len() > 0 {
        lemma_find_byte_bounds(lines[0], 0, 58);
    }
}

/// Finds a header by its lowercase name.
pub fn header_lookup(lines: &Vec<Vec<u8>>, name: &[u8]) -> (r: Option<Vec<u8>>)
    ensures
        r matches Some(v) ==> spec_lookup(spec_seq_views(lines@), name@) == Some(v@),
        r is None ==> spec_lookup(spec_seq_views(lines@), name@) is None,
{
    let n = lines.len();
    let mut i: usize = 0;
    assert(spec_seq_views(lines@).skip(0) =~= spec_seq_views(lines@));
    while i < n
        invariant
            i <= n == lines@.len(),
            spec_lookup(spec_seq_views(lines@), name@) == spec_lookup(
                spec_seq_views(lines@).skip(i as int),
                name@,
            ),
        decreases n - i,
    {
        let ghost rest = spec_seq_views(lines@).skip(i as int);
        proof {
            assert(rest[0] == lines@[i as int]@);
            assert(rest.drop_first() =~= spec_seq_views(lines@).skip(i + 1));
            lemma_find_byte_bounds(lines@[i as int]@, 0, 58);
        }
        let l = &lines[i];
        let ci = find_byte(l.as_slice(), 0, 58);
        if ci < l.len() {
            let lowered = ascii_lower(l.as_slice());
            let name_part = read_bytes(lowered.as_slice(), 0, ci);
            proof {
                assert(name_part@ =~= spec_ascii_lower(l@.subrange(0, ci as int)));
            }
            if bytes_eq(name_part.as_slice(), name) {
                let value = read_bytes(l.as_slice(), ci + 1, l.len() - (ci + 1));
                proof {
                    assert(value@ =~= l@.subrange(ci + 1, l@.len() as int));
                }
                let trimmed = trim(value.as_slice());
                return Some(trimmed);
            }
        }
        i = i + 1;
    }
    assert(spec_seq_views(lines@).skip(n as int) =~= Seq::<Seq<u8>>::empty());
    None
}

/// The address inside angle brackets when a display form like
/// `Name <addr>` is used, otherwise the whole trimmed value.
pub open spec fn spec_extract_addr(v: Seq<u8>) -> Seq<u8> {
    let lt = spec_find_byte(v, 0, 60);
    if lt < v.len() {
        let gt = spec_find_byte(v, lt + 1, 62);
        if gt < v.len() {
            spec_trim(v.subrange(lt + 1, gt))
        } else {
            spec_trim(v)
        }
    } else {
        spec_trim(v)
    }
}

/// Pulls the bare address out of one address token.
pub fn extract_addr(v: &[u8]) -> (r: Vec<u8>)
    ensures
        r@ == spec_extract_addr(v@),
{
    let lt = find_byte(v, 0, 60);
    if lt < v.len() {
        let gt = find_byte(v, lt + 1, 62);
        if gt < v.len() {
            let inner = read_bytes(v, lt + 1, gt - (lt + 1));
            assert(inner@ =~= v@.subrange(lt + 1, gt as int));
            return trim(inner.as_slice());
        }
    }
    trim(v)
}

/// The addresses of a comma-separated header value, each reduced to its
/// bare form, empty tokens dropped.
pub open spec fn spec_split_addrs(v: Seq<u8>) -> Seq<Seq<u8>>
    decreases v.len(),
    via spec_split_addrs_dec
{
    if v.len() == 0 {
        Seq::empty()
    } else {
        let ci = spec_find_byte(v, 0, 44);
        let tok = spec_extract_addr(v.subrange(0, ci));
        let head = if tok.len() > 0 {
            seq![tok]
        } else {
            Seq::<Seq<u8>>::empty()
        };
        if ci == v.len() {
            head
        } else {
            head + spec_split_addrs(v.skip(ci + 1))
        }
    }
}

#[via_fn]
proof fn spec_split_addrs_dec(v: Seq<u8>) {
    if v.len() > 0 {
        lemma_find_byte_bounds(v, 0, 44);
    }
}

/// Splits a comma-separated address list.
pub fn split_addrs(v: &[u8]) -> (r: Vec<Vec<u8>>)
    ensures
        spec_seq_views(r@) == spec_split_addrs(v@),
{
    let n = v.len();
    let mut out: Vec<Vec<u8>> = Vec::new();
    let mut pos: usize = 0;
    assert(v@.skip(0) =~= v@);
    assert(spec_seq_views(out@) + spec_split_addrs(v@) =~= spec_split_addrs(v@));
    while pos < n
        invariant
            pos <= n == v@.len(),
            spec_split_addrs(v@) == spec_seq_views(out@) + spec_split_addrs(v@.skip(pos as int)),
        decreases n - pos,
    {
        let ghost rest = v@.skip(pos as int);
        let ghost pre = spec_seq_views(out@);
        let ci = find_byte(v, pos, 44);
        proof {
            lemma_find_byte_bounds(rest, 0, 44);
            assert(spec_find_byte(rest, 0, 44) == ci - pos) by {
                lemma_find_byte_shift_gen(v@, pos as int, pos as int, 44);
            }
            assert(rest.subrange(0, ci - pos) =~= v@.subrange(pos as int, ci as int));
        }
        let piece = read_bytes(v, pos, ci - pos);
        let tok = extract_addr(piece.as_slice());
        if tok.len() > 0 {
            out.push(tok);
        }
        proof {
            let ghost head = if spec_extract_addr(rest.subrange(0, ci - pos)).len() > 0 {
                seq![spec_extract_addr(rest.subrange(0, ci - pos))]
            } else {
                Seq::<Seq<u8>>::empty()
            };
            assert(spec_seq_views(out@) =~= pre + head);
            if ci == n {
                assert(spec_split_addrs(rest) == head);
                assert(pre + head + spec_split_addrs(v@.skip(n as int)) =~= pre + head);
            } else {
                assert(rest.skip(ci - pos + 1) =~= v@.skip(ci + 1));
                assert(spec_split_addrs(rest) == head + spec_split_addrs(v@.skip(ci + 1)));
                assert(pre + (head + spec_split_addrs(v@.skip(ci + 1))) =~= (pre + head)
                    + spec_split_addrs(v@.skip(ci + 1)));
            }
        }
        if ci == n {
            assert(spec_seq_views(out@) + spec_split_addrs(v@.skip(n as int)) =~= spec_seq_views(
                out@,
            ));
            return out;
        }
        pos = ci + 1;
    }
    assert(spec_seq_views(out@) + spec_split_addrs(v@.skip(pos as int)) =~= spec_seq_views(out@));
    out
}

} // verus!

verus! {

/// A quoted value without its quotes.
pub open spec fn spec_unquote(v: Seq<u8>) -> Seq<u8> {
    if v.len() >= 2 && v[0] == 34 && v[v.len() - 1] == 34 {
        v.subrange(1, v.len() - 1)
    } else {
        v
    }
}

/// The value of `key=` inside a structured header value such as
/// `multipart/mixed; boundary="b"`: the text after the first (lowercased)
/// occurrence of `key`, up to the next semicolon, trimmed and unquoted.
pub open spec fn spec_param(v: Seq<u8>, key: Seq<u8>) -> Option<Seq<u8>> {
    let lower = spec_ascii_lower(v);
    let p = spec_find_sub(lower, key, 0);
    if p == v.len() {
        None
    } else {
        let vstart = p + key.len();
        let semi = spec_find_byte(v, vstart, 59);
        Some(spec_unquote(spec_trim(v.subrange(vstart, semi))))
    }
}

/// Extracts a `key=`-style parameter from a header value.
pub fn param(v: &[u8], key: &[u8]) -> (r: Option<Vec<u8>>)
    requires
        key@.len() > 0,
    ensures
        r matches Some(x) ==> spec_param(v@, key@) == Some(x@),
        r is None ==> spec_param(v@, key@) is None,
{
    let lower = ascii_lower(v);
    let p = find_sub(lower.as_slice(), key, 0);
    if p == v.len() {
        return None;
    }
    proof {
        lemma_find_sub_bounds(lower@, key@, 0);
    }
    let vstart = p + key.len();
    let semi = find_byte(v, vstart, 59);
    let raw = read_bytes(v, vstart, semi - vstart);
    proof {
        assert(raw@ =~= v@.subrange(vstart as int, semi as int));
    }
    let mut t = trim(raw.as_slice());
    if t.len() >= 2 && t[0] == 34 && t[t.len() - 1] == 34 {
        let inner = read_bytes(t.as_slice(), 1, t.len() - 2);
        proof {
            assert(inner@ =~= spec_unquote(t@));
        }
        return Some(inner);
    }
    Some(t)
}

/// The parts of a multipart body, `pos` standing just after a delimiter:
/// a part runs from after the delimiter's line break to the next
/// delimiter; `--` right after a delimiter closes the document.
pub open spec fn spec_parts_from(body: Seq<u8>, delim: Seq<u8>, pos: int) -> Seq<Seq<u8>>
    decreases body.len() - pos,
    when 0 <= pos <= body.len() && delim.len() > 0
    via spec_parts_from_dec
{
    if pos + 2 <= body.len() && body[pos] == 45 && body[pos + 1] == 45 {
        Seq::empty()
    } else {
        let cs = if pos + 2 <= body.len() && body[pos] == 13 && body[pos + 1] == 10 {
            pos + 2
        } else if pos + 1 <= body.len() && body[pos] == 10 {
            pos + 1
        } else {
            pos
        };
        let nxt = spec_find_sub(body, delim, cs);
        if nxt == body.len() {
            seq![spec_trim_end(body.subrange(cs, body.len() as int))]
        } else {
            seq![spec_trim_end(body.subrange(cs, nxt))] + spec_parts_from(
                body,
                delim,
                nxt + delim.len(),
            )
        }
    }
}

#[via_fn]
proof fn spec_parts_from_dec(body: Seq<u8>, delim: Seq<u8>, pos: int) {
    if !(pos + 2 <= body.len() && body[pos] == 45 && body[pos + 1] == 45) {
        let cs = if pos + 2 <= body.len() && body[pos] == 13 && body[pos + 1] == 10 {
            pos + 2
        } else if pos + 1 <= body.len() && body[pos] == 10 {
            pos + 1
        } else {
            pos
        };
        lemma_find_sub_bounds(body, delim, cs);
    }
}

/// All parts of a multipart body under the given delimiter (`--` plus the
/// declared boundary); text before the first delimiter is the preamble and
/// belongs to no part.
pub open spec fn spec_parts(body: Seq<u8>, delim: Seq<u8>) -> Seq<Seq<u8>> {
    let first = spec_find_sub(body, delim, 0);
    if first == body.len() {
        Seq::empty()
    } else {
        spec_parts_from(body, delim, first + delim.len())
    }
}

/// Splits a multipart body into its parts.
pub fn parts(body: &[u8], delim: &[u8]) -> (r: Vec<Vec<u8>>)
    requires
        delim@.len() > 0,
    ensures
        spec_seq_views(r@) == spec_parts(body@, delim@),
{
    let n = body.len();
    let mut out: Vec<Vec<u8>> = Vec::new();
    proof {
        lemma_find_sub_bounds(body@, delim@, 0);
    }
    let first = find_sub(body, delim, 0);
    if first == n {
        assert(spec_seq_views(out@) =~= spec_parts(body@, delim@));
        return out;
    }
    let mut pos: usize = first + delim.len();
    assert(spec_seq_views(out@) + spec_parts_from(body@, delim@, pos as int) =~= spec_parts(
        body@,
        delim@,
    ));
    loop
        invariant
            pos <= n == body@.len(),
            delim@.len() > 0,
            spec_parts(body@, delim@) == spec_seq_views(out@) + spec_parts_from(
                body@,
                delim@,
                pos as int,
            ),
        decreases n - pos,
    {
        let ghost pre = spec_seq_views(out@);
        if n >= 2 && pos <= n - 2 && body[pos] == 45 && body[pos + 1] == 45 {
            assert(pre + spec_parts_from(body@, delim@, pos as int) =~= pre);
            return out;
        }
        let cs: usize = if n >= 2 && pos <= n - 2 && body[pos] == 13 && body[pos + 1] == 10 {
            pos + 2
        } else if pos < n && body[pos] == 10 {
            pos + 1
        } else {
            pos
        };
        proof {
            lemma_find_sub_bounds(body@, delim@, cs as int);
        }
        let nxt = find_sub(body, delim, cs);
        if nxt == n {
            let piece = read_bytes(body, cs, n - cs);
            proof {
                assert(piece@ =~= body@.subrange(cs as int, n as int));
            }
            let t = trim_end_bytes(piece.as_slice());
            out.push(t);
            proof {
                assert(spec_seq_views(out@) =~= pre + seq![spec_trim_end(
                    body@.subrange(cs as int, n as int),
                )]);
                assert(spec_parts_from(body@, delim@, pos as int) == seq![spec_trim_end(
                    body@.subrange(cs as int, n as int),
                )]);
            }
            return out;
        }
        let piece = read_bytes(body, cs, nxt - cs);
        proof {
            assert(piece@ =~= body@.subrange(cs as int, nxt as int));
        }
        let t = trim_end_bytes(piece.as_slice());
        out.push(t);
        proof {
            let ghost head = seq![spec_trim_end(body@.subrange(cs as int, nxt as int))];
            assert(spec_seq_views(out@) =~= pre + head);
            assert(spec_parts_from(body@, delim@, pos as int) == head + spec_parts_from(
                body@,
                delim@,
                nxt + delim@.len(),
            ));
            assert(pre + (head + spec_parts_from(body@, delim@, nxt + delim@.len())) =~= (pre
                + head) + spec_parts_from(body@, delim@, nxt + delim@.len()));
        }
        pos = nxt + delim.len();
    }
}

/// Copies `b` without trailing blanks.
pub fn trim_end_bytes(b: &[u8]) -> (r: Vec<u8>)
    ensures
        r@ == spec_trim_end(b@),
{
    let n = b.len();
    let mut end: usize = n;
    assert(b@.take(n as int) =~= b@);
    while end > 0 && (b[end - 1] == 32 || b[end - 1] == 9 || b[end - 1] == 13 || b[end - 1] == 10)
        invariant
            end <= n == b@.len(),
            spec_trim_end(b@) == spec_trim_end(b@.take(end as int)),
        decreases end,
    {
        proof {
            let cur = b@.take(end as int);
            assert(cur[cur.len() - 1] == b@[end - 1]);
            assert(cur.drop_last() =~= b@.take(end - 1));
        }
        end = end - 1;
    }
    proof {
        let cur = b@.take(end as int);
        if end > 0 {
            assert(cur[cur.len() - 1] == b@[end - 1]);
        }
        assert(spec_trim_end(cur) == cur);
    }
    let r = read_bytes(b, 0, end);
    assert(r@ =~= b@.take(end as int));
    r
}

} // verus!

verus! {

/// One attachment part of a message.
pub struct EmlAttachment {
    /// Declared file name, possibly empty.
    pub filename: Vec<u8>,
    /// Declared content type of the part.
    pub mime: Vec<u8>,
    /// The part's raw content bytes.
    pub content: Vec<u8>,
}

/// Mathematical image of an attachment.
pub ghost struct EmlAttachmentV {
    pub filename: Seq<u8>,
    pub mime: Seq<u8>,
    pub content: Seq<u8>,
}

impl View for EmlAttachment {
    type V = EmlAttachmentV;

    open spec fn view(&self) -> EmlAttachmentV {
        EmlAttachmentV { filename: self.filename@, mime: self.mime@, content: self.content@ }
    }
}

/// A parsed RFC822 message, all fields still as raw bytes.
pub struct EmlMessage {
    /// `Subject` header, trimmed.
    pub subject: Option<Vec<u8>>,
    /// Bare address of the `From` header.
    pub from: Option<Vec<u8>>,
    /// Bare addresses of the `To` header, in header order.
    pub tos: Vec<Vec<u8>>,
    /// Bare addresses of the `Cc` header, in header order.
    pub ccs: Vec<Vec<u8>>,
    /// Bare addresses of the `Bcc` header, in header order.
    pub bccs: Vec<Vec<u8>>,
    /// `Message-ID` header, trimmed, brackets kept.
    pub message_id: Option<Vec<u8>>,
    /// `Date` header, trimmed.
    pub date: Option<Vec<u8>>,
    /// The chosen body: plain text when available, else sanitized HTML.
    pub body: Vec<u8>,
    /// Attachment parts, in document order.
    pub attachments: Vec<EmlAttachment>,
}

/// Mathematical image of a parsed message.
pub ghost struct EmlMessageV {
    pub subject: Option<Seq<u8>>,
    pub from: Option<Seq<u8>>,
    pub tos: Seq<Seq<u8>>,
    pub ccs: Seq<Seq<u8>>,
    pub bccs: Seq<Seq<u8>>,
    pub message_id: Option<Seq<u8>>,
    pub date: Option<Seq<u8>>,
    pub body: Seq<u8>,
    pub attachments: Seq<EmlAttachmentV>,
}

impl View for EmlMessage {
    type V = EmlMessageV;

    open spec fn view(&self) -> EmlMessageV {
        EmlMessageV {
            subject: match self.subject {
                Some(ref v) => Some(v@),
                None => None,
            },
            from: match self.from {
                Some(ref v) => Some(v@),
                None => None,
            },
            tos: spec_seq_views(self.tos@),
            ccs: spec_seq_views(self.ccs@),
            bccs: spec_seq_views(self.bccs@),
            message_id: match self.message_id {
                Some(ref v) => Some(v@),
                None => None,
            },
            date: match self.date {
                Some(ref v) => Some(v@),
                None => None,
            },
            body: self.body@,
            attachments: self.attachments@.map_values(|a: EmlAttachment| a@),
        }
    }
}

/// A part's header lines.
pub open spec fn spec_part_headers(p: Seq<u8>) -> Seq<Seq<u8>> {
    spec_split_lines(p.subrange(0, spec_body_split(p, 0).0))
}

/// A part's body bytes.
pub open spec fn spec_part_body(p: Seq<u8>) -> Seq<u8> {
    p.subrange(spec_body_split(p, 0).1, p.len() as int)
}

/// A part's `Content-Type` value, lowercased, or empty when absent.
pub open spec fn spec_part_ct_lower(p: Seq<u8>) -> Seq<u8> {
    match spec_lookup(spec_part_headers(p), encode_utf8("content-type"@)) {
        Some(v) => spec_ascii_lower(v),
        None => Seq::empty(),
    }
}

/// Whether a part declares itself an attachment.
pub open spec fn spec_part_is_attachment(p: Seq<u8>) -> bool {
    match spec_lookup(spec_part_headers(p), encode_utf8("content-disposition"@)) {
        Some(d) => spec_starts_with(spec_ascii_lower(d), encode_utf8("attachment"@)),
        None => false,
    }
}

/// The body of the first non-attachment part of the given content type
/// prefix, searched in document order.
pub open spec fn spec_first_body_with(ps: Seq<Seq<u8>>, ct_prefix: Seq<u8>, allow_missing_ct: bool) -> Option<Seq<u8>>
    decreases ps.len(),
{
    if ps.len() == 0 {
        None
    } else {
        let p = ps[0];
        let ct = spec_part_ct_lower(p);
        let ct_ok = spec_starts_with(ct, ct_prefix) || (allow_missing_ct && ct.len() == 0);
        if ct_ok && !spec_part_is_attachment(p) {
            Some(spec_part_body(p))
        } else {
            spec_first_body_with(ps.drop_first(), ct_prefix, allow_missing_ct)
        }
    }
}

/// The attachment records of a part list, in document order.
pub open spec fn spec_attachments(ps: Seq<Seq<u8>>) -> Seq<EmlAttachmentV>
    decreases ps.len(),
{
    if ps.len() == 0 {
        Seq::empty()
    } else {
        let p = ps[0];
        let rest = spec_attachments(ps.drop_first());
        if spec_part_is_attachment(p) {
            seq![spec_attachment_of(p)] + rest
        } else {
            rest
        }
    }
}

/// The attachment record of one part.
pub open spec fn spec_attachment_of(p: Seq<u8>) -> EmlAttachmentV {
    let disp = match spec_lookup(
        spec_part_headers(p),
        encode_utf8("content-disposition"@),
    ) {
        Some(d) => d,
        None => Seq::empty(),
    };
    let filename = match spec_param(disp, encode_utf8("filename="@)) {
        Some(f) => f,
        None => Seq::empty(),
    };
    let ct = spec_part_ct_lower(p);
    let semi = spec_find_byte(ct, 0, 59);
    let mime = if ct.len() == 0 {
        encode_utf8("application/octet-stream"@)
    } else {
        spec_trim(ct.subrange(0, semi))
    };
    EmlAttachmentV { filename, mime, content: spec_part_body(p) }
}

} // verus!

verus! {

/// Splits a part into its header lines.
pub fn part_headers(p: &[u8]) -> (r: Vec<Vec<u8>>)
    ensures
        spec_seq_views(r@) == spec_part_headers(p@),
{
    let (he, _bs) = body_split(p);
    let head = read_bytes(p, 0, he);
    split_lines(head.as_slice())
}

/// Extracts a part's body bytes.
pub fn part_body(p: &[u8]) -> (r: Vec<u8>)
    ensures
        r@ == spec_part_body(p@),
{
    let (_he, bs) = body_split(p);
    read_bytes(p, bs, p.len() - bs)
}

/// A part's lowercased `Content-Type` value, or empty.
pub fn part_ct_lower(p: &[u8]) -> (r: Vec<u8>)
    ensures
        r@ == spec_part_ct_lower(p@),
{
    let headers = part_headers(p);
    match header_lookup(&headers, "content-type".as_bytes()) {
        Some(v) => ascii_lower(v.as_slice()),
        None => Vec::new(),
    }
}

/// Whether a part declares itself an attachment.
pub fn part_is_attachment(p: &[u8]) -> (r: bool)
    ensures
        r == spec_part_is_attachment(p@),
{
    let headers = part_headers(p);
    match header_lookup(&headers, "content-disposition".as_bytes()) {
        Some(d) => {
            let dl = ascii_lower(d.as_slice());
            starts_with(dl.as_slice(), "attachment".as_bytes())
        },
        None => false,
    }
}

/// Builds the attachment record of one part.
pub fn attachment_of(p: &[u8]) -> (r: EmlAttachment)
    ensures
        r@ == spec_attachment_of(p@),
{
    let headers = part_headers(p);
    let disp: Vec<u8> = match header_lookup(&headers, "content-disposition".as_bytes()) {
        Some(d) => d,
        None => Vec::new(),
    };
    proof {
        reveal_strlit("filename=");
    }
    let filename: Vec<u8> = match param(disp.as_slice(), "filename=".as_bytes()) {
        Some(f) => f,
        None => Vec::new(),
    };
    let ct = part_ct_lower(p);
    let mime: Vec<u8> = if ct.len() == 0 {
        let mut m: Vec<u8> = Vec::new();
        crate::reader::append_bytes(&mut m, "application/octet-stream".as_bytes());
        proof {
            assert(m@ =~= encode_utf8("application/octet-stream"@));
        }
        m
    } else {
        let semi = find_byte(ct.as_slice(), 0, 59);
        let head = read_bytes(ct.as_slice(), 0, semi);
        proof {
            assert(head@ =~= spec_part_ct_lower(p@).subrange(
                0,
                spec_find_byte(spec_part_ct_lower(p@), 0, 59),
            ));
        }
        trim(head.as_slice())
    };
    let content = part_body(p);
    let r = EmlAttachment { filename, mime, content };
    proof {
        reveal_strlit("filename=");
    }
    r
}

/// Finds the body of the first matching non-attachment part.
pub fn first_body_with(ps: &Vec<Vec<u8>>, ct_prefix: &[u8], allow_missing_ct: bool) -> (r: Option<
    Vec<u8>,
>)
    ensures
        r matches Some(v) ==> spec_first_body_with(spec_seq_views(ps@), ct_prefix@, allow_missing_ct)
            == Some(v@),
        r is None ==> spec_first_body_with(spec_seq_views(ps@), ct_prefix@, allow_missing_ct)
            is None,
{
    let n = ps.len();
    let mut i: usize = 0;
    assert(spec_seq_views(ps@).skip(0) =~= spec_seq_views(ps@));
    while i < n
        invariant
            i <= n == ps@.len(),
            spec_first_body_with(spec_seq_views(ps@), ct_prefix@, allow_missing_ct)
                == spec_first_body_with(
                spec_seq_views(ps@).skip(i as int),
                ct_prefix@,
                allow_missing_ct,
            ),
        decreases n - i,
    {
        proof {
            assert(spec_seq_views(ps@).skip(i as int)[0] == ps@[i as int]@);
            assert(spec_seq_views(ps@).skip(i as int).drop_first() =~= spec_seq_views(ps@).skip(
                i + 1,
            ));
        }
        let p = &ps[i];
        let ct = part_ct_lower(p.as_slice());
        let ct_ok = starts_with(ct.as_slice(), ct_prefix) || (allow_missing_ct && ct.len() == 0);
        if ct_ok {
            if !part_is_attachment(p.as_slice()) {
                return Some(part_body(p.as_slice()));
            }
        }
        i = i + 1;
    }
    assert(spec_seq_views(ps@).skip(n as int) =~= Seq::<Seq<u8>>::empty());
    None
}

/// Collects the attachment records of a part list.
pub fn attachments_of(ps: &Vec<Vec<u8>>) -> (r: Vec<EmlAttachment>)
    ensures
        r@.map_values(|a: EmlAttachment| a@) == spec_attachments(spec_seq_views(ps@)),
{
    let n = ps.len();
    let mut out: Vec<EmlAttachment> = Vec::new();
    let mut i: usize = 0;
    assert(spec_seq_views(ps@).skip(0) =~= spec_seq_views(ps@));
    assert(out@.map_values(|a: EmlAttachment| a@) + spec_attachments(spec_seq_views(ps@))
        =~= spec_attachments(spec_seq_views(ps@)));
    while i < n
        invariant
            i <= n == ps@.len(),
            spec_attachments(spec_seq_views(ps@)) == out@.map_values(|a: EmlAttachment| a@)
                + spec_attachments(spec_seq_views(ps@).skip(i as int)),
        decreases n - i,
    {
        let ghost pre = out@.map_values(|a: EmlAttachment| a@);
        proof {
            assert(spec_seq_views(ps@).skip(i as int)[0] == ps@[i as int]@);
            assert(spec_seq_views(ps@).skip(i as int).drop_first() =~= spec_seq_views(ps@).skip(
                i + 1,
            ));
        }
        let p = &ps[i];
        if part_is_attachment(p.as_slice()) {
            let a = attachment_of(p.as_slice());
            out.push(a);
            proof {
                assert(out@.map_values(|a: EmlAttachment| a@) =~= pre + seq![
                    spec_attachment_of(ps@[i as int]@),
                ]);
                assert(pre + (seq![spec_attachment_of(ps@[i as int]@)] + spec_attachments(
                    spec_seq_views(ps@).skip(i + 1),
                )) =~= (pre + seq![spec_attachment_of(ps@[i as int]@)]) + spec_attachments(
                    spec_seq_views(ps@).skip(i + 1),
                ));
            }
        }
        i = i + 1;
    }
    assert(spec_attachments(spec_seq_views(ps@).skip(n as int)) =~= Seq::<EmlAttachmentV>::empty());
    assert(out@.map_values(|a: EmlAttachment| a@) + Seq::<EmlAttachmentV>::empty()
        =~= out@.map_values(|a: EmlAttachment| a@));
    out
}

/// The chosen body text and the attachments of a message body under the
/// given `Content-Type` header value.
pub open spec fn spec_body_and_attachments(
    raw: Seq<u8>,
    ct: Option<Seq<u8>>,
    strip_markup: bool,
) -> (Seq<u8>, Seq<EmlAttachmentV>) {
    match ct {
        None => (raw, Seq::empty()),
        Some(ctv) => {
            let ctl = spec_ascii_lower(ctv);
            if spec_starts_with(ctl, encode_utf8("multipart/"@)) {
                match spec_param(ctv, encode_utf8("boundary="@)) {
                    Some(bd) => {
                        if bd.len() > 0 {
                            let delim = encode_utf8("--"@) + bd;
                            let ps = spec_parts(raw, delim);
                            let body = match spec_first_body_with(
                                ps,
                                encode_utf8("text/plain"@),
                                true,
                            ) {
                                Some(x) => x,
                                None => match spec_first_body_with(
                                    ps,
                                    encode_utf8("text/html"@),
                                    false,
                                ) {
                                    Some(h) => crate::html::spec_sanitize(h, strip_markup),
                                    None => Seq::empty(),
                                },
                            };
                            (body, spec_attachments(ps))
                        } else {
                            (raw, Seq::empty())
                        }
                    },
                    None => (raw, Seq::empty()),
                }
            } else if spec_starts_with(ctl, encode_utf8("text/html"@)) {
                (crate::html::spec_sanitize(raw, strip_markup), Seq::empty())
            } else {
                (raw, Seq::empty())
            }
        },
    }
}

/// Computes the body text and attachments for a message.
pub fn body_and_attachments(raw: &[u8], ct: &Option<Vec<u8>>, strip_markup: bool) -> (r: (
    Vec<u8>,
    Vec<EmlAttachment>,
))
    ensures
        (r.0@, r.1@.map_values(|a: EmlAttachment| a@)) == spec_body_and_attachments(
            raw@,
            match ct {
                Some(v) => Some::<Seq<u8>>(v@),
                None => None::<Seq<u8>>,
            },
            strip_markup,
        ),
{
    match ct {
        None => {
            let empty: Vec<EmlAttachment> = Vec::new();
            assert(empty@.map_values(|a: EmlAttachment| a@) =~= Seq::<EmlAttachmentV>::empty());
            (read_bytes(raw, 0, raw.len()), empty)
        },
        Some(ctv) => {
            let ctl = ascii_lower(ctv.as_slice());
            if starts_with(ctl.as_slice(), "multipart/".as_bytes()) {
                proof {
                    reveal_strlit("boundary=");
                }
                match param(ctv.as_slice(), "boundary=".as_bytes()) {
                    Some(bd) => {
                        if bd.len() > 0 {
                            let mut delim: Vec<u8> = Vec::new();
                            crate::reader::append_bytes(&mut delim, "--".as_bytes());
                            crate::reader::append_bytes(&mut delim, bd.as_slice());
                            assert(delim@ =~= encode_utf8("--"@) + bd@);
                            proof {
                                reveal_strlit("--");
                            }
                            let ps = parts(raw, delim.as_slice());
                            let body: Vec<u8> = match first_body_with(
                                &ps,
                                "text/plain".as_bytes(),
                                true,
                            ) {
                                Some(x) => x,
                                None => match first_body_with(&ps, "text/html".as_bytes(), false) {
                                    Some(h) => crate::html::sanitize(h.as_slice(), strip_markup),
                                    None => Vec::new(),
                                },
                            };
                            let atts = attachments_of(&ps);
                            (body, atts)
                        } else {
                            let empty: Vec<EmlAttachment> = Vec::new();
                            assert(empty@.map_values(|a: EmlAttachment| a@) =~= Seq::<
                                EmlAttachmentV,
                            >::empty());
                            (read_bytes(raw, 0, raw.len()), empty)
                        }
                    },
                    None => {
                        let empty: Vec<EmlAttachment> = Vec::new();
                        assert(empty@.map_values(|a: EmlAttachment| a@) =~= Seq::<
                            EmlAttachmentV,
                        >::empty());
                        (read_bytes(raw, 0, raw.len()), empty)
                    },
                }
            } else if starts_with(ctl.as_slice(), "text/html".as_bytes()) {
                let empty: Vec<EmlAttachment> = Vec::new();
                assert(empty@.map_values(|a: EmlAttachment| a@) =~= Seq::<EmlAttachmentV>::empty());
                (crate::html::sanitize(raw, strip_markup), empty)
            } else {
                let empty: Vec<EmlAttachment> = Vec::new();
                assert(empty@.map_values(|a: EmlAttachment| a@) =~= Seq::<EmlAttachmentV>::empty());
                (read_bytes(raw, 0, raw.len()), empty)
            }
        },
    }
}

/// What parsing an RFC822 message yields: each metadata header looked up
/// by name, address lists split and reduced to bare addresses, and the
/// body chosen by the multipart rules.
pub open spec fn spec_parse_eml(b: Seq<u8>, strip_markup: bool) -> EmlMessageV {
    let hb = spec_body_split(b, 0);
    let lines = spec_split_lines(b.subrange(0, hb.0));
    let raw_body = b.subrange(hb.1, b.len() as int);
    let ct = spec_lookup(lines, encode_utf8("content-type"@));
    let ba = spec_body_and_attachments(raw_body, ct, strip_markup);
    EmlMessageV {
        subject: spec_lookup(lines, encode_utf8("subject"@)),
        from: match spec_lookup(lines, encode_utf8("from"@)) {
            Some(v) => Some(spec_extract_addr(v)),
            None => None,
        },
        tos: match spec_lookup(lines, encode_utf8("to"@)) {
            Some(v) => spec_split_addrs(v),
            None => Seq::empty(),
        },
        ccs: match spec_lookup(lines, encode_utf8("cc"@)) {
            Some(v) => spec_split_addrs(v),
            None => Seq::empty(),
        },
        bccs: match spec_lookup(lines, encode_utf8("bcc"@)) {
            Some(v) => spec_split_addrs(v),
            None => Seq::empty(),
        },
        message_id: spec_lookup(lines, encode_utf8("message-id"@)),
        date: spec_lookup(lines, encode_utf8("date"@)),
        body: ba.0,
        attachments: ba.1,
    }
}

/// Parses an RFC822 message.  Parsing is total: headers that are absent
/// stay `None`, and a buffer with no recognizable structure becomes a
/// message whose body is the whole input.
pub fn parse_eml(b: &[u8], strip_markup: bool) -> (r: EmlMessage)
    ensures
        r@ == spec_parse_eml(b@, strip_markup),
{
    let (he, bs) = body_split(b);
    let head = read_bytes(b, 0, he);
    let lines = split_lines(head.as_slice());
    let raw_body = read_bytes(b, bs, b.len() - bs);
    let ct = header_lookup(&lines, "content-type".as_bytes());
    let (body, atts) = body_and_attachments(raw_body.as_slice(), &ct, strip_markup);
    let subject = header_lookup(&lines, "subject".as_bytes());
    let from = match header_lookup(&lines, "from".as_bytes()) {
        Some(v) => Some(extract_addr(v.as_slice())),
        None => None,
    };
    let tos = match header_lookup(&lines, "to".as_bytes()) {
        Some(v) => split_addrs(v.as_slice()),
        None => Vec::new(),
    };
    let ccs = match header_lookup(&lines, "cc".as_bytes()) {
        Some(v) => split_addrs(v.as_slice()),
        None => Vec::new(),
    };
    let bccs = match header_lookup(&lines, "bcc".as_bytes()) {
        Some(v) => split_addrs(v.as_slice()),
        None => Vec::new(),
    };
    let message_id = header_lookup(&lines, "message-id".as_bytes());
    let date = header_lookup(&lines, "date".as_bytes());
    let r = EmlMessage { subject, from, tos, ccs, bccs, message_id, date, body, attachments: atts };
    proof {
        assert(spec_seq_views(Seq::<Vec<u8>>::empty()) =~= Seq::<Seq<u8>>::empty());
    }
    r
}

} // verus!
