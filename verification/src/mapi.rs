//! MAPI property decoding for Outlook message containers.  Property
//! streams are named by a fixed pattern that encodes a 16-bit property
//! identifier and a 16-bit type code; recipients and attachments live in
//! numbered child storages decoded as nested property sets.

use vstd::prelude::*;
use vstd::utf8::encode_utf8;

use crate::cfb::{
    spec_inorder, spec_read_stream, CfbContainer, CfbContainerV, DirEntryV,
};
use crate::reader::{le_u32_at, le_u64_at, spec_le_u32, spec_le_u64};
use crate::text::{
    spec_u16s_le, spec_valid_utf8_of, to_valid_utf8, utf16_chars, utf16_to_utf8, utf16_units,
};

verus! {

/// Unicode string property type.
pub const PT_UNICODE: u16 = 0x001F;

/// 8-bit (code-page) string property type.
pub const PT_STRING8: u16 = 0x001E;

/// Binary property type.
pub const PT_BINARY: u16 = 0x0102;

/// A byte sequence read as UTF-16 code units one-for-one (ASCII names).
pub open spec fn spec_units_of_bytes(b: Seq<u8>) -> Seq<u16> {
    b.map(|_i: int, x: u8| x as u16)
}

/// Reads ASCII bytes as UTF-16 code units.
pub fn ascii_units(b: &[u8]) -> (r: Vec<u16>)
    ensures
        r@ == spec_units_of_bytes(b@),
{
    let n = b.len();
    let mut out: Vec<u16> = Vec::new();
    let mut i: usize = 0;
    while i < n
        invariant
            i <= n == b@.len(),
            out@.len() == i,
            forall|j: int| 0 <= j < i ==> out@[j] == b@[j] as u16,
        decreases n - i,
    {
        out.push(b[i] as u16);
        i = i + 1;
    }
    assert(out@ =~= spec_units_of_bytes(b@));
    out
}

/// The value of one uppercase-hex UTF-16 digit.
pub open spec fn spec_hex_digit(u: u16) -> Option<u16> {
    if 48 <= u <= 57 {
        Some((u - 48) as u16)
    } else if 65 <= u <= 70 {
        Some((u - 55) as u16)
    } else {
        None
    }
}

/// The value of the four hex digits at `off`.
pub open spec fn spec_hex4(name: Seq<u16>, off: int) -> Option<u16> {
    match (spec_hex_digit(name[off]), spec_hex_digit(name[off + 1]), spec_hex_digit(
        name[off + 2],
    ), spec_hex_digit(name[off + 3])) {
        (Some(d0), Some(d1), Some(d2), Some(d3)) => Some(
            (d0 * 0x1000 + d1 * 0x100 + d2 * 0x10 + d3) as u16,
        ),
        _ => None,
    }
}

/// The name prefix of every property stream: `__substg1.0_` as UTF-16
/// code units.
pub open spec fn spec_substg_prefix() -> Seq<u16> {
    seq![95u16, 95u16, 115u16, 117u16, 98u16, 115u16, 116u16, 103u16, 49u16, 46u16, 48u16, 95u16]
}

/// The property identifier and type encoded in a stream name, when the
/// name follows the `__substg1.0_IIIITTTT` pattern.
pub open spec fn spec_parse_substg(name: Seq<u16>) -> Option<(u16, u16)> {
    if name.len() == 20 && name.subrange(0, 12) == spec_substg_prefix() {
        match (spec_hex4(name, 12), spec_hex4(name, 16)) {
            (Some(id), Some(ty)) => Some((id, ty)),
            _ => None,
        }
    } else {
        None
    }
}

/// Decodes one hex digit.
fn hex_digit(u: u16) -> (r: Option<u16>)
    ensures
        r == spec_hex_digit(u),
{
    if 48 <= u && u <= 57 {
        Some(u - 48)
    } else if 65 <= u && u <= 70 {
        Some(u - 55)
    } else {
        None
    }
}

/// Parses a property stream name into its identifier and type.
pub fn parse_substg(name: &Vec<u16>) -> (r: Option<(u16, u16)>)
    ensures
        r == spec_parse_substg(name@),
{
    if name.len() != 20 {
        return None;
    }
    let prefix: [u16; 12] = [95, 95, 115, 117, 98, 115, 116, 103, 49, 46, 48, 95];
    assert(prefix@ =~= spec_substg_prefix());
    let mut i: usize = 0;
    while i < 12
        invariant
            name@.len() == 20,
            prefix@ == spec_substg_prefix(),
            i <= 12,
            forall|j: int| 0 <= j < i ==> name@[j] == prefix@[j],
        decreases 12 - i,
    {
        if name[i] != prefix[i] {
            proof {
                assert(name@.subrange(0, 12)[i as int] != spec_substg_prefix()[i as int]);
            }
            return None;
        }
        i = i + 1;
    }
    assert(name@.subrange(0, 12) =~= spec_substg_prefix());
    let id = match hex4(name, 12) {
        Some(v) => v,
        None => {
            return None;
        },
    };
    let ty = match hex4(name, 16) {
        Some(v) => v,
        None => {
            return None;
        },
    };
    Some((id, ty))
}

/// Reads four hex digits at `off`.
fn hex4(name: &Vec<u16>, off: usize) -> (r: Option<u16>)
    requires
        off + 4 <= name@.len(),
    ensures
        r == spec_hex4(name@, off as int),
{
    let n = name.len();
    let d0 = match hex_digit(name[off]) {
        Some(v) => v,
        None => {
            return None;
        },
    };
    let d1 = match hex_digit(name[off + 1]) {
        Some(v) => v,
        None => {
            return None;
        },
    };
    let d2 = match hex_digit(name[off + 2]) {
        Some(v) => v,
        None => {
            return None;
        },
    };
    let d3 = match hex_digit(name[off + 3]) {
        Some(v) => v,
        None => {
            return None;
        },
    };
    Some(d0 * 0x1000 + d1 * 0x100 + d2 * 0x10 + d3)
}

/// The first child in `children` that is a property stream for `(id, ty)`;
/// out-of-range child indices are skipped, never fatal.
pub open spec fn spec_find_prop(
    entries: Seq<DirEntryV>,
    children: Seq<u32>,
    id: u16,
    ty: u16,
) -> Option<u32>
    decreases children.len(),
{
    if children.len() == 0 {
        None
    } else {
        let c = children[0];
        if c < entries.len() && entries[c as int].obj_type == 2 && spec_parse_substg(
            entries[c as int].name,
        ) == Some((id, ty)) {
            Some(c)
        } else {
            spec_find_prop(entries, children.drop_first(), id, ty)
        }
    }
}

/// Finds the property stream for `(id, ty)` among the given children.
pub fn find_prop(c: &CfbContainer<'_>, children: &Vec<u32>, id: u16, ty: u16) -> (r: Option<u32>)
    ensures
        r == spec_find_prop(c@.entries, children@, id, ty),
        r matches Some(i) ==> (i as int) < c@.entries.len(),
{
    let n = children.len();
    let mut k: usize = 0;
    assert(children@.skip(0) =~= children@);
    while k < n
        invariant
            k <= n == children@.len(),
            spec_find_prop(c@.entries, children@, id, ty) == spec_find_prop(
                c@.entries,
                children@.skip(k as int),
                id,
                ty,
            ),
        decreases n - k,
    {
        proof {
            assert(children@.skip(k as int)[0] == children@[k as int]);
            assert(children@.skip(k as int).drop_first() =~= children@.skip(k + 1));
        }
        let ci = children[k];
        if (ci as usize) < c.entries.len() {
            proof {
                assert(crate::cfb::spec_views(c.entries@)[ci as int] == c.entries@[ci as int]@);
            }
            let e = &c.entries[ci as usize];
            if e.obj_type == 2 {
                if let Some(pt) = parse_substg(&e.name) {
                    if pt.0 == id && pt.1 == ty {
                        return Some(ci);
                    }
                }
            }
        }
        k = k + 1;
    }
    assert(children@.skip(n as int) =~= Seq::<u32>::empty());
    None
}

} // verus!

verus! {

/// The UTF-8 text of the `(id, PT_UNICODE)` property if that stream exists
/// and reads cleanly, else of the `(id, PT_STRING8)` property, else `None`.
/// A stream that fails to read is skipped, never fatal.
pub open spec fn spec_string_prop(
    bufv: Seq<u8>,
    cv: CfbContainerV,
    children: Seq<u32>,
    id: u16,
) -> Option<Seq<u8>> {
    match spec_find_prop(cv.entries, children, id, PT_UNICODE) {
        Some(i) => match spec_read_stream(bufv, cv, i as int) {
            Ok(d) => Some(encode_utf8(utf16_chars(spec_u16s_le(d)))),
            Err(_) => None,
        },
        None => match spec_find_prop(cv.entries, children, id, PT_STRING8) {
            Some(i) => match spec_read_stream(bufv, cv, i as int) {
                Ok(d) => Some(spec_valid_utf8_of(d)),
                Err(_) => None,
            },
            None => None,
        },
    }
}

/// Reads a string property as UTF-8 bytes, preferring the Unicode variant.
pub fn string_prop(c: &CfbContainer<'_>, children: &Vec<u32>, id: u16) -> (r: Option<Vec<u8>>)
    requires
        c@.wf(),
    ensures
        r matches Some(v) ==> spec_string_prop(c.buf@, c@, children@, id) == Some(v@),
        r is None ==> spec_string_prop(c.buf@, c@, children@, id) is None,
{
    match find_prop(c, children, id, PT_UNICODE) {
        Some(i) => match c.read_stream(i as usize) {
            Ok(d) => {
                let units = utf16_units(d.as_slice());
                Some(utf16_to_utf8(units.as_slice()))
            },
            Err(_) => None,
        },
        None => match find_prop(c, children, id, PT_STRING8) {
            Some(i) => match c.read_stream(i as usize) {
                Ok(d) => Some(to_valid_utf8(d.as_slice())),
                Err(_) => None,
            },
            None => None,
        },
    }
}

/// The raw bytes of the `(id, PT_BINARY)` property, when present and
/// readable.
pub open spec fn spec_binary_prop(
    bufv: Seq<u8>,
    cv: CfbContainerV,
    children: Seq<u32>,
    id: u16,
) -> Option<Seq<u8>> {
    match spec_find_prop(cv.entries, children, id, PT_BINARY) {
        Some(i) => match spec_read_stream(bufv, cv, i as int) {
            Ok(d) => Some(d),
            Err(_) => None,
        },
        None => None,
    }
}

/// Reads a binary property's bytes.
pub fn binary_prop(c: &CfbContainer<'_>, children: &Vec<u32>, id: u16) -> (r: Option<Vec<u8>>)
    requires
        c@.wf(),
    ensures
        r matches Some(v) ==> spec_binary_prop(c.buf@, c@, children@, id) == Some(v@),
        r is None ==> spec_binary_prop(c.buf@, c@, children@, id) is None,
{
    match find_prop(c, children, id, PT_BINARY) {
        Some(i) => match c.read_stream(i as usize) {
            Ok(d) => Some(d),
            Err(_) => None,
        },
        None => None,
    }
}

/// The name of the fixed-size property stream, `__properties_version1.0`,
/// as UTF-16 code units.
pub open spec fn spec_props_name() -> Seq<u16> {
    seq![
        95u16, 95u16, 112u16, 114u16, 111u16, 112u16, 101u16, 114u16, 116u16, 105u16, 101u16,
        115u16, 95u16, 118u16, 101u16, 114u16, 115u16, 105u16, 111u16, 110u16, 49u16, 46u16,
        48u16,
    ]
}

/// The first child stream with exactly the given name.
pub open spec fn spec_find_named(
    entries: Seq<DirEntryV>,
    children: Seq<u32>,
    name: Seq<u16>,
) -> Option<u32>
    decreases children.len(),
{
    if children.len() == 0 {
        None
    } else {
        let c = children[0];
        if c < entries.len() && entries[c as int].obj_type == 2 && entries[c as int].name == name {
            Some(c)
        } else {
            spec_find_named(entries, children.drop_first(), name)
        }
    }
}

/// Finds a child stream by exact name.
pub fn find_named(c: &CfbContainer<'_>, children: &Vec<u32>, name: &Vec<u16>) -> (r: Option<u32>)
    ensures
        r == spec_find_named(c@.entries, children@, name@),
        r matches Some(i) ==> (i as int) < c@.entries.len(),
{
    let n = children.len();
    let mut k: usize = 0;
    assert(children@.skip(0) =~= children@);
    while k < n
        invariant
            k <= n == children@.len(),
            spec_find_named(c@.entries, children@, name@) == spec_find_named(
                c@.entries,
                children@.skip(k as int),
                name@,
            ),
        decreases n - k,
    {
        proof {
            assert(children@.skip(k as int)[0] == children@[k as int]);
            assert(children@.skip(k as int).drop_first() =~= children@.skip(k + 1));
        }
        let ci = children[k];
        if (ci as usize) < c.entries.len() {
            proof {
                assert(crate::cfb::spec_views(c.entries@)[ci as int] == c.entries@[ci as int]@);
            }
            let e = &c.entries[ci as usize];
            if e.obj_type == 2 && u16s_eq(&e.name, name) {
                return Some(ci);
            }
        }
        k = k + 1;
    }
    assert(children@.skip(n as int) =~= Seq::<u32>::empty());
    None
}

/// Compares two code-unit sequences.
pub fn u16s_eq(a: &Vec<u16>, b: &Vec<u16>) -> (r: bool)
    ensures
        r == (a@ == b@),
{
    if a.len() != b.len() {
        assert(a@.len() != b@.len());
        return false;
    }
    let n = a.len();
    let mut i: usize = 0;
    while i < n
        invariant
            n == a@.len() == b@.len(),
            i <= n,
            forall|j: int| 0 <= j < i ==> a@[j] == b@[j],
        decreases n - i,
    {
        if a[i] != b[i] {
            return false;
        }
        i = i + 1;
    }
    assert(a@ =~= b@);
    true
}

/// The value half of the first 16-byte record with the given tag,
/// scanning from `pos` in steps of 16.
pub open spec fn spec_fixed_prop(d: Seq<u8>, pos: int, tag: u32) -> Option<u64>
    decreases d.len() - pos when 0 <= pos
{
    if pos + 16 > d.len() {
        None
    } else if spec_le_u32(d, pos) == tag {
        Some(spec_le_u64(d, pos + 8))
    } else {
        spec_fixed_prop(d, pos + 16, tag)
    }
}

/// Scans a fixed-property stream for a tag.
pub fn fixed_prop(d: &[u8], start: usize, tag: u32) -> (r: Option<u64>)
    ensures
        r == spec_fixed_prop(d@, start as int, tag),
{
    let n = d.len();
    let mut pos: usize = start;
    loop
        invariant
            n == d@.len(),
            pos >= start,
            spec_fixed_prop(d@, start as int, tag) == spec_fixed_prop(d@, pos as int, tag),
        decreases n + 16 - pos,
    {
        if n < 16 || pos > n - 16 {
            return None;
        }
        if le_u32_at(d, pos) == tag {
            return Some(le_u64_at(d, pos + 8));
        }
        pos = pos + 16;
    }
}

/// The child storages whose name begins with `prefix`, in traversal order.
pub open spec fn spec_storages_with_prefix(
    entries: Seq<DirEntryV>,
    children: Seq<u32>,
    prefix: Seq<u16>,
) -> Seq<u32>
    decreases children.len(),
{
    if children.len() == 0 {
        Seq::empty()
    } else {
        let c = children[0];
        let rest = spec_storages_with_prefix(entries, children.drop_first(), prefix);
        if c < entries.len() && entries[c as int].obj_type == 1 && entries[c as int].name.len()
            >= prefix.len() && entries[c as int].name.subrange(0, prefix.len() as int) == prefix {
            seq![c] + rest
        } else {
            rest
        }
    }
}

/// Lists child storages by name prefix.
pub fn storages_with_prefix(c: &CfbContainer<'_>, children: &Vec<u32>, prefix: &Vec<u16>) -> (r:
    Vec<u32>)
    ensures
        r@ == spec_storages_with_prefix(c@.entries, children@, prefix@),
{
    let n = children.len();
    let mut out: Vec<u32> = Vec::new();
    let mut k: usize = 0;
    assert(children@.skip(0) =~= children@);
    assert(out@ + spec_storages_with_prefix(c@.entries, children@, prefix@)
        =~= spec_storages_with_prefix(c@.entries, children@, prefix@));
    while k < n
        invariant
            k <= n == children@.len(),
            spec_storages_with_prefix(c@.entries, children@, prefix@) == out@
                + spec_storages_with_prefix(c@.entries, children@.skip(k as int), prefix@),
        decreases n - k,
    {
        let ghost pre = out@;
        proof {
            assert(children@.skip(k as int)[0] == children@[k as int]);
            assert(children@.skip(k as int).drop_first() =~= children@.skip(k + 1));
        }
        let ci = children[k];
        let mut is_hit = false;
        if (ci as usize) < c.entries.len() {
            proof {
                assert(crate::cfb::spec_views(c.entries@)[ci as int] == c.entries@[ci as int]@);
            }
            let e = &c.entries[ci as usize];
            if e.obj_type == 1 && e.name.len() >= prefix.len() {
                let mut j: usize = 0;
                let m = prefix.len();
                let mut all = true;
                while j < m
                    invariant
                        m == prefix@.len() <= e.name@.len(),
                        j <= m,
                        all == (forall|t: int| 0 <= t < j ==> e.name@[t] == prefix@[t]),
                    decreases m - j,
                {
                    if e.name[j] != prefix[j] {
                        all = false;
                        j = m;
                    } else {
                        j = j + 1;
                    }
                }
                if all {
                    assert(e.name@.subrange(0, prefix@.len() as int) =~= prefix@);
                    is_hit = true;
                } else {
                    proof {
                        let t = choose|t: int| 0 <= t < m && e.name@[t] != prefix@[t];
                        assert(e.name@.subrange(0, prefix@.len() as int)[t] != prefix@[t]);
                    }
                }
            }
        }
        if is_hit {
            out.push(ci);
            proof {
                assert(out@ =~= pre + seq![children@[k as int]]);
                assert(pre + (seq![children@[k as int]] + spec_storages_with_prefix(
                    c@.entries,
                    children@.skip(k + 1),
                    prefix@,
                )) =~= (pre + seq![children@[k as int]]) + spec_storages_with_prefix(
                    c@.entries,
                    children@.skip(k + 1),
                    prefix@,
                ));
            }
        }
        k = k + 1;
    }
    assert(children@.skip(n as int) =~= Seq::<u32>::empty());
    assert(out@ + spec_storages_with_prefix(c@.entries, children@.skip(n as int), prefix@)
        =~= out@);
    out
}

} // verus!

verus! {

/// `__recip_version1.0_#`, the name prefix of recipient storages.
pub open spec fn spec_recip_prefix() -> Seq<u16> {
    seq![
        95u16, 95u16, 114u16, 101u16, 99u16, 105u16, 112u16, 95u16, 118u16, 101u16, 114u16,
        115u16, 105u16, 111u16, 110u16, 49u16, 46u16, 48u16, 95u16, 35u16,
    ]
}

/// `__attach_version1.0_#`, the name prefix of attachment storages.
pub open spec fn spec_attach_prefix() -> Seq<u16> {
    seq![
        95u16, 95u16, 97u16, 116u16, 116u16, 97u16, 99u16, 104u16, 95u16, 118u16, 101u16,
        114u16, 115u16, 105u16, 111u16, 110u16, 49u16, 46u16, 48u16, 95u16, 35u16,
    ]
}

/// The in-order child list of entry `idx`.
pub open spec fn spec_children_of(cv: CfbContainerV, idx: int) -> Option<Seq<u32>> {
    spec_inorder(cv.entries, cv.entries[idx].child, cv.entries.len())
}

/// A recipient storage's address: the SMTP address property when present,
/// else the address property, else the display name.
pub open spec fn spec_recipient_email(bufv: Seq<u8>, cv: CfbContainerV, r: u32) -> Option<Seq<u8>> {
    if r >= cv.entries.len() {
        None
    } else {
        match spec_children_of(cv, r as int) {
            None => None,
            Some(ch) => match spec_string_prop(bufv, cv, ch, 0x39FE) {
                Some(e) => Some(e),
                None => match spec_string_prop(bufv, cv, ch, 0x3003) {
                    Some(e) => Some(e),
                    None => spec_string_prop(bufv, cv, ch, 0x3001),
                },
            },
        }
    }
}

/// A recipient storage's kind from its fixed-property stream: 1 To, 2 Cc,
/// 3 Bcc; anything unreadable counts as To.
pub open spec fn spec_recipient_kind(bufv: Seq<u8>, cv: CfbContainerV, r: u32) -> u64 {
    if r >= cv.entries.len() {
        1
    } else {
        match spec_children_of(cv, r as int) {
            None => 1,
            Some(ch) => match spec_find_named(cv.entries, ch, spec_props_name()) {
                None => 1,
                Some(i) => match spec_read_stream(bufv, cv, i as int) {
                    Err(_) => 1,
                    Ok(d) => match spec_fixed_prop(d, 8, 0x0C15_0003) {
                        Some(v) => v & 0xFFFF_FFFF,
                        None => 1,
                    },
                },
            },
        }
    }
}

/// The To, Cc and Bcc address lists contributed by the given recipient
/// storages, in storage order.
pub open spec fn spec_recipients(bufv: Seq<u8>, cv: CfbContainerV, rs: Seq<u32>) -> (
    Seq<Seq<u8>>,
    Seq<Seq<u8>>,
    Seq<Seq<u8>>,
)
    decreases rs.len(),
{
    if rs.len() == 0 {
        (Seq::empty(), Seq::empty(), Seq::empty())
    } else {
        let rest = spec_recipients(bufv, cv, rs.drop_first());
        match spec_recipient_email(bufv, cv, rs[0]) {
            None => rest,
            Some(e) => {
                let k = spec_recipient_kind(bufv, cv, rs[0]);
                if k == 2 {
                    (rest.0, seq![e] + rest.1, rest.2)
                } else if k == 3 {
                    (rest.0, rest.1, seq![e] + rest.2)
                } else {
                    (seq![e] + rest.0, rest.1, rest.2)
                }
            },
        }
    }
}

/// One attachment of a message.
pub struct MsgAttachment {
    /// Declared file name, as UTF-8 bytes; empty when absent.
    pub filename: Vec<u8>,
    /// Declared MIME type; a generic default when absent.
    pub mime: Vec<u8>,
    /// Exact byte length of the attachment's data stream.
    pub size: usize,
}

/// Mathematical image of an attachment record.
pub ghost struct MsgAttachmentV {
    pub filename: Seq<u8>,
    pub mime: Seq<u8>,
    pub size: int,
}

impl View for MsgAttachment {
    type V = MsgAttachmentV;

    open spec fn view(&self) -> MsgAttachmentV {
        MsgAttachmentV { filename: self.filename@, mime: self.mime@, size: self.size as int }
    }
}

/// The attachment record of one attachment storage.
pub open spec fn spec_msg_attachment(bufv: Seq<u8>, cv: CfbContainerV, a: u32) -> MsgAttachmentV {
    let none_rec = MsgAttachmentV {
        filename: Seq::empty(),
        mime: encode_utf8("application/octet-stream"@),
        size: 0,
    };
    if a >= cv.entries.len() {
        none_rec
    } else {
        match spec_children_of(cv, a as int) {
            None => none_rec,
            Some(ch) => MsgAttachmentV {
                filename: match spec_string_prop(bufv, cv, ch, 0x3707) {
                    Some(f) => f,
                    None => match spec_string_prop(bufv, cv, ch, 0x3704) {
                        Some(f) => f,
                        None => Seq::empty(),
                    },
                },
                mime: match spec_string_prop(bufv, cv, ch, 0x370E) {
                    Some(m) => m,
                    None => encode_utf8("application/octet-stream"@),
                },
                size: match spec_find_prop(cv.entries, ch, 0x3701, PT_BINARY) {
                    Some(i) => match spec_read_stream(bufv, cv, i as int) {
                        Ok(d) => d.len() as int,
                        Err(_) => 0,
                    },
                    None => 0,
                },
            },
        }
    }
}

/// The attachment records of the given storages, in storage order.
pub open spec fn spec_msg_attachments(bufv: Seq<u8>, cv: CfbContainerV, ats: Seq<u32>) -> Seq<
    MsgAttachmentV,
>
    decreases ats.len(),
{
    if ats.len() == 0 {
        Seq::empty()
    } else {
        seq![spec_msg_attachment(bufv, cv, ats[0])] + spec_msg_attachments(
            bufv,
            cv,
            ats.drop_first(),
        )
    }
}

/// A decoded Outlook message, all text as UTF-8 bytes.
pub struct MsgMessage {
    /// Subject property.
    pub subject: Option<Vec<u8>>,
    /// Sender address, SMTP variant preferred.
    pub sender: Option<Vec<u8>>,
    /// To recipients, in storage order.
    pub tos: Vec<Vec<u8>>,
    /// Cc recipients, in storage order.
    pub ccs: Vec<Vec<u8>>,
    /// Bcc recipients, in storage order.
    pub bccs: Vec<Vec<u8>>,
    /// Internet message identifier property.
    pub message_id: Option<Vec<u8>>,
    /// Client-submit time as a Windows file time, when recorded.
    pub submit_time: Option<u64>,
    /// Chosen body: sanitized HTML body when present, else the plain-text
    /// body property.
    pub body: Vec<u8>,
    /// Attachment records, in storage order.
    pub attachments: Vec<MsgAttachment>,
}

/// Mathematical image of a decoded message.
pub ghost struct MsgMessageV {
    pub subject: Option<Seq<u8>>,
    pub sender: Option<Seq<u8>>,
    pub tos: Seq<Seq<u8>>,
    pub ccs: Seq<Seq<u8>>,
    pub bccs: Seq<Seq<u8>>,
    pub message_id: Option<Seq<u8>>,
    pub submit_time: Option<u64>,
    pub body: Seq<u8>,
    pub attachments: Seq<MsgAttachmentV>,
}

impl View for MsgMessage {
    type V = MsgMessageV;

    open spec fn view(&self) -> MsgMessageV {
        MsgMessageV {
            subject: match self.subject {
                Some(ref v) => Some(v@),
                None => None,
            },
            sender: match self.sender {
                Some(ref v) => Some(v@),
                None => None,
            },
            tos: self.tos@.map_values(|x: Vec<u8>| x@),
            ccs: self.ccs@.map_values(|x: Vec<u8>| x@),
            bccs: self.bccs@.map_values(|x: Vec<u8>| x@),
            message_id: match self.message_id {
                Some(ref v) => Some(v@),
                None => None,
            },
            submit_time: self.submit_time,
            body: self.body@,
            attachments: self.attachments@.map_values(|a: MsgAttachment| a@),
        }
    }
}

/// The plain-text body property, or nothing.
pub open spec fn spec_plain_body(bufv: Seq<u8>, cv: CfbContainerV, ch: Seq<u32>) -> Seq<u8> {
    match spec_string_prop(bufv, cv, ch, 0x1000) {
        Some(t) => t,
        None => Seq::empty(),
    }
}

/// What decoding an Outlook message container yields: every property of
/// interest looked up in the root's child streams, recipients and
/// attachments decoded from their numbered storages, and the body taken
/// from the HTML property when it exists, else the plain-text property.
pub open spec fn spec_decode_msg(
    bufv: Seq<u8>,
    cv: CfbContainerV,
    strip_markup: bool,
) -> Result<MsgMessageV, crate::cfb::CfbError> {
    match spec_children_of(cv, 0) {
        None => Err(crate::cfb::CfbError::CorruptChain),
        Some(ch) => {
            let recips = spec_recipients(
                bufv,
                cv,
                spec_storages_with_prefix(cv.entries, ch, spec_recip_prefix()),
            );
            Ok(MsgMessageV {
                subject: spec_string_prop(bufv, cv, ch, 0x0037),
                sender: match spec_string_prop(bufv, cv, ch, 0x5D01) {
                    Some(e) => Some(e),
                    None => spec_string_prop(bufv, cv, ch, 0x0C1F),
                },
                tos: recips.0,
                ccs: recips.1,
                bccs: recips.2,
                message_id: spec_string_prop(bufv, cv, ch, 0x1035),
                submit_time: match spec_find_named(cv.entries, ch, spec_props_name()) {
                    None => None,
                    Some(i) => match spec_read_stream(bufv, cv, i as int) {
                        Err(_) => None,
                        Ok(d) => spec_fixed_prop(d, 32, 0x0039_0040),
                    },
                },
                body: match spec_binary_prop(bufv, cv, ch, 0x1013) {
                    Some(h) => if h.len() > 0 {
                        crate::html::spec_sanitize(h, strip_markup)
                    } else {
                        spec_plain_body(bufv, cv, ch)
                    },
                    None => spec_plain_body(bufv, cv, ch),
                },
                attachments: spec_msg_attachments(
                    bufv,
                    cv,
                    spec_storages_with_prefix(cv.entries, ch, spec_attach_prefix()),
                ),
            })
        },
    }
}

} // verus!

verus! {

/// Reads one recipient storage's address.
fn recipient_email(c: &CfbContainer<'_>, r: u32) -> (res: Option<Vec<u8>>)
    requires
        c@.wf(),
    ensures
        res matches Some(v) ==> spec_recipient_email(c.buf@, c@, r) == Some(v@),
        res is None ==> spec_recipient_email(c.buf@, c@, r) is None,
{
    if (r as usize) >= c.entries.len() {
        return None;
    }
    let ch = match c.children_of(r as usize) {
        Ok(v) => v,
        Err(_) => {
            return None;
        },
    };
    match string_prop(c, &ch, 0x39FE) {
        Some(e) => Some(e),
        None => match string_prop(c, &ch, 0x3003) {
            Some(e) => Some(e),
            None => string_prop(c, &ch, 0x3001),
        },
    }
}

/// Reads one recipient storage's kind.
fn recipient_kind(c: &CfbContainer<'_>, r: u32) -> (res: u64)
    requires
        c@.wf(),
    ensures
        res == spec_recipient_kind(c.buf@, c@, r),
{
    if (r as usize) >= c.entries.len() {
        return 1;
    }
    let ch = match c.children_of(r as usize) {
        Ok(v) => v,
        Err(_) => {
            return 1;
        },
    };
    let props_name = props_name_units();
    let i = match find_named(c, &ch, &props_name) {
        Some(i) => i,
        None => {
            return 1;
        },
    };
    let d = match c.read_stream(i as usize) {
        Ok(d) => d,
        Err(_) => {
            return 1;
        },
    };
    match fixed_prop(d.as_slice(), 8, 0x0C15_0003) {
        Some(v) => v & 0xFFFF_FFFF,
        None => 1,
    }
}

/// Builds the `__properties_version1.0` name.
fn props_name_units() -> (r: Vec<u16>)
    ensures
        r@ == spec_props_name(),
{
    let arr: [u16; 23] = [
        95, 95, 112, 114, 111, 112, 101, 114, 116, 105, 101, 115, 95, 118, 101, 114, 115, 105,
        111, 110, 49, 46, 48,
    ];
    let mut out: Vec<u16> = Vec::new();
    let mut i: usize = 0;
    while i < 23
        invariant
            i <= 23,
            out@ =~= arr@.take(i as int),
        decreases 23 - i,
    {
        out.push(arr[i]);
        assert(out@ =~= arr@.take(i + 1));
        i = i + 1;
    }
    assert(out@ =~= spec_props_name());
    out
}

/// Reads one attachment storage's record.
fn msg_attachment(c: &CfbContainer<'_>, a: u32) -> (res: MsgAttachment)
    requires
        c@.wf(),
    ensures
        res@ == spec_msg_attachment(c.buf@, c@, a),
{
    let mut default_mime: Vec<u8> = Vec::new();
    crate::reader::append_bytes(&mut default_mime, "application/octet-stream".as_bytes());
    assert(default_mime@ =~= encode_utf8("application/octet-stream"@));
    if (a as usize) >= c.entries.len() {
        return MsgAttachment { filename: Vec::new(), mime: default_mime, size: 0 };
    }
    let ch = match c.children_of(a as usize) {
        Ok(v) => v,
        Err(_) => {
            return MsgAttachment { filename: Vec::new(), mime: default_mime, size: 0 };
        },
    };
    let filename: Vec<u8> = match string_prop(c, &ch, 0x3707) {
        Some(f) => f,
        None => match string_prop(c, &ch, 0x3704) {
            Some(f) => f,
            None => Vec::new(),
        },
    };
    let mime: Vec<u8> = match string_prop(c, &ch, 0x370E) {
        Some(m) => m,
        None => default_mime,
    };
    let size: usize = match find_prop(c, &ch, 0x3701, PT_BINARY) {
        Some(i) => match c.read_stream(i as usize) {
            Ok(d) => d.len(),
            Err(_) => 0,
        },
        None => 0,
    };
    MsgAttachment { filename, mime, size }
}

/// Reads the plain-text body property.
fn plain_body(c: &CfbContainer<'_>, ch: &Vec<u32>) -> (r: Vec<u8>)
    requires
        c@.wf(),
    ensures
        r@ == spec_plain_body(c.buf@, c@, ch@),
{
    match string_prop(c, ch, 0x1000) {
        Some(t) => t,
        None => Vec::new(),
    }
}

/// Decodes an Outlook message from a parsed container.
pub fn decode_msg(c: &CfbContainer<'_>, strip_markup: bool) -> (res: Result<
    MsgMessage,
    crate::cfb::CfbError,
>)
    requires
        c@.wf(),
    ensures
        res matches Ok(m) ==> spec_decode_msg(c.buf@, c@, strip_markup) == Ok::<
            _,
            crate::cfb::CfbError,
        >(m@),
        res matches Err(e) ==> spec_decode_msg(c.buf@, c@, strip_markup) == Err::<
            MsgMessageV,
            _,
        >(e),
{
    let ch = match c.children_of(0) {
        Ok(v) => v,
        Err(e) => {
            return Err(e);
        },
    };
    // Recipients.
    let recip_prefix_arr: [u16; 20] = [
        95, 95, 114, 101, 99, 105, 112, 95, 118, 101, 114, 115, 105, 111, 110, 49, 46, 48, 95, 35,
    ];
    let mut recip_prefix: Vec<u16> = Vec::new();
    crate::reader::append_u16s(&mut recip_prefix, recip_prefix_arr.as_slice());
    assert(recip_prefix@ =~= spec_recip_prefix());
    let rs = storages_with_prefix(c, &ch, &recip_prefix);
    let nr = rs.len();
    let mut tos: Vec<Vec<u8>> = Vec::new();
    let mut ccs: Vec<Vec<u8>> = Vec::new();
    let mut bccs: Vec<Vec<u8>> = Vec::new();
    let ghost all = spec_recipients(c.buf@, c@, rs@);
    let mut k: usize = nr;
    assert(rs@.skip(nr as int) =~= Seq::<u32>::empty());
    while k > 0
        invariant
            c@.wf(),
            k <= nr == rs@.len(),
            all == spec_recipients(c.buf@, c@, rs@),
            spec_recipients(c.buf@, c@, rs@.skip(k as int)) == (
                tos@.map_values(|x: Vec<u8>| x@),
                ccs@.map_values(|x: Vec<u8>| x@),
                bccs@.map_values(|x: Vec<u8>| x@),
            ),
        decreases k,
    {
        k = k - 1;
        proof {
            assert(rs@.skip(k as int)[0] == rs@[k as int]);
            assert(rs@.skip(k as int).drop_first() =~= rs@.skip(k + 1));
        }
        match recipient_email(c, rs[k]) {
            None => (),
            Some(e) => {
                let kind = recipient_kind(c, rs[k]);
                if kind == 2 {
                    ccs.insert(0, e);
                    assert(ccs@.map_values(|x: Vec<u8>| x@) =~= seq![
                        spec_recipient_email(c.buf@, c@, rs@[k as int])->Some_0,
                    ] + ccs@.subrange(1, ccs@.len() as int).map_values(|x: Vec<u8>| x@));
                } else if kind == 3 {
                    bccs.insert(0, e);
                } else {
                    tos.insert(0, e);
                }
            },
        }
    }
    assert(rs@.skip(0) =~= rs@);
    // Attachments.
    let attach_prefix_arr: [u16; 21] = [
        95, 95, 97, 116, 116, 97, 99, 104, 95, 118, 101, 114, 115, 105, 111, 110, 49, 46, 48, 95,
        35,
    ];
    let mut attach_prefix: Vec<u16> = Vec::new();
    crate::reader::append_u16s(&mut attach_prefix, attach_prefix_arr.as_slice());
    assert(attach_prefix@ =~= spec_attach_prefix());
    let ats = storages_with_prefix(c, &ch, &attach_prefix);
    let na = ats.len();
    let mut attachments: Vec<MsgAttachment> = Vec::new();
    let mut j: usize = 0;
    assert(ats@.skip(0) =~= ats@);
    assert(attachments@.map_values(|a: MsgAttachment| a@) + spec_msg_attachments(
        c.buf@,
        c@,
        ats@,
    ) =~= spec_msg_attachments(c.buf@, c@, ats@));
    while j < na
        invariant
            c@.wf(),
            j <= na == ats@.len(),
            spec_msg_attachments(c.buf@, c@, ats@) == attachments@.map_values(
                |a: MsgAttachment| a@,
            ) + spec_msg_attachments(c.buf@, c@, ats@.skip(j as int)),
        decreases na - j,
    {
        let ghost pre = attachments@.map_values(|a: MsgAttachment| a@);
        proof {
            assert(ats@.skip(j as int)[0] == ats@[j as int]);
            assert(ats@.skip(j as int).drop_first() =~= ats@.skip(j + 1));
        }
        let rec = msg_attachment(c, ats[j]);
        attachments.push(rec);
        proof {
            assert(attachments@.map_values(|a: MsgAttachment| a@) =~= pre + seq![
                spec_msg_attachment(c.buf@, c@, ats@[j as int]),
            ]);
            assert(pre + (seq![spec_msg_attachment(c.buf@, c@, ats@[j as int])]
                + spec_msg_attachments(c.buf@, c@, ats@.skip(j + 1))) =~= (pre + seq![
                spec_msg_attachment(c.buf@, c@, ats@[j as int]),
            ]) + spec_msg_attachments(c.buf@, c@, ats@.skip(j + 1)));
        }
        j = j + 1;
    }
    assert(ats@.skip(na as int) =~= Seq::<u32>::empty());
    assert(attachments@.map_values(|a: MsgAttachment| a@) + spec_msg_attachments(
        c.buf@,
        c@,
        ats@.skip(na as int),
    ) =~= attachments@.map_values(|a: MsgAttachment| a@));
    // Scalar properties.
    let subject = string_prop(c, &ch, 0x0037);
    let sender = match string_prop(c, &ch, 0x5D01) {
        Some(e) => Some(e),
        None => string_prop(c, &ch, 0x0C1F),
    };
    let message_id = string_prop(c, &ch, 0x1035);
    let props_name = props_name_units();
    let submit_time: Option<u64> = match find_named(c, &ch, &props_name) {
        None => None,
        Some(i) => match c.read_stream(i as usize) {
            Err(_) => None,
            Ok(d) => fixed_prop(d.as_slice(), 32, 0x0039_0040),
        },
    };
    let body: Vec<u8> = match binary_prop(c, &ch, 0x1013) {
        Some(h) => {
            if h.len() > 0 {
                crate::html::sanitize(h.as_slice(), strip_markup)
            } else {
                plain_body(c, &ch)
            }
        },
        None => plain_body(c, &ch),
    };
    Ok(MsgMessage { subject, sender, tos, ccs, bccs, message_id, submit_time, body, attachments })
}

} // verus!
