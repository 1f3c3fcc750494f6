//! Effective-format resolution: a declared MIME type maps to a supported
//! format tag; without a usable declaration the first bytes are sniffed.
//! Resolution is pure — it reads nothing but its arguments.

use vstd::prelude::*;
use vstd::utf8::encode_utf8;

use crate::reader::{spec_ascii_lower, spec_starts_with, starts_with, ascii_lower};

verus! {

/// The closed set of formats the dispatcher can route.
#[derive(Clone, Copy, Debug, PartialEq, Eq, Structural)]
pub enum EffectiveFormat {
    /// RFC822 email.
    Email,
    /// Outlook message container.
    Msg,
    /// HTML markup.
    Html,
    /// Plain text.
    PlainText,
    /// PDF document: resolved, but extraction needs a rendering engine.
    Pdf,
    /// Raster image: resolved, but extraction needs a recognition engine.
    Image,
    /// Nothing recognizable.
    Unsupported,
}

/// The format a declared MIME type names, when it names one.
pub open spec fn spec_format_of_mime(m: Seq<char>) -> Option<EffectiveFormat> {
    if m == "message/rfc822"@ {
        Some(EffectiveFormat::Email)
    } else if m == "application/vnd.ms-outlook"@ {
        Some(EffectiveFormat::Msg)
    } else if m == "text/html"@ {
        Some(EffectiveFormat::Html)
    } else if m == "text/plain"@ {
        Some(EffectiveFormat::PlainText)
    } else if m == "application/pdf"@ {
        Some(EffectiveFormat::Pdf)
    } else if m == "image/png"@ || m == "image/jpeg"@ || m == "image/gif"@ || m == "image/bmp"@
        || m == "image/tiff"@ || m == "image/webp"@ {
        Some(EffectiveFormat::Image)
    } else {
        None
    }
}

/// Content sniffing over the first bytes: the compound-file magic, the PDF
/// marker, an HTML document marker, else plain text.
pub open spec fn spec_sniff(b: Seq<u8>) -> EffectiveFormat {
    if spec_starts_with(b, crate::cfb::spec_magic()) {
        EffectiveFormat::Msg
    } else if spec_starts_with(b, encode_utf8("%PDF"@)) {
        EffectiveFormat::Pdf
    } else if spec_starts_with(spec_ascii_lower(b), encode_utf8("<html"@)) || spec_starts_with(
        spec_ascii_lower(b),
        encode_utf8("<!doctype html"@),
    ) {
        EffectiveFormat::Html
    } else {
        EffectiveFormat::PlainText
    }
}

/// The effective format of a request: the declared type when it names a
/// supported format, else what the bytes look like.  An empty declared
/// type counts as absent.
pub open spec fn spec_resolve(declared: Seq<char>, b: Seq<u8>) -> EffectiveFormat {
    match spec_format_of_mime(declared) {
        Some(f) => f,
        None => spec_sniff(b),
    }
}

/// Relies on `<str as PartialEq>::eq`: string slices compare equal exactly
/// when their character sequences do.
#[verifier::external_body]
pub(crate) fn str_eq(a: &str, b: &str) -> (r: bool)
    ensures
        r == (a@ == b@),
{
    a == b
}

/// Maps a declared MIME type to its format tag.
pub fn format_of_mime(m: &str) -> (r: Option<EffectiveFormat>)
    ensures
        r == spec_format_of_mime(m@),
{
    if str_eq(m, "message/rfc822") {
        Some(EffectiveFormat::Email)
    } else if str_eq(m, "application/vnd.ms-outlook") {
        Some(EffectiveFormat::Msg)
    } else if str_eq(m, "text/html") {
        Some(EffectiveFormat::Html)
    } else if str_eq(m, "text/plain") {
        Some(EffectiveFormat::PlainText)
    } else if str_eq(m, "application/pdf") {
        Some(EffectiveFormat::Pdf)
    } else if str_eq(m, "image/png") || str_eq(m, "image/jpeg") || str_eq(m, "image/gif")
        || str_eq(m, "image/bmp") || str_eq(m, "image/tiff") || str_eq(m, "image/webp") {
        Some(EffectiveFormat::Image)
    } else {
        None
    }
}

/// Sniffs the format from the first bytes.
pub fn sniff(b: &[u8]) -> (r: EffectiveFormat)
    ensures
        r == spec_sniff(b@),
{
    let magic: [u8; 8] = [0xD0, 0xCF, 0x11, 0xE0, 0xA1, 0xB1, 0x1A, 0xE1];
    assert(magic@ =~= crate::cfb::spec_magic());
    if starts_with(b, magic.as_slice()) {
        return EffectiveFormat::Msg;
    }
    if starts_with(b, "%PDF".as_bytes()) {
        return EffectiveFormat::Pdf;
    }
    let lb = ascii_lower(b);
    if starts_with(lb.as_slice(), "<html".as_bytes()) || starts_with(
        lb.as_slice(),
        "<!doctype html".as_bytes(),
    ) {
        return EffectiveFormat::Html;
    }
    EffectiveFormat::PlainText
}

/// Resolves the effective format of a request.
pub fn resolve(declared: &str, b: &[u8]) -> (r: EffectiveFormat)
    ensures
        r == spec_resolve(declared@, b@),
{
    match format_of_mime(declared) {
        Some(f) => f,
        None => sniff(b),
    }
}

/// The canonical MIME string of a resolved format.
pub open spec fn spec_canonical_mime(f: EffectiveFormat) -> Seq<char> {
    match f {
        EffectiveFormat::Email => "message/rfc822"@,
        EffectiveFormat::Msg => "application/vnd.ms-outlook"@,
        EffectiveFormat::Html => "text/html"@,
        EffectiveFormat::PlainText => "text/plain"@,
        EffectiveFormat::Pdf => "application/pdf"@,
        EffectiveFormat::Image => "application/octet-stream"@,
        EffectiveFormat::Unsupported => "application/octet-stream"@,
    }
}

/// Builds the canonical MIME string of a format.
pub fn canonical_mime(f: EffectiveFormat) -> (r: String)
    ensures
        r@ == spec_canonical_mime(f),
{
    match f {
        EffectiveFormat::Email => "message/rfc822".to_owned(),
        EffectiveFormat::Msg => "application/vnd.ms-outlook".to_owned(),
        EffectiveFormat::Html => "text/html".to_owned(),
        EffectiveFormat::PlainText => "text/plain".to_owned(),
        EffectiveFormat::Pdf => "application/pdf".to_owned(),
        EffectiveFormat::Image => "application/octet-stream".to_owned(),
        EffectiveFormat::Unsupported => "application/octet-stream".to_owned(),
    }
}

} // verus!
