//! The dispatcher: resolves the effective format of a request, invokes the
//! matching extractor, and assembles the uniform extraction result.  A
//! cache-backed wrapper adds memoization with single-flight semantics.

use vstd::prelude::*;
use vstd::utf8::encode_utf8;

use crate::cache::{BeginOutcome, Cache, CacheKey, CacheKeyV};
use crate::cfb::CfbMode;
use crate::eml::{spec_parse_eml, EmlAttachmentV};
use crate::error::{KreuzbergError, KreuzbergErrorV};
use crate::formats::{
    canonical_mime, resolve, spec_canonical_mime, spec_resolve, EffectiveFormat,
};
use crate::mapi::{spec_decode_msg, MsgAttachmentV, MsgMessageV};
use crate::reader::append_bytes;
use crate::text::{bytes_to_string, text_of};

verus! {

/// Extraction options recognized by the pipeline.
pub struct ExtractionConfig {
    /// Whether image formats may invoke a recognition engine.
    pub ocr_enabled: bool,
    /// Language hints handed to the recognition engine.
    pub ocr_language_hints: Vec<String>,
    /// Cap on the returned content, in bytes of the assembled text.
    pub max_content_length: Option<usize>,
    /// How strictly container sector tables are checked.
    pub cfb_mode: CfbMode,
    /// Whether markup is stripped from HTML bodies; script and style
    /// content is removed in either case.
    pub html_sanitize: bool,
}

impl core::default::Default for ExtractionConfig {
    /// The default options: no recognition engine, no length cap, strict
    /// container parsing, markup stripped.
    fn default() -> (r: Self)
        ensures
            !r.ocr_enabled,
            r.ocr_language_hints@.len() == 0,
            r.max_content_length is None,
            r.cfb_mode == CfbMode::Strict,
            r.html_sanitize,
    {
        ExtractionConfig {
            ocr_enabled: false,
            ocr_language_hints: Vec::new(),
            max_content_length: None,
            cfb_mode: CfbMode::Strict,
            html_sanitize: true,
        }
    }
}

/// One attachment in the result metadata.
pub struct AttachmentInfo {
    /// Declared file name.
    pub filename: String,
    /// Declared content type.
    pub mime_type: String,
    /// Exact decoded byte length of the attachment's content.
    pub size_bytes: u64,
}

/// Mathematical image of an attachment record.
pub ghost struct AttachmentInfoV {
    pub filename: Seq<char>,
    pub mime_type: Seq<char>,
    pub size_bytes: u64,
}

impl View for AttachmentInfo {
    type V = AttachmentInfoV;

    open spec fn view(&self) -> AttachmentInfoV {
        AttachmentInfoV {
            filename: self.filename@,
            mime_type: self.mime_type@,
            size_bytes: self.size_bytes,
        }
    }
}

/// Email-specific result metadata.
pub struct EmailMetadata {
    /// Sender address.
    pub from_email: Option<String>,
    /// To recipients, in header or storage order, duplicates preserved.
    pub to_emails: Vec<String>,
    /// Cc recipients, in order.
    pub cc_emails: Vec<String>,
    /// Bcc recipients, in order.
    pub bcc_emails: Vec<String>,
    /// Message identifier, as written in the source.
    pub message_id: Option<String>,
    /// Attachment records, in order.
    pub attachments: Vec<AttachmentInfo>,
}

/// Mathematical image of the email metadata.
pub ghost struct EmailMetadataV {
    pub from_email: Option<Seq<char>>,
    pub to_emails: Seq<Seq<char>>,
    pub cc_emails: Seq<Seq<char>>,
    pub bcc_emails: Seq<Seq<char>>,
    pub message_id: Option<Seq<char>>,
    pub attachments: Seq<AttachmentInfoV>,
}

impl View for EmailMetadata {
    type V = EmailMetadataV;

    open spec fn view(&self) -> EmailMetadataV {
        EmailMetadataV {
            from_email: match self.from_email {
                Some(ref s) => Some(s@),
                None => None,
            },
            to_emails: self.to_emails@.map_values(|s: String| s@),
            cc_emails: self.cc_emails@.map_values(|s: String| s@),
            bcc_emails: self.bcc_emails@.map_values(|s: String| s@),
            message_id: match self.message_id {
                Some(ref s) => Some(s@),
                None => None,
            },
            attachments: self.attachments@.map_values(|a: AttachmentInfo| a@),
        }
    }
}

/// The format-specific half of the metadata.
pub enum FormatMetadata {
    /// Metadata of an email message.
    Email(EmailMetadata),
}

/// Mathematical image of the format metadata.
pub ghost enum FormatMetadataV {
    Email(EmailMetadataV),
}

impl View for FormatMetadata {
    type V = FormatMetadataV;

    open spec fn view(&self) -> FormatMetadataV {
        match self {
            FormatMetadata::Email(m) => FormatMetadataV::Email(m@),
        }
    }
}

/// The common metadata of every result.
pub struct Metadata {
    /// Document subject, when the format records one.
    pub subject: Option<String>,
    /// Creation or submission time, when the format records one.
    pub created_at: Option<String>,
    /// Detected language; never set by the core extractors.
    pub language: Option<String>,
    /// At most one format-specific record.
    pub format: Option<FormatMetadata>,
}

/// Mathematical image of the common metadata.
pub ghost struct MetadataV {
    pub subject: Option<Seq<char>>,
    pub created_at: Option<Seq<char>>,
    pub language: Option<Seq<char>>,
    pub format: Option<FormatMetadataV>,
}

impl View for Metadata {
    type V = MetadataV;

    open spec fn view(&self) -> MetadataV {
        MetadataV {
            subject: match self.subject {
                Some(ref s) => Some(s@),
                None => None,
            },
            created_at: match self.created_at {
                Some(ref s) => Some(s@),
                None => None,
            },
            language: match self.language {
                Some(ref s) => Some(s@),
                None => None,
            },
            format: match self.format {
                Some(ref f) => Some(f@),
                None => None,
            },
        }
    }
}

/// The uniform extraction result.
pub struct ExtractionResult {
    /// Extracted text; possibly empty, always valid UTF-8.
    pub content: String,
    /// Canonical MIME string of the resolved format.
    pub mime_type: String,
    /// Common and format-specific metadata.
    pub metadata: Metadata,
}

/// Mathematical image of a result.
pub ghost struct ExtractionResultV {
    pub content: Seq<char>,
    pub mime_type: Seq<char>,
    pub metadata: MetadataV,
}

impl View for ExtractionResult {
    type V = ExtractionResultV;

    open spec fn view(&self) -> ExtractionResultV {
        ExtractionResultV {
            content: self.content@,
            mime_type: self.mime_type@,
            metadata: self.metadata@,
        }
    }
}

} // verus!

verus! {

/// The items joined with the separator between neighbours.
pub open spec fn spec_join(xs: Seq<Seq<u8>>, sep: Seq<u8>) -> Seq<u8>
    decreases xs.len(),
{
    if xs.len() == 0 {
        Seq::empty()
    } else if xs.len() == 1 {
        xs[0]
    } else {
        xs[0] + sep + spec_join(xs.drop_first(), sep)
    }
}

/// Joins byte items with a separator.
pub fn join(xs: &Vec<Vec<u8>>, sep: &[u8]) -> (r: Vec<u8>)
    ensures
        r@ == spec_join(crate::eml::spec_seq_views(xs@), sep@),
{
    let n = xs.len();
    let mut out: Vec<u8> = Vec::new();
    if n == 0 {
        assert(out@ =~= spec_join(crate::eml::spec_seq_views(xs@), sep@));
        return out;
    }
    let mut i: usize = 0;
    assert(crate::eml::spec_seq_views(xs@).skip(0) =~= crate::eml::spec_seq_views(xs@));
    assert(out@ + spec_join(crate::eml::spec_seq_views(xs@), sep@) =~= spec_join(
        crate::eml::spec_seq_views(xs@),
        sep@,
    ));
    while i < n
        invariant
            0 < n == xs@.len(),
            i <= n,
            spec_join(crate::eml::spec_seq_views(xs@), sep@) == out@ + spec_join(
                crate::eml::spec_seq_views(xs@).skip(i as int),
                sep@,
            ),
        decreases n - i,
    {
        let ghost rest = crate::eml::spec_seq_views(xs@).skip(i as int);
        let ghost pre = out@;
        proof {
            assert(rest[0] == xs@[i as int]@);
            assert(rest.drop_first() =~= crate::eml::spec_seq_views(xs@).skip(i + 1));
        }
        append_bytes(&mut out, xs[i].as_slice());
        if i + 1 < n {
            append_bytes(&mut out, sep);
            proof {
                assert(rest.len() > 1);
                assert(pre + (rest[0] + sep@ + spec_join(rest.drop_first(), sep@)) =~= ((pre
                    + rest[0]) + sep@) + spec_join(rest.drop_first(), sep@));
            }
        } else {
            proof {
                assert(rest.len() == 1);
                assert(spec_join(rest, sep@) == rest[0]);
                assert(crate::eml::spec_seq_views(xs@).skip(n as int) =~= Seq::<Seq<u8>>::empty());
                assert(pre + rest[0] + Seq::<u8>::empty() =~= pre + rest[0]);
            }
        }
        i = i + 1;
    }
    out
}

/// One `- name` line per attachment.
pub open spec fn spec_att_lines(names: Seq<Seq<u8>>) -> Seq<u8>
    decreases names.len(),
{
    if names.len() == 0 {
        Seq::empty()
    } else {
        encode_utf8("- "@) + names[0] + encode_utf8("\n"@) + spec_att_lines(names.drop_first())
    }
}

/// Writes the attachment list lines.
pub fn att_lines(names: &Vec<Vec<u8>>) -> (r: Vec<u8>)
    ensures
        r@ == spec_att_lines(crate::eml::spec_seq_views(names@)),
{
    let n = names.len();
    let mut out: Vec<u8> = Vec::new();
    let mut i: usize = 0;
    assert(crate::eml::spec_seq_views(names@).skip(0) =~= crate::eml::spec_seq_views(names@));
    assert(out@ + spec_att_lines(crate::eml::spec_seq_views(names@)) =~= spec_att_lines(
        crate::eml::spec_seq_views(names@),
    ));
    while i < n
        invariant
            i <= n == names@.len(),
            spec_att_lines(crate::eml::spec_seq_views(names@)) == out@ + spec_att_lines(
                crate::eml::spec_seq_views(names@).skip(i as int),
            ),
        decreases n - i,
    {
        let ghost rest = crate::eml::spec_seq_views(names@).skip(i as int);
        let ghost pre = out@;
        proof {
            assert(rest[0] == names@[i as int]@);
            assert(rest.drop_first() =~= crate::eml::spec_seq_views(names@).skip(i + 1));
        }
        append_bytes(&mut out, "- ".as_bytes());
        append_bytes(&mut out, names[i].as_slice());
        append_bytes(&mut out, "\n".as_bytes());
        proof {
            assert(pre + (encode_utf8("- "@) + rest[0] + encode_utf8("\n"@) + spec_att_lines(
                rest.drop_first(),
            )) =~= (((pre + encode_utf8("- "@)) + rest[0]) + encode_utf8("\n"@)) + spec_att_lines(
                rest.drop_first(),
            ));
        }
        i = i + 1;
    }
    assert(crate::eml::spec_seq_views(names@).skip(n as int) =~= Seq::<Seq<u8>>::empty());
    assert(out@ + spec_att_lines(crate::eml::spec_seq_views(names@).skip(n as int)) =~= out@);
    out
}

/// The assembled content text of an email: a short header block with the
/// subject, sender and recipients, a blank line, the body, and — when
/// attachments exist — an `Attachments:` section naming each one.
pub open spec fn spec_email_content(
    subject: Option<Seq<u8>>,
    from: Option<Seq<u8>>,
    tos: Seq<Seq<u8>>,
    body: Seq<u8>,
    att_names: Seq<Seq<u8>>,
) -> Seq<u8> {
    (match subject {
        Some(s) => encode_utf8("Subject: "@) + s + encode_utf8("\n"@),
        None => Seq::empty(),
    }) + (match from {
        Some(f) => encode_utf8("From: "@) + f + encode_utf8("\n"@),
        None => Seq::empty(),
    }) + (if tos.len() > 0 {
        encode_utf8("To: "@) + spec_join(tos, encode_utf8(", "@)) + encode_utf8("\n"@)
    } else {
        Seq::empty()
    }) + encode_utf8("\n"@) + body + (if att_names.len() > 0 {
        encode_utf8("\n\nAttachments:\n"@) + spec_att_lines(att_names)
    } else {
        Seq::empty()
    })
}

/// Assembles an email's content text.
#[verifier::rlimit(60)]
pub fn email_content(
    subject: &Option<Vec<u8>>,
    from: &Option<Vec<u8>>,
    tos: &Vec<Vec<u8>>,
    body: &[u8],
    att_names: &Vec<Vec<u8>>,
) -> (r: Vec<u8>)
    ensures
        r@ == spec_email_content(
            match subject {
                Some(s) => Some::<Seq<u8>>(s@),
                None => None::<Seq<u8>>,
            },
            match from {
                Some(f) => Some::<Seq<u8>>(f@),
                None => None::<Seq<u8>>,
            },
            crate::eml::spec_seq_views(tos@),
            body@,
            crate::eml::spec_seq_views(att_names@),
        ),
{
    let mut out: Vec<u8> = Vec::new();
    match subject {
        Some(s) => {
            append_bytes(&mut out, "Subject: ".as_bytes());
            append_bytes(&mut out, s.as_slice());
            append_bytes(&mut out, "\n".as_bytes());
        },
        None => (),
    }
    match from {
        Some(f) => {
            append_bytes(&mut out, "From: ".as_bytes());
            append_bytes(&mut out, f.as_slice());
            append_bytes(&mut out, "\n".as_bytes());
        },
        None => (),
    }
    if tos.len() > 0 {
        append_bytes(&mut out, "To: ".as_bytes());
        let joined = join(tos, ", ".as_bytes());
        append_bytes(&mut out, joined.as_slice());
        append_bytes(&mut out, "\n".as_bytes());
    }
    append_bytes(&mut out, "\n".as_bytes());
    append_bytes(&mut out, body);
    if att_names.len() > 0 {
        append_bytes(&mut out, "\n\nAttachments:\n".as_bytes());
        let lines = att_lines(att_names);
        append_bytes(&mut out, lines.as_slice());
    }
    proof {
        assert(out@ =~= spec_email_content(
            match subject {
                Some(s) => Some::<Seq<u8>>(s@),
                None => None::<Seq<u8>>,
            },
            match from {
                Some(f) => Some::<Seq<u8>>(f@),
                None => None::<Seq<u8>>,
            },
            crate::eml::spec_seq_views(tos@),
            body@,
            crate::eml::spec_seq_views(att_names@),
        ));
    }
    out
}

/// The decimal digits of `n`.
pub open spec fn spec_dec_bytes(n: nat) -> Seq<u8>
    decreases n,
{
    if n < 10 {
        seq![(48 + n) as u8]
    } else {
        spec_dec_bytes(n / 10).push((48 + n % 10) as u8)
    }
}

/// Formats `n` in decimal.
pub fn dec_u64(n: u64) -> (r: Vec<u8>)
    ensures
        r@ == spec_dec_bytes(n as nat),
    decreases n,
{
    if n < 10 {
        let mut out: Vec<u8> = Vec::new();
        out.push(48 + (n as u8));
        assert(out@ =~= spec_dec_bytes(n as nat));
        out
    } else {
        let mut out = dec_u64(n / 10);
        out.push(48 + ((n % 10) as u8));
        out
    }
}

/// The content truncated to the configured cap.
pub open spec fn spec_truncate(b: Seq<u8>, max: Option<usize>) -> Seq<u8> {
    match max {
        Some(m) => if b.len() > m {
            b.take(m as int)
        } else {
            b
        },
        None => b,
    }
}

/// Truncates content to the configured cap.
pub fn truncate_bytes(b: Vec<u8>, max: &Option<usize>) -> (r: Vec<u8>)
    ensures
        r@ == spec_truncate(b@, *max),
{
    match max {
        Some(m) => {
            if b.len() > *m {
                let r = crate::reader::read_bytes(b.as_slice(), 0, *m);
                assert(r@ =~= b@.take(*m as int));
                r
            } else {
                b
            }
        },
        None => b,
    }
}

} // verus!

verus! {

/// Bytes read as text, per field.
pub open spec fn spec_opt_text(o: Option<Seq<u8>>) -> Option<Seq<char>> {
    match o {
        Some(b) => Some(text_of(b)),
        None => None,
    }
}

/// Each byte field read as text.
pub open spec fn spec_texts(xs: Seq<Seq<u8>>) -> Seq<Seq<char>> {
    xs.map_values(|x: Seq<u8>| text_of(x))
}

/// The metadata records of an email's attachments.
pub open spec fn spec_eml_att_infos(ats: Seq<EmlAttachmentV>) -> Seq<AttachmentInfoV> {
    ats.map_values(
        |a: EmlAttachmentV|
            AttachmentInfoV {
                filename: text_of(a.filename),
                mime_type: text_of(a.mime),
                size_bytes: a.content.len() as u64,
            },
    )
}

/// The metadata records of a message's attachments.
pub open spec fn spec_msg_att_infos(ats: Seq<MsgAttachmentV>) -> Seq<AttachmentInfoV> {
    ats.map_values(
        |a: MsgAttachmentV|
            AttachmentInfoV {
                filename: text_of(a.filename),
                mime_type: text_of(a.mime),
                size_bytes: a.size as u64,
            },
    )
}

/// Seconds since the Unix epoch for a Windows file time.
pub open spec fn spec_filetime_unix(t: u64) -> nat {
    let secs = (t as nat) / 10_000_000;
    if secs >= 11_644_473_600 {
        (secs - 11_644_473_600) as nat
    } else {
        0
    }
}

/// The result of extracting an RFC822 email.
pub open spec fn spec_email_result(b: Seq<u8>, sanitize: bool, max: Option<usize>) -> ExtractionResultV {
    let m = spec_parse_eml(b, sanitize);
    let names = m.attachments.map_values(|a: EmlAttachmentV| a.filename);
    let content_bytes = spec_email_content(m.subject, m.from, m.tos, m.body, names);
    ExtractionResultV {
        content: text_of(spec_truncate(content_bytes, max)),
        mime_type: spec_canonical_mime(EffectiveFormat::Email),
        metadata: MetadataV {
            subject: spec_opt_text(m.subject),
            created_at: spec_opt_text(m.date),
            language: None,
            format: Some(
                FormatMetadataV::Email(
                    EmailMetadataV {
                        from_email: spec_opt_text(m.from),
                        to_emails: spec_texts(m.tos),
                        cc_emails: spec_texts(m.ccs),
                        bcc_emails: spec_texts(m.bccs),
                        message_id: spec_opt_text(m.message_id),
                        attachments: spec_eml_att_infos(m.attachments),
                    },
                ),
            ),
        },
    }
}

/// The result of extracting an Outlook message.
pub open spec fn spec_msg_result(m: MsgMessageV, max: Option<usize>) -> ExtractionResultV {
    let names = m.attachments.map_values(|a: MsgAttachmentV| a.filename);
    let content_bytes = spec_email_content(m.subject, m.sender, m.tos, m.body, names);
    ExtractionResultV {
        content: text_of(spec_truncate(content_bytes, max)),
        mime_type: spec_canonical_mime(EffectiveFormat::Msg),
        metadata: MetadataV {
            subject: spec_opt_text(m.subject),
            created_at: match m.submit_time {
                Some(t) => Some(text_of(spec_dec_bytes(spec_filetime_unix(t)))),
                None => None,
            },
            language: None,
            format: Some(
                FormatMetadataV::Email(
                    EmailMetadataV {
                        from_email: spec_opt_text(m.sender),
                        to_emails: spec_texts(m.tos),
                        cc_emails: spec_texts(m.ccs),
                        bcc_emails: spec_texts(m.bccs),
                        message_id: spec_opt_text(m.message_id),
                        attachments: spec_msg_att_infos(m.attachments),
                    },
                ),
            ),
        },
    }
}

/// A result whose metadata is empty: plain text and markup formats.
pub open spec fn spec_plain_result(content_bytes: Seq<u8>, f: EffectiveFormat, max: Option<usize>) -> ExtractionResultV {
    ExtractionResultV {
        content: text_of(spec_truncate(content_bytes, max)),
        mime_type: spec_canonical_mime(f),
        metadata: MetadataV { subject: None, created_at: None, language: None, format: None },
    }
}

/// The message text reported for each container failure.
pub open spec fn spec_cfb_msg(e: crate::cfb::CfbError) -> Seq<char> {
    match e {
        crate::cfb::CfbError::InvalidSignature => "invalid compound file signature"@,
        crate::cfb::CfbError::CorruptChain => "corrupt sector chain"@,
        crate::cfb::CfbError::TruncatedData => "truncated compound file data"@,
        crate::cfb::CfbError::UnsupportedSectorSize => "unsupported sector size"@,
    }
}

/// The message text reported when no extractor is registered.
pub open spec fn spec_unsupported_msg() -> Seq<char> {
    "no extractor is registered for the resolved format"@
}

/// What extraction yields for a resolved cache key: email and message
/// formats decode to text plus email metadata; markup is sanitized; plain
/// text passes through; a resolved format without a registered extractor
/// is refused, and a corrupt container is a parsing error.
pub open spec fn spec_extract_key(k: CacheKeyV) -> Result<ExtractionResultV, KreuzbergErrorV> {
    match k.format {
        EffectiveFormat::Email => Ok(
            spec_email_result(k.bytes, k.html_sanitize, k.max_content_length),
        ),
        EffectiveFormat::Msg => match crate::cfb::spec_parse(k.bytes, k.cfb_mode) {
            Err(e) => Err(KreuzbergErrorV::Parsing(spec_cfb_msg(e))),
            Ok(cv) => match spec_decode_msg(k.bytes, cv, k.html_sanitize) {
                Err(e) => Err(KreuzbergErrorV::Parsing(spec_cfb_msg(e))),
                Ok(m) => Ok(spec_msg_result(m, k.max_content_length)),
            },
        },
        EffectiveFormat::Html => Ok(
            spec_plain_result(
                crate::html::spec_sanitize(k.bytes, k.html_sanitize),
                EffectiveFormat::Html,
                k.max_content_length,
            ),
        ),
        EffectiveFormat::PlainText => Ok(
            spec_plain_result(k.bytes, EffectiveFormat::PlainText, k.max_content_length),
        ),
        EffectiveFormat::Pdf => Err(KreuzbergErrorV::UnsupportedFormat(spec_unsupported_msg())),
        EffectiveFormat::Image => Err(KreuzbergErrorV::UnsupportedFormat(spec_unsupported_msg())),
        EffectiveFormat::Unsupported => Err(
            KreuzbergErrorV::UnsupportedFormat(spec_unsupported_msg()),
        ),
    }
}

/// The cache key a request resolves to.
pub open spec fn spec_key_of(b: Seq<u8>, declared: Seq<char>, cfg: ExtractionConfig) -> CacheKeyV {
    CacheKeyV {
        bytes: b,
        format: spec_resolve(declared, b),
        cfb_mode: cfg.cfb_mode,
        html_sanitize: cfg.html_sanitize,
        max_content_length: cfg.max_content_length,
    }
}

/// What extraction yields for any request: the effective format is
/// resolved from the declared type and the bytes, and the outcome is a
/// function of the request alone — identical bytes, declared type and
/// configuration always yield identical results, so a cache hit can never
/// change the observable output.
pub open spec fn spec_extract(b: Seq<u8>, declared: Seq<char>, cfg: ExtractionConfig) -> Result<
    ExtractionResultV,
    KreuzbergErrorV,
> {
    spec_extract_key(spec_key_of(b, declared, cfg))
}

} // verus!

verus! {

/// Converts an optional byte field to text.
fn opt_string_of(o: &Option<Vec<u8>>) -> (r: Option<String>)
    ensures
        (match r {
            Some(s) => Some::<Seq<char>>(s@),
            None => None::<Seq<char>>,
        }) == spec_opt_text(
            match o {
                Some(b) => Some::<Seq<u8>>(b@),
                None => None::<Seq<u8>>,
            },
        ),
{
    match o {
        Some(b) => Some(bytes_to_string(b)),
        None => None,
    }
}

/// Converts each byte field to text.
fn strings_of(v: &Vec<Vec<u8>>) -> (r: Vec<String>)
    ensures
        r@.map_values(|s: String| s@) == spec_texts(crate::eml::spec_seq_views(v@)),
{
    let n = v.len();
    let mut out: Vec<String> = Vec::new();
    let mut i: usize = 0;
    while i < n
        invariant
            i <= n == v@.len(),
            out@.len() == i,
            forall|j: int| 0 <= j < i ==> (#[trigger] out@[j])@ == text_of(v@[j]@),
        decreases n - i,
    {
        let s = bytes_to_string(&v[i]);
        out.push(s);
        i = i + 1;
    }
    assert(out@.map_values(|s: String| s@) =~= spec_texts(crate::eml::spec_seq_views(v@)));
    out
}

/// Builds attachment metadata for email attachments.
fn eml_att_infos(v: &Vec<crate::eml::EmlAttachment>) -> (r: Vec<AttachmentInfo>)
    ensures
        r@.map_values(|a: AttachmentInfo| a@) == spec_eml_att_infos(
            v@.map_values(|a: crate::eml::EmlAttachment| a@),
        ),
{
    let n = v.len();
    let mut out: Vec<AttachmentInfo> = Vec::new();
    let mut i: usize = 0;
    while i < n
        invariant
            i <= n == v@.len(),
            out@.len() == i,
            forall|j: int|
                0 <= j < i ==> (#[trigger] out@[j])@ == (AttachmentInfoV {
                    filename: text_of(v@[j]@.filename),
                    mime_type: text_of(v@[j]@.mime),
                    size_bytes: v@[j]@.content.len() as u64,
                }),
        decreases n - i,
    {
        let a = &v[i];
        let info = AttachmentInfo {
            filename: bytes_to_string(&a.filename),
            mime_type: bytes_to_string(&a.mime),
            size_bytes: a.content.len() as u64,
        };
        out.push(info);
        i = i + 1;
    }
    assert(out@.map_values(|a: AttachmentInfo| a@) =~= spec_eml_att_infos(
        v@.map_values(|a: crate::eml::EmlAttachment| a@),
    ));
    out
}

/// Builds attachment metadata for message attachments.
fn msg_att_infos(v: &Vec<crate::mapi::MsgAttachment>) -> (r: Vec<AttachmentInfo>)
    ensures
        r@.map_values(|a: AttachmentInfo| a@) == spec_msg_att_infos(
            v@.map_values(|a: crate::mapi::MsgAttachment| a@),
        ),
{
    let n = v.len();
    let mut out: Vec<AttachmentInfo> = Vec::new();
    let mut i: usize = 0;
    while i < n
        invariant
            i <= n == v@.len(),
            out@.len() == i,
            forall|j: int|
                0 <= j < i ==> (#[trigger] out@[j])@ == (AttachmentInfoV {
                    filename: text_of(v@[j]@.filename),
                    mime_type: text_of(v@[j]@.mime),
                    size_bytes: v@[j]@.size as u64,
                }),
        decreases n - i,
    {
        let a = &v[i];
        let info = AttachmentInfo {
            filename: bytes_to_string(&a.filename),
            mime_type: bytes_to_string(&a.mime),
            size_bytes: a.size as u64,
        };
        out.push(info);
        i = i + 1;
    }
    assert(out@.map_values(|a: AttachmentInfo| a@) =~= spec_msg_att_infos(
        v@.map_values(|a: crate::mapi::MsgAttachment| a@),
    ));
    out
}

/// Copies out the attachment file names of email attachments.
fn eml_att_names(v: &Vec<crate::eml::EmlAttachment>) -> (r: Vec<Vec<u8>>)
    ensures
        crate::eml::spec_seq_views(r@) == v@.map_values(|a: crate::eml::EmlAttachment| a@).map_values(
            |a: EmlAttachmentV| a.filename,
        ),
{
    let n = v.len();
    let mut out: Vec<Vec<u8>> = Vec::new();
    let mut i: usize = 0;
    while i < n
        invariant
            i <= n == v@.len(),
            out@.len() == i,
            forall|j: int| 0 <= j < i ==> (#[trigger] out@[j])@ == v@[j]@.filename,
        decreases n - i,
    {
        let name = crate::reader::read_bytes(v[i].filename.as_slice(), 0, v[i].filename.len());
        assert(name@ =~= v@[i as int]@.filename);
        out.push(name);
        i = i + 1;
    }
    assert(crate::eml::spec_seq_views(out@) =~= v@.map_values(
        |a: crate::eml::EmlAttachment| a@,
    ).map_values(|a: EmlAttachmentV| a.filename));
    out
}

/// Copies out the attachment file names of message attachments.
fn msg_att_names(v: &Vec<crate::mapi::MsgAttachment>) -> (r: Vec<Vec<u8>>)
    ensures
        crate::eml::spec_seq_views(r@) == v@.map_values(
            |a: crate::mapi::MsgAttachment| a@,
        ).map_values(|a: MsgAttachmentV| a.filename),
{
    let n = v.len();
    let mut out: Vec<Vec<u8>> = Vec::new();
    let mut i: usize = 0;
    while i < n
        invariant
            i <= n == v@.len(),
            out@.len() == i,
            forall|j: int| 0 <= j < i ==> (#[trigger] out@[j])@ == v@[j]@.filename,
        decreases n - i,
    {
        let name = crate::reader::read_bytes(v[i].filename.as_slice(), 0, v[i].filename.len());
        assert(name@ =~= v@[i as int]@.filename);
        out.push(name);
        i = i + 1;
    }
    assert(crate::eml::spec_seq_views(out@) =~= v@.map_values(
        |a: crate::mapi::MsgAttachment| a@,
    ).map_values(|a: MsgAttachmentV| a.filename));
    out
}

/// Extracts text and metadata from raw document bytes.
///
/// The declared MIME type selects the extractor when it names a supported
/// format; otherwise the bytes are sniffed.  An empty declared type counts
/// as absent.  The result is a function of the request alone: identical
/// bytes, declared type and configuration always produce identical output.
pub fn extract_bytes(bytes: &[u8], declared: &str, config: &ExtractionConfig) -> (r: Result<
    ExtractionResult,
    KreuzbergError,
>)
    ensures
        r matches Ok(v) ==> spec_extract(bytes@, declared@, *config) == Ok::<
            _,
            KreuzbergErrorV,
        >(v@),
        r matches Err(e) ==> spec_extract(bytes@, declared@, *config) == Err::<
            ExtractionResultV,
            _,
        >(e@),
{
    let format = resolve(declared, bytes);
    match format {
        EffectiveFormat::Email => {
            let m = crate::eml::parse_eml(bytes, config.html_sanitize);
            let names = eml_att_names(&m.attachments);
            let content_bytes = email_content(&m.subject, &m.from, &m.tos, m.body.as_slice(), &names);
            let truncated = truncate_bytes(content_bytes, &config.max_content_length);
            let result = ExtractionResult {
                content: bytes_to_string(&truncated),
                mime_type: canonical_mime(EffectiveFormat::Email),
                metadata: Metadata {
                    subject: opt_string_of(&m.subject),
                    created_at: opt_string_of(&m.date),
                    language: None,
                    format: Some(
                        FormatMetadata::Email(
                            EmailMetadata {
                                from_email: opt_string_of(&m.from),
                                to_emails: strings_of(&m.tos),
                                cc_emails: strings_of(&m.ccs),
                                bcc_emails: strings_of(&m.bccs),
                                message_id: opt_string_of(&m.message_id),
                                attachments: eml_att_infos(&m.attachments),
                            },
                        ),
                    ),
                },
            };
            Ok(result)
        },
        EffectiveFormat::Msg => {
            let container = match crate::cfb::parse(bytes, config.cfb_mode) {
                Ok(c) => c,
                Err(e) => {
                    return Err(KreuzbergError::Parsing(cfb_msg(e)));
                },
            };
            let m = match crate::mapi::decode_msg(&container, config.html_sanitize) {
                Ok(m) => m,
                Err(e) => {
                    return Err(KreuzbergError::Parsing(cfb_msg(e)));
                },
            };
            let names = msg_att_names(&m.attachments);
            let content_bytes = email_content(
                &m.subject,
                &m.sender,
                &m.tos,
                m.body.as_slice(),
                &names,
            );
            let truncated = truncate_bytes(content_bytes, &config.max_content_length);
            let created_at: Option<String> = match m.submit_time {
                Some(t) => {
                    let secs = t / 10_000_000;
                    let unix: u64 = if secs >= 11_644_473_600 {
                        secs - 11_644_473_600
                    } else {
                        0
                    };
                    let digits = dec_u64(unix);
                    Some(bytes_to_string(&digits))
                },
                None => None,
            };
            let result = ExtractionResult {
                content: bytes_to_string(&truncated),
                mime_type: canonical_mime(EffectiveFormat::Msg),
                metadata: Metadata {
                    subject: opt_string_of(&m.subject),
                    created_at,
                    language: None,
                    format: Some(
                        FormatMetadata::Email(
                            EmailMetadata {
                                from_email: opt_string_of(&m.sender),
                                to_emails: strings_of(&m.tos),
                                cc_emails: strings_of(&m.ccs),
                                bcc_emails: strings_of(&m.bccs),
                                message_id: opt_string_of(&m.message_id),
                                attachments: msg_att_infos(&m.attachments),
                            },
                        ),
                    ),
                },
            };
            Ok(result)
        },
        EffectiveFormat::Html => {
            let sanitized = crate::html::sanitize(bytes, config.html_sanitize);
            let truncated = truncate_bytes(sanitized, &config.max_content_length);
            Ok(
                ExtractionResult {
                    content: bytes_to_string(&truncated),
                    mime_type: canonical_mime(EffectiveFormat::Html),
                    metadata: Metadata {
                        subject: None,
                        created_at: None,
                        language: None,
                        format: None,
                    },
                },
            )
        },
        EffectiveFormat::PlainText => {
            let owned = crate::reader::read_bytes(bytes, 0, bytes.len());
            assert(owned@ =~= bytes@);
            let truncated = truncate_bytes(owned, &config.max_content_length);
            Ok(
                ExtractionResult {
                    content: bytes_to_string(&truncated),
                    mime_type: canonical_mime(EffectiveFormat::PlainText),
                    metadata: Metadata {
                        subject: None,
                        created_at: None,
                        language: None,
                        format: None,
                    },
                },
            )
        },
        EffectiveFormat::Pdf => Err(KreuzbergError::UnsupportedFormat(unsupported_msg())),
        EffectiveFormat::Image => Err(KreuzbergError::UnsupportedFormat(unsupported_msg())),
        EffectiveFormat::Unsupported => Err(KreuzbergError::UnsupportedFormat(unsupported_msg())),
    }
}

/// Builds the reported message for a container failure.
fn cfb_msg(e: crate::cfb::CfbError) -> (r: String)
    ensures
        r@ == spec_cfb_msg(e),
{
    match e {
        crate::cfb::CfbError::InvalidSignature => "invalid compound file signature".to_owned(),
        crate::cfb::CfbError::CorruptChain => "corrupt sector chain".to_owned(),
        crate::cfb::CfbError::TruncatedData => "truncated compound file data".to_owned(),
        crate::cfb::CfbError::UnsupportedSectorSize => "unsupported sector size".to_owned(),
    }
}

/// Builds the reported message for an unregistered format.
fn unsupported_msg() -> (r: String)
    ensures
        r@ == spec_unsupported_msg(),
{
    "no extractor is registered for the resolved format".to_owned()
}

} // verus!

verus! {

/// Copies an optional string, preserving its text.
fn dup_opt_string(o: &Option<String>) -> (r: Option<String>)
    ensures
        (match r {
            Some(s) => Some::<Seq<char>>(s@),
            None => None::<Seq<char>>,
        }) == (match o {
            Some(s) => Some::<Seq<char>>(s@),
            None => None::<Seq<char>>,
        }),
{
    match o {
        Some(s) => Some(s.clone()),
        None => None,
    }
}

/// Copies a string list, preserving each text.
fn dup_strings(v: &Vec<String>) -> (r: Vec<String>)
    ensures
        r@.map_values(|s: String| s@) == v@.map_values(|s: String| s@),
{
    let n = v.len();
    let mut out: Vec<String> = Vec::new();
    let mut i: usize = 0;
    while i < n
        invariant
            i <= n == v@.len(),
            out@.len() == i,
            forall|j: int| 0 <= j < i ==> (#[trigger] out@[j])@ == v@[j]@,
        decreases n - i,
    {
        out.push(v[i].clone());
        i = i + 1;
    }
    assert(out@.map_values(|s: String| s@) =~= v@.map_values(|s: String| s@));
    out
}

/// Copies attachment metadata, preserving every field.
fn dup_attachments(v: &Vec<AttachmentInfo>) -> (r: Vec<AttachmentInfo>)
    ensures
        r@.map_values(|a: AttachmentInfo| a@) == v@.map_values(|a: AttachmentInfo| a@),
{
    let n = v.len();
    let mut out: Vec<AttachmentInfo> = Vec::new();
    let mut i: usize = 0;
    while i < n
        invariant
            i <= n == v@.len(),
            out@.len() == i,
            forall|j: int| 0 <= j < i ==> (#[trigger] out@[j])@ == v@[j]@,
        decreases n - i,
    {
        let a = &v[i];
        out.push(
            AttachmentInfo {
                filename: a.filename.clone(),
                mime_type: a.mime_type.clone(),
                size_bytes: a.size_bytes,
            },
        );
        i = i + 1;
    }
    assert(out@.map_values(|a: AttachmentInfo| a@) =~= v@.map_values(|a: AttachmentInfo| a@));
    out
}

/// Copies a result, preserving everything observable.  Cached results are
/// served through this copy, so a caller can never mutate the cache's own
/// instance.
pub fn duplicate_result(r: &ExtractionResult) -> (d: ExtractionResult)
    ensures
        d@ == r@,
{
    let format: Option<FormatMetadata> = match &r.metadata.format {
        Some(FormatMetadata::Email(m)) => Some(
            FormatMetadata::Email(
                EmailMetadata {
                    from_email: dup_opt_string(&m.from_email),
                    to_emails: dup_strings(&m.to_emails),
                    cc_emails: dup_strings(&m.cc_emails),
                    bcc_emails: dup_strings(&m.bcc_emails),
                    message_id: dup_opt_string(&m.message_id),
                    attachments: dup_attachments(&m.attachments),
                },
            ),
        ),
        None => None,
    };
    ExtractionResult {
        content: r.content.clone(),
        mime_type: r.mime_type.clone(),
        metadata: Metadata {
            subject: dup_opt_string(&r.metadata.subject),
            created_at: dup_opt_string(&r.metadata.created_at),
            language: dup_opt_string(&r.metadata.language),
            format,
        },
    }
}

/// Copies a cache key.
fn dup_key(k: &CacheKey) -> (d: CacheKey)
    ensures
        d@ == k@,
{
    let bytes = crate::reader::read_bytes(k.bytes.as_slice(), 0, k.bytes.len());
    assert(bytes@ =~= k.bytes@);
    CacheKey {
        bytes,
        format: k.format,
        cfb_mode: k.cfb_mode,
        html_sanitize: k.html_sanitize,
        max_content_length: k.max_content_length,
    }
}

/// The dispatcher with its memo table: results are cached under the
/// request fingerprint, concurrent identical requests share one
/// computation, and failures are never memoized.
pub struct Extractor {
    /// The result cache.
    pub cache: Cache<ExtractionResult>,
}

impl Extractor {
    /// Every finished cache entry holds exactly the result its key's
    /// extraction yields.
    pub open spec fn inv(self) -> bool {
        &&& self.cache.wf()
        &&& forall|i: int|
            0 <= i < self.cache.entries@.len() ==> ((#[trigger] self.cache.entries@[i]).value
                matches Some(v) ==> spec_extract_key(self.cache.entries@[i].key@) == Ok::<
                _,
                KreuzbergErrorV,
            >(v@))
    }

    /// A dispatcher with an empty cache.
    pub fn new() -> (r: Self)
        ensures
            r.inv(),
    {
        Extractor { cache: Cache::new() }
    }

    /// Extracts with memoization.  The observable outcome is identical to
    /// [`extract_bytes`] on the same request, whether it is computed or
    /// served from the cache; on a miss this call computes and fills the
    /// cache, and a failed extraction leaves no cache entry behind.
    pub fn extract(&mut self, bytes: &[u8], declared: &str, config: &ExtractionConfig) -> (r:
        Result<ExtractionResult, KreuzbergError>)
        requires
            old(self).inv(),
        ensures
            final(self).inv(),
            r matches Ok(v) ==> spec_extract(bytes@, declared@, *config) == Ok::<
                _,
                KreuzbergErrorV,
            >(v@),
            r matches Err(e) ==> spec_extract(bytes@, declared@, *config) == Err::<
                ExtractionResultV,
                _,
            >(e@),
    {
        let format = resolve(declared, bytes);
        let owned = crate::reader::read_bytes(bytes, 0, bytes.len());
        assert(owned@ =~= bytes@);
        let key = CacheKey {
            bytes: owned,
            format,
            cfb_mode: config.cfb_mode,
            html_sanitize: config.html_sanitize,
            max_content_length: config.max_content_length,
        };
        let key2 = dup_key(&key);
        assert(key@ == spec_key_of(bytes@, declared@, *config));
        let outcome = self.cache.begin(key);
        match outcome {
            BeginOutcome::Hit => {
                match self.cache.get_ready(&key2) {
                    Some(v) => {
                        proof {
                            crate::cache::lemma_find_key(self.cache.entries@, key2@);
                        }
                        let d = duplicate_result(v);
                        Ok(d)
                    },
                    None => {
                        proof {
                            assert(false);
                        }
                        extract_bytes(bytes, declared, config)
                    },
                }
            },
            BeginOutcome::Waiter => extract_bytes(bytes, declared, config),
            BeginOutcome::Owner => {
                proof {
                    crate::cache::lemma_find_key(old(self).cache.entries@, key2@);
                    crate::cache::lemma_find_key_at(
                        self.cache.entries@,
                        key2@,
                        old(self).cache.entries@.len() as int,
                    );
                }
                let computed = extract_bytes(bytes, declared, config);
                match computed {
                    Ok(v) => {
                        let d = duplicate_result(&v);
                        let ghost pre = self.cache.entries@;
                        self.cache.complete(&key2, d);
                        proof {
                            let idx = crate::cache::spec_find_key(pre, key2@);
                            assert forall|i: int|
                                0 <= i < self.cache.entries@.len() implies ((
                            #[trigger] self.cache.entries@[i]).value matches Some(x)
                                ==> spec_extract_key(self.cache.entries@[i].key@) == Ok::<
                                _,
                                KreuzbergErrorV,
                            >(x@)) by {
                                if i < self.cache.entries@.len() - 1 {
                                    let pi = if i < idx {
                                        i
                                    } else {
                                        i + 1
                                    };
                                    assert(self.cache.entries@[i] == pre[pi]);
                                }
                            }
                        }
                        Ok(v)
                    },
                    Err(e) => {
                        let ghost pre = self.cache.entries@;
                        self.cache.fail(&key2);
                        proof {
                            let idx = crate::cache::spec_find_key(pre, key2@);
                            assert forall|i: int|
                                0 <= i < self.cache.entries@.len() implies ((
                            #[trigger] self.cache.entries@[i]).value matches Some(x)
                                ==> spec_extract_key(self.cache.entries@[i].key@) == Ok::<
                                _,
                                KreuzbergErrorV,
                            >(x@)) by {
                                if idx < pre.len() {
                                    let pi = if i < idx {
                                        i
                                    } else {
                                        i + 1
                                    };
                                    assert(self.cache.entries@[i] == pre[pi]);
                                }
                            }
                        }
                        Err(e)
                    },
                }
            },
        }
    }
}

} // verus!

verus! {

/// Idempotence: extraction's outcome is a function of the request alone.
/// Any two calls that were given identical bytes, declared type and
/// configuration — computed afresh or answered from the cache, whose
/// finished entries hold exactly their key's outcome — are bound by their
/// contracts to one and the same result.
pub proof fn lemma_extract_idempotent(
    b: Seq<u8>,
    declared: Seq<char>,
    cfg: ExtractionConfig,
    r1: Result<ExtractionResultV, KreuzbergErrorV>,
    r2: Result<ExtractionResultV, KreuzbergErrorV>,
)
    requires
        r1 == spec_extract(b, declared, cfg),
        r2 == spec_extract(b, declared, cfg),
    ensures
        r1 == r2,
{
}

} // verus!

verus! {

/// Metadata coherence: whenever a result carries format-specific
/// metadata, that metadata's variant belongs to the result's MIME type —
/// email metadata appears only on the email and message formats.
pub proof fn lemma_metadata_tag_matches(b: Seq<u8>, declared: Seq<char>, cfg: ExtractionConfig)
    ensures
        (match spec_extract(b, declared, cfg) {
            Ok(r) => r.metadata.format is Some ==> (r.mime_type == "message/rfc822"@
                || r.mime_type == "application/vnd.ms-outlook"@),
            Err(_) => true,
        }),
{
}

} // verus!
