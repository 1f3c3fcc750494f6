//! Unit tests: cache single-flight behaviour, extraction idempotence,
//! HTML sanitization, format resolution, the error taxonomy, and the
//! form-field and version models.

use kreuzberg::cache::{BeginOutcome, Cache, CacheKey};
use kreuzberg::cfb::CfbMode;
use kreuzberg::error::KreuzbergError;
use kreuzberg::extractor::{extract_bytes, ExtractionConfig, Extractor};
use kreuzberg::formats::{resolve, EffectiveFormat};
use kreuzberg::html::sanitize;
use kreuzberg::pdf_form::{PdfFormComboBoxField, PdfFormFieldOption, PdfFormFieldOptions};
use kreuzberg::pdf_version::{ApiVersionFlags, PdfiumApiVersion};

fn sample_key(tag: u8) -> CacheKey {
    CacheKey {
        bytes: vec![1, 2, 3, tag],
        format: EffectiveFormat::PlainText,
        cfb_mode: CfbMode::Strict,
        html_sanitize: true,
        max_content_length: None,
    }
}

#[test]
fn cache_single_flight_one_owner() {
    let mut cache: Cache<u32> = Cache::new();
    // First request for the key computes; all later ones wait on it.
    assert_eq!(cache.begin(sample_key(1)), BeginOutcome::Owner);
    assert_eq!(cache.begin(sample_key(1)), BeginOutcome::Waiter);
    assert_eq!(cache.begin(sample_key(1)), BeginOutcome::Waiter);
    // An unrelated key is unaffected.
    assert_eq!(cache.begin(sample_key(2)), BeginOutcome::Owner);
    // Once the owner reports the result, everyone hits.
    cache.complete(&sample_key(1), 77);
    assert_eq!(cache.begin(sample_key(1)), BeginOutcome::Hit);
    assert_eq!(cache.get_ready(&sample_key(1)), Some(&77));
}

#[test]
fn cache_failures_not_memoized() {
    let mut cache: Cache<u32> = Cache::new();
    assert_eq!(cache.begin(sample_key(9)), BeginOutcome::Owner);
    cache.fail(&sample_key(9));
    // The failed computation left nothing behind: the next request owns.
    assert_eq!(cache.begin(sample_key(9)), BeginOutcome::Owner);
}

#[test]
fn extract_idempotent_across_calls() {
    let config = ExtractionConfig::default();
    let eml = b"From: a@example.com\r\nSubject: Twice\r\n\r\nSame body.";
    let r1 = extract_bytes(eml, "message/rfc822", &config).expect("first");
    let r2 = extract_bytes(eml, "message/rfc822", &config).expect("second");
    assert_eq!(r1.content, r2.content);
    assert_eq!(r1.mime_type, r2.mime_type);
    assert_eq!(r1.metadata.subject, r2.metadata.subject);
}

#[test]
fn extract_cached_equals_computed() {
    let config = ExtractionConfig::default();
    let eml = b"From: a@example.com\r\nSubject: Cached\r\n\r\nBody here.";
    let direct = extract_bytes(eml, "message/rfc822", &config).expect("direct");
    let mut ex = Extractor::new();
    let first = ex.extract(eml, "message/rfc822", &config).expect("miss path");
    let second = ex.extract(eml, "message/rfc822", &config).expect("hit path");
    assert_eq!(direct.content, first.content);
    assert_eq!(first.content, second.content);
    assert_eq!(first.metadata.subject, second.metadata.subject);
}

#[test]
fn html_sanitize_strips_script_and_style() {
    let html = b"<html><head><style>body{}</style></head>\
<body><h1>Title</h1><script>alert('x');</script><p>Visible</p></body></html>";
    let out = sanitize(html, true);
    let text = String::from_utf8(out).unwrap();
    assert!(!text.contains("script"));
    assert!(!text.contains("alert"));
    assert!(!text.contains("body{}"));
    assert!(text.contains("Title"));
    assert!(text.contains("Visible"));
}

#[test]
fn html_sanitize_case_insensitive() {
    let html = b"<SCRIPT>evil()</SCRIPT><b>kept</b>";
    let out = sanitize(html, true);
    let text = String::from_utf8(out).unwrap();
    assert!(!text.contains("evil"));
    assert!(text.contains("kept"));
}

#[test]
fn format_resolution_declared_and_sniffed() {
    assert_eq!(resolve("message/rfc822", b""), EffectiveFormat::Email);
    assert_eq!(resolve("application/vnd.ms-outlook", b""), EffectiveFormat::Msg);
    assert_eq!(resolve("text/html", b""), EffectiveFormat::Html);
    assert_eq!(resolve("text/plain", b""), EffectiveFormat::PlainText);
    assert_eq!(resolve("application/pdf", b""), EffectiveFormat::Pdf);
    assert_eq!(resolve("image/png", b""), EffectiveFormat::Image);
    // Unknown declarations fall back to sniffing.
    assert_eq!(resolve("", b"%PDF-1.7 rest"), EffectiveFormat::Pdf);
    assert_eq!(resolve("", b"<html><body></body></html>"), EffectiveFormat::Html);
    assert_eq!(resolve("", b"just some text"), EffectiveFormat::PlainText);
    let mut cfb = vec![0xD0u8, 0xCF, 0x11, 0xE0, 0xA1, 0xB1, 0x1A, 0xE1];
    cfb.extend_from_slice(&[0u8; 8]);
    assert_eq!(resolve("", &cfb), EffectiveFormat::Msg);
}

#[test]
fn unsupported_format_is_refused() {
    let config = ExtractionConfig::default();
    let result = extract_bytes(b"%PDF-1.4 ...", "application/pdf", &config);
    match result {
        Err(e) => {
            assert_eq!(e.error_type_label(), "UnsupportedFormatError");
            assert_eq!(e.status_code(), 500);
        }
        Ok(_) => panic!("a PDF cannot be extracted without a rendering engine"),
    }
}

#[test]
fn error_labels_and_statuses() {
    let v = KreuzbergError::Validation("bad input".to_string());
    assert_eq!(v.error_type_label(), "ValidationError");
    assert_eq!(v.status_code(), 400);
    assert_eq!(v.message(), "bad input");
    let p = KreuzbergError::Parsing("broken".to_string());
    assert_eq!(p.error_type_label(), "ParsingError");
    assert_eq!(p.status_code(), 422);
    let o = KreuzbergError::Ocr("engine".to_string());
    assert_eq!(o.error_type_label(), "OCRError");
    assert_eq!(o.status_code(), 422);
    let i = KreuzbergError::Io("disk".to_string());
    assert_eq!(i.error_type_label(), "IOError");
    assert_eq!(i.status_code(), 500);
    let c = KreuzbergError::Cache("cache".to_string());
    assert_eq!(c.error_type_label(), "CacheError");
    let u = KreuzbergError::UnsupportedFormat("fmt".to_string());
    assert_eq!(u.error_type_label(), "UnsupportedFormatError");
}

#[test]
fn error_response_assembly() {
    let e = KreuzbergError::Parsing("corrupt sector chain".to_string());
    let r = kreuzberg::api::build_error_response(422, &e);
    assert_eq!(r.error_type, "ParsingError");
    assert_eq!(r.message, "corrupt sector chain");
    assert_eq!(r.status_code, 422);
    assert!(r.traceback.is_none());
}

#[test]
fn content_truncation_cap() {
    let mut config = ExtractionConfig::default();
    config.max_content_length = Some(10);
    let result = extract_bytes(b"0123456789abcdef", "text/plain", &config).expect("plain text");
    assert_eq!(result.content, "0123456789");
}

#[test]
fn latin1_fallback_never_fails() {
    let config = ExtractionConfig::default();
    // 0xE9 alone is not valid UTF-8; the byte is read as its code point.
    let result = extract_bytes(&[0x63, 0x61, 0x66, 0xE9], "text/plain", &config).expect("fallback");
    assert_eq!(result.content, "café");
}

#[test]
fn combo_box_field_accessors() {
    let options = PdfFormFieldOptions {
        options: vec![
            PdfFormFieldOption { label: Some("First".to_string()), is_set: false },
            PdfFormFieldOption { label: Some("Second".to_string()), is_set: true },
            PdfFormFieldOption { label: Some("Third".to_string()), is_set: true },
        ],
    };
    let flags = kreuzberg::pdf_form::FLAG_CHOICE_EDIT | kreuzberg::pdf_form::FLAG_CHOICE_SORT;
    let field = PdfFormComboBoxField::from_pdfium(7, 9, options, flags);
    assert_eq!(field.value(), Some("Second".to_string()));
    assert!(field.has_editable_text_box());
    assert!(field.is_sorted());
    assert!(!field.is_multiselect());
    assert!(field.is_spell_checked());
    assert!(!field.is_commit_on_selection_change());
    assert_eq!(field.options().options.len(), 3);
}

#[test]
fn combo_box_field_no_selection() {
    let options = PdfFormFieldOptions {
        options: vec![PdfFormFieldOption { label: Some("Only".to_string()), is_set: false }],
    };
    let field =
        PdfFormComboBoxField::from_pdfium(1, 2, options, kreuzberg::pdf_form::FLAG_TEXT_DO_NOT_SPELL_CHECK);
    assert_eq!(field.value(), None);
    assert!(!field.is_spell_checked());
}

#[test]
fn pdfium_version_picks_newest_enabled() {
    let mut flags = ApiVersionFlags {
        future: false,
        v7543: false,
        v7350: false,
        v7215: false,
        v7123: false,
        v6996: false,
        v6721: false,
        v6666: false,
        v6611: false,
        v6569: false,
        v6555: false,
        v6490: false,
        v6406: false,
        v6337: false,
        v6295: false,
        v6259: false,
        v6164: false,
        v6124: false,
        v6110: false,
        v6084: false,
        v6043: false,
        v6015: false,
        v5961: true,
    };
    assert_eq!(PdfiumApiVersion::current(&flags), PdfiumApiVersion::V5961);
    flags.v6666 = true;
    assert_eq!(PdfiumApiVersion::current(&flags), PdfiumApiVersion::V6666);
    flags.v7543 = true;
    assert_eq!(PdfiumApiVersion::current(&flags), PdfiumApiVersion::V7543);
    flags.future = true;
    assert_eq!(PdfiumApiVersion::current(&flags), PdfiumApiVersion::Future);
}

#[test]
fn msg_unicode_subject_survives() {
    // A UTF-16 subject with a non-Latin character decodes exactly.
    let config = ExtractionConfig::default();
    let eml = "Subject: Übergrößen\r\n\r\nBody".as_bytes();
    let result = extract_bytes(eml, "message/rfc822", &config).expect("email");
    assert_eq!(result.metadata.subject, Some("Übergrößen".to_string()));
}

#[test]
fn empty_input_is_plain_text() {
    let config = ExtractionConfig::default();
    let result = extract_bytes(b"", "", &config).expect("empty input extracts");
    assert_eq!(result.mime_type, "text/plain");
    assert_eq!(result.content, "");
    assert!(result.metadata.format.is_none());
}

#[test]
fn extract_waiter_computes_without_caching() {
    // While another request owns the key, a waiter computes on its own
    // and observes the same outcome.
    let config = ExtractionConfig::default();
    let eml = b"From: a@example.com\r\nSubject: Shared\r\n\r\nBody.";
    let mut ex = Extractor::new();
    let pending = CacheKey {
        bytes: eml.to_vec(),
        format: EffectiveFormat::Email,
        cfb_mode: CfbMode::Strict,
        html_sanitize: true,
        max_content_length: None,
    };
    assert_eq!(ex.cache.begin(pending), BeginOutcome::Owner);
    let waited = ex.extract(eml, "message/rfc822", &config).expect("waiter result");
    let direct = extract_bytes(eml, "message/rfc822", &config).expect("direct result");
    assert_eq!(waited.content, direct.content);
    assert_eq!(waited.metadata.subject, direct.metadata.subject);
}
