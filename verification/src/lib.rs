//! Document text-extraction core.
//!
//! The crate decodes untrusted document bytes into plain text plus structured
//! metadata: a Compound File Binary (CFB/OLE2) container reader with an
//! opt-in lenient-recovery mode, a MAPI property decoder for Outlook message
//! files, an RFC822 email extractor with HTML sanitization, a format
//! dispatcher that resolves a MIME type to a concrete extractor, and a
//! fingerprint-keyed result cache with single-flight semantics.

pub mod api;
pub mod cache;
pub mod cfb;
pub mod eml;
pub mod error;
pub mod extractor;
pub mod formats;
pub mod html;
pub mod mapi;
pub mod pdf_form;
pub mod pdf_version;
pub mod reader;
pub mod text;
