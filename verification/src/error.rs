//! The shared error taxonomy, with the label and HTTP status mapping the
//! transport layer serves.

use vstd::prelude::*;

verus! {

/// Every failure the pipeline can surface, each carrying a readable
/// message.
#[derive(Debug)]
pub enum KreuzbergError {
    /// Malformed request.
    Validation(String),
    /// Structural corruption in the document, including container errors.
    Parsing(String),
    /// Text-recognition collaborator failure.
    Ocr(String),
    /// Reading the backing bytes failed.
    Io(String),
    /// Cache subsystem failure; never fatal to an extraction.
    Cache(String),
    /// Image decoding or conversion failure.
    ImageProcessing(String),
    /// Serialization failure.
    Serialization(String),
    /// A required collaborator is not available.
    MissingDependency(String),
    /// A plugin failed.
    Plugin(String),
    /// A lock was poisoned.
    LockPoisoned(String),
    /// No extractor is registered for the resolved format.
    UnsupportedFormat(String),
    /// Anything else.
    Other(String),
}

/// Mathematical image of an error: its variant and message text.
pub ghost enum KreuzbergErrorV {
    Validation(Seq<char>),
    Parsing(Seq<char>),
    Ocr(Seq<char>),
    Io(Seq<char>),
    Cache(Seq<char>),
    ImageProcessing(Seq<char>),
    Serialization(Seq<char>),
    MissingDependency(Seq<char>),
    Plugin(Seq<char>),
    LockPoisoned(Seq<char>),
    UnsupportedFormat(Seq<char>),
    Other(Seq<char>),
}

impl View for KreuzbergError {
    type V = KreuzbergErrorV;

    open spec fn view(&self) -> KreuzbergErrorV {
        match self {
            KreuzbergError::Validation(s) => KreuzbergErrorV::Validation(s@),
            KreuzbergError::Parsing(s) => KreuzbergErrorV::Parsing(s@),
            KreuzbergError::Ocr(s) => KreuzbergErrorV::Ocr(s@),
            KreuzbergError::Io(s) => KreuzbergErrorV::Io(s@),
            KreuzbergError::Cache(s) => KreuzbergErrorV::Cache(s@),
            KreuzbergError::ImageProcessing(s) => KreuzbergErrorV::ImageProcessing(s@),
            KreuzbergError::Serialization(s) => KreuzbergErrorV::Serialization(s@),
            KreuzbergError::MissingDependency(s) => KreuzbergErrorV::MissingDependency(s@),
            KreuzbergError::Plugin(s) => KreuzbergErrorV::Plugin(s@),
            KreuzbergError::LockPoisoned(s) => KreuzbergErrorV::LockPoisoned(s@),
            KreuzbergError::UnsupportedFormat(s) => KreuzbergErrorV::UnsupportedFormat(s@),
            KreuzbergError::Other(s) => KreuzbergErrorV::Other(s@),
        }
    }
}

/// The label reported for each error variant.
pub open spec fn spec_error_label(e: KreuzbergErrorV) -> Seq<char> {
    match e {
        KreuzbergErrorV::Validation(_) => "ValidationError"@,
        KreuzbergErrorV::Parsing(_) => "ParsingError"@,
        KreuzbergErrorV::Ocr(_) => "OCRError"@,
        KreuzbergErrorV::Io(_) => "IOError"@,
        KreuzbergErrorV::Cache(_) => "CacheError"@,
        KreuzbergErrorV::ImageProcessing(_) => "ImageProcessingError"@,
        KreuzbergErrorV::Serialization(_) => "SerializationError"@,
        KreuzbergErrorV::MissingDependency(_) => "MissingDependencyError"@,
        KreuzbergErrorV::Plugin(_) => "PluginError"@,
        KreuzbergErrorV::LockPoisoned(_) => "LockPoisonedError"@,
        KreuzbergErrorV::UnsupportedFormat(_) => "UnsupportedFormatError"@,
        KreuzbergErrorV::Other(_) => "Error"@,
    }
}

/// The message carried by an error.
pub open spec fn spec_error_message(e: KreuzbergErrorV) -> Seq<char> {
    match e {
        KreuzbergErrorV::Validation(s) => s,
        KreuzbergErrorV::Parsing(s) => s,
        KreuzbergErrorV::Ocr(s) => s,
        KreuzbergErrorV::Io(s) => s,
        KreuzbergErrorV::Cache(s) => s,
        KreuzbergErrorV::ImageProcessing(s) => s,
        KreuzbergErrorV::Serialization(s) => s,
        KreuzbergErrorV::MissingDependency(s) => s,
        KreuzbergErrorV::Plugin(s) => s,
        KreuzbergErrorV::LockPoisoned(s) => s,
        KreuzbergErrorV::UnsupportedFormat(s) => s,
        KreuzbergErrorV::Other(s) => s,
    }
}

/// The HTTP status an error maps to: validation problems are the
/// client's request, parsing and recognition failures are unprocessable
/// content, everything else is an internal failure.
pub open spec fn spec_error_status(e: KreuzbergErrorV) -> u16 {
    match e {
        KreuzbergErrorV::Validation(_) => 400,
        KreuzbergErrorV::Parsing(_) => 422,
        KreuzbergErrorV::Ocr(_) => 422,
        _ => 500,
    }
}

impl KreuzbergError {
    /// The label reported for this error.
    pub fn error_type_label(&self) -> (r: &'static str)
        ensures
            r@ == spec_error_label(self@),
    {
        match self {
            KreuzbergError::Validation(_) => "ValidationError",
            KreuzbergError::Parsing(_) => "ParsingError",
            KreuzbergError::Ocr(_) => "OCRError",
            KreuzbergError::Io(_) => "IOError",
            KreuzbergError::Cache(_) => "CacheError",
            KreuzbergError::ImageProcessing(_) => "ImageProcessingError",
            KreuzbergError::Serialization(_) => "SerializationError",
            KreuzbergError::MissingDependency(_) => "MissingDependencyError",
            KreuzbergError::Plugin(_) => "PluginError",
            KreuzbergError::LockPoisoned(_) => "LockPoisonedError",
            KreuzbergError::UnsupportedFormat(_) => "UnsupportedFormatError",
            KreuzbergError::Other(_) => "Error",
        }
    }

    /// The message this error carries.
    pub fn message(&self) -> (r: &str)
        ensures
            r@ == spec_error_message(self@),
    {
        match self {
            KreuzbergError::Validation(s) => s.as_str(),
            KreuzbergError::Parsing(s) => s.as_str(),
            KreuzbergError::Ocr(s) => s.as_str(),
            KreuzbergError::Io(s) => s.as_str(),
            KreuzbergError::Cache(s) => s.as_str(),
            KreuzbergError::ImageProcessing(s) => s.as_str(),
            KreuzbergError::Serialization(s) => s.as_str(),
            KreuzbergError::MissingDependency(s) => s.as_str(),
            KreuzbergError::Plugin(s) => s.as_str(),
            KreuzbergError::LockPoisoned(s) => s.as_str(),
            KreuzbergError::UnsupportedFormat(s) => s.as_str(),
            KreuzbergError::Other(s) => s.as_str(),
        }
    }

    /// The HTTP status this error maps to.
    pub fn status_code(&self) -> (r: u16)
        ensures
            r == spec_error_status(self@),
    {
        match self {
            KreuzbergError::Validation(_) => 400,
            KreuzbergError::Parsing(_) => 422,
            KreuzbergError::Ocr(_) => 422,
            _ => 500,
        }
    }
}

} // verus!
