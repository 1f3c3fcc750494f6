//! The set of supported Pdfium API release versions, and selection of the
//! newest enabled one.  Which versions are enabled is a property of the
//! build; the selection logic takes that set as a value, so it can be
//! stated and checked for every combination.

use vstd::prelude::*;

verus! {

/// A specific Pdfium `FPDF_*` API release version.
#[derive(Copy, Clone, Debug, PartialEq, Eq, Structural)]
pub enum PdfiumApiVersion {
    /// Changes published to the upstream repository but not yet released.
    Future,
    V7543,
    V7350,
    V7215,
    V7123,
    V6996,
    V6721,
    V6666,
    V6611,
    V6569,
    V6555,
    V6490,
    V6406,
    V6337,
    V6295,
    V6259,
    V6164,
    V6124,
    V6110,
    V6084,
    V6043,
    V6015,
    V5961,
}

/// Which API versions a build enables.  Enabling several at once is
/// common, since build features are additive.
#[derive(Copy, Clone, Debug, PartialEq, Eq, Structural)]
pub struct ApiVersionFlags {
    pub future: bool,
    pub v7543: bool,
    pub v7350: bool,
    pub v7215: bool,
    pub v7123: bool,
    pub v6996: bool,
    pub v6721: bool,
    pub v6666: bool,
    pub v6611: bool,
    pub v6569: bool,
    pub v6555: bool,
    pub v6490: bool,
    pub v6406: bool,
    pub v6337: bool,
    pub v6295: bool,
    pub v6259: bool,
    pub v6164: bool,
    pub v6124: bool,
    pub v6110: bool,
    pub v6084: bool,
    pub v6043: bool,
    pub v6015: bool,
    pub v5961: bool,
}

impl ApiVersionFlags {
    /// At least one version is enabled.
    pub open spec fn spec_any(self) -> bool {
        self.future || self.v7543 || self.v7350 || self.v7215 || self.v7123 || self.v6996
            || self.v6721 || self.v6666 || self.v6611 || self.v6569 || self.v6555 || self.v6490
            || self.v6406 || self.v6337 || self.v6295 || self.v6259 || self.v6164 || self.v6124
            || self.v6110 || self.v6084 || self.v6043 || self.v6015 || self.v5961
    }
}

/// The newest enabled version: the release order, newest first, decides.
pub open spec fn spec_current(f: ApiVersionFlags) -> PdfiumApiVersion {
    if f.future {
        PdfiumApiVersion::Future
    } else if f.v7543 {
        PdfiumApiVersion::V7543
    } else if f.v7350 {
        PdfiumApiVersion::V7350
    } else if f.v7215 {
        PdfiumApiVersion::V7215
    } else if f.v7123 {
        PdfiumApiVersion::V7123
    } else if f.v6996 {
        PdfiumApiVersion::V6996
    } else if f.v6721 {
        PdfiumApiVersion::V6721
    } else if f.v6666 {
        PdfiumApiVersion::V6666
    } else if f.v6611 {
        PdfiumApiVersion::V6611
    } else if f.v6569 {
        PdfiumApiVersion::V6569
    } else if f.v6555 {
        PdfiumApiVersion::V6555
    } else if f.v6490 {
        PdfiumApiVersion::V6490
    } else if f.v6406 {
        PdfiumApiVersion::V6406
    } else if f.v6337 {
        PdfiumApiVersion::V6337
    } else if f.v6295 {
        PdfiumApiVersion::V6295
    } else if f.v6259 {
        PdfiumApiVersion::V6259
    } else if f.v6164 {
        PdfiumApiVersion::V6164
    } else if f.v6124 {
        PdfiumApiVersion::V6124
    } else if f.v6110 {
        PdfiumApiVersion::V6110
    } else if f.v6084 {
        PdfiumApiVersion::V6084
    } else if f.v6043 {
        PdfiumApiVersion::V6043
    } else if f.v6015 {
        PdfiumApiVersion::V6015
    } else {
        PdfiumApiVersion::V5961
    }
}

impl PdfiumApiVersion {
    /// Returns the selected version for a build: when several versions
    /// are enabled, the newest wins.  A build enables at least one.
    pub fn current(f: &ApiVersionFlags) -> (r: Self)
        requires
            f.spec_any(),
        ensures
            r == spec_current(*f),
    {
        if f.future {
            PdfiumApiVersion::Future
        } else if f.v7543 {
            PdfiumApiVersion::V7543
        } else if f.v7350 {
            PdfiumApiVersion::V7350
        } else if f.v7215 {
            PdfiumApiVersion::V7215
        } else if f.v7123 {
            PdfiumApiVersion::V7123
        } else if f.v6996 {
            PdfiumApiVersion::V6996
        } else if f.v6721 {
            PdfiumApiVersion::V6721
        } else if f.v6666 {
            PdfiumApiVersion::V6666
        } else if f.v6611 {
            PdfiumApiVersion::V6611
        } else if f.v6569 {
            PdfiumApiVersion::V6569
        } else if f.v6555 {
            PdfiumApiVersion::V6555
        } else if f.v6490 {
            PdfiumApiVersion::V6490
        } else if f.v6406 {
            PdfiumApiVersion::V6406
        } else if f.v6337 {
            PdfiumApiVersion::V6337
        } else if f.v6295 {
            PdfiumApiVersion::V6295
        } else if f.v6259 {
            PdfiumApiVersion::V6259
        } else if f.v6164 {
            PdfiumApiVersion::V6164
        } else if f.v6124 {
            PdfiumApiVersion::V6124
        } else if f.v6110 {
            PdfiumApiVersion::V6110
        } else if f.v6084 {
            PdfiumApiVersion::V6084
        } else if f.v6043 {
            PdfiumApiVersion::V6043
        } else if f.v6015 {
            PdfiumApiVersion::V6015
        } else {
            PdfiumApiVersion::V5961
        }
    }
}

} // verus!
