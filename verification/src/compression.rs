//! The compression method a bitmap header declares.

use vstd::prelude::*;

verus! {

/// The compression method named by the 32-bit code in a bitmap header.
///
/// The ten known methods have the codes 0 to 9. Every other code is kept as
/// it is in `Unrecognized`, so that no code is lost.
#[derive(Clone, Copy, Debug, PartialEq, Eq)]
pub enum CompressionKind {
    Uncompressed,
    RLE8,
    RLE4,
    Bitfields,
    JPEG,
    PNG,
    AlphaBitfields,
    CMYK,
    CMYKRLE8,
    CMYKRLE4,
    Unrecognized(u32),
}

impl CompressionKind {
    /// The code that stands for this method in a header.
    pub open spec fn spec_code(self) -> u32 {
        match self {
            CompressionKind::Uncompressed => 0,
            CompressionKind::RLE8 => 1,
            CompressionKind::RLE4 => 2,
            CompressionKind::Bitfields => 3,
            CompressionKind::JPEG => 4,
            CompressionKind::PNG => 5,
            CompressionKind::AlphaBitfields => 6,
            CompressionKind::CMYK => 7,
            CompressionKind::CMYKRLE8 => 8,
            CompressionKind::CMYKRLE4 => 9,
            CompressionKind::Unrecognized(code) => code,
        }
    }

    /// The method that a code stands for.
    pub open spec fn spec_from_code(code: u32) -> CompressionKind {
        if code == 0 {
            CompressionKind::Uncompressed
        } else if code == 1 {
            CompressionKind::RLE8
        } else if code == 2 {
            CompressionKind::RLE4
        } else if code == 3 {
            CompressionKind::Bitfields
        } else if code == 4 {
            CompressionKind::JPEG
        } else if code == 5 {
            CompressionKind::PNG
        } else if code == 6 {
            CompressionKind::AlphaBitfields
        } else if code == 7 {
            CompressionKind::CMYK
        } else if code == 8 {
            CompressionKind::CMYKRLE8
        } else if code == 9 {
            CompressionKind::CMYKRLE4
        } else {
            CompressionKind::Unrecognized(code)
        }
    }

    /// Whether this value is the one that its own code is read as: a known
    /// method is never held as `Unrecognized`.
    pub open spec fn canonical(self) -> bool {
        self matches CompressionKind::Unrecognized(code) ==> code > 9
    }

    /// The code that stands for this method in a header.
    #[verifier::when_used_as_spec(spec_code)]
    pub fn code(self) -> (code: u32)
        ensures
            code == self.spec_code(),
    {
        match self {
            CompressionKind::Uncompressed => 0,
            CompressionKind::RLE8 => 1,
            CompressionKind::RLE4 => 2,
            CompressionKind::Bitfields => 3,
            CompressionKind::JPEG => 4,
            CompressionKind::PNG => 5,
            CompressionKind::AlphaBitfields => 6,
            CompressionKind::CMYK => 7,
            CompressionKind::CMYKRLE8 => 8,
            CompressionKind::CMYKRLE4 => 9,
            CompressionKind::Unrecognized(code) => code,
        }
    }

    /// The method that a code stands for; a code above 9 is kept in
    /// `Unrecognized`.
    #[verifier::when_used_as_spec(spec_from_code)]
    pub fn from_code(code: u32) -> (kind: CompressionKind)
        ensures
            kind == CompressionKind::spec_from_code(code),
            kind.canonical(),
            kind.spec_code() == code,
    {
        match code {
            0 => CompressionKind::Uncompressed,
            1 => CompressionKind::RLE8,
            2 => CompressionKind::RLE4,
            3 => CompressionKind::Bitfields,
            4 => CompressionKind::JPEG,
            5 => CompressionKind::PNG,
            6 => CompressionKind::AlphaBitfields,
            7 => CompressionKind::CMYK,
            8 => CompressionKind::CMYKRLE8,
            9 => CompressionKind::CMYKRLE4,
            other => CompressionKind::Unrecognized(other),
        }
    }
}

/// Every code is read as a method that is written back as the same code.
pub proof fn lemma_code_of_kind(code: u32)
    ensures
        CompressionKind::spec_from_code(code).spec_code() == code,
        CompressionKind::spec_from_code(code).canonical(),
{
}

/// A canonical method is read back from its own code.
pub proof fn lemma_kind_of_code(kind: CompressionKind)
    requires
        kind.canonical(),
    ensures
        CompressionKind::spec_from_code(kind.spec_code()) == kind,
{
}

} // verus!
