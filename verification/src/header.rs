//! The fixed 54-byte header of a bitmap file and its byte layout.
//!
//! | offset | size | field             |
//! |--------|------|-------------------|
//! | 0      | 2    | magic             |
//! | 2      | 4    | file_size         |
//! | 6      | 4    | reserved          |
//! | 10     | 4    | pixel_data_offset |
//! | 14     | 4    | header_size       |
//! | 18     | 4    | width             |
//! | 22     | 4    | height            |
//! | 26     | 2    | color_planes      |
//! | 28     | 2    | bits_per_pixel    |
//! | 30     | 4    | compression code  |
//! | 34     | 4    | compressed_size   |
//! | 38     | 4    | x_ppm             |
//! | 42     | 4    | y_ppm             |
//! | 46     | 4    | colors_used       |
//! | 50     | 4    | important_colors  |
//!
//! Every number is little-endian. Decoding never fails: the signature is
//! kept, not checked, and no field is held to a range.

use crate::compression::{lemma_code_of_kind, lemma_kind_of_code, CompressionKind};
use crate::little_endian::{
    lemma_u16_from_to_le,
    lemma_u16_to_from_le,
    lemma_u32_from_to_le,
    lemma_u32_to_from_le,
    u16_from_le,
    u16_from_le_bytes,
    u16_to_le,
    u16_to_le_bytes,
    u32_from_le,
    u32_from_le_bytes,
    u32_to_le,
    u32_to_le_bytes,
};
use vstd::prelude::*;

verus! {

/// The length of the header block in bytes: a 14-byte file header and a
/// 40-byte metadata block.
pub const HEADER_LEN: usize = 54;

/// The metadata block at the start of a bitmap file.
#[derive(Clone, Copy, Debug, PartialEq, Eq)]
pub struct Header {
    /// The file signature, kept as it was read.
    pub magic: [u8; 2],
    /// The size of the whole file as the header declares it.
    pub file_size: u32,
    /// Four bytes without a meaning here, kept as they were read.
    pub reserved: [u8; 4],
    /// The offset of the first pixel byte from the start of the file.
    pub pixel_data_offset: u32,
    /// The declared size of the metadata block that follows the first 14 bytes.
    pub header_size: u32,
    /// The width of the image in pixels.
    pub width: u32,
    /// The height of the image in pixels.
    pub height: u32,
    /// The number of colour planes.
    pub color_planes: u16,
    /// The number of bits per pixel.
    pub bits_per_pixel: u16,
    /// The compression method.
    pub compression: CompressionKind,
    /// The size of the pixel data when compressed.
    pub compressed_size: u32,
    /// The horizontal resolution in pixels per metre.
    pub x_ppm: u32,
    /// The vertical resolution in pixels per metre.
    pub y_ppm: u32,
    /// The number of colours in the palette.
    pub colors_used: u32,
    /// The number of colours that matter.
    pub important_colors: u32,
}

/// A header as a mathematical value: the two byte fields as sequences.
pub struct HeaderView {
    pub magic: Seq<u8>,
    pub file_size: u32,
    pub reserved: Seq<u8>,
    pub pixel_data_offset: u32,
    pub header_size: u32,
    pub width: u32,
    pub height: u32,
    pub color_planes: u16,
    pub bits_per_pixel: u16,
    pub compression: CompressionKind,
    pub compressed_size: u32,
    pub x_ppm: u32,
    pub y_ppm: u32,
    pub colors_used: u32,
    pub important_colors: u32,
}

impl HeaderView {
    /// Whether this value is one that a `Header` can hold and that decoding
    /// can give: the byte fields have their lengths, and the compression
    /// method is canonical.
    pub open spec fn well_formed(self) -> bool {
        &&& self.magic.len() == 2
        &&& self.reserved.len() == 4
        &&& self.compression.canonical()
    }
}

impl View for Header {
    type V = HeaderView;

    open spec fn view(&self) -> HeaderView {
        HeaderView {
            magic: self.magic@,
            file_size: self.file_size,
            reserved: self.reserved@,
            pixel_data_offset: self.pixel_data_offset,
            header_size: self.header_size,
            width: self.width,
            height: self.height,
            color_planes: self.color_planes,
            bits_per_pixel: self.bits_per_pixel,
            compression: self.compression,
            compressed_size: self.compressed_size,
            x_ppm: self.x_ppm,
            y_ppm: self.y_ppm,
            colors_used: self.colors_used,
            important_colors: self.important_colors,
        }
    }
}

/// The header that a block of 54 bytes holds: each field read at its offset.
pub open spec fn spec_decode(bytes: Seq<u8>) -> HeaderView
    recommends
        bytes.len() == 54,
{
    HeaderView {
        magic: bytes.subrange(0, 2),
        file_size: u32_from_le(bytes.subrange(2, 6)),
        reserved: bytes.subrange(6, 10),
        pixel_data_offset: u32_from_le(bytes.subrange(10, 14)),
        header_size: u32_from_le(bytes.subrange(14, 18)),
        width: u32_from_le(bytes.subrange(18, 22)),
        height: u32_from_le(bytes.subrange(22, 26)),
        color_planes: u16_from_le(bytes.subrange(26, 28)),
        bits_per_pixel: u16_from_le(bytes.subrange(28, 30)),
        compression: CompressionKind::spec_from_code(u32_from_le(bytes.subrange(30, 34))),
        compressed_size: u32_from_le(bytes.subrange(34, 38)),
        x_ppm: u32_from_le(bytes.subrange(38, 42)),
        y_ppm: u32_from_le(bytes.subrange(42, 46)),
        colors_used: u32_from_le(bytes.subrange(46, 50)),
        important_colors: u32_from_le(bytes.subrange(50, 54)),
    }
}

/// The bytes of a header: its fields one after the other, in the order of
/// the layout.
#[verifier::opaque]
pub open spec fn spec_encode(header: HeaderView) -> Seq<u8> {
    header.magic + u32_to_le(header.file_size) + header.reserved + u32_to_le(
        header.pixel_data_offset,
    ) + u32_to_le(header.header_size) + u32_to_le(header.width) + u32_to_le(header.height)
        + u16_to_le(header.color_planes) + u16_to_le(header.bits_per_pixel) + u32_to_le(
        header.compression.spec_code(),
    ) + u32_to_le(header.compressed_size) + u32_to_le(header.x_ppm) + u32_to_le(header.y_ppm)
        + u32_to_le(header.colors_used) + u32_to_le(header.important_colors)
}

/// Where each field lies in the bytes of a header, and that they are 54.
pub proof fn lemma_encode_layout(header: HeaderView)
    requires
        header.magic.len() == 2,
        header.reserved.len() == 4,
    ensures
        spec_encode(header).len() == 54,
        spec_encode(header).subrange(0, 2) == header.magic,
        spec_encode(header).subrange(2, 6) == u32_to_le(header.file_size),
        spec_encode(header).subrange(6, 10) == header.reserved,
        spec_encode(header).subrange(10, 14) == u32_to_le(header.pixel_data_offset),
        spec_encode(header).subrange(14, 18) == u32_to_le(header.header_size),
        spec_encode(header).subrange(18, 22) == u32_to_le(header.width),
        spec_encode(header).subrange(22, 26) == u32_to_le(header.height),
        spec_encode(header).subrange(26, 28) == u16_to_le(header.color_planes),
        spec_encode(header).subrange(28, 30) == u16_to_le(header.bits_per_pixel),
        spec_encode(header).subrange(30, 34) == u32_to_le(header.compression.spec_code()),
        spec_encode(header).subrange(34, 38) == u32_to_le(header.compressed_size),
        spec_encode(header).subrange(38, 42) == u32_to_le(header.x_ppm),
        spec_encode(header).subrange(42, 46) == u32_to_le(header.y_ppm),
        spec_encode(header).subrange(46, 50) == u32_to_le(header.colors_used),
        spec_encode(header).subrange(50, 54) == u32_to_le(header.important_colors),
{
    reveal(spec_encode);
    let bytes = spec_encode(header);
    assert(bytes.len() == 54);
    assert(bytes.subrange(0, 2) =~= header.magic);
    assert(bytes.subrange(2, 6) =~= u32_to_le(header.file_size));
    assert(bytes.subrange(6, 10) =~= header.reserved);
    assert(bytes.subrange(10, 14) =~= u32_to_le(header.pixel_data_offset));
    assert(bytes.subrange(14, 18) =~= u32_to_le(header.header_size));
    assert(bytes.subrange(18, 22) =~= u32_to_le(header.width));
    assert(bytes.subrange(22, 26) =~= u32_to_le(header.height));
    assert(bytes.subrange(26, 28) =~= u16_to_le(header.color_planes));
    assert(bytes.subrange(28, 30) =~= u16_to_le(header.bits_per_pixel));
    assert(bytes.subrange(30, 34) =~= u32_to_le(header.compression.spec_code()));
    assert(bytes.subrange(34, 38) =~= u32_to_le(header.compressed_size));
    assert(bytes.subrange(38, 42) =~= u32_to_le(header.x_ppm));
    assert(bytes.subrange(42, 46) =~= u32_to_le(header.y_ppm));
    assert(bytes.subrange(46, 50) =~= u32_to_le(header.colors_used));
    assert(bytes.subrange(50, 54) =~= u32_to_le(header.important_colors));
}

/// Two blocks of 54 bytes that agree on every field of the layout are equal.
proof fn lemma_equal_by_fields(a: Seq<u8>, b: Seq<u8>)
    requires
        a.len() == 54,
        b.len() == 54,
        a.subrange(0, 2) == b.subrange(0, 2),
        a.subrange(2, 6) == b.subrange(2, 6),
        a.subrange(6, 10) == b.subrange(6, 10),
        a.subrange(10, 14) == b.subrange(10, 14),
        a.subrange(14, 18) == b.subrange(14, 18),
        a.subrange(18, 22) == b.subrange(18, 22),
        a.subrange(22, 26) == b.subrange(22, 26),
        a.subrange(26, 28) == b.subrange(26, 28),
        a.subrange(28, 30) == b.subrange(28, 30),
        a.subrange(30, 34) == b.subrange(30, 34),
        a.subrange(34, 38) == b.subrange(34, 38),
        a.subrange(38, 42) == b.subrange(38, 42),
        a.subrange(42, 46) == b.subrange(42, 46),
        a.subrange(46, 50) == b.subrange(46, 50),
        a.subrange(50, 54) == b.subrange(50, 54),
    ensures
        a == b,
{
    assert forall|i: int| 0 <= i < 54 implies a[i] == b[i] by {
        if i < 2 {
            assert(a[i] == a.subrange(0, 2)[i - 0]);
            assert(b[i] == b.subrange(0, 2)[i - 0]);
        } else if i < 6 {
            assert(a[i] == a.subrange(2, 6)[i - 2]);
            assert(b[i] == b.subrange(2, 6)[i - 2]);
        } else if i < 10 {
            assert(a[i] == a.subrange(6, 10)[i - 6]);
            assert(b[i] == b.subrange(6, 10)[i - 6]);
        } else if i < 14 {
            assert(a[i] == a.subrange(10, 14)[i - 10]);
            assert(b[i] == b.subrange(10, 14)[i - 10]);
        } else if i < 18 {
            assert(a[i] == a.subrange(14, 18)[i - 14]);
            assert(b[i] == b.subrange(14, 18)[i - 14]);
        } else if i < 22 {
            assert(a[i] == a.subrange(18, 22)[i - 18]);
            assert(b[i] == b.subrange(18, 22)[i - 18]);
        } else if i < 26 {
            assert(a[i] == a.subrange(22, 26)[i - 22]);
            assert(b[i] == b.subrange(22, 26)[i - 22]);
        } else if i < 28 {
            assert(a[i] == a.subrange(26, 28)[i - 26]);
            assert(b[i] == b.subrange(26, 28)[i - 26]);
        } else if i < 30 {
            assert(a[i] == a.subrange(28, 30)[i - 28]);
            assert(b[i] == b.subrange(28, 30)[i - 28]);
        } else if i < 34 {
            assert(a[i] == a.subrange(30, 34)[i - 30]);
            assert(b[i] == b.subrange(30, 34)[i - 30]);
        } else if i < 38 {
            assert(a[i] == a.subrange(34, 38)[i - 34]);
            assert(b[i] == b.subrange(34, 38)[i - 34]);
        } else if i < 42 {
            assert(a[i] == a.subrange(38, 42)[i - 38]);
            assert(b[i] == b.subrange(38, 42)[i - 38]);
        } else if i < 46 {
            assert(a[i] == a.subrange(42, 46)[i - 42]);
            assert(b[i] == b.subrange(42, 46)[i - 42]);
        } else if i < 50 {
            assert(a[i] == a.subrange(46, 50)[i - 46]);
            assert(b[i] == b.subrange(46, 50)[i - 46]);
        } else {
            assert(a[i] == a.subrange(50, 54)[i - 50]);
            assert(b[i] == b.subrange(50, 54)[i - 50]);
        }
    }
    assert(a =~= b);
}

/// Decoding a block of 54 bytes and encoding the header gives the same 54
/// bytes again, whatever they are: also where the compression code is none
/// of the ten known ones.
pub proof fn lemma_encode_decode(bytes: Seq<u8>)
    requires
        bytes.len() == 54,
    ensures
        spec_decode(bytes).well_formed(),
        spec_encode(spec_decode(bytes)) == bytes,
{
    let header = spec_decode(bytes);
    let again = spec_encode(header);
    lemma_code_of_kind(u32_from_le(bytes.subrange(30, 34)));
    lemma_encode_layout(header);
    assert(again.subrange(2, 6) == bytes.subrange(2, 6)) by {
        lemma_u32_to_from_le(bytes.subrange(2, 6));
    }
    assert(again.subrange(10, 14) == bytes.subrange(10, 14)) by {
        lemma_u32_to_from_le(bytes.subrange(10, 14));
    }
    assert(again.subrange(14, 18) == bytes.subrange(14, 18)) by {
        lemma_u32_to_from_le(bytes.subrange(14, 18));
    }
    assert(again.subrange(18, 22) == bytes.subrange(18, 22)) by {
        lemma_u32_to_from_le(bytes.subrange(18, 22));
    }
    assert(again.subrange(22, 26) == bytes.subrange(22, 26)) by {
        lemma_u32_to_from_le(bytes.subrange(22, 26));
    }
    assert(again.subrange(26, 28) == bytes.subrange(26, 28)) by {
        lemma_u16_to_from_le(bytes.subrange(26, 28));
    }
    assert(again.subrange(28, 30) == bytes.subrange(28, 30)) by {
        lemma_u16_to_from_le(bytes.subrange(28, 30));
    }
    assert(again.subrange(30, 34) == bytes.subrange(30, 34)) by {
        lemma_u32_to_from_le(bytes.subrange(30, 34));
    }
    assert(again.subrange(34, 38) == bytes.subrange(34, 38)) by {
        lemma_u32_to_from_le(bytes.subrange(34, 38));
    }
    assert(again.subrange(38, 42) == bytes.subrange(38, 42)) by {
        lemma_u32_to_from_le(bytes.subrange(38, 42));
    }
    assert(again.subrange(42, 46) == bytes.subrange(42, 46)) by {
        lemma_u32_to_from_le(bytes.subrange(42, 46));
    }
    assert(again.subrange(46, 50) == bytes.subrange(46, 50)) by {
        lemma_u32_to_from_le(bytes.subrange(46, 50));
    }
    assert(again.subrange(50, 54) == bytes.subrange(50, 54)) by {
        lemma_u32_to_from_le(bytes.subrange(50, 54));
    }
    lemma_equal_by_fields(again, bytes);
}

/// Encoding a well-formed header and decoding its bytes gives the same
/// header again.
pub proof fn lemma_decode_encode(header: HeaderView)
    requires
        header.well_formed(),
    ensures
        spec_encode(header).len() == 54,
        spec_decode(spec_encode(header)) == header,
{
    lemma_encode_layout(header);
    lemma_u32_from_to_le(header.file_size);
    lemma_u32_from_to_le(header.pixel_data_offset);
    lemma_u32_from_to_le(header.header_size);
    lemma_u32_from_to_le(header.width);
    lemma_u32_from_to_le(header.height);
    lemma_u16_from_to_le(header.color_planes);
    lemma_u16_from_to_le(header.bits_per_pixel);
    lemma_u32_from_to_le(header.compression.spec_code());
    lemma_u32_from_to_le(header.compressed_size);
    lemma_u32_from_to_le(header.x_ppm);
    lemma_u32_from_to_le(header.y_ppm);
    lemma_u32_from_to_le(header.colors_used);
    lemma_u32_from_to_le(header.important_colors);
    lemma_kind_of_code(header.compression);
}

impl Header {
    /// Reads a header from its 54 bytes. Every block of 54 bytes is a header.
    pub fn decode(bytes: &[u8; 54]) -> (header: Header)
        ensures
            header@ == spec_decode(bytes@),
            header@.well_formed(),
            spec_encode(header@) == bytes@,
    {
        proof {
            lemma_encode_decode(bytes@);
        }
        let magic: [u8; 2] = [bytes[0], bytes[1]];
        let file_size: [u8; 4] = [bytes[2], bytes[3], bytes[4], bytes[5]];
        let reserved: [u8; 4] = [bytes[6], bytes[7], bytes[8], bytes[9]];
        let pixel_data_offset: [u8; 4] = [bytes[10], bytes[11], bytes[12], bytes[13]];
        let header_size: [u8; 4] = [bytes[14], bytes[15], bytes[16], bytes[17]];
        let width: [u8; 4] = [bytes[18], bytes[19], bytes[20], bytes[21]];
        let height: [u8; 4] = [bytes[22], bytes[23], bytes[24], bytes[25]];
        let color_planes: [u8; 2] = [bytes[26], bytes[27]];
        let bits_per_pixel: [u8; 2] = [bytes[28], bytes[29]];
        let compression: [u8; 4] = [bytes[30], bytes[31], bytes[32], bytes[33]];
        let compressed_size: [u8; 4] = [bytes[34], bytes[35], bytes[36], bytes[37]];
        let x_ppm: [u8; 4] = [bytes[38], bytes[39], bytes[40], bytes[41]];
        let y_ppm: [u8; 4] = [bytes[42], bytes[43], bytes[44], bytes[45]];
        let colors_used: [u8; 4] = [bytes[46], bytes[47], bytes[48], bytes[49]];
        let important_colors: [u8; 4] = [bytes[50], bytes[51], bytes[52], bytes[53]];
        proof {
            assert(magic@ =~= bytes@.subrange(0, 2));
            assert(file_size@ =~= bytes@.subrange(2, 6));
            assert(reserved@ =~= bytes@.subrange(6, 10));
            assert(pixel_data_offset@ =~= bytes@.subrange(10, 14));
            assert(header_size@ =~= bytes@.subrange(14, 18));
            assert(width@ =~= bytes@.subrange(18, 22));
            assert(height@ =~= bytes@.subrange(22, 26));
            assert(color_planes@ =~= bytes@.subrange(26, 28));
            assert(bits_per_pixel@ =~= bytes@.subrange(28, 30));
            assert(compression@ =~= bytes@.subrange(30, 34));
            assert(compressed_size@ =~= bytes@.subrange(34, 38));
            assert(x_ppm@ =~= bytes@.subrange(38, 42));
            assert(y_ppm@ =~= bytes@.subrange(42, 46));
            assert(colors_used@ =~= bytes@.subrange(46, 50));
            assert(important_colors@ =~= bytes@.subrange(50, 54));
        }
        Header {
            magic,
            file_size: u32_from_le_bytes(file_size),
            reserved,
            pixel_data_offset: u32_from_le_bytes(pixel_data_offset),
            header_size: u32_from_le_bytes(header_size),
            width: u32_from_le_bytes(width),
            height: u32_from_le_bytes(height),
            color_planes: u16_from_le_bytes(color_planes),
            bits_per_pixel: u16_from_le_bytes(bits_per_pixel),
            compression: CompressionKind::from_code(u32_from_le_bytes(compression)),
            compressed_size: u32_from_le_bytes(compressed_size),
            x_ppm: u32_from_le_bytes(x_ppm),
            y_ppm: u32_from_le_bytes(y_ppm),
            colors_used: u32_from_le_bytes(colors_used),
            important_colors: u32_from_le_bytes(important_colors),
        }
    }

    /// The buffer for the pixel data of the file: as many zero bytes as the
    /// header declares the file to have.
    pub fn pixel_buffer(&self) -> (buffer: Vec<u8>)
        ensures
            buffer@.len() == self.file_size,
            forall|i: int| 0 <= i < buffer@.len() ==> buffer@[i] == 0,
    {
        vec![0u8; self.file_size as usize]
    }

    /// Writes the header as its 54 bytes.
    pub fn encode(&self) -> (bytes: Vec<u8>)
        ensures
            bytes@ == spec_encode(self@),
            bytes@.len() == 54,
            self.compression.canonical() ==> spec_decode(bytes@) == self@,
    {
        proof {
            if self.compression.canonical() {
                lemma_decode_encode(self@);
            }
        }
        let mut bytes: Vec<u8> = Vec::with_capacity(HEADER_LEN);
        bytes.extend_from_slice(&self.magic);
        bytes.extend_from_slice(&u32_to_le_bytes(self.file_size));
        bytes.extend_from_slice(&self.reserved);
        bytes.extend_from_slice(&u32_to_le_bytes(self.pixel_data_offset));
        bytes.extend_from_slice(&u32_to_le_bytes(self.header_size));
        bytes.extend_from_slice(&u32_to_le_bytes(self.width));
        bytes.extend_from_slice(&u32_to_le_bytes(self.height));
        bytes.extend_from_slice(&u16_to_le_bytes(self.color_planes));
        bytes.extend_from_slice(&u16_to_le_bytes(self.bits_per_pixel));
        bytes.extend_from_slice(&u32_to_le_bytes(self.compression.code()));
        bytes.extend_from_slice(&u32_to_le_bytes(self.compressed_size));
        bytes.extend_from_slice(&u32_to_le_bytes(self.x_ppm));
        bytes.extend_from_slice(&u32_to_le_bytes(self.y_ppm));
        bytes.extend_from_slice(&u32_to_le_bytes(self.colors_used));
        bytes.extend_from_slice(&u32_to_le_bytes(self.important_colors));
        assert(bytes@ == spec_encode(self@)) by {
            reveal(spec_encode);
        }
        bytes
    }
}

} // verus!
