use bmp_grayscale::compression::CompressionKind;
use bmp_grayscale::header::{Header, HEADER_LEN};
use bmp_grayscale::little_endian::{
    u16_from_le_bytes, u16_to_le_bytes, u32_from_le_bytes, u32_to_le_bytes,
};

fn sample_bytes() -> [u8; 54] {
    let mut bytes = [0u8; 54];
    bytes[0] = b'B';
    bytes[1] = b'M';
    bytes[2..6].copy_from_slice(&[0x2D, 0x00, 0x00, 0x00]);
    bytes[6..10].copy_from_slice(&[0xDE, 0xAD, 0xBE, 0xEF]);
    bytes[10..14].copy_from_slice(&[0x36, 0x00, 0x00, 0x00]);
    bytes[14..18].copy_from_slice(&[0x28, 0x00, 0x00, 0x00]);
    bytes[18..22].copy_from_slice(&[0x03, 0x00, 0x00, 0x00]);
    bytes[22..26].copy_from_slice(&[0x01, 0x00, 0x00, 0x00]);
    bytes[26..28].copy_from_slice(&[0x01, 0x00]);
    bytes[28..30].copy_from_slice(&[0x18, 0x00]);
    bytes[30..34].copy_from_slice(&[0x00, 0x00, 0x00, 0x00]);
    bytes[34..38].copy_from_slice(&[0x09, 0x00, 0x00, 0x00]);
    bytes[38..42].copy_from_slice(&[0x13, 0x0B, 0x00, 0x00]);
    bytes[42..46].copy_from_slice(&[0x14, 0x0B, 0x00, 0x00]);
    bytes[46..50].copy_from_slice(&[0x78, 0x56, 0x34, 0x12]);
    bytes[50..54].copy_from_slice(&[0xFF, 0xFE, 0xFD, 0xFC]);
    bytes
}

fn sample_header() -> Header {
    Header {
        magic: [b'B', b'M'],
        file_size: 45,
        reserved: [0xDE, 0xAD, 0xBE, 0xEF],
        pixel_data_offset: 54,
        header_size: 40,
        width: 3,
        height: 1,
        color_planes: 1,
        bits_per_pixel: 24,
        compression: CompressionKind::Uncompressed,
        compressed_size: 9,
        x_ppm: 2835,
        y_ppm: 2836,
        colors_used: 0x1234_5678,
        important_colors: 0xFCFD_FEFF,
    }
}

#[test]
fn header_length_is_54() {
    assert_eq!(HEADER_LEN, 54);
    assert_eq!(sample_header().encode().len(), 54);
}

#[test]
fn decode_reads_every_field_at_its_offset() {
    assert_eq!(Header::decode(&sample_bytes()), sample_header());
}

#[test]
fn encode_writes_every_field_at_its_offset() {
    assert_eq!(sample_header().encode(), sample_bytes().to_vec());
}

#[test]
fn decode_scenario_uncompressed() {
    let header = Header::decode(&sample_bytes());
    assert_eq!(header.magic, [b'B', b'M']);
    assert_eq!(header.file_size, 45);
    assert_eq!(header.pixel_data_offset, 54);
    assert_eq!(header.compression, CompressionKind::Uncompressed);
}

#[test]
fn unrecognized_code_is_kept() {
    let mut bytes = sample_bytes();
    bytes[30..34].copy_from_slice(&[0xFF, 0xFF, 0xFF, 0xFF]);
    let header = Header::decode(&bytes);
    assert_eq!(header.compression, CompressionKind::Unrecognized(0xFFFF_FFFF));
    let again = header.encode();
    assert_eq!(&again[30..34], &[0xFF, 0xFF, 0xFF, 0xFF]);
    assert_eq!(again, bytes.to_vec());
}

#[test]
fn round_trip_of_all_zero_bytes() {
    let bytes = [0u8; 54];
    assert_eq!(Header::decode(&bytes).encode(), bytes.to_vec());
}

#[test]
fn round_trip_of_all_ff_bytes() {
    let bytes = [0xFFu8; 54];
    let header = Header::decode(&bytes);
    assert_eq!(header.file_size, u32::MAX);
    assert_eq!(header.color_planes, u16::MAX);
    assert_eq!(header.compression, CompressionKind::Unrecognized(u32::MAX));
    assert_eq!(header.encode(), bytes.to_vec());
}

#[test]
fn round_trip_of_patterned_bytes() {
    let mut seed: u32 = 0x2545_F491;
    for _ in 0..2000 {
        let mut bytes = [0u8; 54];
        for byte in bytes.iter_mut() {
            seed ^= seed << 13;
            seed ^= seed >> 17;
            seed ^= seed << 5;
            *byte = (seed >> 11) as u8;
        }
        assert_eq!(Header::decode(&bytes).encode(), bytes.to_vec());
    }
}

#[test]
fn round_trip_for_every_low_compression_code() {
    for code in 0u32..=300 {
        let mut bytes = sample_bytes();
        bytes[30..34].copy_from_slice(&code.to_le_bytes());
        let header = Header::decode(&bytes);
        assert_eq!(header.compression.code(), code);
        assert_eq!(header.encode(), bytes.to_vec());
    }
}

#[test]
fn decode_does_not_check_the_signature() {
    let mut bytes = sample_bytes();
    bytes[0] = 0xFF;
    bytes[1] = 0x00;
    let header = Header::decode(&bytes);
    assert_eq!(header.magic, [0xFF, 0x00]);
    assert_eq!(header.encode(), bytes.to_vec());
}

#[test]
fn decode_after_encode_gives_the_header() {
    let header = sample_header();
    let bytes: [u8; 54] = header.encode().try_into().unwrap();
    assert_eq!(Header::decode(&bytes), header);
}

#[test]
fn known_codes_name_their_methods() {
    let kinds = [
        CompressionKind::Uncompressed,
        CompressionKind::RLE8,
        CompressionKind::RLE4,
        CompressionKind::Bitfields,
        CompressionKind::JPEG,
        CompressionKind::PNG,
        CompressionKind::AlphaBitfields,
        CompressionKind::CMYK,
        CompressionKind::CMYKRLE8,
        CompressionKind::CMYKRLE4,
    ];
    for (code, kind) in kinds.iter().enumerate() {
        assert_eq!(CompressionKind::from_code(code as u32), *kind);
        assert_eq!(kind.code(), code as u32);
    }
    assert_eq!(CompressionKind::from_code(10), CompressionKind::Unrecognized(10));
    assert_eq!(CompressionKind::Unrecognized(10).code(), 10);
    assert_eq!(CompressionKind::Unrecognized(3).code(), 3);
}

#[test]
fn pixel_buffer_has_the_declared_size() {
    let buffer = sample_header().pixel_buffer();
    assert_eq!(buffer, vec![0u8; 45]);
    let mut empty = sample_header();
    empty.file_size = 0;
    assert_eq!(empty.pixel_buffer(), Vec::<u8>::new());
}

#[test]
fn little_endian_numbers() {
    assert_eq!(u32_from_le_bytes([0x78, 0x56, 0x34, 0x12]), 0x1234_5678);
    assert_eq!(u32_to_le_bytes(0x1234_5678), [0x78, 0x56, 0x34, 0x12]);
    assert_eq!(u32_from_le_bytes([0xFF, 0xFF, 0xFF, 0xFF]), u32::MAX);
    assert_eq!(u32_to_le_bytes(u32::MAX), [0xFF, 0xFF, 0xFF, 0xFF]);
    assert_eq!(u32_to_le_bytes(0), [0, 0, 0, 0]);
    assert_eq!(u16_from_le_bytes([0x34, 0x12]), 0x1234);
    assert_eq!(u16_to_le_bytes(0x1234), [0x34, 0x12]);
    assert_eq!(u16_to_le_bytes(u16::MAX), [0xFF, 0xFF]);
}

#[test]
fn little_endian_agrees_with_std() {
    let mut seed: u32 = 0x9E37_79B9;
    for _ in 0..5000 {
        seed ^= seed << 13;
        seed ^= seed >> 17;
        seed ^= seed << 5;
        assert_eq!(u32_to_le_bytes(seed), seed.to_le_bytes());
        assert_eq!(u32_from_le_bytes(seed.to_le_bytes()), seed);
        let short = (seed >> 7) as u16;
        assert_eq!(u16_to_le_bytes(short), short.to_le_bytes());
        assert_eq!(u16_from_le_bytes(short.to_le_bytes()), short);
    }
}
