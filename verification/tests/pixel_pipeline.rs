use bmp_grayscale::pipeline::{
    convert_to_grayscale, grayscale_image, transform, IMAGE_CHUNK_SIZE,
};
use bmp_grayscale::pixel::grayscale;
use rayon::ThreadPoolBuilder;

fn patterned(len: usize) -> Vec<u8> {
    let mut seed: u32 = 0x1F3D_5B79;
    let mut bytes = Vec::with_capacity(len);
    for _ in 0..len {
        seed ^= seed << 13;
        seed ^= seed >> 17;
        seed ^= seed << 5;
        bytes.push((seed >> 9) as u8);
    }
    bytes
}

fn gray_by_hand(bytes: &[u8]) -> Vec<u8> {
    let mut out = bytes.to_vec();
    let mut i = 0;
    while i + 2 < bytes.len() {
        let level = ((bytes[i] as u32 + bytes[i + 1] as u32 + bytes[i + 2] as u32) / 3) as u8;
        out[i] = level;
        out[i + 1] = level;
        out[i + 2] = level;
        i += 3;
    }
    out
}

fn chunked_by_hand(bytes: &[u8], chunk_size: usize) -> Vec<u8> {
    let mut out = Vec::with_capacity(bytes.len());
    for chunk in bytes.chunks(chunk_size) {
        out.extend_from_slice(&gray_by_hand(chunk));
    }
    out
}

#[test]
fn grayscale_of_every_triplet() {
    for r in 0u32..=255 {
        for g in 0u32..=255 {
            for b in 0u32..=255 {
                let level = ((r + g + b) / 3) as u8;
                assert_eq!(grayscale(r as u8, g as u8, b as u8), (level, level, level));
            }
        }
    }
}

#[test]
fn grayscale_truncates() {
    assert_eq!(grayscale(10, 20, 30), (20, 20, 20));
    assert_eq!(grayscale(0, 0, 1), (0, 0, 0));
    assert_eq!(grayscale(0, 0, 2), (0, 0, 0));
    assert_eq!(grayscale(0, 1, 2), (1, 1, 1));
    assert_eq!(grayscale(255, 255, 254), (254, 254, 254));
    assert_eq!(grayscale(255, 255, 255), (255, 255, 255));
    assert_eq!(grayscale(0, 0, 0), (0, 0, 0));
}

#[test]
fn convert_leaves_the_tail_untouched() {
    let mut one = vec![7u8];
    convert_to_grayscale(&mut one);
    assert_eq!(one, vec![7]);
    let mut two = vec![7u8, 9];
    convert_to_grayscale(&mut two);
    assert_eq!(two, vec![7, 9]);
    let mut four = vec![10u8, 20, 30, 99];
    convert_to_grayscale(&mut four);
    assert_eq!(four, vec![20, 20, 20, 99]);
    let mut five = vec![10u8, 20, 30, 99, 1];
    convert_to_grayscale(&mut five);
    assert_eq!(five, vec![20, 20, 20, 99, 1]);
    let mut empty: Vec<u8> = Vec::new();
    convert_to_grayscale(&mut empty);
    assert_eq!(empty, Vec::<u8>::new());
}

#[test]
fn transform_scenario_nine_bytes() {
    for chunk_size in [9usize, 12, 4095, 1 << 20] {
        let mut pixels = vec![10u8, 20, 30, 40, 50, 60, 70, 80, 90];
        transform(&mut pixels, chunk_size);
        assert_eq!(pixels, vec![20, 20, 20, 50, 50, 50, 80, 80, 80]);
    }
}

#[test]
fn transform_changes_the_buffer() {
    let before = vec![10u8, 20, 30, 40, 50, 60, 70, 80, 90];
    let mut pixels = before.clone();
    transform(&mut pixels, 3);
    assert_ne!(pixels, before);
    assert_eq!(pixels, vec![20, 20, 20, 50, 50, 50, 80, 80, 80]);
}

#[test]
fn transform_with_a_chunk_that_splits_triplets() {
    let mut pixels = vec![10u8, 20, 30, 40, 50, 60, 70, 80, 90];
    transform(&mut pixels, 4);
    assert_eq!(pixels, vec![20, 20, 20, 40, 60, 60, 60, 80, 90]);
    let mut small = vec![10u8, 20, 30, 40, 50, 60];
    transform(&mut small, 2);
    assert_eq!(small, vec![10, 20, 30, 40, 50, 60]);
    let mut ones = vec![10u8, 20, 30];
    transform(&mut ones, 1);
    assert_eq!(ones, vec![10, 20, 30]);
}

#[test]
fn transform_equals_chunks_converted_one_by_one() {
    for len in [0usize, 1, 2, 3, 4, 5, 17, 100, 4095, 4096, 9000] {
        for chunk_size in [1usize, 2, 3, 4, 5, 7, 9, 64, 4095, 4096] {
            let before = patterned(len);
            let mut pixels = before.clone();
            transform(&mut pixels, chunk_size);
            assert_eq!(pixels, chunked_by_hand(&before, chunk_size));
        }
    }
}

#[test]
fn transform_twice_is_transform_once() {
    for chunk_size in [1usize, 3, 4, 5, 6, 9, 100, 4095] {
        let mut once = patterned(10_000);
        transform(&mut once, chunk_size);
        let mut twice = once.clone();
        transform(&mut twice, chunk_size);
        assert_eq!(twice, once);
    }
}

#[test]
fn aligned_chunk_sizes_agree() {
    let before = patterned(20_000);
    let expected = gray_by_hand(&before);
    for chunk_size in [3usize, 6, 9, 300, 4095, 8190, 19_998, 30_000] {
        let mut pixels = before.clone();
        transform(&mut pixels, chunk_size);
        assert_eq!(pixels, expected);
    }
}

#[test]
fn every_complete_triplet_is_gray() {
    let before = patterned(12_290);
    let mut pixels = before.clone();
    transform(&mut pixels, 4095);
    assert_eq!(pixels.len(), before.len());
    for t in 0..before.len() / 3 {
        let level =
            ((before[3 * t] as u32 + before[3 * t + 1] as u32 + before[3 * t + 2] as u32) / 3)
                as u8;
        assert_eq!(pixels[3 * t], level);
        assert_eq!(pixels[3 * t + 1], level);
        assert_eq!(pixels[3 * t + 2], level);
    }
    assert_eq!(pixels[12_288], before[12_288]);
    assert_eq!(pixels[12_289], before[12_289]);
}

#[test]
fn transform_of_an_empty_buffer() {
    let mut pixels: Vec<u8> = Vec::new();
    transform(&mut pixels, 4095);
    assert_eq!(pixels, Vec::<u8>::new());
}

#[test]
fn grayscale_image_uses_chunks_of_4095() {
    assert_eq!(IMAGE_CHUNK_SIZE, 4095);
    let before = patterned(3 * 4095 + 2);
    let mut pixels = before.clone();
    grayscale_image(&mut pixels);
    assert_eq!(pixels, gray_by_hand(&before));
    let mut by_transform = before.clone();
    transform(&mut by_transform, 4095);
    assert_eq!(pixels, by_transform);
}

#[test]
fn grayscale_image_scenario() {
    let mut pixels = vec![10u8, 20, 30, 40, 50, 60, 70, 80, 90];
    grayscale_image(&mut pixels);
    assert_eq!(pixels, vec![20, 20, 20, 50, 50, 50, 80, 80, 80]);
}

#[test]
fn worker_count_does_not_matter() {
    let before = patterned(50_000);
    for chunk_size in [4usize, 4095] {
        let expected = chunked_by_hand(&before, chunk_size);
        for workers in [1usize, 2, 3, 8] {
            let pool = ThreadPoolBuilder::new().num_threads(workers).build().unwrap();
            let mut pixels = before.clone();
            pool.install(|| transform(&mut pixels, chunk_size));
            assert_eq!(pixels, expected);
        }
    }
}
