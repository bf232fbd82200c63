//! The grayscale transform of a pixel buffer, chunk by chunk and in parallel.
//!
//! The buffer is cut into consecutive chunks of `chunk_size` bytes, the last
//! one possibly shorter. Within a chunk the bytes are taken three by three,
//! counted from the start of the chunk, and every complete triplet is
//! replaced by its gray triplet; one or two bytes left over at the end of a
//! chunk stay as they are. Chunks share no byte, so they can be worked on at
//! the same time, and the outcome does not depend on who does which chunk or
//! when.

use crate::pixel::{gray_level, grayscale};
use rayon::iter::ParallelIterator;
use rayon::slice::ParallelSliceMut;
use vstd::arithmetic::div_mod::{
    lemma_fundamental_div_mod,
    lemma_fundamental_div_mod_converse,
    lemma_mod_bound,
    lemma_mod_multiples_basic,
};
use vstd::prelude::*;

verus! {

/// The chunk size that a whole image is transformed with. It is a multiple
/// of three, so no pixel lies across two chunks.
pub const IMAGE_CHUNK_SIZE: usize = 4095;

/// A run of bytes with every complete triplet, counted from its start,
/// replaced by the gray level of the triplet. The bytes after the last
/// complete triplet are unchanged.
pub open spec fn gray_chunk(s: Seq<u8>) -> Seq<u8> {
    Seq::new(
        s.len(),
        |i: int|
            {
                let first = 3 * (i / 3);
                if first + 2 < s.len() {
                    gray_level(s[first], s[first + 1], s[first + 2])
                } else {
                    s[i]
                }
            },
    )
}

/// The chunk of `s` that begins at `start`: `chunk_size` bytes, or what is
/// left of `s` where that is less.
pub open spec fn chunk_at(s: Seq<u8>, chunk_size: int, start: int) -> Seq<u8> {
    s.subrange(
        start,
        if start + chunk_size <= s.len() {
            start + chunk_size
        } else {
            s.len() as int
        },
    )
}

/// Whether a chunk of `s` begins at `start`: chunks begin at the multiples
/// of `chunk_size` below the length of `s`.
pub open spec fn is_chunk_start(s: Seq<u8>, chunk_size: int, start: int) -> bool {
    0 <= start < s.len() && start % chunk_size == 0
}

/// The buffer `s` after the transform with chunks of `chunk_size` bytes:
/// byte `i` is taken from the converted chunk that it lies in.
pub open spec fn transformed(s: Seq<u8>, chunk_size: int) -> Seq<u8>
    recommends
        chunk_size > 0,
{
    Seq::new(
        s.len(),
        |i: int|
            {
                let start = i - i % chunk_size;
                gray_chunk(chunk_at(s, chunk_size, start))[i - start]
            },
    )
}

/// Replaces every complete triplet of `pixels`, counted from its start, by
/// its gray triplet, and leaves the one or two bytes after the last complete
/// triplet as they are.
pub fn convert_to_grayscale(pixels: &mut [u8])
    ensures
        final(pixels)@ == gray_chunk(old(pixels)@),
        final(pixels)@.len() == old(pixels)@.len(),
{
    let ghost before = pixels@;
    let triplets: usize = pixels.len() / 3;
    let mut i: usize = 0;
    while i < triplets
        invariant
            triplets == before.len() / 3,
            before.len() <= usize::MAX,
            i <= triplets,
            pixels@.len() == before.len(),
            forall|j: int| 0 <= j < 3 * i ==> pixels@[j] == gray_chunk(before)[j],
            forall|j: int| 3 * i <= j < before.len() ==> pixels@[j] == before[j],
        decreases triplets - i,
    {
        let (r, g, b) = grayscale(pixels[i * 3], pixels[i * 3 + 1], pixels[i * 3 + 2]);
        pixels[i * 3] = r;
        pixels[i * 3 + 1] = g;
        pixels[i * 3 + 2] = b;
        i += 1;
    }
    assert(pixels@ =~= gray_chunk(before));
}

/// Where the chunk of byte `i` begins, and how far into it `i` lies.
proof fn lemma_chunk_of_byte(i: int, chunk_size: int)
    requires
        0 <= i,
        chunk_size > 0,
    ensures
        0 <= i % chunk_size < chunk_size,
        0 <= i - i % chunk_size <= i,
        (i - i % chunk_size) % chunk_size == 0,
{
    lemma_fundamental_div_mod(i, chunk_size);
    lemma_mod_bound(i, chunk_size);
    lemma_mod_multiples_basic(i / chunk_size, chunk_size);
    assert(i - i % chunk_size == (i / chunk_size) * chunk_size) by (nonlinear_arith)
        requires
            i == chunk_size * (i / chunk_size) + i % chunk_size,
    ;
}

/// A byte that lies `offset` bytes into the chunk that begins at `start`
/// has `start` as the beginning of its chunk.
proof fn lemma_byte_of_chunk(start: int, offset: int, chunk_size: int)
    requires
        chunk_size > 0,
        0 <= start,
        start % chunk_size == 0,
        0 <= offset < chunk_size,
    ensures
        (start + offset) % chunk_size == offset,
{
    lemma_fundamental_div_mod(start, chunk_size);
    let q = start / chunk_size;
    assert(start + offset == q * chunk_size + offset) by (nonlinear_arith)
        requires
            start == chunk_size * q + 0,
    ;
    lemma_fundamental_div_mod_converse(start + offset, chunk_size, q, offset);
}

/// Where the chunk size is a multiple of three, so is every chunk start.
proof fn lemma_start_multiple_of_three(start: int, chunk_size: int)
    requires
        chunk_size > 0,
        chunk_size % 3 == 0,
        0 <= start,
        start % chunk_size == 0,
    ensures
        start % 3 == 0,
{
    lemma_fundamental_div_mod(start, chunk_size);
    let q = start / chunk_size;
    let m = chunk_size / 3;
    assert(start == (m * q) * 3) by (nonlinear_arith)
        requires
            start == chunk_size * q + 0,
            chunk_size == 3 * m,
    ;
    lemma_mod_multiples_basic(m * q, 3);
}

/// In a converted run of bytes the three bytes of every complete triplet
/// are equal to the gray level of the triplet before, and the bytes after
/// the last complete triplet are the bytes before.
pub proof fn lemma_gray_chunk_triplets(s: Seq<u8>)
    ensures
        gray_chunk(s).len() == s.len(),
        forall|t: int|
            0 <= t && 3 * t + 2 < s.len() ==> {
                let level = gray_level(s[3 * t], s[3 * t + 1], s[3 * t + 2]);
                &&& #[trigger] gray_chunk(s)[3 * t] == level
                &&& gray_chunk(s)[3 * t + 1] == level
                &&& gray_chunk(s)[3 * t + 2] == level
            },
        forall|i: int| 3 * (s.len() / 3) <= i < s.len() ==> gray_chunk(s)[i] == s[i],
{
    assert forall|t: int| 0 <= t && 3 * t + 2 < s.len() implies {
        let level = gray_level(s[3 * t], s[3 * t + 1], s[3 * t + 2]);
        &&& #[trigger] gray_chunk(s)[3 * t] == level
        &&& gray_chunk(s)[3 * t + 1] == level
        &&& gray_chunk(s)[3 * t + 2] == level
    } by {
        assert((3 * t) / 3 == t);
        assert((3 * t + 1) / 3 == t);
        assert((3 * t + 2) / 3 == t);
    }
}

/// Converting a run of bytes a second time changes nothing: after the first
/// time the channels of every complete triplet are equal, and the mean of
/// three equal numbers is that number.
pub proof fn lemma_gray_chunk_idempotent(s: Seq<u8>)
    ensures
        gray_chunk(gray_chunk(s)) == gray_chunk(s),
{
    let once = gray_chunk(s);
    assert forall|i: int| 0 <= i < s.len() implies gray_chunk(once)[i] == once[i] by {
        let first = 3 * (i / 3);
        if first + 2 < s.len() {
            assert(first / 3 == i / 3);
            assert((first + 1) / 3 == i / 3);
            assert((first + 2) / 3 == i / 3);
            let level = gray_level(s[first], s[first + 1], s[first + 2]);
            assert(once[first] == level && once[first + 1] == level && once[first + 2] == level);
            assert(gray_level(level, level, level) == level);
        }
    }
    assert(gray_chunk(once) =~= once);
}

/// Every chunk of the transformed buffer is the converted chunk of the
/// buffer before: no chunk is left out and none is touched twice.
pub proof fn lemma_chunks_of_transformed(s: Seq<u8>, chunk_size: int, start: int)
    requires
        chunk_size > 0,
        is_chunk_start(s, chunk_size, start),
    ensures
        chunk_at(transformed(s, chunk_size), chunk_size, start) == gray_chunk(
            chunk_at(s, chunk_size, start),
        ),
{
    let after = transformed(s, chunk_size);
    let chunk = chunk_at(after, chunk_size, start);
    let converted = gray_chunk(chunk_at(s, chunk_size, start));
    assert(chunk.len() == converted.len());
    assert forall|offset: int| 0 <= offset < chunk.len() implies chunk[offset]
        == converted[offset] by {
        lemma_byte_of_chunk(start, offset, chunk_size);
        assert(chunk[offset] == after[start + offset]);
    }
    assert(chunk =~= converted);
}

/// Transforming a buffer a second time with the same chunk size changes
/// nothing.
pub proof fn lemma_transform_idempotent(s: Seq<u8>, chunk_size: int)
    requires
        chunk_size > 0,
    ensures
        transformed(transformed(s, chunk_size), chunk_size) == transformed(s, chunk_size),
{
    let once = transformed(s, chunk_size);
    let twice = transformed(once, chunk_size);
    assert forall|i: int| 0 <= i < s.len() implies twice[i] == once[i] by {
        lemma_chunk_of_byte(i, chunk_size);
        let start = i - i % chunk_size;
        lemma_chunks_of_transformed(s, chunk_size, start);
        lemma_gray_chunk_idempotent(chunk_at(s, chunk_size, start));
    }
    assert(twice =~= once);
}

/// With a chunk size that is a multiple of three no triplet lies across two
/// chunks, and the transformed buffer is the buffer converted as one run:
/// every complete triplet of the buffer is gray.
pub proof fn lemma_transform_aligned(s: Seq<u8>, chunk_size: int)
    requires
        chunk_size > 0,
        chunk_size % 3 == 0,
    ensures
        transformed(s, chunk_size) == gray_chunk(s),
{
    let after = transformed(s, chunk_size);
    assert forall|i: int| 0 <= i < s.len() implies after[i] == gray_chunk(s)[i] by {
        lemma_chunk_of_byte(i, chunk_size);
        let start = i - i % chunk_size;
        let offset = i - start;
        lemma_start_multiple_of_three(start, chunk_size);
        let chunk = chunk_at(s, chunk_size, start);
        let first = 3 * (offset / 3);
        assert(start + first == 3 * (i / 3));
        if first + 2 < chunk.len() {
            assert(chunk[first] == s[start + first]);
            assert(chunk[first + 1] == s[start + first + 1]);
            assert(chunk[first + 2] == s[start + first + 2]);
        } else {
            assert(chunk[offset] == s[i]);
        }
    }
    assert(after =~= gray_chunk(s));
}

/// Two chunk sizes that are multiples of three give the same transformed
/// buffer.
pub proof fn lemma_partition_independent(s: Seq<u8>, chunk_size: int, other_size: int)
    requires
        chunk_size > 0,
        chunk_size % 3 == 0,
        other_size > 0,
        other_size % 3 == 0,
    ensures
        transformed(s, chunk_size) == transformed(s, other_size),
{
    lemma_transform_aligned(s, chunk_size);
    lemma_transform_aligned(s, other_size);
}

/// A buffer that fits into one chunk is converted as one run.
pub proof fn lemma_transform_single_chunk(s: Seq<u8>, chunk_size: int)
    requires
        chunk_size > 0,
        s.len() <= chunk_size,
    ensures
        transformed(s, chunk_size) == gray_chunk(s),
{
    let after = transformed(s, chunk_size);
    assert forall|i: int| 0 <= i < s.len() implies after[i] == gray_chunk(s)[i] by {
        lemma_byte_of_chunk(0, i, chunk_size);
        assert(chunk_at(s, chunk_size, 0) =~= s);
    }
    assert(after =~= gray_chunk(s));
}

/// After the transform every complete triplet of every chunk is gray: its
/// three bytes are equal to the gray level of the triplet before.
pub proof fn lemma_every_triplet_gray(s: Seq<u8>, chunk_size: int, start: int, t: int)
    requires
        chunk_size > 0,
        is_chunk_start(s, chunk_size, start),
        0 <= t,
        3 * t + 2 < chunk_at(s, chunk_size, start).len(),
    ensures
        ({
            let level = gray_level(s[start + 3 * t], s[start + 3 * t + 1], s[start + 3 * t + 2]);
            &&& transformed(s, chunk_size)[start + 3 * t] == level
            &&& transformed(s, chunk_size)[start + 3 * t + 1] == level
            &&& transformed(s, chunk_size)[start + 3 * t + 2] == level
        }),
{
    let chunk = chunk_at(s, chunk_size, start);
    let after = chunk_at(transformed(s, chunk_size), chunk_size, start);
    lemma_chunks_of_transformed(s, chunk_size, start);
    lemma_gray_chunk_triplets(chunk);
    assert(gray_chunk(chunk)[3 * t] == gray_level(chunk[3 * t], chunk[3 * t + 1], chunk[3 * t + 2]));
    assert(after[3 * t] == transformed(s, chunk_size)[start + 3 * t]);
    assert(after[3 * t + 1] == transformed(s, chunk_size)[start + 3 * t + 1]);
    assert(after[3 * t + 2] == transformed(s, chunk_size)[start + 3 * t + 2]);
}

/// After the transform with a chunk size that is a multiple of three every
/// complete triplet of the buffer is gray.
pub proof fn lemma_every_pixel_gray(s: Seq<u8>, chunk_size: int, t: int)
    requires
        chunk_size > 0,
        chunk_size % 3 == 0,
        0 <= t,
        3 * t + 2 < s.len(),
    ensures
        ({
            let level = gray_level(s[3 * t], s[3 * t + 1], s[3 * t + 2]);
            &&& transformed(s, chunk_size)[3 * t] == level
            &&& transformed(s, chunk_size)[3 * t + 1] == level
            &&& transformed(s, chunk_size)[3 * t + 2] == level
        }),
{
    lemma_transform_aligned(s, chunk_size);
    lemma_gray_chunk_triplets(s);
    assert(gray_chunk(s)[3 * t] == gray_level(s[3 * t], s[3 * t + 1], s[3 * t + 2]));
}

/// Hands the chunks of `buffer` to rayon's workers, each of which converts
/// the chunks it gets with `convert_to_grayscale`.
///
/// This is `ParallelSliceMut::par_chunks_mut` followed by
/// `ParallelIterator::for_each`, and its contract is taken on trust from
/// rayon: the chunks are the pieces of `chunk_size` bytes that begin at the
/// multiples of `chunk_size`, the last one ending with the buffer; the
/// operation is run once on every chunk; and the call returns when all of
/// them are done. What the operation does to one chunk is the proved
/// contract of `convert_to_grayscale`. rayon panics on a chunk size of zero,
/// which the precondition leaves out, and where its pool of workers cannot
/// be started, which no precondition can leave out.
#[verifier::external_body]
fn for_each_chunk(buffer: &mut [u8], chunk_size: usize)
    requires
        chunk_size > 0,
    ensures
        final(buffer)@.len() == old(buffer)@.len(),
        forall|start: int|
            is_chunk_start(old(buffer)@, chunk_size as int, start) ==> #[trigger] chunk_at(
                final(buffer)@,
                chunk_size as int,
                start,
            ) == gray_chunk(chunk_at(old(buffer)@, chunk_size as int, start)),
{
    buffer.par_chunks_mut(chunk_size).for_each(|chunk: &mut [u8]| convert_to_grayscale(chunk));
}

/// Transforms `buffer` in place, chunk by chunk, on a pool of workers, and
/// returns when every chunk is done.
///
/// The outcome is a function of the buffer and the chunk size alone. With a
/// chunk size that is a multiple of three, or one that takes in the whole
/// buffer, it is the buffer with every complete triplet made gray.
pub fn transform(buffer: &mut [u8], chunk_size: usize)
    requires
        chunk_size > 0,
    ensures
        final(buffer)@ == transformed(old(buffer)@, chunk_size as int),
        final(buffer)@.len() == old(buffer)@.len(),
        forall|start: int|
            is_chunk_start(old(buffer)@, chunk_size as int, start) ==> #[trigger] chunk_at(
                final(buffer)@,
                chunk_size as int,
                start,
            ) == gray_chunk(chunk_at(old(buffer)@, chunk_size as int, start)),
        chunk_size % 3 == 0 || old(buffer)@.len() <= chunk_size ==> final(buffer)@ == gray_chunk(
            old(buffer)@,
        ),
{
    let ghost before = buffer@;
    for_each_chunk(buffer, chunk_size);
    proof {
        let after = buffer@;
        let size = chunk_size as int;
        assert forall|i: int| 0 <= i < before.len() implies after[i] == transformed(
            before,
            size,
        )[i] by {
            lemma_chunk_of_byte(i, size);
            let start = i - i % size;
            assert(is_chunk_start(before, size, start));
            assert(after[i] == chunk_at(after, size, start)[i - start]);
        }
        assert(after =~= transformed(before, size));
        if chunk_size % 3 == 0 {
            lemma_transform_aligned(before, size);
        }
        if before.len() <= chunk_size {
            lemma_transform_single_chunk(before, size);
        }
    }
}

/// Makes every pixel of an image gray: the transform with chunks of
/// `IMAGE_CHUNK_SIZE` bytes. One or two bytes after the last complete
/// triplet stay as they are.
pub fn grayscale_image(pixels: &mut [u8])
    ensures
        final(pixels)@ == gray_chunk(old(pixels)@),
        final(pixels)@ == transformed(old(pixels)@, IMAGE_CHUNK_SIZE as int),
        final(pixels)@.len() == old(pixels)@.len(),
{
    transform(pixels, IMAGE_CHUNK_SIZE);
}

} // verus!
