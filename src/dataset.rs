//! The dataset's binary layout: a big-endian header of a magic number and an
//! element count, followed by one byte per label or per pixel.
use vstd::prelude::*;
use crate::matrix::{Matrix, MatrixCell};

verus! {

/// Magic number at the start of a label file.
pub const LABEL_MAGIC: u32 = 2049;

/// Magic number at the start of an image file.
pub const IMAGE_MAGIC: u32 = 2051;

/// Length of the header: magic number and element count.
pub const HEADER_LEN: usize = 8;

/// Number of classes a label names.
pub const CLASSES: usize = 10;

/// The big-endian 32-bit number in `b[at .. at + 4]`.
pub open spec fn be_u32(b: Seq<u8>, at: int) -> int {
    b[at] * 0x1000000 + b[at + 1] * 0x10000 + b[at + 2] * 0x100 + b[at + 3]
}

/// Reads the big-endian 32-bit number at `at`.
pub fn read_be_u32(bytes: &Vec<u8>, at: usize) -> (r: u32)
    requires
        at + 4 <= bytes.len(),
    ensures
        r == be_u32(bytes@, at as int),
{
    let b0 = bytes[at] as u32;
    let b1 = bytes[at + 1] as u32;
    let b2 = bytes[at + 2] as u32;
    let b3 = bytes[at + 3] as u32;
    b0 * 0x1000000 + b1 * 0x10000 + b2 * 0x100 + b3
}

/// The element count of a file whose header carries `magic`; `None` when the
/// file is shorter than a header or starts with another magic number.
pub fn check_header(bytes: &Vec<u8>, magic: u32) -> (r: Option<u32>)
    ensures
        r.is_some() <==> bytes.len() >= HEADER_LEN && be_u32(bytes@, 0) == magic,
        r.is_some() ==> r.unwrap() == be_u32(bytes@, 4),
{
    if bytes.len() < HEADER_LEN {
        return None;
    }
    if read_be_u32(bytes, 0) != magic {
        return None;
    }
    Some(read_be_u32(bytes, 4))
}

/// `m` is the one-hot column for class `label`: `one` at that row, `zero`
/// elsewhere.
pub open spec fn is_one_hot<T: MatrixCell<T>>(m: Matrix<T, CLASSES, 1>, label: int, zero: T, one: T) -> bool {
    forall|i: int| 0 <= i < CLASSES ==> #[trigger] m@[i][0] == if i == label { one } else { zero }
}

/// The one-hot label columns for the bytes after the header; `None` when the
/// file is shorter than a header or a byte names no class.
pub fn decode_labels<T: MatrixCell<T>>(bytes: &Vec<u8>, zero: T, one: T) -> (r: Option<
    Vec<Matrix<T, CLASSES, 1>>,
>)
    ensures
        r.is_some() <==> bytes.len() >= HEADER_LEN && forall|k: int|
            HEADER_LEN <= k < bytes.len() ==> #[trigger] bytes@[k] < CLASSES,
        r.is_some() ==> r.unwrap()@.len() == bytes.len() - HEADER_LEN && forall|k: int|
            0 <= k < r.unwrap()@.len() ==> is_one_hot(
                #[trigger] r.unwrap()@[k],
                bytes@[k + HEADER_LEN] as int,
                zero,
                one,
            ),
{
    if bytes.len() < HEADER_LEN {
        return None;
    }
    let mut labels: Vec<Matrix<T, CLASSES, 1>> = Vec::new();
    for k in HEADER_LEN..bytes.len()
        invariant
            bytes.len() >= HEADER_LEN,
            labels@.len() == k - HEADER_LEN,
            forall|kk: int| HEADER_LEN <= kk < k ==> #[trigger] bytes@[kk] < CLASSES,
            forall|kk: int|
                0 <= kk < labels@.len() ==> is_one_hot(
                    #[trigger] labels@[kk],
                    bytes@[kk + HEADER_LEN] as int,
                    zero,
                    one,
                ),
    {
        let label = bytes[k];
        if label as usize >= CLASSES {
            return None;
        }
        let mut m = Matrix::<T, CLASSES, 1>::fill_with(zero);
        let ghost m0 = m;
        m.set(label as usize, 0, one);
        proof {
            crate::matrix::lemma_shape(m);
            crate::matrix::lemma_shape(m0);
            assert forall|i: int| 0 <= i < CLASSES implies #[trigger] m@[i][0] == if i == label as int {
                one
            } else {
                zero
            } by {
                assert(m0@[i][0] == zero);
                if i != label as int {
                    assert(m@[i] == m0@[i]);
                }
            }
        }
        labels.push(m);
        proof {
            assert(is_one_hot(labels@[k - HEADER_LEN], bytes@[k as int] as int, zero, one));
        }
    }
    Some(labels)
}

/// The pixel bytes of each complete image after the header, `pixels` bytes
/// per image; a trailing partial image is dropped.
pub fn image_bytes(bytes: &Vec<u8>, pixels: usize) -> (r: Vec<Vec<u8>>)
    requires
        pixels > 0,
    ensures
        bytes.len() < HEADER_LEN ==> r@.len() == 0,
        bytes.len() >= HEADER_LEN ==> r@.len() == (bytes.len() - HEADER_LEN) / (pixels as int),
        forall|n: int|
            0 <= n < r@.len() ==> (#[trigger] r@[n])@ == bytes@.subrange(
                HEADER_LEN + n * pixels,
                HEADER_LEN + n * pixels + pixels,
            ),
{
    let mut images: Vec<Vec<u8>> = Vec::new();
    if bytes.len() < HEADER_LEN {
        return images;
    }
    let count = (bytes.len() - HEADER_LEN) / pixels;
    let mut start: usize = HEADER_LEN;
    assert(HEADER_LEN + 0 * pixels == HEADER_LEN) by (nonlinear_arith);
    for n in 0..count
        invariant
            pixels > 0,
            bytes.len() >= HEADER_LEN,
            count == (bytes.len() - HEADER_LEN) / (pixels as int),
            start == HEADER_LEN + n * pixels,
            images@.len() == n,
            forall|m: int|
                0 <= m < n ==> (#[trigger] images@[m])@ == bytes@.subrange(
                    HEADER_LEN + m * pixels,
                    HEADER_LEN + m * pixels + pixels,
                ),
    {
        assert(start + pixels <= bytes.len()) by (nonlinear_arith)
            requires
                start == HEADER_LEN + n * pixels,
                n < count,
                count == (bytes.len() - HEADER_LEN) / (pixels as int),
                pixels > 0,
                bytes.len() >= HEADER_LEN,
        ;
        let mut image: Vec<u8> = Vec::new();
        for j in 0..pixels
            invariant
                start + pixels <= bytes.len(),
                image@.len() == j,
                forall|jj: int| 0 <= jj < j ==> image@[jj] == bytes@[start + jj],
        {
            image.push(bytes[start + j]);
        }
        assert(image@ =~= bytes@.subrange(start as int, start + pixels));
        images.push(image);
        assert(start + pixels == HEADER_LEN + (n + 1) * pixels) by (nonlinear_arith)
            requires
                start == HEADER_LEN + n * pixels,
        ;
        start = start + pixels;
    }
    images
}

} // verus!
