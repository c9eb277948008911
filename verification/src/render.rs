//! The picture's buffer: which pixel a sample belongs to, and where its bytes
//! are stored.

use vstd::prelude::*;

verus! {

/// The bytes of one pixel: three channels of two bytes each.
pub const PIXEL_SIZE: usize = 6;

/// The byte of highest value first, then the other.
pub open spec fn big_endian(channel: u16) -> Seq<u8> {
    seq![(channel / 256) as u8, (channel % 256) as u8]
}

/// The six bytes of a pixel: red, green and blue, each with its high byte
/// first.
pub open spec fn pixel_bytes(rgb: [u16; 3]) -> Seq<u8> {
    big_endian(rgb[0]) + big_endian(rgb[1]) + big_endian(rgb[2])
}

/// The number of bytes that a picture of the given size takes, where the
/// machine can address that many.
pub fn buffer_len(nx: usize, ny: usize) -> (r: Option<usize>)
    ensures
        r is Some <==> nx * ny * PIXEL_SIZE <= usize::MAX,
        r is Some ==> r->0 == nx * ny * PIXEL_SIZE,
{
    let pixels: usize = match nx.checked_mul(ny) {
        Some(p) => p,
        None => {
            assert(nx * ny * PIXEL_SIZE > usize::MAX) by (nonlinear_arith)
                requires
                    nx * ny > usize::MAX,
            ;
            return None;
        },
    };
    pixels.checked_mul(PIXEL_SIZE)
}

/// The column and the row of the pixel at place `idx` of a picture `nx` wide
/// and `ny` high. Rows are counted from the bottom: the first stored row is
/// row `ny`, the last is row 1.
pub fn pixel_position(idx: usize, nx: usize, ny: usize) -> (r: (usize, usize))
    requires
        nx > 0,
        idx < nx * ny,
    ensures
        r.0 == idx % nx,
        r.1 == ny - idx / nx,
        r.0 < nx,
        1 <= r.1 <= ny,
{
    assert(idx / nx < ny) by (nonlinear_arith)
        requires
            nx > 0,
            idx < nx * ny,
    ;
    (idx % nx, ny - idx / nx)
}

/// Stores a pixel's three channels at its place in the buffer. Nothing but
/// the six bytes of that pixel changes.
pub fn store_pixel(image_bytes: &mut Vec<u8>, idx: usize, rgb: [u16; 3])
    requires
        (idx + 1) * PIXEL_SIZE <= old(image_bytes)@.len(),
    ensures
        final(image_bytes)@.len() == old(image_bytes)@.len(),
        final(image_bytes)@.subrange((idx * PIXEL_SIZE) as int, ((idx + 1) * PIXEL_SIZE) as int)
            == pixel_bytes(rgb),
        forall|k: int|
            0 <= k < old(image_bytes)@.len() && !(idx * PIXEL_SIZE <= k < (idx + 1) * PIXEL_SIZE)
                ==> final(image_bytes)@[k] == old(image_bytes)@[k],
{
    let len: usize = image_bytes.len();
    assert((idx + 1) * 6 <= len);
    let base: usize = idx * PIXEL_SIZE;
    let ghost before = image_bytes@;
    let mut channel: usize = 0;
    while channel < 3
        invariant
            channel <= 3,
            base == idx * 6,
            base + 6 <= image_bytes@.len(),
            image_bytes@.len() == before.len() == len,
            forall|k: int|
                0 <= k < before.len() && !(base <= k < base + 2 * channel) ==> image_bytes@[k]
                    == before[k],
            forall|c: int|
                0 <= c < channel ==> image_bytes@[base + 2 * c] == (rgb[c] / 256) as u8
                    && image_bytes@[base + 2 * c + 1] == (rgb[c] % 256) as u8,
        decreases 3 - channel,
    {
        let value: u16 = rgb[channel];
        image_bytes.set(base + 2 * channel, (value / 256) as u8);
        image_bytes.set(base + 2 * channel + 1, (value % 256) as u8);
        channel = channel + 1;
    }
    assert(image_bytes@.subrange(base as int, (base + PIXEL_SIZE) as int) =~= pixel_bytes(rgb));
}

/// Two different pixels share no byte.
pub proof fn lemma_pixels_disjoint(a: usize, b: usize, k: int)
    requires
        a != b,
        a * PIXEL_SIZE <= k < (a + 1) * PIXEL_SIZE,
    ensures
        !(b * PIXEL_SIZE <= k < (b + 1) * PIXEL_SIZE),
{
}

} // verus!
