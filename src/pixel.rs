//! Packed 24-bit RGB pixels, the form in which finished pixels leave the
//! renderer: one `u32` per pixel laid out as `0x00RRGGBB`.
use vstd::prelude::*;

verus! {

/// The packed value of a pixel with the given channels.
pub open spec fn packed(r: u8, g: u8, b: u8) -> u32 {
    (r as int * 0x1_0000 + g as int * 0x100 + b as int) as u32
}

/// The red channel of a packed pixel (bits 16 to 23).
pub open spec fn red_of(p: u32) -> u8 {
    (p as int / 0x1_0000 % 0x100) as u8
}

/// The green channel of a packed pixel (bits 8 to 15).
pub open spec fn green_of(p: u32) -> u8 {
    (p as int / 0x100 % 0x100) as u8
}

/// The blue channel of a packed pixel (bits 0 to 7).
pub open spec fn blue_of(p: u32) -> u8 {
    (p as int % 0x100) as u8
}

/// The bytes `[r, g, b, r, g, b, ...]` of a sequence of packed pixels.
pub open spec fn rgb_bytes_of(pixels: Seq<u32>) -> Seq<u8>
    decreases pixels.len(),
{
    if pixels.len() == 0 {
        Seq::empty()
    } else {
        let p = pixels.last();
        rgb_bytes_of(pixels.drop_last()).push(red_of(p)).push(green_of(p)).push(blue_of(p))
    }
}

/// Packs three 8-bit channels into one `0x00RRGGBB` word.
pub fn pack_rgb(r: u8, g: u8, b: u8) -> (p: u32)
    ensures
        p == packed(r, g, b),
        p < 0x0100_0000,
{
    let (r32, g32, b32) = (r as u32, g as u32, b as u32);
    assert((r32 << 16u32 | g32 << 8u32 | b32) == r32 * 0x1_0000 + g32 * 0x100 + b32) by (bit_vector)
        requires
            r32 < 0x100,
            g32 < 0x100,
            b32 < 0x100,
    ;
    r32 << 16u32 | g32 << 8u32 | b32
}

/// The red channel of a packed pixel.
pub fn red(p: u32) -> (r: u8)
    ensures
        r == red_of(p),
{
    assert((p >> 16u32) & 0xFF == p / 0x1_0000 % 0x100) by (bit_vector);
    ((p >> 16u32) & 0xFF) as u8
}

/// The green channel of a packed pixel.
pub fn green(p: u32) -> (g: u8)
    ensures
        g == green_of(p),
{
    assert((p >> 8u32) & 0xFF == p / 0x100 % 0x100) by (bit_vector);
    ((p >> 8u32) & 0xFF) as u8
}

/// The blue channel of a packed pixel.
pub fn blue(p: u32) -> (b: u8)
    ensures
        b == blue_of(p),
{
    assert(p & 0xFF == p % 0x100) by (bit_vector);
    (p & 0xFF) as u8
}

/// Unpacking a packed pixel gives back the channels it was packed from.
pub proof fn lemma_unpack_pack(r: u8, g: u8, b: u8)
    ensures
        red_of(packed(r, g, b)) == r,
        green_of(packed(r, g, b)) == g,
        blue_of(packed(r, g, b)) == b,
{
}

/// Packing the channels of a pixel gives back the pixel, with the unused top
/// byte cleared.
pub proof fn lemma_pack_unpack(p: u32)
    ensures
        packed(red_of(p), green_of(p), blue_of(p)) == p % 0x0100_0000,
{
}

/// Flattens packed pixels into the interleaved 8-bit RGB layout that image
/// encoders take, three bytes per pixel in the same order.
pub fn rgb_bytes(pixels: &Vec<u32>) -> (bytes: Vec<u8>)
    requires
        pixels.len() * 3 <= usize::MAX,
    ensures
        bytes@ == rgb_bytes_of(pixels@),
        bytes.len() == 3 * pixels.len(),
        forall|k: int|
            0 <= k < pixels.len() ==> {
                &&& #[trigger] bytes@[3 * k] == red_of(pixels@[k])
                &&& bytes@[3 * k + 1] == green_of(pixels@[k])
                &&& bytes@[3 * k + 2] == blue_of(pixels@[k])
            },
{
    let mut bytes: Vec<u8> = Vec::with_capacity(pixels.len() * 3);
    let mut i: usize = 0;
    while i < pixels.len()
        invariant
            i <= pixels.len(),
            bytes@ == rgb_bytes_of(pixels@.take(i as int)),
        decreases pixels.len() - i,
    {
        let p = pixels[i];
        bytes.push(red(p));
        bytes.push(green(p));
        bytes.push(blue(p));
        assert(pixels@.take(i + 1).drop_last() == pixels@.take(i as int));
        i += 1;
    }
    assert(pixels@.take(i as int) == pixels@);
    proof {
        lemma_rgb_bytes_of_index(pixels@);
    }
    bytes
}

proof fn lemma_rgb_bytes_of_index(pixels: Seq<u32>)
    ensures
        rgb_bytes_of(pixels).len() == 3 * pixels.len(),
        forall|k: int|
            0 <= k < pixels.len() ==> {
                &&& #[trigger] rgb_bytes_of(pixels)[3 * k] == red_of(pixels[k])
                &&& rgb_bytes_of(pixels)[3 * k + 1] == green_of(pixels[k])
                &&& rgb_bytes_of(pixels)[3 * k + 2] == blue_of(pixels[k])
            },
    decreases pixels.len(),
{
    if pixels.len() > 0 {
        let front = pixels.drop_last();
        lemma_rgb_bytes_of_index(front);
        assert forall|k: int| 0 <= k < pixels.len() - 1 implies front[k] == pixels[k] by {}
    }
}

} // verus!
