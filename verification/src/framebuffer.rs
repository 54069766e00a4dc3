use vstd::prelude::*;

verus! {

/// The 64x32 display, row by row, one byte per pixel (1 lit, 0 dark).
#[derive(Debug)]
pub struct Framebuffer {
    pub pixels: [u8; 2048],
}

impl View for Framebuffer {
    type V = Seq<u8>;

    open spec fn view(&self) -> Seq<u8> {
        self.pixels@
    }
}

/// Index of pixel (`x`, `y`).
pub open spec fn pixel_index(x: int, y: int) -> int {
    y * 64 + x
}

impl Framebuffer {
    /// A dark display.
    pub fn new() -> (fb: Framebuffer)
        ensures
            fb@ == Seq::new(2048, |k: int| 0u8),
    {
        Framebuffer { pixels: [0; 2048] }
    }

    /// Turns every pixel dark.
    pub fn clear(&mut self)
        ensures
            final(self)@ == Seq::new(2048, |k: int| 0u8),
    {
        self.pixels = [0; 2048]
    }

    /// XORs `value` into pixel (`x`, `y`); true when a lit pixel went dark.
    pub fn xor(&mut self, x: u8, y: u8, value: u8) -> (collision: bool)
        requires
            pixel_index(x as int, y as int) < 2048,
        ensures
            final(self)@ == old(self)@.update(
                pixel_index(x as int, y as int),
                old(self)@[pixel_index(x as int, y as int)] ^ value,
            ),
            collision == (old(self)@[pixel_index(x as int, y as int)] == 1 && (old(self)@[pixel_index(x as int, y as int)] ^ value) == 0),
    {
        let index = y as u16 * 64 + (x as u16);

        let prev_on = self.pixels[index as usize] == 1;
        self.pixels[index as usize] ^= value;

        prev_on && self.pixels[index as usize] == 0
    }
}

/// XORing the same value into the same pixel twice gives the display back.
pub proof fn lemma_xor_twice(pixels: Seq<u8>, index: int, value: u8)
    requires
        0 <= index < pixels.len(),
    ensures
        ({
            let once = pixels.update(index, pixels[index] ^ value);
            once.update(index, once[index] ^ value) == pixels
        }),
{
    let p = pixels[index];
    assert((p ^ value) ^ value == p) by (bit_vector);
    let once = pixels.update(index, pixels[index] ^ value);
    assert(once.update(index, once[index] ^ value) =~= pixels);
}

/// A pixel stays 0 or 1 when a bit (0 or 1) is XORed into it.
pub proof fn lemma_xor_keeps_binary(pixel: u8, value: u8)
    requires
        pixel <= 1,
        value <= 1,
    ensures
        pixel ^ value <= 1,
        (pixel ^ value == 0) <==> (pixel == value),
{
    assert(pixel <= 1 && value <= 1 ==> pixel ^ value <= 1 && ((pixel ^ value == 0) <==> (pixel == value))) by (bit_vector);
}

/// The display is stored row by row, 64 pixels to a row: pixel (`x`, `y`)
/// is entry `y * 64 + x`, so the entry's quotient by 64 is its row and the
/// remainder its column.
pub proof fn lemma_pixel_layout(x: int, y: int)
    requires
        0 <= x < 64,
        0 <= y < 32,
    ensures
        0 <= pixel_index(x, y) < 2048,
        pixel_index(x, y) / 64 == y,
        pixel_index(x, y) % 64 == x,
{
}

} // verus!
