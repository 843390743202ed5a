use vstd::prelude::*;

verus! {

/// Number of colours in a palette.
pub const PALETTE_SIZE: usize = 256;

/// One colour of the palette.
#[derive(Clone, Copy, Debug, PartialEq, Eq, Structural)]
pub struct PaletteEntry {
    pub r: u8,
    pub g: u8,
    pub b: u8,
}

/// The colours that the pixel values of the sprites stand for.
pub type Palette = [PaletteEntry; 256];

/// Colour `n` of a stored palette: three bytes, red, green and blue.
pub open spec fn entry_at(bytes: Seq<u8>, n: int) -> PaletteEntry {
    PaletteEntry { r: bytes[3 * n], g: bytes[3 * n + 1], b: bytes[3 * n + 2] }
}

/// Reads a stored palette, which holds 256 colours and nothing else.
pub fn palette_from_bytes(bytes: &[u8]) -> (r: Option<Palette>)
    ensures
        r is Some <==> bytes.len() == 768,
        r matches Some(palette) ==> forall|n: int|
            0 <= n < 256 ==> #[trigger] palette[n] == entry_at(bytes@, n),
{
    if bytes.len() != 3 * PALETTE_SIZE {
        return None;
    }
    let mut palette: [PaletteEntry; 256] = [PaletteEntry { r: 0, g: 0, b: 0 };256];
    let mut n: usize = 0;
    while n < PALETTE_SIZE
        invariant
            n <= 256,
            bytes.len() == 768,
            forall|k: int| 0 <= k < n ==> #[trigger] palette[k] == entry_at(bytes@, k),
        decreases 256 - n,
    {
        palette[n] = PaletteEntry { r: bytes[3 * n], g: bytes[3 * n + 1], b: bytes[3 * n + 2] };
        n = n + 1;
    }
    Some(palette)
}

} // verus!
