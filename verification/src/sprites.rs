use vstd::prelude::*;
use crate::map::LoadError;
use crate::palette::PaletteEntry;

verus! {

/// Number of the first image that is drawn without transparency: the terrain.
pub const FIRST_OPAQUE: usize = 192;

/// Number of the last image that is drawn without transparency.
pub const LAST_OPAQUE: usize = 355;

/// One image: `width` by `height` pixels, row by row, each as red, green,
/// blue and opacity.
#[derive(Clone, Debug)]
pub struct SpriteImage {
    pub width: u32,
    pub height: u32,
    pub data: Vec<u8>,
}

/// What a stream says of one image.
pub struct ImageLayout {
    /// Pixels per row as stored: the stated width, made even.
    pub width: int,
    /// Number of rows.
    pub height: int,
    /// Whether a column was added to make the width even.
    pub padded: bool,
    /// Where the palette entries of the pixels start.
    pub pixels: int,
    /// Where the next image starts.
    pub next: int,
}

/// The big-endian 16-bit number at `pos`.
pub open spec fn number_at(bytes: Seq<u8>, pos: int) -> int {
    bytes[pos] * 256 + bytes[pos + 1]
}

/// Reads the header of the image at `pos`: two offsets that are not used,
/// the height and the width. The pixels, one byte each, must follow in full.
pub open spec fn image_at(bytes: Seq<u8>, pos: int) -> Result<ImageLayout, LoadError> {
    if pos + 8 > bytes.len() {
        Err(LoadError::UnexpectedEof)
    } else {
        let height = number_at(bytes, pos + 4);
        let stated = number_at(bytes, pos + 6);
        let width = if stated % 2 == 1 {
            stated + 1
        } else {
            stated
        };
        if pos + 8 + width * height > bytes.len() {
            Err(LoadError::UnexpectedEof)
        } else {
            Ok(
                ImageLayout {
                    width,
                    height,
                    padded: stated % 2 == 1,
                    pixels: pos + 8,
                    next: pos + 8 + width * height,
                },
            )
        }
    }
}

/// Whether images with number `number` have see-through pixels.
pub open spec fn has_transparency(number: int) -> bool {
    !(192 <= number <= 355)
}

/// Whether pixel `k` of an image, counted row by row, is invisible: it lies
/// in the added column, or the image has see-through pixels and this is one,
/// palette entry 0.
pub open spec fn is_hidden(layout: ImageLayout, transparent: bool, entry: u8, k: int) -> bool {
    (layout.padded && k % layout.width == layout.width - 1) || (transparent && entry == 0)
}

/// The four bytes of pixel `k` of an image.
pub open spec fn rgba(
    bytes: Seq<u8>,
    palette: Seq<PaletteEntry>,
    layout: ImageLayout,
    transparent: bool,
    k: int,
) -> Seq<u8> {
    let entry = bytes[layout.pixels + k];
    if is_hidden(layout, transparent, entry, k) {
        seq![0u8, 0u8, 0u8, 0u8]
    } else {
        seq![palette[entry as int].r, palette[entry as int].g, palette[entry as int].b, 255u8]
    }
}

/// Whether `image` is the image with number `number` that the stream
/// describes by `layout`.
pub open spec fn shows(
    image: SpriteImage,
    bytes: Seq<u8>,
    palette: Seq<PaletteEntry>,
    layout: ImageLayout,
    number: int,
) -> bool {
    &&& image.width == layout.width
    &&& image.height == layout.height
    &&& image.data.len() == 4 * (layout.width * layout.height)
    &&& forall|j: int|
        0 <= j < image.data.len() ==> #[trigger] image.data[j] == rgba(
            bytes,
            palette,
            layout,
            has_transparency(number),
            j / 4,
        )[j % 4]
}

proof fn lemma_image_size(width: int, height: int)
    by (nonlinear_arith)
    requires
        0 <= width <= 65536,
        0 <= height <= 65535,
    ensures
        0 <= width * height <= 65536 * 65535,
{
}

/// Whether image `n` of `images` is the image that the stream holds at
/// `starts[n]`.
pub open spec fn decoded(
    images: Seq<SpriteImage>,
    bytes: Seq<u8>,
    palette: Seq<PaletteEntry>,
    starts: Seq<int>,
    n: int,
) -> bool {
    &&& image_at(bytes, starts[n]) is Ok
    &&& shows(images[n], bytes, palette, image_at(bytes, starts[n])->Ok_0, n)
}

/// Where the images of a stream start: image `done.len()` at `pos`, the
/// images before it at `done`. Gives the start of every image of the stream,
/// or the error of the first image that is cut short.
pub open spec fn images_from(bytes: Seq<u8>, pos: int, done: Seq<int>) -> Result<Seq<int>, LoadError>
    decreases bytes.len() - pos,
{
    if pos >= bytes.len() {
        Ok(done)
    } else {
        match image_at(bytes, pos) {
            Err(e) => Err(e),
            Ok(layout) => {
                proof {
                    assert(layout.width * layout.height >= 0) by (nonlinear_arith)
                        requires
                            layout.width >= 0,
                            layout.height >= 0,
                    ;
                }
                images_from(bytes, layout.next, done.push(pos))
            },
        }
    }
}

proof fn lemma_next_row(width: int, y: int)
    by (nonlinear_arith)
    ensures
        (y + 1) * width == y * width + width,
{
}

/// Reads one 16-bit number.
fn read_number(bytes: &[u8], pos: usize) -> (n: u32)
    requires
        pos + 2 <= bytes.len(),
    ensures
        n == number_at(bytes@, pos as int),
        n <= 65535,
{
    let high: u32 = bytes[pos] as u32;
    let low: u32 = bytes[pos + 1] as u32;
    assert(high << 8 | low == high * 256 + low) by (bit_vector)
        requires
            high < 256,
            low < 256,
    ;
    high << 8 | low
}

/// Turns the pixels of one image into colours.
fn read_pixels(
    bytes: &[u8],
    palette: &[PaletteEntry; 256],
    layout: Ghost<ImageLayout>,
    start: usize,
    width: u32,
    height: u32,
    padded: bool,
    transparent: bool,
) -> (data: Vec<u8>)
    requires
        layout@.width == width,
        layout@.height == height,
        layout@.padded == padded,
        layout@.pixels == start,
        width <= 65536,
        height <= 65535,
        start + width * height <= bytes.len(),
    ensures
        data.len() == 4 * (width * height),
        forall|j: int|
            0 <= j < data.len() ==> #[trigger] data[j] == rgba(
                bytes@,
                palette@,
                layout@,
                transparent,
                j / 4,
            )[j % 4],
{
    let mut data: Vec<u8> = Vec::new();
    let mut k: usize = 0;
    let mut y: u32 = 0;
    proof {
        lemma_image_size(width as int, height as int);
    }
    while y < height
        invariant
            y <= height,
            k == y * width,
            width <= 65536,
            height <= 65535,
            layout@.width == width,
            layout@.padded == padded,
            layout@.pixels == start,
            start + width * height <= bytes.len(),
            data.len() == 4 * k,
            forall|j: int|
                0 <= j < data.len() ==> #[trigger] data[j] == rgba(
                    bytes@,
                    palette@,
                    layout@,
                    transparent,
                    j / 4,
                )[j % 4],
        decreases height - y,
    {
        let mut x: u32 = 0;
        proof {
            lemma_next_row(width as int, y as int);
            assert((y + 1) * width <= height * width) by (nonlinear_arith)
                requires
                    y + 1 <= height,
                    0 <= width,
            ;
        }
        while x < width
            invariant
                x <= width,
                y < height,
                k == y * width + x,
                (y + 1) * width == y * width + width,
                (y + 1) * width <= height * width,
                width <= 65536,
                layout@.width == width,
                layout@.padded == padded,
                layout@.pixels == start,
                start + width * height <= bytes.len(),
                data.len() == 4 * k,
                forall|j: int|
                    0 <= j < data.len() ==> #[trigger] data[j] == rgba(
                        bytes@,
                        palette@,
                        layout@,
                        transparent,
                        j / 4,
                    )[j % 4],
            decreases width - x,
        {
            let entry: u8 = bytes[start + k];
            let ignore_pixel = x + 1 == width && padded;
            proof {
                vstd::arithmetic::div_mod::lemma_fundamental_div_mod_converse(
                    k as int,
                    width as int,
                    y as int,
                    x as int,
                );
                assert(ignore_pixel || (transparent && entry == 0) == is_hidden(
                    layout@,
                    transparent,
                    entry,
                    k as int,
                ));
            }
            let ghost pixel = rgba(bytes@, palette@, layout@, transparent, k as int);
            if ignore_pixel || (transparent && entry == 0) {
                data.push(0);
                data.push(0);
                data.push(0);
                data.push(0);
            } else {
                let colour = &palette[entry as usize];
                data.push(colour.r);
                data.push(colour.g);
                data.push(colour.b);
                data.push(255u8);
            }
            assert forall|j: int| 0 <= j < data.len() implies #[trigger] data[j] == rgba(
                bytes@,
                palette@,
                layout@,
                transparent,
                j / 4,
            )[j % 4] by {
                if j >= 4 * k {
                    assert(j / 4 == k);
                    assert(data[j] == pixel[j - 4 * k]);
                }
            }
            k = k + 1;
            x = x + 1;
        }
        y = y + 1;
    }
    proof {
        assert(y * width == width * height) by (nonlinear_arith)
            requires
                y == height,
        ;
    }
    data
}

/// Decodes the images of a sprite file. Every image has a header of four
/// 16-bit numbers, of which the last two are its height and its width, and
/// one byte per pixel that names a colour of `palette`; rows of odd width are
/// stored with one pixel more, which is not shown. Entry 0 is see-through,
/// except in images 192 to 355.
///
/// Fails with [`LoadError::UnexpectedEof`] where the stream ends inside an
/// image, and succeeds on every other stream.
pub fn load(bytes: &[u8], palette: &[PaletteEntry; 256]) -> (r: Result<Vec<SpriteImage>, LoadError>)
    ensures
        match images_from(bytes@, 0, Seq::empty()) {
            Err(e) => r matches Err(f) && f == e,
            Ok(starts) => {
                &&& r matches Ok(images)
                &&& images.len() == starts.len()
                &&& forall|n: int|
                    0 <= n < starts.len() ==> #[trigger] decoded(images@, bytes@, palette@, starts, n)
            },
        },
{
    let l = bytes.len();
    let mut i: usize = 0;
    let mut images: Vec<SpriteImage> = Vec::new();
    let ghost mut starts: Seq<int> = Seq::empty();
    while i < l
        invariant
            i <= l,
            l == bytes.len(),
            images.len() == starts.len(),
            images_from(bytes@, 0, Seq::empty()) == images_from(bytes@, i as int, starts),
            forall|n: int|
                0 <= n < starts.len() ==> #[trigger] decoded(images@, bytes@, palette@, starts, n),
        decreases l - i,
    {
        if l - i < 8 {
            return Err(LoadError::UnexpectedEof);
        }
        let height: u32 = read_number(bytes, i + 4);
        let stated: u32 = read_number(bytes, i + 6);
        let padded = stated % 2 == 1;
        let width: u32 = if padded {
            stated + 1
        } else {
            stated
        };
        proof {
            lemma_image_size(width as int, height as int);
        }
        let pixel_count: u64 = width as u64 * height as u64;
        if pixel_count > (l - i - 8) as u64 {
            return Err(LoadError::UnexpectedEof);
        }
        let ghost layout = image_at(bytes@, i as int)->Ok_0;
        let n = images.len();
        let transparent = !(n >= FIRST_OPAQUE && n <= LAST_OPAQUE);
        let data = read_pixels(
            bytes,
            palette,
            Ghost(layout),
            i + 8,
            width,
            height,
            padded,
            transparent,
        );
        let ghost earlier = images@;
        let image = SpriteImage { width, height, data };
        assert(shows(image, bytes@, palette@, layout, n as int));
        images.push(image);
        proof {
            let grown = starts.push(i as int);
            assert forall|m: int| 0 <= m < grown.len() implies #[trigger] decoded(
                images@,
                bytes@,
                palette@,
                grown,
                m,
            ) by {
                if m < starts.len() {
                    assert(decoded(earlier, bytes@, palette@, starts, m));
                    assert(images@[m] == earlier[m]);
                    assert(grown[m] == starts[m]);
                } else {
                    assert(grown[m] == i);
                    assert(image_at(bytes@, i as int) is Ok);
                    assert(layout.width == width && layout.height == height);
                    assert(transparent == has_transparency(m));
                    assert(images@[m] == image);
                    assert(shows(images@[m], bytes@, palette@, layout, m));
                }
            }
            starts = grown;
        }
        i = i + 8 + pixel_count as usize;
    }
    Ok(images)
}

} // verus!
