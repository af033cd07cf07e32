use vstd::prelude::*;

use crate::models::{ErrorCode, ErrorView, EscposError};

verus! {

/// An 8-bit grey bitmap, row by row (0 black, 255 white).
#[derive(Debug, Clone)]
pub struct GrayBitmap {
    pub width: u32,
    pub height: u32,
    pub pixels: Vec<u8>,
}

/// A bitmap as width, height and pixel bytes.
pub type BitmapView = (u32, u32, Seq<u8>);

impl View for GrayBitmap {
    type V = BitmapView;

    open spec fn view(&self) -> BitmapView {
        (self.width, self.height, self.pixels@)
    }
}

impl GrayBitmap {
    /// The pixel buffer holds exactly one byte per pixel.
    pub open spec fn wf(self) -> bool {
        bitmap_wf(self@)
    }
}

/// The pixel bytes are exactly one per pixel.
pub open spec fn bitmap_wf(g: BitmapView) -> bool {
    g.2.len() == g.0 as int * g.1 as int
}

/// Whether the pixel at (x, y) is inside the bitmap and darker than mid grey.
pub open spec fn pixel_is_black(g: BitmapView, x: int, y: int) -> bool {
    &&& 0 <= x < g.0
    &&& 0 <= y < g.1
    &&& g.2[y * g.0 + x] < 128
}

/// `value` rounded up to a multiple of 8, in 32-bit arithmetic that wraps around.
pub open spec fn spec_pad8(value: nat) -> nat {
    (((value + 7) % 0x1_0000_0000) / 8 * 8) as nat
}

/// The raster dimensions: each side at least 1 and rounded up to a multiple of 8.
pub open spec fn spec_padded_size(width: nat, height: nat) -> (nat, nat) {
    (
        spec_pad8(if width == 0 {
            1
        } else {
            width
        }),
        spec_pad8(if height == 0 {
            1
        } else {
            height
        }),
    )
}

/// The first `k` pixels of an 8-pixel run packed into a byte, most significant bit first,
/// a bit set for each black pixel.
pub open spec fn spec_pack_bits(g: BitmapView, y: int, column: int, k: nat) -> u8
    decreases k,
{
    if k == 0 {
        0
    } else {
        let prev = spec_pack_bits(g, y, column, (k - 1) as nat);
        if pixel_is_black(g, column * 8 + (k - 1), y) {
            prev | (0x80u8 >> ((k - 1) as u8))
        } else {
            prev
        }
    }
}

/// The byte of row `y` that covers columns `8 * column` to `8 * column + 7`.
pub open spec fn spec_row_byte(g: BitmapView, y: int, column: int) -> u8 {
    spec_pack_bits(g, y, column, 8)
}

/// The bytes of the first `rows` raster rows, `bytes_per_row` bytes each.
pub open spec fn spec_raster_bytes(g: BitmapView, rows: nat, bytes_per_row: nat) -> Seq<u8>
    decreases rows,
{
    if rows == 0 {
        seq![]
    } else {
        spec_raster_bytes(g, (rows - 1) as nat, bytes_per_row) + Seq::new(
            bytes_per_row,
            |c: int| spec_row_byte(g, rows - 1, c),
        )
    }
}

/// The `GS v 0` header: bytes per row and number of rows, both little endian.
pub open spec fn spec_gs_v0_header(bytes_per_row: u16, height: u16) -> Seq<u8> {
    seq![
        0x1Du8,
        0x76u8,
        0x30u8,
        0u8,
        bytes_per_row as u8,
        (bytes_per_row >> 8u16) as u8,
        height as u8,
        (height >> 8u16) as u8,
    ]
}

/// The `GS v 0` raster command of a bitmap: the padded width in bytes and the padded height
/// (each cut to 16 bits in the header), then one bit per pixel, rows of the padded height.
pub open spec fn spec_gs_v0_command(g: BitmapView) -> Seq<u8> {
    let (w, h) = spec_padded_size(g.0 as nat, g.1 as nat);
    let bytes_per_row = ((w / 8) as int) as u16;
    spec_gs_v0_header(bytes_per_row, (h as int) as u16) + spec_raster_bytes(
        g,
        h,
        bytes_per_row as nat,
    )
}

pub fn pad8(value: u32) -> (r: u32)
    ensures
        r == spec_pad8(value as nat),
{
    let bumped = if value <= u32::MAX - 7 {
        value + 7
    } else {
        value - (u32::MAX - 6)
    };
    bumped / 8 * 8
}

pub fn padded_size(width: u32, height: u32) -> (r: (u32, u32))
    ensures
        r.0 as nat == spec_padded_size(width as nat, height as nat).0,
        r.1 as nat == spec_padded_size(width as nat, height as nat).1,
{
    let w = if width == 0 {
        1
    } else {
        width
    };
    let h = if height == 0 {
        1
    } else {
        height
    };
    (pad8(w), pad8(h))
}

pub fn gs_v0_header(bytes_per_row: u16, height: u16) -> (r: Vec<u8>)
    ensures
        r@ == spec_gs_v0_header(bytes_per_row, height),
{
    let mut v: Vec<u8> = Vec::new();
    v.push(0x1D);
    v.push(0x76);
    v.push(0x30);
    v.push(0);
    v.push(bytes_per_row as u8);
    v.push((bytes_per_row >> 8u16) as u8);
    v.push(height as u8);
    v.push((height >> 8u16) as u8);
    assert(v@ =~= spec_gs_v0_header(bytes_per_row, height));
    v
}

/// Whether the pixel at (x, y) is inside the bitmap and darker than mid grey.
pub fn is_black(gray: &GrayBitmap, x: u32, y: u32) -> (r: bool)
    requires
        gray.wf(),
    ensures
        r == pixel_is_black(gray@, x as int, y as int),
{
    let n = gray.pixels.len();
    if x < gray.width && y < gray.height {
        proof {
            assert((y as int) * (gray.width as int) + (x as int) < (gray.width as int) * (gray.height as int))
                by (nonlinear_arith)
                requires
                    x < gray.width,
                    y < gray.height,
            ;
        }
        let index = y as usize * gray.width as usize + x as usize;
        gray.pixels[index] < 128
    } else {
        false
    }
}

/// The raster byte of row `y` covering columns `8 * column` to `8 * column + 7`.
pub fn pack_row_byte(gray: &GrayBitmap, y: u32, column: u16) -> (r: u8)
    requires
        gray.wf(),
    ensures
        r == spec_row_byte(gray@, y as int, column as int),
{
    let mut byte: u8 = 0;
    let mut bit: u32 = 0;
    while bit < 8
        invariant
            gray.wf(),
            bit <= 8,
            byte == spec_pack_bits(gray@, y as int, column as int, bit as nat),
        decreases 8 - bit,
    {
        if is_black(gray, column as u32 * 8 + bit, y) {
            byte = byte | (0x80u8 >> (bit as u8));
        }
        bit = bit + 1;
    }
    byte
}

/// The raster bytes of the first `height` rows, `bytes_per_row` bytes each.
pub fn raster_bytes(gray: &GrayBitmap, height: u32, bytes_per_row: u16) -> (r: Vec<u8>)
    requires
        gray.wf(),
    ensures
        r@ == spec_raster_bytes(gray@, height as nat, bytes_per_row as nat),
{
    let mut data: Vec<u8> = Vec::new();
    let mut y: u32 = 0;
    while y < height
        invariant
            gray.wf(),
            y <= height,
            data@ == spec_raster_bytes(gray@, y as nat, bytes_per_row as nat),
        decreases height - y,
    {
        let ghost before = data@;
        let mut column: u16 = 0;
        while column < bytes_per_row
            invariant
                gray.wf(),
                y < height,
                column <= bytes_per_row,
                data@ == before + Seq::new(
                    column as nat,
                    |c: int| spec_row_byte(gray@, y as int, c),
                ),
            decreases bytes_per_row - column,
        {
            data.push(pack_row_byte(gray, y, column));
            column = column + 1;
            assert(data@ =~= before + Seq::new(
                column as nat,
                |c: int| spec_row_byte(gray@, y as int, c),
            ));
        }
        y = y + 1;
    }
    data
}

/// The `GS v 0` raster command of a bitmap.
pub fn gs_v0_from_gray(gray: &GrayBitmap) -> (r: Vec<u8>)
    requires
        gray.wf(),
    ensures
        r@ == spec_gs_v0_command(gray@),
{
    let (width, height) = padded_size(gray.width, gray.height);
    let bytes_per_row = (width / 8) as u16;
    let mut command = gs_v0_header(bytes_per_row, height as u16);
    let raster = raster_bytes(gray, height, bytes_per_row);
    let mut raster = raster;
    command.append(&mut raster);
    command
}


// ---------------------------------------------------------------------------------------------
// Decoded images.

/// The samples of a decoded image, four per pixel (red, green, blue, alpha), row by row: 8 bits
/// each for an image of 8-bit samples, 16 bits each otherwise.
#[derive(Debug, Clone)]
pub enum RgbaSamples {
    Eight(Vec<u8>),
    Sixteen(Vec<u16>),
}

/// A decoded image as plain values.
#[derive(Debug, Clone)]
pub struct DecodedImage {
    pub width: u32,
    pub height: u32,
    pub samples: RgbaSamples,
}

/// A decoded image as width, height, whether its samples are 16-bit, and its 8-bit or its
/// 16-bit samples (the other sequence empty).
pub type DecodedView = (u32, u32, bool, Seq<u8>, Seq<u16>);

impl View for DecodedImage {
    type V = DecodedView;

    open spec fn view(&self) -> DecodedView {
        match self.samples {
            RgbaSamples::Eight(v) => (self.width, self.height, false, v@, seq![]),
            RgbaSamples::Sixteen(v) => (self.width, self.height, true, seq![], v@),
        }
    }
}

/// The samples hold at least four values per pixel.
pub open spec fn decoded_wf(d: DecodedView) -> bool {
    let needed = 4 * (d.0 as int) * (d.1 as int);
    if d.2 {
        d.4.len() >= needed
    } else {
        d.3.len() >= needed
    }
}

impl DecodedImage {
    pub open spec fn wf(self) -> bool {
        decoded_wf(self@)
    }
}

/// `image::load_from_memory`: decodes an image file held in memory, its error given by its
/// message; the image comes out as its width, its height and its RGBA samples
/// (`DynamicImage::into_rgba8` for an image of 8-bit samples, `into_rgba16` for any other),
/// which hold four samples per pixel. The format is guessed through detection and decoding
/// hooks that any code of the process may register, so whether it succeeds, its message and
/// the image do not depend on the bytes alone; nothing more is stated of either outcome.
#[verifier::external_body]
fn load_image(bytes: &[u8]) -> (r: Result<DecodedImage, String>)
    ensures
        r matches Ok(d) ==> d.wf(),
{
    match image::load_from_memory(bytes) {
        Err(error) => Err(error.to_string()),
        Ok(img) => {
            let (width, height) = (img.width(), img.height());
            let samples = match img.color() {
                image::ColorType::L8 | image::ColorType::La8 => RgbaSamples::Eight(img.into_rgba8().into_raw()),
                image::ColorType::Rgb8 | image::ColorType::Rgba8 => RgbaSamples::Eight(img.into_rgba8().into_raw()),
                _ => RgbaSamples::Sixteen(img.into_rgba16().into_raw()),
            };
            Ok(DecodedImage { width, height, samples })
        },
    }
}

/// What `DynamicImage::resize` with the triangle filter, then `DynamicImage::to_luma8`, make of
/// a decoded image: its width, height and grey pixel buffer.
pub uninterp spec fn resized_luma(image: DecodedView, width: u32, height: u32) -> BitmapView;

/// `DynamicImage::resize` with the triangle filter, then `DynamicImage::to_luma8`, on the RGBA
/// image that `img` holds: the image scaled, aspect ratio kept, to the largest size that fits
/// within `width` x `height` (a copy when those are its own dimensions), in 8-bit grey, as its
/// width, its height and its raw pixel buffer. Both calls depend on the samples and the bounds
/// alone. `resize` makes each side at least 1 pixel; the buffer of an `ImageBuffer` holds at
/// least one byte per grey pixel.
#[verifier::external_body]
fn resized_gray(img: &DecodedImage, width: u32, height: u32) -> (r: (u32, u32, Vec<u8>))
    requires
        img.wf(),
    ensures
        (r.0, r.1, r.2@) == resized_luma(img@, width, height),
        r.0 <= if width == 0 {
            1
        } else {
            width
        },
        r.1 <= if height == 0 {
            1
        } else {
            height
        },
        r.2@.len() >= r.0 as int * r.1 as int,
{
    let rgba = match &img.samples {
        RgbaSamples::Eight(v) => image::DynamicImage::ImageRgba8(
            image::ImageBuffer::from_raw(img.width, img.height, v.clone()).unwrap(),
        ),
        RgbaSamples::Sixteen(v) => image::DynamicImage::ImageRgba16(
            image::ImageBuffer::from_raw(img.width, img.height, v.clone()).unwrap(),
        ),
    };
    let gray = rgba.resize(width, height, image::imageops::FilterType::Triangle).to_luma8();
    (gray.width(), gray.height(), gray.into_raw())
}

/// The height that keeps the proportions of a `width` x `height` image brought to
/// `max_width` columns (at least one row).
pub open spec fn spec_scaled_height(width: u32, height: u32, max_width: u32) -> u32 {
    let product = if height as int * max_width as int > u32::MAX {
        u32::MAX as int
    } else {
        height as int * max_width as int
    };
    let w = if width == 0 {
        1int
    } else {
        width as int
    };
    let h = product / w;
    if h == 0 {
        1u32
    } else {
        h as u32
    }
}

pub fn scaled_height(width: u32, height: u32, max_width: u32) -> (r: u32)
    ensures
        r == spec_scaled_height(width, height, max_width),
{
    let product: u32 = match height.checked_mul(max_width) {
        Some(p) => p,
        None => u32::MAX,
    };
    let w = if width == 0 {
        1
    } else {
        width
    };
    let h = product / w;
    if h == 0 {
        1
    } else {
        h
    }
}

/// The size to which an image of `width` x `height` is brought so that it is at most
/// `max_width` columns wide: `None` when it already is, else `max_width` columns and the height
/// that keeps its proportions.
pub fn raster_size(width: u32, height: u32, max_width: u32) -> (r: Option<(u32, u32)>)
    ensures
        r == if width <= max_width {
            None::<(u32, u32)>
        } else {
            Some((max_width, spec_scaled_height(width, height, max_width)))
        },
{
    if width <= max_width {
        None
    } else {
        Some((max_width, scaled_height(width, height, max_width)))
    }
}

/// The size that an image of `width` x `height` is resized to for a raster at most
/// `max_width` columns wide: its own size when it fits, else that of `raster_size`.
pub open spec fn raster_target(width: u32, height: u32, max_width: u32) -> (u32, u32) {
    if width <= max_width {
        (width, height)
    } else {
        (max_width, spec_scaled_height(width, height, max_width))
    }
}

/// The grey bitmap of a resize result: its buffer cut to one byte per pixel.
pub open spec fn spec_gray_bitmap(t: BitmapView) -> BitmapView {
    (t.0, t.1, t.2.take(t.0 as int * t.1 as int))
}

/// The grey bitmap of a decoded image for a raster at most `max_width` columns wide.
pub open spec fn spec_decoded_gray(d: DecodedView, max_width: u32) -> BitmapView {
    let (w, h) = raster_target(d.0, d.1, max_width);
    spec_gray_bitmap(resized_luma(d, w, h))
}

/// The image in grey, shrunk to `max_width` columns if it is wider (see `raster_size`), as
/// width, height and pixel buffer.
fn resize_to_width(img: &DecodedImage, max_width: u32) -> (r: (u32, u32, Vec<u8>))
    requires
        img.wf(),
        max_width >= 1,
    ensures
        ({
            let (w, h) = raster_target(img.width, img.height, max_width);
            (r.0, r.1, r.2@) == resized_luma(img@, w, h)
        }),
        r.0 <= max_width,
        r.2@.len() >= r.0 as int * r.1 as int,
{
    match raster_size(img.width, img.height, max_width) {
        None => resized_gray(img, img.width, img.height),
        Some((w, h)) => resized_gray(img, w, h),
    }
}

/// The widest raster an image may take: the requested width rounded down to a multiple of 8
/// (at least 8), 384 dots when none is requested.
pub open spec fn spec_raster_max_width(max_width_dots: Option<u16>) -> u32 {
    match max_width_dots {
        Some(w) => {
            let v = if w < 8 {
                8
            } else {
                w as int
            };
            (v / 8 * 8) as u32
        },
        None => 384,
    }
}

pub fn raster_max_width(max_width_dots: Option<u16>) -> (r: u32)
    ensures
        r == spec_raster_max_width(max_width_dots),
{
    match max_width_dots {
        Some(w) => {
            let v: u16 = if w < 8 {
                8
            } else {
                w
            };
            (v / 8 * 8) as u32
        },
        None => 384,
    }
}

/// What a decoding outcome becomes: the grey bitmap of the image for the raster width that
/// `max_width_dots` asks for, or the refusal `Invalid image: ` and the decoder's message.
pub open spec fn spec_gray_outcome(
    decoded: Result<DecodedView, Seq<char>>,
    max_width_dots: Option<u16>,
) -> Result<BitmapView, ErrorView> {
    match decoded {
        Ok(d) => Ok(spec_decoded_gray(d, spec_raster_max_width(max_width_dots))),
        Err(m) => Err((ErrorCode::InvalidDocument, "Invalid image: "@ + m)),
    }
}

/// A decoding outcome that the decoder can give: an image whose samples fill it, or a message.
pub open spec fn decoded_outcome_wf(decoded: Result<DecodedView, Seq<char>>) -> bool {
    decoded matches Ok(d) ==> decoded_wf(d)
}

pub open spec fn decoded_view(decoded: Result<DecodedImage, String>) -> Result<DecodedView, Seq<char>> {
    match decoded {
        Ok(d) => Ok(d@),
        Err(m) => Err(m@),
    }
}

pub open spec fn bitmap_outcome(r: Result<GrayBitmap, EscposError>) -> Result<BitmapView, ErrorView> {
    match r {
        Ok(g) => Ok(g@),
        Err(e) => Err(e@),
    }
}

/// The grey bitmap of a decoding outcome (see `spec_gray_outcome`), no wider than the raster
/// width.
pub fn decoded_gray_bitmap(decoded: Result<DecodedImage, String>, max_width_dots: Option<u16>) -> (r:
    Result<GrayBitmap, EscposError>)
    requires
        decoded matches Ok(d) ==> d.wf(),
    ensures
        bitmap_outcome(r) == spec_gray_outcome(decoded_view(decoded), max_width_dots),
        r matches Ok(g) ==> g.wf() && g.width <= spec_raster_max_width(max_width_dots),
{
    let image = match decoded {
        Ok(i) => i,
        Err(message) => {
            let mut text = String::from_str("Invalid image: ");
            text.append(message.as_str());
            return Err(EscposError { code: ErrorCode::InvalidDocument, message: text });
        },
    };
    let (width, height, raw) = resize_to_width(&image, raster_max_width(max_width_dots));
    let mut pixels = raw;
    let available: usize = pixels.len();
    assert(width as int * height as int <= available);
    let needed: usize = width as usize * height as usize;
    pixels.truncate(needed);
    Ok(GrayBitmap { width, height, pixels })
}

/// The image in `bytes` decoded, brought to the raster width and turned grey, whatever the
/// decoder gave (see `decoded_gray_bitmap`).
pub fn load_gray_bitmap(bytes: &[u8], max_width_dots: Option<u16>) -> (r: Result<
    GrayBitmap,
    EscposError,
>)
    ensures
        exists|decoded: Result<DecodedView, Seq<char>>|
            decoded_outcome_wf(decoded) && bitmap_outcome(r) == #[trigger] spec_gray_outcome(
                decoded,
                max_width_dots,
            ),
        r matches Ok(g) ==> g.wf() && g.width <= spec_raster_max_width(max_width_dots),
{
    let decoded = load_image(bytes);
    let ghost outcome = decoded_view(decoded);
    let r = decoded_gray_bitmap(decoded, max_width_dots);
    assert(decoded_outcome_wf(outcome) && bitmap_outcome(r) == spec_gray_outcome(outcome, max_width_dots));
    r
}

/// What a decoding outcome becomes as a raster command.
pub open spec fn spec_raster_outcome(
    decoded: Result<DecodedView, Seq<char>>,
    max_width_dots: Option<u16>,
) -> Result<Seq<u8>, ErrorView> {
    match spec_gray_outcome(decoded, max_width_dots) {
        Ok(g) => Ok(spec_gs_v0_command(g)),
        Err(e) => Err(e),
    }
}

pub open spec fn command_outcome(r: Result<Vec<u8>, EscposError>) -> Result<Seq<u8>, ErrorView> {
    match r {
        Ok(c) => Ok(c@),
        Err(e) => Err(e@),
    }
}

/// The `GS v 0` raster command of an image file: decoded, brought to the raster width (see
/// `spec_raster_max_width` and `raster_size`), turned grey, then packed as `spec_gs_v0_command`
/// says; or the decoder's refusal, as `Invalid image: ` and its message.
pub fn gs_v0_command(bytes: &[u8], max_width_dots: Option<u16>) -> (r: Result<Vec<u8>, EscposError>)
    ensures
        exists|decoded: Result<DecodedView, Seq<char>>|
            decoded_outcome_wf(decoded) && command_outcome(r) == #[trigger] spec_raster_outcome(
                decoded,
                max_width_dots,
            ),
        r matches Ok(command) ==> exists|g: BitmapView|
            bitmap_wf(g) && g.0 <= spec_raster_max_width(max_width_dots) && command@
                == #[trigger] spec_gs_v0_command(g),
{
    let loaded = load_gray_bitmap(bytes, max_width_dots);
    let ghost decoded = choose|decoded: Result<DecodedView, Seq<char>>|
        decoded_outcome_wf(decoded) && bitmap_outcome(loaded) == #[trigger] spec_gray_outcome(
            decoded,
            max_width_dots,
        );
    match loaded {
        Ok(gray) => {
            let command = gs_v0_from_gray(&gray);
            let r = Ok::<Vec<u8>, EscposError>(command);
            assert(command_outcome(r) == spec_raster_outcome(decoded, max_width_dots));
            assert(bitmap_wf(gray@) && gray@.0 <= spec_raster_max_width(max_width_dots) && command@
                == spec_gs_v0_command(gray@));
            r
        },
        Err(e) => {
            let r = Err::<Vec<u8>, EscposError>(e);
            assert(command_outcome(r) == spec_raster_outcome(decoded, max_width_dots));
            r
        },
    }
}

} // verus!
