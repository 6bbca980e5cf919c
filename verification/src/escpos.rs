//! ESC/POS command builder for the Rongta RP326.
use vstd::prelude::*;

verus! {

/// Maximum printable dots across the RP326's 72mm print head.
pub const PRINT_WIDTH: u32 = 576;

/// Dithering algorithm used when converting a colour/grayscale image to 1-bit.
#[derive(Clone, Copy, PartialEq, Eq, Structural, Debug)]
pub enum DitherMode {
    /// Simple threshold: pixels below 128 become black, the rest white.
    Threshold,
    /// Floyd-Steinberg error diffusion.
    FloydSteinberg,
}

/// The bytes of `ESC @`: reset the printer to its defaults.
pub open spec fn initialize_bytes() -> Seq<u8> {
    seq![0x1Bu8, 0x40u8]
}

/// The bytes of `ESC d n`: feed `n` lines.
pub open spec fn feed_bytes(lines: u8) -> Seq<u8> {
    seq![0x1Bu8, 0x64u8, lines]
}

/// The bytes of `GS V A 0`: partial cut.
pub open spec fn cut_bytes() -> Seq<u8> {
    seq![0x1Du8, 0x56u8, 0x41u8, 0x00u8]
}

/// An ESC/POS byte stream under construction.
pub struct Packet(Vec<u8>);

impl View for Packet {
    type V = Seq<u8>;

    closed spec fn view(&self) -> Seq<u8> {
        self.0@
    }
}

/// Appends `src` to `dst`, byte by byte.
fn append_bytes(dst: &mut Vec<u8>, src: &[u8])
    ensures
        final(dst)@ == old(dst)@ + src@,
{
    let mut i: usize = 0;
    while i < src.len()
        invariant
            i <= src@.len(),
            dst@ == old(dst)@ + src@.subrange(0, i as int),
        decreases src@.len() - i,
    {
        dst.push(src[i]);
        i = i + 1;
        assert(src@.subrange(0, i as int) == src@.subrange(0, i - 1) + seq![src@[i - 1]]);
    }
    assert(src@.subrange(0, i as int) == src@);
}

impl Packet {
    /// An empty packet.
    pub fn new() -> (p: Self)
        ensures
            p@ == Seq::<u8>::empty(),
    {
        Packet(Vec::new())
    }

    /// ESC @ — reset printer to defaults.
    pub fn initialize(self) -> (p: Self)
        ensures
            p@ == self@ + initialize_bytes(),
    {
        let mut v = self.0;
        append_bytes(&mut v, &[0x1B, 0x40]);
        Packet(v)
    }

    /// Raw text, as its UTF-8 bytes. `\n` advances one line.
    pub fn text(self, s: &str) -> (p: Self)
        ensures
            p@ == self@ + vstd::utf8::encode_utf8(s@),
    {
        let mut v = self.0;
        append_bytes(&mut v, s.as_bytes());
        Packet(v)
    }

    /// ESC d n — feed n lines.
    pub fn feed(self, lines: u8) -> (p: Self)
        ensures
            p@ == self@ + feed_bytes(lines),
    {
        let mut v = self.0;
        append_bytes(&mut v, &[0x1B, 0x64, lines]);
        Packet(v)
    }

    /// GS V A 0 — partial cut.
    pub fn cut(self) -> (p: Self)
        ensures
            p@ == self@ + cut_bytes(),
    {
        let mut v = self.0;
        append_bytes(&mut v, &[0x1D, 0x56, 0x41, 0x00]);
        Packet(v)
    }

    /// The bytes built so far.
    pub fn into_bytes(self) -> (v: Vec<u8>)
        ensures
            v@ == self@,
    {
        self.0
    }
}


/// A 1-bit image: `black[y * width + x]` tells whether the dot at column `x`
/// of row `y` is printed.
pub struct Bitmap {
    pub width: u32,
    pub height: u32,
    pub black: Vec<bool>,
}

impl Bitmap {
    /// The dots are exactly `width * height`, row by row, and the byte
    /// arithmetic of the raster command fits in `u32`.
    pub open spec fn wf(&self) -> bool {
        &&& self.black@.len() == self.width * self.height
        &&& self.width * self.height <= u32::MAX
        &&& self.width + 7 <= u32::MAX
    }
}

/// Bytes per raster row: eight dots per byte, the last byte padded.
pub open spec fn row_bytes(width: u32) -> int {
    (width + 7) / 8
}

/// Whether column `x` of row `y` is a printed dot (columns past the width are not).
pub open spec fn dot(black: Seq<bool>, width: u32, y: int, x: int) -> bool {
    x < width && black[y * width + x]
}

/// The first `n` dots of raster byte `bx` of row `y`, MSB = leftmost, 1 = black.
pub open spec fn byte_prefix(black: Seq<bool>, width: u32, y: int, bx: int, n: nat) -> u8
    decreases n,
{
    if n == 0 {
        0u8
    } else {
        let k = (n - 1) as u8;
        byte_prefix(black, width, y, bx, (n - 1) as nat) | dot_bit(dot(black, width, y, bx * 8 + k), k)
    }
}

/// Raster byte `bx` of row `y`.
pub open spec fn raster_byte(black: Seq<bool>, width: u32, y: int, bx: int) -> u8 {
    byte_prefix(black, width, y, bx, 8)
}

/// The packed raster of a bitmap: rows top to bottom, bytes left to right.
pub open spec fn raster(black: Seq<bool>, width: u32, height: u32) -> Seq<u8> {
    Seq::new(
        (row_bytes(width) * height) as nat,
        |i: int| raster_byte(black, width, i / row_bytes(width), i % row_bytes(width)),
    )
}

/// The header of `GS v 0` (print raster bit image, normal density): the width in
/// bytes and the height in dots, each as two little-endian bytes.
pub open spec fn raster_header(width: u32, height: u32) -> Seq<u8> {
    let wb = row_bytes(width);
    seq![
        0x1Du8,
        0x76u8,
        0x30u8,
        0x00u8,
        (wb % 256) as u8,
        ((wb / 256) % 256) as u8,
        (height % 256) as u8,
        ((height / 256) % 256) as u8,
    ]
}

/// The raster header is `GS v 0` in normal density, then the row width in
/// bytes and the height in dots, each little-endian over two bytes (taken
/// modulo 65536); a row has the fewest bytes that hold `width` dots.
pub proof fn lemma_raster_header_fields(width: u32, height: u32)
    ensures
        ({
            let h = raster_header(width, height);
            let wb = row_bytes(width);
            &&& h.len() == 8
            &&& h[0] == 0x1D && h[1] == 0x76 && h[2] == 0x30 && h[3] == 0
            &&& h[4] + 256 * h[5] == wb % 65536
            &&& h[6] + 256 * h[7] == height % 65536
            &&& 8 * wb >= width && 8 * (wb - 1) < width
        }),
{
    let wb = row_bytes(width);
    assert((wb % 256) + 256 * ((wb / 256) % 256) == wb % 65536) by (nonlinear_arith)
        requires wb >= 0;
    assert((height % 256) + 256 * ((height / 256) % 256) == height % 65536) by (nonlinear_arith)
        requires height >= 0;
}

/// Index arithmetic of row-major layouts.
proof fn lemma_row_major(y: int, n: int, x: int)
    requires
        0 <= y,
        0 <= x < n,
    ensures
        (y * n + x) / n == y,
        (y * n + x) % n == x,
        y * n + x < (y + 1) * n,
{
    assert((y * n + x) / n == y && (y * n + x) % n == x && y * n + x < (y + 1) * n) by (nonlinear_arith)
        requires 0 <= y, 0 <= x < n;
}

/// One packed raster byte: dots `bx*8 .. bx*8+8` of row `y`.
fn pack_byte(bm: &Bitmap, y: u32, bx: u32) -> (byte: u8)
    requires
        bm.wf(),
        y < bm.height,
        bx < row_bytes(bm.width),
    ensures
        byte == raster_byte(bm.black@, bm.width, y as int, bx as int),
{
    let w = bm.width;
    let mut byte: u8 = 0;
    let mut bit: u8 = 0;
    while bit < 8
        invariant
            bm.wf(),
            y < bm.height,
            bx < row_bytes(bm.width),
            w == bm.width,
            bit <= 8,
            byte == byte_prefix(bm.black@, w, y as int, bx as int, bit as nat),
        decreases 8 - bit,
    {
        assert(bx * 8 + 7 <= w + 7);
        let x: u32 = bx * 8 + bit as u32;
        let on = if x < w {
            assert(y * w + x < bm.height * w) by (nonlinear_arith)
                requires y < bm.height, x < w;
            bm.black[(y * w + x) as usize]
        } else {
            false
        };
        assert(on == dot(bm.black@, w, y as int, bx * 8 + bit));
        if on {
            byte = byte | (0x80u8 >> bit);
        } else {
            assert(byte | 0u8 == byte) by (bit_vector);
        }
        bit = bit + 1;
    }
    byte
}

/// Low byte and second byte of a 32-bit value, as `& 0xFF` and `>> 8` give them.
proof fn lemma_le_bytes(v: u32)
    ensures
        (v & 0xFF) as u8 == (v % 256) as u8,
        ((v >> 8) & 0xFF) as u8 == ((v / 256) % 256) as u8,
        (v >> 8) as u8 == ((v / 256) % 256) as u8,
{
    assert((v & 0xFF) == v % 256) by (bit_vector);
    assert((v >> 8) & 0xFF == (v / 256) % 256) by (bit_vector);
    assert((v >> 8) as u8 == ((v >> 8) & 0xFF) as u8) by (bit_vector);
}

impl Packet {
    /// GS v 0 — print a raster bit image.
    ///
    /// The dots are packed 8 per byte, MSB = leftmost, 1 = black, each row
    /// padded to a whole byte.
    pub fn image(self, bm: &Bitmap) -> (p: Self)
        requires
            bm.wf(),
        ensures
            p@ == self@ + raster_header(bm.width, bm.height) + raster(bm.black@, bm.width, bm.height),
    {
        let w = bm.width;
        let h = bm.height;
        let width_bytes = (w + 7) / 8;
        let ghost wb = row_bytes(w);
        let mut out: Vec<u8> = Vec::new();
        let mut y: u32 = 0;
        while y < h
            invariant
                bm.wf(),
                w == bm.width,
                h == bm.height,
                width_bytes == wb,
                wb == row_bytes(w),
                y <= h,
                out@ =~= Seq::new((y * wb) as nat, |i: int| raster_byte(bm.black@, w, i / wb, i % wb)),
            decreases h - y,
        {
            let mut bx: u32 = 0;
            while bx < width_bytes
                invariant
                    bm.wf(),
                    w == bm.width,
                    h == bm.height,
                    width_bytes == wb,
                    wb == row_bytes(w),
                    y < h,
                    bx <= width_bytes,
                    out@ =~= Seq::new((y * wb + bx) as nat, |i: int| raster_byte(bm.black@, w, i / wb, i % wb)),
                decreases width_bytes - bx,
            {
                let byte = pack_byte(bm, y, bx);
                proof {
                    lemma_row_major(y as int, wb, bx as int);
                }
                out.push(byte);
                bx = bx + 1;
            }
            proof {
                assert((y + 1) * wb == y * wb + wb) by (nonlinear_arith);
            }
            y = y + 1;
        }
        proof {
            assert(h * wb == wb * h) by (nonlinear_arith);
            lemma_le_bytes(width_bytes);
            lemma_le_bytes(h);
        }
        let xl = (width_bytes & 0xFF) as u8;
        let xh = (width_bytes >> 8) as u8;
        let yl = (h & 0xFF) as u8;
        let yh = ((h >> 8) & 0xFF) as u8;
        let mut v = self.0;
        append_bytes(&mut v, &[0x1D, 0x76, 0x30, 0x00, xl, xh, yl, yh]);
        append_bytes(&mut v, out.as_slice());
        let p = Packet(v);
        assert(out@ =~= raster(bm.black@, bm.width, bm.height));
        p
    }
}

/// The bit that dot `k` of a byte contributes: `0x80 >> k` when black.
pub open spec fn dot_bit(on: bool, k: u8) -> u8 {
    if on {
        0x80u8 >> k
    } else {
        0u8
    }
}

/// Setting bit `k` (counted from the MSB) of a byte whose bits `k..8` are clear.
proof fn lemma_set_bit(p: u8, k: u8, on: bool, q: u8)
    requires
        k < 8,
        p & (0xFFu8 >> k) == 0,
        q == p | dot_bit(on, k),
    ensures
        q & (0xFFu8 >> (k + 1) as u8) == 0,
        (q & (0x80u8 >> k) != 0) == on,
        forall|j: u8| j < k ==> (#[trigger] (q & (0x80u8 >> j)) != 0) == (p & (0x80u8 >> j) != 0),
{
    if on {
        assert(q == p | (0x80u8 >> k));
        assert((p | (0x80u8 >> k)) & (0xFFu8 >> (k + 1) as u8) == 0) by (bit_vector)
            requires k < 8, p & (0xFFu8 >> k) == 0;
        assert((p | (0x80u8 >> k)) & (0x80u8 >> k) != 0) by (bit_vector)
            requires k < 8;
        assert forall|j: u8| j < k implies (#[trigger] (q & (0x80u8 >> j)) != 0) == (p & (0x80u8 >> j) != 0) by {
            assert(((p | (0x80u8 >> k)) & (0x80u8 >> j) != 0) == (p & (0x80u8 >> j) != 0)) by (bit_vector)
                requires j < k, k < 8;
        }
    } else {
        assert(q == p | 0u8);
        assert((p | 0u8) == p) by (bit_vector);
        assert(p & (0xFFu8 >> (k + 1) as u8) == 0) by (bit_vector)
            requires k < 8, p & (0xFFu8 >> k) == 0;
        assert(p & (0x80u8 >> k) == 0) by (bit_vector)
            requires k < 8, p & (0xFFu8 >> k) == 0;
    }
}

/// Bits `n..8` of a byte prefix are clear, and bit `j < n` is set exactly when dot `j` is black.
proof fn lemma_byte_prefix(black: Seq<bool>, width: u32, y: int, bx: int, n: nat)
    requires
        n <= 8,
    ensures
        byte_prefix(black, width, y, bx, n) & (0xFFu8 >> n as u8) == 0,
        forall|j: u8| j < n ==> (#[trigger] (byte_prefix(black, width, y, bx, n) & (0x80u8 >> j)) != 0)
            == dot(black, width, y, bx * 8 + j),
    decreases n,
{
    if n == 0 {
        assert(0u8 & (0xFFu8 >> 0u8) == 0) by (bit_vector);
    } else {
        let k = (n - 1) as u8;
        lemma_byte_prefix(black, width, y, bx, (n - 1) as nat);
        let p = byte_prefix(black, width, y, bx, (n - 1) as nat);
        let on = dot(black, width, y, bx * 8 + k);
        let q = byte_prefix(black, width, y, bx, n);
        assert(q == p | dot_bit(on, k));
        lemma_set_bit(p, k, on, q);
        assert((k + 1) as u8 == n as u8);
        assert forall|j: u8| j < n implies (#[trigger] (q & (0x80u8 >> j)) != 0) == dot(black, width, y, bx * 8 + j) by {
            if j < k {
                assert((p & (0x80u8 >> j)) != 0 == dot(black, width, y, bx * 8 + j));
            }
        }
    }
}

/// Unpacking the raster gives back the bitmap: bit `7 - x % 8` of byte
/// `y * row_bytes + x / 8` is set exactly when dot `(x, y)` is black, and the
/// padding bits past the width are clear.
pub proof fn lemma_raster_unpacks(black: Seq<bool>, width: u32, height: u32, x: int, y: int)
    requires
        0 <= y < height,
        0 <= x < row_bytes(width) * 8,
    ensures
        ({
            let r = raster(black, width, height);
            let b = r[y * row_bytes(width) + x / 8];
            &&& r.len() == row_bytes(width) * height
            &&& (b & (0x80u8 >> (x % 8) as u8) != 0) == (x < width && black[y * width + x])
        }),
{
    let wb = row_bytes(width);
    let i = y * wb + x / 8;
    assert(0 <= x / 8 < wb);
    assert(0 <= i < wb * height) by (nonlinear_arith)
        requires 0 <= y < height, 0 <= x / 8 < wb, i == y * wb + x / 8;
    assert(i / wb == y && i % wb == x / 8) by (nonlinear_arith)
        requires 0 <= x / 8 < wb, i == y * wb + x / 8, 0 <= y;
    lemma_byte_prefix(black, width, y, x / 8, 8);
    assert((x / 8) * 8 + (x % 8) == x);
    let j = (x % 8) as u8;
    assert(j < 8);
}


/// An 8-bit grayscale image, row by row (`pixels[y * width + x]`, 0 = black).
pub struct LumaImage {
    pub width: u32,
    pub height: u32,
    pub pixels: Vec<u8>,
}

impl LumaImage {
    /// The pixels are exactly `width * height`.
    pub open spec fn wf(&self) -> bool {
        self.pixels@.len() == self.width * self.height
    }
}

/// What `image::imageops::resize` with the triangle filter returns for a
/// grayscale image, as its raw pixels.
pub uninterp spec fn triangle_resized(
    width: u32,
    height: u32,
    pixels: Seq<u8>,
    new_width: u32,
    new_height: u32,
) -> Seq<u8>;

/// What `image::load_from_memory` followed by `to_luma8` gives for the bytes
/// of an encoded image: its width, height and grayscale pixels, or `None` when
/// decoding fails. It depends on the bytes alone because neither this library
/// nor its program registers any of the crate's process-wide decoding or
/// format-detection hooks.
pub uninterp spec fn decoded_luma(bytes: Seq<u8>) -> Option<(u32, u32, Seq<u8>)>;

/// `image::imageops::resize` with `FilterType::Triangle` on a grayscale image.
///
/// Trusted: the result is named `triangle_resized` of the arguments, and has
/// `new_width * new_height` pixels (the output buffer is allocated with the
/// new dimensions). The sizes in `requires` keep the crate's buffer
/// allocations (including its intermediate `f32` RGBA buffer) from panicking.
#[verifier::external_body]
fn resize_triangle(img: &LumaImage, new_width: u32, new_height: u32) -> (out: Vec<u8>)
    requires
        img.wf(),
        16 * img.width * new_height <= isize::MAX,
        new_width * new_height <= isize::MAX,
    ensures
        out@ == triangle_resized(img.width, img.height, img.pixels@, new_width, new_height),
        out@.len() == new_width * new_height,
{
    let buf = image::GrayImage::from_raw(img.width, img.height, img.pixels.clone()).unwrap();
    image::imageops::resize(&buf, new_width, new_height, image::imageops::FilterType::Triangle).into_raw()
}

#[verifier::external_type_specification]
#[verifier::external_body]
pub struct ExImageError(image::ImageError);

/// `image::load_from_memory` followed by `DynamicImage::to_luma8`.
///
/// Trusted: the outcome is named `decoded_luma` of the bytes, and a decoded
/// image holds `width * height` pixels (one byte per pixel for `Luma<u8>`).
/// Which error comes back on failure is not stated.
#[verifier::external_body]
pub(crate) fn decode_luma(bytes: &[u8]) -> (r: Result<LumaImage, image::ImageError>)
    ensures
        r is Ok <==> decoded_luma(bytes@) is Some,
        r matches Ok(img) ==> img.wf() && decoded_luma(bytes@) == Some((img.width, img.height, img.pixels@)),
{
    let g = image::load_from_memory(bytes)?.to_luma8();
    Ok(LumaImage { width: g.width(), height: g.height(), pixels: g.into_raw() })
}

/// The text of an image error, as its `Display` writes it.
///
/// Trusted: nothing is stated of the text.
#[verifier::external_body]
pub(crate) fn image_error_text(e: &image::ImageError) -> String {
    format!("{e}")
}

/// Scales an image down to the print width if it is wider; never upscales.
///
/// `scaled_height` is the height the image is scaled to when it is wider than
/// [`PRINT_WIDTH`] (its height scaled by `PRINT_WIDTH / width`, which the
/// caller computes, so it is no more than the height).
pub fn fit_to_print_width(img: LumaImage, scaled_height: u32) -> (out: LumaImage)
    requires
        img.wf(),
        img.width > PRINT_WIDTH ==> scaled_height <= img.height,
        16 * img.width * scaled_height <= isize::MAX,
        PRINT_WIDTH * scaled_height <= isize::MAX,
    ensures
        out.wf(),
        out.width <= PRINT_WIDTH,
        out.width <= img.width,
        out.height <= img.height,
        img.width <= PRINT_WIDTH ==> out.width == img.width && out.height == img.height && out.pixels@
            == img.pixels@,
        img.width > PRINT_WIDTH ==> out.width == PRINT_WIDTH && out.height == scaled_height
            && out.pixels@ == triangle_resized(img.width, img.height, img.pixels@, PRINT_WIDTH, scaled_height),
{
    if img.width > PRINT_WIDTH {
        let pixels = resize_triangle(&img, PRINT_WIDTH, scaled_height);
        LumaImage { width: PRINT_WIDTH, height: scaled_height, pixels }
    } else {
        img
    }
}

/// Threshold dithering: a pixel below 128 becomes a black dot, the rest white.
pub fn threshold(img: &LumaImage) -> (bm: Bitmap)
    requires
        img.wf(),
    ensures
        bm.width == img.width,
        bm.height == img.height,
        bm.black@.len() == img.pixels@.len(),
        forall|i: int| 0 <= i < bm.black@.len() ==> #[trigger] bm.black@[i] == (img.pixels@[i] < 128),
{
    let mut black: Vec<bool> = Vec::new();
    let mut i: usize = 0;
    while i < img.pixels.len()
        invariant
            i <= img.pixels@.len(),
            black@.len() == i,
            forall|j: int| 0 <= j < i ==> #[trigger] black@[j] == (img.pixels@[j] < 128),
        decreases img.pixels@.len() - i,
    {
        black.push(img.pixels[i] < 128);
        i = i + 1;
    }
    Bitmap { width: img.width, height: img.height, black }
}

} // verus!
