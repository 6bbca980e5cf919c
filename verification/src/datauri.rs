//! `data:` URIs of images embedded in documents, and their base64 payloads.
use vstd::prelude::*;

verus! {

/// The byte `=`, base64 padding.
pub open spec fn is_pad(b: u8) -> bool {
    b == 61
}

/// The bytes with every `=` removed.
pub open spec fn strip_padding(s: Seq<u8>) -> Seq<u8>
    decreases s.len(),
{
    if s.len() == 0 {
        s
    } else {
        strip_padding(s.drop_last()) + if is_pad(s.last()) {
            Seq::<u8>::empty()
        } else {
            seq![s.last()]
        }
    }
}

/// The 6-bit value of a base64 character (`A-Z a-z 0-9 + /`), `0xFF` for any
/// other ASCII byte.
pub open spec fn sextet(b: u8) -> u8 {
    if 65 <= b <= 90 {
        (b - 65) as u8
    } else if 97 <= b <= 122 {
        (b - 71) as u8
    } else if 48 <= b <= 57 {
        (b + 4) as u8
    } else if b == 43 {
        62u8
    } else if b == 47 {
        63u8
    } else {
        0xFFu8
    }
}

/// The three bytes that four sextets stand for.
pub open spec fn group_bytes(a: u8, b: u8, c: u8, d: u8) -> Seq<u8> {
    seq![(a << 2u8) | (b >> 4u8), (b << 4u8) | (c >> 2u8), (c << 6u8) | d]
}

/// The bytes of the first `n` complete groups of four characters.
pub open spec fn decode_groups(s: Seq<u8>, n: nat) -> Seq<u8>
    decreases n,
{
    if n == 0 {
        Seq::<u8>::empty()
    } else {
        let i = 4 * (n - 1);
        decode_groups(s, (n - 1) as nat) + group_bytes(
            sextet(s[i]),
            sextet(s[i + 1]),
            sextet(s[i + 2]),
            sextet(s[i + 3]),
        )
    }
}

/// The bytes of the trailing incomplete group of `f` (its last `f.len() % 4`
/// characters): two characters give one byte, three give two, a single one
/// gives none.
pub open spec fn tail_bytes(f: Seq<u8>) -> Seq<u8> {
    let i: int = 4 * (f.len() / 4) as int;
    let r = f.len() % 4;
    if r == 2 {
        seq![(sextet(f[i]) << 2u8) | (sextet(f[i + 1]) >> 4u8)]
    } else if r == 3 {
        seq![
            (sextet(f[i]) << 2u8) | (sextet(f[i + 1]) >> 4u8),
            (sextet(f[i + 1]) << 4u8) | (sextet(f[i + 2]) >> 2u8),
        ]
    } else {
        Seq::<u8>::empty()
    }
}

/// Decoding of a base64 payload: padding is dropped, every complete group of
/// four characters gives three bytes, and a trailing group of two or three
/// characters gives one or two.
pub open spec fn payload_bytes(s: Seq<u8>) -> Seq<u8> {
    let f = strip_padding(s);
    decode_groups(f, f.len() / 4) + tail_bytes(f)
}

/// Every character of the payload, padding aside, is ASCII.
pub open spec fn decodable(s: Seq<u8>) -> bool {
    let f = strip_padding(s);
    forall|i: int| 0 <= i < f.len() ==> #[trigger] f[i] < 128
}

/// The 6-bit value of a base64 character.
fn sextet_of(b: u8) -> (v: u8)
    ensures
        v == sextet(b),
{
    if 65 <= b && b <= 90 {
        b - 65
    } else if 97 <= b && b <= 122 {
        b - 71
    } else if 48 <= b && b <= 57 {
        b + 4
    } else if b == 43 {
        62
    } else if b == 47 {
        63
    } else {
        0xFF
    }
}

/// `bytes[start..]` with every `=` removed.
fn strip_padding_from(bytes: &[u8], start: usize) -> (out: Vec<u8>)
    requires
        start <= bytes@.len(),
    ensures
        out@ == strip_padding(bytes@.subrange(start as int, bytes@.len() as int)),
{
    let mut out: Vec<u8> = Vec::new();
    let mut i = start;
    while i < bytes.len()
        invariant
            start <= i <= bytes@.len(),
            out@ == strip_padding(bytes@.subrange(start as int, i as int)),
        decreases bytes@.len() - i,
    {
        let b = bytes[i];
        proof {
            let t = bytes@.subrange(start as int, i + 1);
            assert(t.drop_last() == bytes@.subrange(start as int, i as int));
            assert(t.last() == b);
        }
        if b != 61 {
            out.push(b);
        }
        i = i + 1;
    }
    out
}

/// Decodes the base64 payload `bytes[start..]` (see [`payload_bytes`]).
fn decode_payload_from(bytes: &[u8], start: usize) -> (out: Vec<u8>)
    requires
        start <= bytes@.len(),
        decodable(bytes@.subrange(start as int, bytes@.len() as int)),
    ensures
        out@ == payload_bytes(bytes@.subrange(start as int, bytes@.len() as int)),
{
    let s = strip_padding_from(bytes, start);
    let ghost n = s@.len() / 4;
    let mut out: Vec<u8> = Vec::new();
    let mut i: usize = 0;
    while i + 3 < s.len()
        invariant
            i % 4 == 0,
            i <= 4 * n,
            n == s@.len() / 4,
            out@ == decode_groups(s@, (i / 4) as nat),
        decreases s@.len() - i,
    {
        let a = sextet_of(s[i]);
        let b = sextet_of(s[i + 1]);
        let c = sextet_of(s[i + 2]);
        let d = sextet_of(s[i + 3]);
        out.push((a << 2) | (b >> 4));
        out.push((b << 4) | (c >> 2));
        out.push((c << 6) | d);
        proof {
            assert(((i + 4) / 4 - 1) as nat == (i / 4) as nat);
            assert(4 * ((i + 4) / 4 - 1) == i);
        }
        i = i + 4;
    }
    assert(i / 4 == n);
    let r = s.len() - i;
    if r >= 2 {
        let a = sextet_of(s[i]);
        let b = sextet_of(s[i + 1]);
        out.push((a << 2) | (b >> 4));
        if r == 3 {
            let c = sextet_of(s[i + 2]);
            out.push((b << 4) | (c >> 2));
        }
    }
    out
}

/// Decodes the base64 payload of a `data:` URI.
///
/// `=` padding is dropped wherever it stands; complete groups of four
/// characters give three bytes each, and a final group of two or three
/// characters gives the one or two bytes it encodes.
pub fn data_url_decode(s: &str) -> (out: Vec<u8>)
    requires
        decodable(vstd::utf8::encode_utf8(s@)),
    ensures
        out@ == payload_bytes(vstd::utf8::encode_utf8(s@)),
{
    let bytes = s.as_bytes();
    assert(bytes@.subrange(0, bytes@.len() as int) == bytes@);
    decode_payload_from(bytes, 0)
}


/// The position of the first `t` in `s` at or after `i`.
pub open spec fn find_from(s: Seq<u8>, t: u8, i: int) -> Option<int>
    decreases s.len() - i,
{
    if i < 0 || i >= s.len() {
        None
    } else if s[i] == t {
        Some(i)
    } else {
        find_from(s, t, i + 1)
    }
}

proof fn lemma_find_from(s: Seq<u8>, t: u8, i: int)
    requires
        0 <= i,
    ensures
        match find_from(s, t, i) {
            Some(k) => i <= k < s.len() && s[k] == t && forall|j: int| i <= j < k ==> s[j] != t,
            None => forall|j: int| i <= j < s.len() ==> s[j] != t,
        },
    decreases s.len() - i,
{
    if i < s.len() && s[i] != t {
        lemma_find_from(s, t, i + 1);
    }
}

/// The bytes of `data:`.
pub open spec fn data_scheme() -> Seq<u8> {
    seq![100u8, 97u8, 116u8, 97u8, 58u8]
}

/// Whether the (UTF-8) source of an image starts with `data:`.
pub open spec fn is_data_uri(b: Seq<u8>) -> bool {
    b.len() >= 5 && b.subrange(0, 5) == data_scheme()
}

/// Where the pixels of an `<img src>` come from.
#[derive(PartialEq, Eq, Debug)]
pub enum ImageSource {
    /// The decoded payload of a `data:` URI.
    Data(Vec<u8>),
    /// A `data:` URI without a `,` before its payload.
    InvalidDataUri,
    /// A path on disk.
    File(String),
}

/// The payload of a `data:` URI (after its first `,`) is decodable, where there is one.
pub open spec fn source_decodable(b: Seq<u8>) -> bool {
    is_data_uri(b) ==> match find_from(b, 44u8, 0) {
        Some(c) => decodable(b.subrange(c + 1, b.len() as int)),
        None => true,
    }
}

/// What an image source denotes: a `data:` URI's payload decoded from after
/// its first comma, an invalid `data:` URI when there is no comma, and
/// otherwise a file path.
pub open spec fn spec_image_source(src: Seq<char>, out: ImageSource) -> bool {
    let b = vstd::utf8::encode_utf8(src);
    if is_data_uri(b) {
        match find_from(b, 44u8, 0) {
            Some(c) => out matches ImageSource::Data(d) && d@ == payload_bytes(b.subrange(c + 1, b.len() as int)),
            None => out is InvalidDataUri,
        }
    } else {
        out matches ImageSource::File(p) && p@ == src
    }
}

/// The first position of `t` in `s`.
fn find_byte(s: &[u8], t: u8) -> (r: Option<usize>)
    ensures
        r == (match find_from(s@, t, 0) { Some(i) => Some(i as usize), None => None::<usize> }),
{
    let mut i: usize = 0;
    while i < s.len()
        invariant
            i <= s@.len(),
            find_from(s@, t, 0) == find_from(s@, t, i as int),
        decreases s@.len() - i,
    {
        if s[i] == t {
            return Some(i);
        }
        i = i + 1;
    }
    None
}

/// Whether every byte is ASCII.
fn all_ascii(f: &Vec<u8>) -> (ok: bool)
    ensures
        ok == (forall|i: int| 0 <= i < f@.len() ==> #[trigger] f@[i] < 128),
{
    let mut i: usize = 0;
    while i < f.len()
        invariant
            i <= f@.len(),
            forall|j: int| 0 <= j < i ==> #[trigger] f@[j] < 128,
        decreases f@.len() - i,
    {
        if f[i] >= 128 {
            return false;
        }
        i = i + 1;
    }
    true
}

/// Whether `src` can be handed to [`image_source`]: a `data:` payload holds
/// only ASCII characters.
pub fn source_is_decodable(src: &str) -> (ok: bool)
    ensures
        ok == source_decodable(vstd::utf8::encode_utf8(src@)),
{
    let b = src.as_bytes();
    if b.len() >= 5 && b[0] == 100 && b[1] == 97 && b[2] == 116 && b[3] == 97 && b[4] == 58 {
        assert(b@.subrange(0, 5) =~= data_scheme());
        proof {
            lemma_find_from(b@, 44u8, 0);
        }
        match find_byte(b, 44) {
            Some(c) => {
                let f = strip_padding_from(b, c + 1);
                all_ascii(&f)
            },
            None => true,
        }
    } else {
        assert(!is_data_uri(b@)) by {
            if b@.len() >= 5 {
                assert(b@.subrange(0, 5)[0] == b@[0]);
                assert(b@.subrange(0, 5)[1] == b@[1]);
                assert(b@.subrange(0, 5)[2] == b@[2]);
                assert(b@.subrange(0, 5)[3] == b@[3]);
                assert(b@.subrange(0, 5)[4] == b@[4]);
            }
        }
        true
    }
}

/// Where an `<img src="…">` is loaded from: `data:` URIs are decoded here,
/// anything else is a path.
pub fn image_source(src: &str) -> (out: ImageSource)
    requires
        source_decodable(vstd::utf8::encode_utf8(src@)),
    ensures
        spec_image_source(src@, out),
{
    let b = src.as_bytes();
    if b.len() >= 5 && b[0] == 100 && b[1] == 97 && b[2] == 116 && b[3] == 97 && b[4] == 58 {
        assert(b@.subrange(0, 5) =~= data_scheme());
        proof {
            lemma_find_from(b@, 44u8, 0);
        }
        match find_byte(b, 44) {
            Some(c) => ImageSource::Data(decode_payload_from(b, c + 1)),
            None => ImageSource::InvalidDataUri,
        }
    } else {
        assert(!is_data_uri(b@)) by {
            if b@.len() >= 5 {
                assert(b@.subrange(0, 5)[0] == b@[0]);
                assert(b@.subrange(0, 5)[1] == b@[1]);
                assert(b@.subrange(0, 5)[2] == b@[2]);
                assert(b@.subrange(0, 5)[3] == b@[3]);
                assert(b@.subrange(0, 5)[4] == b@[4]);
            }
        }
        ImageSource::File(String::from_str(src))
    }
}

/// An 8-bit RGBA image, row by row, four bytes per pixel.
pub struct RgbaImage {
    pub width: u32,
    pub height: u32,
    pub pixels: Vec<u8>,
}

/// What `image::ImageReader` (format guessed from the bytes) decodes from the
/// bytes of an encoded image, converted with `to_rgba8`: width, height and
/// pixels, or `None` when the format is not recognised or decoding fails.
/// It depends on the bytes alone because neither this library nor its program
/// registers any of the crate's process-wide decoding or format-detection hooks.
pub uninterp spec fn decoded_rgba(bytes: Seq<u8>) -> Option<(u32, u32, Seq<u8>)>;

/// `image::ImageReader::new(..).with_guessed_format()` then `decode` and
/// `DynamicImage::to_rgba8`.
///
/// Trusted: the outcome is named `decoded_rgba` of the bytes, and a decoded
/// image holds `4 * width * height` bytes.
#[verifier::external_body]
fn decode_rgba(bytes: &[u8]) -> (r: Option<RgbaImage>)
    ensures
        r is Some <==> decoded_rgba(bytes@) is Some,
        r matches Some(img) ==> img.pixels@.len() == 4 * img.width * img.height
            && decoded_rgba(bytes@) == Some((img.width, img.height, img.pixels@)),
{
    let reader = image::ImageReader::new(std::io::Cursor::new(bytes)).with_guessed_format().ok()?;
    let img = reader.decode().ok()?.to_rgba8();
    Some(RgbaImage { width: img.width(), height: img.height(), pixels: img.into_raw() })
}

/// An image to draw in a document.
pub enum LoadedImage {
    /// Decoded pixels of a `data:` URI.
    Pixels(RgbaImage),
    /// A file to open.
    File(String),
    /// The source cannot be loaded.
    Failed,
}

/// Loads the image of an `<img src>`: a `data:` URI is decoded (no comma or
/// an undecodable payload fails), anything else is a file path.
pub fn load_image(src: &str) -> (r: LoadedImage)
    requires
        source_decodable(vstd::utf8::encode_utf8(src@)),
    ensures
        ({
            let b = vstd::utf8::encode_utf8(src@);
            if is_data_uri(b) {
                match find_from(b, 44u8, 0) {
                    Some(c) => match decoded_rgba(payload_bytes(b.subrange(c + 1, b.len() as int))) {
                        Some((w, h, px)) => r matches LoadedImage::Pixels(img) && img.width == w
                            && img.height == h && img.pixels@ == px,
                        None => r is Failed,
                    },
                    None => r is Failed,
                }
            } else {
                r matches LoadedImage::File(p) && p@ == src@
            }
        }),
{
    match image_source(src) {
        ImageSource::Data(bytes) => match decode_rgba(bytes.as_slice()) {
            Some(img) => LoadedImage::Pixels(img),
            None => LoadedImage::Failed,
        },
        ImageSource::InvalidDataUri => LoadedImage::Failed,
        ImageSource::File(p) => LoadedImage::File(p),
    }
}

/// The base64 character of a 6-bit value.
pub open spec fn b64_char(v: u8) -> u8 {
    if v < 26 {
        (65 + v) as u8
    } else if v < 52 {
        (71 + v) as u8
    } else if v < 62 {
        (v - 4) as u8
    } else if v == 62 {
        43u8
    } else {
        47u8
    }
}

/// Sextet `k` of the 3-byte group `g` of `bytes`.
pub open spec fn group_sextet(bytes: Seq<u8>, g: int, k: int) -> u8 {
    let x = bytes[3 * g];
    let y = bytes[3 * g + 1];
    let z = bytes[3 * g + 2];
    if k == 0 {
        x >> 2u8
    } else if k == 1 {
        ((x & 3u8) << 4u8) | (y >> 4u8)
    } else if k == 2 {
        ((y & 15u8) << 2u8) | (z >> 6u8)
    } else {
        z & 63u8
    }
}

/// The base64 characters of the complete 3-byte groups of `bytes`.
pub open spec fn encode_groups(bytes: Seq<u8>) -> Seq<u8> {
    Seq::new((bytes.len() / 3 * 4) as nat, |i: int| b64_char(group_sextet(bytes, i / 4, i % 4)))
}

/// The base64 characters of the last one or two bytes of `bytes` (those after
/// its complete 3-byte groups), padded with `=` to four.
pub open spec fn encode_tail(bytes: Seq<u8>) -> Seq<u8> {
    let k: int = 3 * (bytes.len() / 3) as int;
    let r = bytes.len() % 3;
    if r == 1 {
        let x = bytes[k];
        seq![b64_char(x >> 2u8), b64_char((x & 3u8) << 4u8), 61u8, 61u8]
    } else if r == 2 {
        let x = bytes[k];
        let y = bytes[k + 1];
        seq![b64_char(x >> 2u8), b64_char(((x & 3u8) << 4u8) | (y >> 4u8)), b64_char((y & 15u8) << 2u8), 61u8]
    } else {
        Seq::<u8>::empty()
    }
}

/// Standard base64 encoding, with `=` padding.
pub open spec fn base64_encode(bytes: Seq<u8>) -> Seq<u8> {
    encode_groups(bytes) + encode_tail(bytes)
}

proof fn lemma_sextet_of_char(v: u8)
    requires
        v < 64,
    ensures
        sextet(b64_char(v)) == v,
        b64_char(v) < 128,
        !is_pad(b64_char(v)),
{
}

proof fn lemma_group_roundtrip(x: u8, y: u8, z: u8)
    ensures
        ({
            let s0 = x >> 2u8;
            let s1 = ((x & 3u8) << 4u8) | (y >> 4u8);
            let s2 = ((y & 15u8) << 2u8) | (z >> 6u8);
            let s3 = z & 63u8;
            &&& s0 < 64 && s1 < 64 && s2 < 64 && s3 < 64
            &&& group_bytes(s0, s1, s2, s3) == seq![x, y, z]
        }),
{
    let s0 = x >> 2u8;
    let s1 = ((x & 3u8) << 4u8) | (y >> 4u8);
    let s2 = ((y & 15u8) << 2u8) | (z >> 6u8);
    let s3 = z & 63u8;
    assert(s0 < 64 && s1 < 64 && s2 < 64 && s3 < 64) by (bit_vector)
        requires s0 == x >> 2u8, s1 == ((x & 3u8) << 4u8) | (y >> 4u8), s2 == ((y & 15u8) << 2u8) | (z >> 6u8), s3 == z & 63u8;
    assert((s0 << 2u8) | (s1 >> 4u8) == x) by (bit_vector)
        requires s0 == x >> 2u8, s1 == ((x & 3u8) << 4u8) | (y >> 4u8);
    assert((s1 << 4u8) | (s2 >> 2u8) == y) by (bit_vector)
        requires s1 == ((x & 3u8) << 4u8) | (y >> 4u8), s2 == ((y & 15u8) << 2u8) | (z >> 6u8);
    assert((s2 << 6u8) | s3 == z) by (bit_vector)
        requires s2 == ((y & 15u8) << 2u8) | (z >> 6u8), s3 == z & 63u8;
}

/// One trailing byte: its two sextets decode back to it.
proof fn lemma_tail1_roundtrip(x: u8)
    ensures
        x >> 2u8 < 64,
        (x & 3u8) << 4u8 < 64,
        ((x >> 2u8) << 2u8) | (((x & 3u8) << 4u8) >> 4u8) == x,
{
    assert(x >> 2u8 < 64) by (bit_vector);
    assert((x & 3u8) << 4u8 < 64) by (bit_vector);
    assert(((x >> 2u8) << 2u8) | (((x & 3u8) << 4u8) >> 4u8) == x) by (bit_vector);
}

/// Two trailing bytes: their three sextets decode back to them.
proof fn lemma_tail2_roundtrip(x: u8, y: u8)
    ensures
        ({
            let s0 = x >> 2u8;
            let s1 = ((x & 3u8) << 4u8) | (y >> 4u8);
            let s2 = (y & 15u8) << 2u8;
            &&& s0 < 64 && s1 < 64 && s2 < 64
            &&& (s0 << 2u8) | (s1 >> 4u8) == x
            &&& (s1 << 4u8) | (s2 >> 2u8) == y
        }),
{
    let s0 = x >> 2u8;
    let s1 = ((x & 3u8) << 4u8) | (y >> 4u8);
    let s2 = (y & 15u8) << 2u8;
    assert(s0 < 64 && s1 < 64 && s2 < 64) by (bit_vector)
        requires s0 == x >> 2u8, s1 == ((x & 3u8) << 4u8) | (y >> 4u8), s2 == (y & 15u8) << 2u8;
    assert((s0 << 2u8) | (s1 >> 4u8) == x) by (bit_vector)
        requires s0 == x >> 2u8, s1 == ((x & 3u8) << 4u8) | (y >> 4u8);
    assert((s1 << 4u8) | (s2 >> 2u8) == y) by (bit_vector)
        requires s1 == ((x & 3u8) << 4u8) | (y >> 4u8), s2 == (y & 15u8) << 2u8;
}

proof fn lemma_strip_no_padding(s: Seq<u8>)
    requires
        forall|i: int| 0 <= i < s.len() ==> !is_pad(#[trigger] s[i]),
    ensures
        strip_padding(s) == s,
    decreases s.len(),
{
    if s.len() > 0 {
        lemma_strip_no_padding(s.drop_last());
        assert(s.drop_last() + seq![s.last()] == s);
    }
}

proof fn lemma_strip_single_pad()
    ensures
        strip_padding(seq![61u8]) == Seq::<u8>::empty(),
{
    let p = seq![61u8];
    assert(p.drop_last() == Seq::<u8>::empty());
    assert(strip_padding(Seq::<u8>::empty()) == Seq::<u8>::empty());
    assert(p.last() == 61u8);
    assert(Seq::<u8>::empty() + Seq::<u8>::empty() == Seq::<u8>::empty());
}

/// Padding is removed piece by piece.
proof fn lemma_strip_concat(a: Seq<u8>, b: Seq<u8>)
    ensures
        strip_padding(a + b) == strip_padding(a) + strip_padding(b),
    decreases b.len(),
{
    if b.len() == 0 {
        assert(a + b == a);
        assert(strip_padding(a) + strip_padding(b) == strip_padding(a));
    } else {
        lemma_strip_concat(a, b.drop_last());
        assert((a + b).drop_last() == a + b.drop_last());
        assert((a + b).last() == b.last());
    }
}

/// Only the first `4 * n` characters matter to the first `n` groups.
proof fn lemma_decode_groups_prefix(s1: Seq<u8>, s2: Seq<u8>, n: nat)
    requires
        4 * n <= s1.len(),
        4 * n <= s2.len(),
        forall|i: int| 0 <= i < 4 * n ==> s1[i] == s2[i],
    ensures
        decode_groups(s1, n) == decode_groups(s2, n),
    decreases n,
{
    if n > 0 {
        let i = 4 * (n - 1);
        assert(s1[i] == s2[i] && s1[i + 1] == s2[i + 1] && s1[i + 2] == s2[i + 2] && s1[i + 3] == s2[i + 3]);
        lemma_decode_groups_prefix(s1, s2, (n - 1) as nat);
    }
}

proof fn lemma_decode_encoded_groups(bytes: Seq<u8>, n: nat)
    requires
        n <= bytes.len() / 3,
    ensures
        decode_groups(encode_groups(bytes), n) == bytes.subrange(0, 3 * n as int),
    decreases n,
{
    if n > 0 {
        let e = encode_groups(bytes);
        let g = n - 1;
        lemma_decode_encoded_groups(bytes, (n - 1) as nat);
        let x = bytes[3 * g];
        let y = bytes[3 * g + 1];
        let z = bytes[3 * g + 2];
        lemma_group_roundtrip(x, y, z);
        assert forall|k: int| 0 <= k < 4 implies #[trigger] e[4 * g + k] == b64_char(group_sextet(bytes, g, k)) by {
            assert((4 * g + k) / 4 == g && (4 * g + k) % 4 == k);
        }
        lemma_sextet_of_char(group_sextet(bytes, g, 0));
        lemma_sextet_of_char(group_sextet(bytes, g, 1));
        lemma_sextet_of_char(group_sextet(bytes, g, 2));
        lemma_sextet_of_char(group_sextet(bytes, g, 3));
        assert(e[4 * g] == b64_char(group_sextet(bytes, g, 0)));
        assert(e[4 * g + 1] == b64_char(group_sextet(bytes, g, 1)));
        assert(e[4 * g + 2] == b64_char(group_sextet(bytes, g, 2)));
        assert(e[4 * g + 3] == b64_char(group_sextet(bytes, g, 3)));
        assert(bytes.subrange(0, 3 * n as int) == bytes.subrange(0, 3 * g) + seq![x, y, z]);
    }
}

/// The characters of the complete groups are ASCII and hold no padding.
proof fn lemma_encode_groups_chars(bytes: Seq<u8>)
    ensures
        forall|i: int| 0 <= i < encode_groups(bytes).len() ==> !is_pad(#[trigger] encode_groups(bytes)[i])
            && encode_groups(bytes)[i] < 128,
{
    let e = encode_groups(bytes);
    assert forall|i: int| 0 <= i < e.len() implies !is_pad(#[trigger] e[i]) && e[i] < 128 by {
        let g = i / 4;
        let k = i % 4;
        lemma_group_roundtrip(bytes[3 * g], bytes[3 * g + 1], bytes[3 * g + 2]);
        lemma_sextet_of_char(group_sextet(bytes, g, k));
    }
}

/// Decoding the padded base64 encoding of any bytes gives back the bytes, and
/// such a payload is always decodable.
pub proof fn lemma_base64_roundtrip(bytes: Seq<u8>)
    ensures
        decodable(base64_encode(bytes)),
        payload_bytes(base64_encode(bytes)) == bytes,
{
    let full = encode_groups(bytes);
    let tail = encode_tail(bytes);
    let n = bytes.len() / 3;
    let k: int = 3 * n as int;
    lemma_encode_groups_chars(bytes);
    lemma_strip_no_padding(full);
    lemma_strip_concat(full, tail);
    lemma_decode_encoded_groups(bytes, n);
    let r = bytes.len() % 3;
    // The tail without its padding.
    let t: Seq<u8> = if r == 1 {
        let x = bytes[k];
        lemma_tail1_roundtrip(x);
        lemma_sextet_of_char(x >> 2u8);
        lemma_sextet_of_char((x & 3u8) << 4u8);
        seq![b64_char(x >> 2u8), b64_char((x & 3u8) << 4u8)]
    } else if r == 2 {
        let x = bytes[k];
        let y = bytes[k + 1];
        lemma_tail2_roundtrip(x, y);
        lemma_sextet_of_char(x >> 2u8);
        lemma_sextet_of_char(((x & 3u8) << 4u8) | (y >> 4u8));
        lemma_sextet_of_char((y & 15u8) << 2u8);
        seq![b64_char(x >> 2u8), b64_char(((x & 3u8) << 4u8) | (y >> 4u8)), b64_char((y & 15u8) << 2u8)]
    } else {
        Seq::<u8>::empty()
    };
    assert(strip_padding(tail) == t) by {
        if r == 1 {
            lemma_strip_no_padding(t);
            lemma_strip_concat(t, seq![61u8, 61u8]);
            assert(tail == t + seq![61u8, 61u8]);
            assert(seq![61u8, 61u8].drop_last() == seq![61u8]);
            assert(seq![61u8].drop_last() == Seq::<u8>::empty());
            lemma_strip_single_pad();
            assert(strip_padding(seq![61u8, 61u8]) == Seq::<u8>::empty());
            assert(t + Seq::<u8>::empty() == t);
        } else if r == 2 {
            lemma_strip_no_padding(t);
            lemma_strip_concat(t, seq![61u8]);
            assert(tail == t + seq![61u8]);
            assert(seq![61u8].drop_last() == Seq::<u8>::empty());
            lemma_strip_single_pad();
            assert(t + Seq::<u8>::empty() == t);
        }
    }
    let f = full + t;
    assert(strip_padding(base64_encode(bytes)) == f);
    assert(f.len() / 4 == n && f.len() % 4 == t.len() && 4 * n == full.len()) by {
        assert(full.len() == 4 * n);
        assert((4 * n + t.len()) / 4 == n && (4 * n + t.len()) % 4 == t.len() as int) by (nonlinear_arith)
            requires t.len() < 4;
    }
    lemma_decode_groups_prefix(f, full, n);
    assert forall|i: int| 0 <= i < f.len() implies #[trigger] f[i] < 128 by {
        if i >= full.len() {
            assert(f[i] == t[i - full.len()]);
        }
    }
    assert(bytes.subrange(0, k) + tail_bytes(f) == bytes) by {
        if r == 1 {
            assert(f[4 * n as int] == t[0] && f[4 * n as int + 1] == t[1]);
        } else if r == 2 {
            assert(f[4 * n as int] == t[0] && f[4 * n as int + 1] == t[1] && f[4 * n as int + 2] == t[2]);
        }
        assert(bytes.len() == k + r);
    }
}

} // verus!
