//! What the browser is sent for one rendered image: a WebP of it as
//! base64 text with its size, built here from RGBA8 samples or from WebP
//! bytes; the striped placeholder shown where a render fails; and the PNG
//! offered for download.

use vstd::prelude::*;

verus! {

// ── Base64 ──────────────────────────────────────────────────────────────────

/// The digit of the standard base64 alphabet for `v` in `0..64`.
pub open spec fn b64_digit(v: int) -> char {
    if v < 26 {
        ('A' as int + v) as char
    } else if v < 52 {
        ('a' as int + (v - 26)) as char
    } else if v < 62 {
        ('0' as int + (v - 52)) as char
    } else if v == 62 {
        '+'
    } else {
        '/'
    }
}

/// Standard base64 with `=` padding (RFC 4648): each three bytes become
/// four digits of six bits each; a last group of one or two bytes becomes
/// two or three digits and padding.
pub open spec fn base64(b: Seq<u8>) -> Seq<char>
    decreases b.len(),
{
    if b.len() == 0 {
        seq![]
    } else if b.len() == 1 {
        seq![b64_digit(b[0] as int / 4), b64_digit((b[0] as int % 4) * 16), '=', '=']
    } else if b.len() == 2 {
        seq![
            b64_digit(b[0] as int / 4),
            b64_digit((b[0] % 4) * 16 + b[1] / 16),
            b64_digit((b[1] % 16) * 4),
            '=',
        ]
    } else {
        seq![
            b64_digit(b[0] as int / 4),
            b64_digit((b[0] % 4) * 16 + b[1] / 16),
            b64_digit((b[1] % 16) * 4 + b[2] / 64),
            b64_digit(b[2] as int % 64),
        ] + base64(b.skip(3))
    }
}

/// Whether the base64 text of `n` bytes, `4 * ceil(n / 3)` digits, has a
/// length that `usize` holds.
pub open spec fn base64_len_fits(n: int) -> bool {
    4 * ((n + 2) / 3) <= usize::MAX
}

/// `base64::engine::general_purpose::STANDARD.encode`: the standard
/// alphabet with padding, as `base64` states. The crate panics when the
/// length of the text overflows `usize`, which the `requires` leaves out.
#[verifier::external_body]
fn base64_encode(bytes: &[u8]) -> (s: String)
    requires
        base64_len_fits(bytes@.len() as int),
    ensures
        s@ == base64(bytes@),
{
    base64::Engine::encode(&base64::engine::general_purpose::STANDARD, bytes)
}

/// Whether the base64 text of `n` bytes has a length that `usize` holds.
fn base64_fits(n: usize) -> (r: bool)
    ensures
        r == base64_len_fits(n as int),
{
    let q: u128 = (n as u128 + 2) / 3;
    4 * q <= usize::MAX as u128
}

// ── Payload ─────────────────────────────────────────────────────────────────

/// One rendered image as the browser gets it: a WebP as base64 text, the
/// image's width and height, and the size of the JPEG XL file it came from.
pub struct ImagePayload {
    pub webp_b64: String,
    pub width: u32,
    pub height: u32,
    pub jxl_size: u64,
}

/// The payload of the WebP file `webp` of an image of `width` × `height`
/// encoded from `jxl_size` bytes of JPEG XL: `None` exactly when the
/// base64 text of `webp` would be longer than `usize` can count.
pub fn payload_from_webp(webp: &[u8], width: u32, height: u32, jxl_size: u64) -> (r: Option<
    ImagePayload,
>)
    ensures
        r is Some <==> base64_len_fits(webp@.len() as int),
        r matches Some(p) ==> p.webp_b64@ == base64(webp@) && p.width == width && p.height == height
            && p.jxl_size == jxl_size,
{
    if !base64_fits(webp.len()) {
        return None;
    }
    Some(ImagePayload { webp_b64: base64_encode(webp), width, height, jxl_size })
}

/// The lossless WebP file that `image`'s encoder writes for an RGBA8 image
/// of `width` × `height` with samples `rgba`.
pub uninterp spec fn webp_lossless(rgba: Seq<u8>, width: u32, height: u32) -> Seq<u8>;

/// Whether the lossless WebP encoder takes an RGBA8 image of `width` ×
/// `height` held in `len` samples: the buffer must hold exactly the image,
/// and WebP edges run from 1 to 16384.
pub open spec fn webp_encodable(len: int, width: u32, height: u32) -> bool {
    &&& len == 4 * (width * height)
    &&& 1 <= width <= 16384
    &&& 1 <= height <= 16384
}

/// `image::codecs::webp::WebPEncoder::new_lossless` and `write_image` with
/// `Rgba8`, into memory: the file is named by `webp_lossless`. The encoder
/// asserts that the buffer holds exactly the image and refuses edges
/// outside `1..=16384`; writing into a `Vec` gives no other error. The
/// `requires` leaves those inputs out.
#[verifier::external_body]
fn webp_lossless_encode(rgba: &[u8], width: u32, height: u32) -> (r: Vec<u8>)
    requires
        webp_encodable(rgba@.len() as int, width, height),
    ensures
        r@ == webp_lossless(rgba@, width, height),
{
    let mut buf = Vec::new();
    let enc = image::codecs::webp::WebPEncoder::new_lossless(&mut buf);
    let _ = image::ImageEncoder::write_image(
        enc,
        rgba,
        width,
        height,
        image::ExtendedColorType::Rgba8,
    );
    buf
}

/// Whether `preview_payload` takes an RGBA8 image of `width` × `height`
/// held in `len` samples, as `webp_encodable` says.
pub fn preview_encodable(len: usize, width: u32, height: u32) -> (r: bool)
    ensures
        r == webp_encodable(len as int, width, height),
{
    if !(1 <= width && width <= 16384 && 1 <= height && height <= 16384) {
        return false;
    }
    assert((width as u64) * (height as u64) <= 16384 * 16384) by (nonlinear_arith)
        requires
            width <= 16384,
            height <= 16384,
    ;
    len as u64 == 4 * ((width as u64) * (height as u64))
}

/// The payload of a rendered preview: the RGBA8 image of `width` ×
/// `height` as a lossless WebP (so that comparing and zooming stay exact),
/// from `jxl_size` bytes of JPEG XL. `None` exactly when the WebP's base64
/// text would be longer than `usize` can count.
pub fn preview_payload(rgba: &[u8], width: u32, height: u32, jxl_size: u64) -> (r: Option<
    ImagePayload,
>)
    requires
        webp_encodable(rgba@.len() as int, width, height),
    ensures
        r is Some <==> base64_len_fits(webp_lossless(rgba@, width, height).len() as int),
        r matches Some(p) ==> p.webp_b64@ == base64(webp_lossless(rgba@, width, height))
            && p.width == width && p.height == height && p.jxl_size == jxl_size,
{
    let webp = webp_lossless_encode(rgba, width, height);
    payload_from_webp(webp.as_slice(), width, height, jxl_size)
}

// ── Placeholder ─────────────────────────────────────────────────────────────

/// The edge of the square placeholder image.
pub const PLACEHOLDER_EDGE: u32 = 256;

/// The grey of the placeholder at `(x, y)`: diagonal stripes twelve pixels
/// wide, alternating two dark greys.
pub open spec fn stripe_shade(x: int, y: int) -> u8 {
    if (x + y) % 24 < 12 {
        40
    } else {
        56
    }
}

/// The RGBA8 samples of the placeholder: pixel `i` (row `i / 256`, column
/// `i % 256`) is an opaque grey of `stripe_shade`.
pub open spec fn placeholder_samples() -> Seq<u8> {
    Seq::new(
        4 * 65536,
        |j: int|
            if j % 4 == 3 {
                255u8
            } else {
                stripe_shade((j / 4) % 256, (j / 4) / 256)
            },
    )
}

/// The RGBA8 samples of the 256 × 256 striped placeholder shown where a
/// render fails.
pub fn placeholder_rgba() -> (v: Vec<u8>)
    ensures
        v@ == placeholder_samples(),
        v@.len() == 4 * 65536,
        forall|i: int, k: int|
            0 <= i < 65536 && 0 <= k < 4 ==> #[trigger] v@[4 * i + k] == if k == 3 {
                255u8
            } else {
                stripe_shade(i % 256, i / 256)
            },
{
    let mut v: Vec<u8> = Vec::new();
    let mut i: u32 = 0;
    while i < 65536
        invariant
            i <= 65536,
            v@.len() == 4 * i,
            forall|j: int, k: int|
                0 <= j < i && 0 <= k < 4 ==> #[trigger] v@[4 * j + k] == if k == 3 {
                    255u8
                } else {
                    stripe_shade(j % 256, j / 256)
                },
        decreases 65536 - i,
    {
        let x = i % 256;
        let y = i / 256;
        let shade: u8 = if (x + y) % 24 < 12 {
            40
        } else {
            56
        };
        let ghost before = v@;
        v.push(shade);
        v.push(shade);
        v.push(shade);
        v.push(255);
        assert forall|j: int, k: int| 0 <= j < i + 1 && 0 <= k < 4 implies #[trigger] v@[4 * j + k]
            == if k == 3 {
            255u8
        } else {
            stripe_shade(j % 256, j / 256)
        } by {
            if j < i {
                assert(v@[4 * j + k] == before[4 * j + k]);
            }
        }
        i = i + 1;
    }
    assert forall|j: int| 0 <= j < 4 * 65536 implies v@[j] == placeholder_samples()[j] by {
        let q = j / 4;
        let k = j % 4;
        assert(j == 4 * q + k);
        assert(v@[4 * q + k] == if k == 3 {
            255u8
        } else {
            stripe_shade(q % 256, q / 256)
        });
    }
    assert(v@ =~= placeholder_samples());
    v
}

/// The payload shown in place of an image whose render failed: the
/// placeholder as a lossless WebP, with no JPEG XL behind it (`None` as for
/// `preview_payload`).
pub fn unsupported_placeholder() -> (r: Option<ImagePayload>)
    ensures
        r is Some <==> base64_len_fits(webp_lossless(placeholder_samples(), 256, 256).len() as int),
        r matches Some(p) ==> p.webp_b64@ == base64(webp_lossless(placeholder_samples(), 256, 256))
            && p.width == PLACEHOLDER_EDGE && p.height == PLACEHOLDER_EDGE && p.jxl_size == 0,
{
    let rgba = placeholder_rgba();
    preview_payload(rgba.as_slice(), PLACEHOLDER_EDGE, PLACEHOLDER_EDGE, 0)
}

/// The payload of a render's outcome for a preview card: the image as a
/// lossless WebP with the size of its JPEG XL file when the render gave
/// one, the placeholder when it failed. `None` as for `preview_payload`.
pub fn preview_of_render(outcome: &Result<(Vec<u8>, u32, u32, u64), String>) -> (r: Option<
    ImagePayload,
>)
    requires
        outcome matches Ok((rgba, w, h, _)) ==> webp_encodable(rgba@.len() as int, *w, *h),
    ensures
        match outcome {
            Ok((rgba, w, h, jxl_size)) => {
                &&& r is Some <==> base64_len_fits(webp_lossless(rgba@, *w, *h).len() as int)
                &&& r matches Some(p) ==> p.webp_b64@ == base64(webp_lossless(rgba@, *w, *h))
                    && p.width == *w && p.height == *h && p.jxl_size == *jxl_size
            },
            Err(_) => {
                &&& r is Some <==> base64_len_fits(
                    webp_lossless(placeholder_samples(), 256, 256).len() as int,
                )
                &&& r matches Some(p) ==> p.webp_b64@ == base64(
                    webp_lossless(placeholder_samples(), 256, 256),
                ) && p.width == PLACEHOLDER_EDGE && p.height == PLACEHOLDER_EDGE && p.jxl_size == 0
            },
        },
{
    match outcome {
        Ok((rgba, w, h, jxl_size)) => preview_payload(rgba.as_slice(), *w, *h, *jxl_size),
        Err(_) => unsupported_placeholder(),
    }
}

// ── PNG ─────────────────────────────────────────────────────────────────────

/// What `image` makes of the RGBA8 image of `width` × `height` whose
/// samples `rgba` starts with when it writes it as PNG: the file, or the
/// message of the encoder's fault.
pub uninterp spec fn png_written(rgba: Seq<u8>, width: u32, height: u32) -> Result<
    Seq<u8>,
    Seq<char>,
>;

/// `ImageBuffer::<Rgba<u8>, _>::from_raw`, then `write_to` in
/// `ImageFormat::Png` into memory. `from_raw` refuses exactly a buffer
/// shorter than `4 * width * height` samples (`None`); otherwise the
/// outcome of the encoder, the file or its fault's message, is named by
/// `png_written` (it depends on the image alone, as writing goes into
/// memory).
#[verifier::external_body]
fn png_write(rgba: Vec<u8>, width: u32, height: u32) -> (r: Option<Result<Vec<u8>, String>>)
    ensures
        r is Some <==> 4 * (width * height) <= rgba@.len(),
        r matches Some(Ok(v)) ==> png_written(rgba@, width, height) is Ok && png_written(
            rgba@,
            width,
            height,
        )->Ok_0 == v@,
        r matches Some(Err(e)) ==> png_written(rgba@, width, height) is Err && png_written(
            rgba@,
            width,
            height,
        )->Err_0 == e@,
{
    match image::ImageBuffer::<image::Rgba<u8>, Vec<u8>>::from_raw(width, height, rgba) {
        Some(img) => {
            let mut buf: Vec<u8> = Vec::new();
            match img.write_to(&mut std::io::Cursor::new(&mut buf), image::ImageFormat::Png) {
                Ok(()) => Some(Ok(buf)),
                Err(e) => Some(Err(e.to_string())),
            }
        },
        None => None,
    }
}

/// The PNG of the RGBA8 image of `width` × `height` held in `rgba`, for
/// download. A buffer too short for the image is refused with "failed to
/// create image buffer"; otherwise the encoder's file, or its fault's
/// message, is passed on.
pub fn encode_png(rgba: Vec<u8>, width: u32, height: u32) -> (r: Result<Vec<u8>, String>)
    ensures
        rgba@.len() < 4 * (width * height) ==> (r matches Err(e) && e@
            == "failed to create image buffer"@),
        4 * (width * height) <= rgba@.len() ==> match r {
            Ok(v) => png_written(rgba@, width, height) == Ok::<Seq<u8>, Seq<char>>(v@),
            Err(e) => png_written(rgba@, width, height) == Err::<Seq<u8>, Seq<char>>(e@),
        },
{
    match png_write(rgba, width, height) {
        Some(Ok(v)) => Ok(v),
        Some(Err(e)) => Err(e),
        None => Err("failed to create image buffer".to_owned()),
    }
}

} // verus!
