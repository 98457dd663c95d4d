//! Decoded images: the PAM reader that turns the decoder's output into
//! RGBA8, and the fit of an image to a longest edge.

use vstd::prelude::*;
use vstd::utf8::{decode_utf8, encode_utf8, encode_utf8_decode_utf8, valid_utf8};

use image::imageops::FilterType;


use crate::parse::is_word;
use crate::text::{parse_u32, parse_u32_chars, parse_usize, parse_usize_chars, str_chars, tokenize, tokens, views};

verus! {

// ── PAM ─────────────────────────────────────────────────────────────────────

/// The line that ends a PAM header: `ENDHDR` and a newline.
pub open spec fn endhdr() -> Seq<u8> {
    seq![69u8, 78u8, 68u8, 72u8, 68u8, 82u8, 10u8]
}

/// Whether the header terminator starts at `p`.
pub open spec fn marker_at(b: Seq<u8>, p: int) -> bool {
    0 <= p && p + 7 <= b.len() && b.subrange(p, p + 7) == endhdr()
}

/// The first position at or after `p` where the header terminator starts.
pub open spec fn marker_from(b: Seq<u8>, p: int) -> Option<int>
    decreases b.len() - p,
{
    if p < 0 || p + 7 > b.len() {
        None
    } else if marker_at(b, p) {
        Some(p)
    } else {
        marker_from(b, p + 1)
    }
}

/// The header fields that decoding reads; `tupltype` is the first
/// `TUPLTYPE` value, the colour layout.
pub struct PamHeader {
    pub width: u32,
    pub height: u32,
    pub depth: usize,
    pub maxval: u32,
    pub tupltype: Option<Seq<char>>,
}

/// The fields before any key was read.
pub open spec fn blank_header() -> PamHeader {
    PamHeader { width: 0, height: 0, depth: 0, maxval: 0, tupltype: None }
}

/// Reading the header words from `t[i]` on, with `h` read so far: each of
/// `WIDTH`, `HEIGHT`, `DEPTH` and `MAXVAL` takes the next word as its
/// number (a later key overrides an earlier one) and fails with its own
/// message when that word is missing or no number; `TUPLTYPE` takes the
/// next word, kept only when it is the first; any other word is skipped.
pub open spec fn pam_scan(t: Seq<Seq<char>>, i: int, h: PamHeader) -> Result<PamHeader, Seq<char>>
    decreases t.len() - i,
{
    if i < 0 || i >= t.len() {
        Ok(h)
    } else if t[i] == "WIDTH"@ {
        if i + 1 < t.len() && parse_u32(t[i + 1]) is Some {
            pam_scan(t, i + 2, PamHeader { width: parse_u32(t[i + 1])->0, ..h })
        } else {
            Err("PAM: WIDTH"@)
        }
    } else if t[i] == "HEIGHT"@ {
        if i + 1 < t.len() && parse_u32(t[i + 1]) is Some {
            pam_scan(t, i + 2, PamHeader { height: parse_u32(t[i + 1])->0, ..h })
        } else {
            Err("PAM: HEIGHT"@)
        }
    } else if t[i] == "DEPTH"@ {
        if i + 1 < t.len() && parse_usize(t[i + 1]) is Some {
            pam_scan(t, i + 2, PamHeader { depth: parse_usize(t[i + 1])->0, ..h })
        } else {
            Err("PAM: DEPTH"@)
        }
    } else if t[i] == "MAXVAL"@ {
        if i + 1 < t.len() && parse_u32(t[i + 1]) is Some {
            pam_scan(t, i + 2, PamHeader { maxval: parse_u32(t[i + 1])->0, ..h })
        } else {
            Err("PAM: MAXVAL"@)
        }
    } else if t[i] == "TUPLTYPE"@ {
        if i + 1 < t.len() {
            let first = if h.tupltype is None {
                Some(t[i + 1])
            } else {
                h.tupltype
            };
            pam_scan(t, i + 2, PamHeader { tupltype: first, ..h })
        } else {
            Ok(h)
        }
    } else {
        pam_scan(t, i + 1, h)
    }
}

pub open spec fn min_int(a: int, b: int) -> int {
    if a <= b {
        a
    } else {
        b
    }
}

/// How many leading samples of each pixel are colour: named by the first
/// `TUPLTYPE`, else the depth up to four; never more than the depth.
pub open spec fn pam_color(tt: Option<Seq<char>>, depth: int) -> int {
    let named = match tt {
        Some(s) => if s == "GRAYSCALE"@ {
            1
        } else if s == "GRAYSCALE_ALPHA"@ {
            2
        } else if s == "RGB"@ {
            3
        } else if s == "RGB_ALPHA"@ {
            4
        } else {
            min_int(depth, 4)
        },
        None => min_int(depth, 4),
    };
    min_int(named, depth)
}

/// Sample `i` of the pixel data (two big-endian bytes when `wide`), scaled
/// from `0..=m` to 8 bits as `v * 255 / m`, cast to `u8`.
pub open spec fn pam_sample(data: Seq<u8>, wide: bool, m: u32, i: int) -> u8 {
    let v: int = if wide {
        data[2 * i] * 256 + data[2 * i + 1]
    } else {
        data[i] as int
    };
    (v * 255 / (m as int)) as u8
}

/// The RGBA of pixel `p`, whose samples start at `p * depth`.
pub open spec fn pam_pixel(data: Seq<u8>, wide: bool, m: u32, depth: int, color: int, p: int) -> Seq<u8> {
    let base = p * depth;
    let s0 = pam_sample(data, wide, m, base);
    if color == 1 {
        seq![s0, s0, s0, 255u8]
    } else if color == 2 {
        seq![s0, s0, s0, pam_sample(data, wide, m, base + 1)]
    } else if color == 3 {
        seq![s0, pam_sample(data, wide, m, base + 1), pam_sample(data, wide, m, base + 2), 255u8]
    } else {
        seq![
            s0,
            pam_sample(data, wide, m, base + 1),
            pam_sample(data, wide, m, base + 2),
            pam_sample(data, wide, m, base + 3),
        ]
    }
}

/// The RGBA of the first `n` pixels.
pub open spec fn pam_pixels(data: Seq<u8>, wide: bool, m: u32, depth: int, color: int, n: int) -> Seq<u8>
    decreases n,
{
    if n <= 0 {
        seq![]
    } else {
        pam_pixels(data, wide, m, depth, color, n - 1) + pam_pixel(data, wide, m, depth, color, n - 1)
    }
}

pub proof fn lemma_marker_from(b: Seq<u8>, p: int)
    ensures
        marker_from(b, p) matches Some(q) ==> p <= q && marker_at(b, q),
    decreases b.len() - p,
{
    if !(p < 0 || p + 7 > b.len()) && !marker_at(b, p) {
        lemma_marker_from(b, p + 1);
    }
}

pub proof fn lemma_pam_pixels_len(data: Seq<u8>, wide: bool, m: u32, depth: int, color: int, n: int)
    requires
        0 <= n,
    ensures
        pam_pixels(data, wide, m, depth, color, n).len() == 4 * n,
    decreases n,
{
    if n > 0 {
        lemma_pam_pixels_len(data, wide, m, depth, color, n - 1);
    }
}

/// What a binary PAM decodes to: the RGBA8 samples, the width and the
/// height; or the message of the first fault.
pub open spec fn pam_decode(b: Seq<u8>) -> Result<(Seq<u8>, u32, u32), Seq<char>> {
    match marker_from(b, 0) {
        None => Err("PAM: missing ENDHDR"@),
        Some(pos) => {
            let head = b.take(pos);
            if !valid_utf8(head) {
                Err("PAM: non-utf8 header"@)
            } else {
                match pam_scan(tokens(decode_utf8(head)), 0, blank_header()) {
                    Err(e) => Err(e),
                    Ok(h) => {
                        if h.width == 0 || h.height == 0 || h.depth == 0 {
                            Err("PAM: incomplete header"@)
                        } else {
                            let m: u32 = if h.maxval == 0 {
                                1
                            } else {
                                h.maxval
                            };
                            let wide = m > 255;
                            let bps: int = if wide {
                                2
                            } else {
                                1
                            };
                            let data = b.skip(pos + 7);
                            let px = h.width * h.height;
                            if data.len() < px * h.depth * bps {
                                Err("PAM: truncated pixel data"@)
                            } else {
                                Ok(
                                    (
                                        pam_pixels(
                                            data,
                                            wide,
                                            m,
                                            h.depth as int,
                                            pam_color(h.tupltype, h.depth as int),
                                            px,
                                        ),
                                        h.width,
                                        h.height,
                                    ),
                                )
                            }
                        }
                    },
                }
            }
        },
    }
}

/// `std::str::from_utf8`: the text the bytes encode, exactly when they are
/// valid UTF-8.
#[verifier::external_body]
fn utf8_text(bytes: &[u8]) -> (r: Option<&str>)
    ensures
        r is Some <==> valid_utf8(bytes@),
        r matches Some(s) ==> encode_utf8(s@) == bytes@,
{
    std::str::from_utf8(bytes).ok()
}

/// The first position of the header terminator, if any.
fn find_endhdr(b: &[u8]) -> (r: Option<usize>)
    ensures
        match r {
            Some(p) => marker_from(b@, 0) == Some(p as int),
            None => marker_from(b@, 0) is None,
        },
{
    let n = b.len();
    let mut p: usize = 0;
    while 7 <= n - p
        invariant
            n == b@.len(),
            p <= n,
            marker_from(b@, 0) == marker_from(b@, p as int),
        decreases n - p,
    {
        if b[p] == 69 && b[p + 1] == 78 && b[p + 2] == 68 && b[p + 3] == 72 && b[p + 4] == 68 && b[p
            + 5] == 82 && b[p + 6] == 10 {
            assert(b@.subrange(p as int, p + 7) =~= endhdr());
            return Some(p);
        }
        assert(!marker_at(b@, p as int)) by {
            if marker_at(b@, p as int) {
                assert(b@.subrange(p as int, p + 7)[0] == b@[p as int]);
                assert(b@.subrange(p as int, p + 7)[1] == b@[p + 1]);
                assert(b@.subrange(p as int, p + 7)[2] == b@[p + 2]);
                assert(b@.subrange(p as int, p + 7)[3] == b@[p + 3]);
                assert(b@.subrange(p as int, p + 7)[4] == b@[p + 4]);
                assert(b@.subrange(p as int, p + 7)[5] == b@[p + 5]);
                assert(b@.subrange(p as int, p + 7)[6] == b@[p + 6]);
            }
        }
        p = p + 1;
    }
    None
}

/// The header fields read from `t`, with the index of the first
/// `TUPLTYPE` value in place of that value.
pub open spec fn scanned(t: Seq<Seq<char>>, w: u32, h: u32, d: usize, mv: u32, tt: Option<usize>) -> PamHeader {
    PamHeader {
        width: w,
        height: h,
        depth: d,
        maxval: mv,
        tupltype: match tt {
            Some(j) => Some(t[j as int]),
            None => None,
        },
    }
}

/// Reads the header words `t` as `pam_scan` does.
fn scan_pam_header(t: &Vec<Vec<char>>) -> (r: Result<(u32, u32, usize, u32, Option<usize>), &'static str>)
    ensures
        match r {
            Ok((w, h, d, mv, tt)) => {
                &&& tt matches Some(j) ==> j < t@.len()
                &&& pam_scan(views(t@), 0, blank_header()) == Ok::<PamHeader, Seq<char>>(scanned(views(t@), w, h, d, mv, tt))
            },
            Err(e) => pam_scan(views(t@), 0, blank_header()) == Err::<PamHeader, Seq<char>>(e@),
        },
{
    let ghost tv = views(t@);
    let n = t.len();
    let mut w: u32 = 0;
    let mut h: u32 = 0;
    let mut d: usize = 0;
    let mut mv: u32 = 0;
    let mut tt: Option<usize> = None;
    let mut i: usize = 0;
    assert(scanned(tv, 0, 0, 0, 0, None) == blank_header());
    while i < n
        invariant
            n == t@.len(),
            tv == views(t@),
            tv.len() == n,
            i <= n,
            tt matches Some(j) ==> j < n,
            pam_scan(tv, 0, blank_header()) == pam_scan(tv, i as int, scanned(tv, w, h, d, mv, tt)),
        decreases n - i,
    {
        let ghost cur = scanned(tv, w, h, d, mv, tt);
        assert(tv[i as int] == t@[i as int]@);
        let k = &t[i];
        if is_word(k, "WIDTH") {
            if i + 1 < n {
                assert(tv[i + 1] == t@[i + 1]@);
                match parse_u32_chars(&t[i + 1]) {
                    Some(v) => {
                        assert(scanned(tv, v, h, d, mv, tt) == PamHeader { width: v, ..cur });
                        w = v;
                        i = i + 2;
                    },
                    None => {
                        return Err("PAM: WIDTH");
                    },
                }
            } else {
                return Err("PAM: WIDTH");
            }
        } else if is_word(k, "HEIGHT") {
            if i + 1 < n {
                assert(tv[i + 1] == t@[i + 1]@);
                match parse_u32_chars(&t[i + 1]) {
                    Some(v) => {
                        assert(scanned(tv, w, v, d, mv, tt) == PamHeader { height: v, ..cur });
                        h = v;
                        i = i + 2;
                    },
                    None => {
                        return Err("PAM: HEIGHT");
                    },
                }
            } else {
                return Err("PAM: HEIGHT");
            }
        } else if is_word(k, "DEPTH") {
            if i + 1 < n {
                assert(tv[i + 1] == t@[i + 1]@);
                match parse_usize_chars(&t[i + 1]) {
                    Some(v) => {
                        assert(scanned(tv, w, h, v, mv, tt) == PamHeader { depth: v, ..cur });
                        d = v;
                        i = i + 2;
                    },
                    None => {
                        return Err("PAM: DEPTH");
                    },
                }
            } else {
                return Err("PAM: DEPTH");
            }
        } else if is_word(k, "MAXVAL") {
            if i + 1 < n {
                assert(tv[i + 1] == t@[i + 1]@);
                match parse_u32_chars(&t[i + 1]) {
                    Some(v) => {
                        assert(scanned(tv, w, h, d, v, tt) == PamHeader { maxval: v, ..cur });
                        mv = v;
                        i = i + 2;
                    },
                    None => {
                        return Err("PAM: MAXVAL");
                    },
                }
            } else {
                return Err("PAM: MAXVAL");
            }
        } else if is_word(k, "TUPLTYPE") {
            if i + 1 < n {
                if tt.is_none() {
                    tt = Some(i + 1);
                }
                assert(scanned(tv, w, h, d, mv, tt) == PamHeader {
                    tupltype: if cur.tupltype is None {
                        Some(tv[i + 1])
                    } else {
                        cur.tupltype
                    },
                    ..cur
                });
                i = i + 2;
            } else {
                i = n;
            }
        } else {
            i = i + 1;
        }
    }
    Ok((w, h, d, mv, tt))
}

/// How many leading samples are colour, as `pam_color` says.
fn color_count(t: &Vec<Vec<char>>, tt: Option<usize>, depth: usize) -> (c: usize)
    requires
        tt matches Some(j) ==> j < t@.len(),
    ensures
        c == pam_color(scanned(views(t@), 0, 0, 0, 0, tt).tupltype, depth as int),
{
    let capped: usize = if depth < 4 {
        depth
    } else {
        4
    };
    let named: usize = match tt {
        Some(j) => {
            assert(views(t@)[j as int] == t@[j as int]@);
            if is_word(&t[j], "GRAYSCALE") {
                1
            } else if is_word(&t[j], "GRAYSCALE_ALPHA") {
                2
            } else if is_word(&t[j], "RGB") {
                3
            } else if is_word(&t[j], "RGB_ALPHA") {
                4
            } else {
                capped
            }
        },
        None => capped,
    };
    if named < depth {
        named
    } else {
        depth
    }
}

/// Sample `i`, as `pam_sample` says.
fn sample_at(data: &[u8], wide: bool, m: u32, i: usize) -> (r: u8)
    requires
        1 <= m,
        wide ==> 2 * i + 1 < data@.len(),
        !wide ==> i < data@.len(),
    ensures
        r == pam_sample(data@, wide, m, i as int),
{
    let len = data.len();
    let v: u32 = if wide {
        assert(2 * i + 1 < len);
        (data[2 * i] as u32) * 256 + data[2 * i + 1] as u32
    } else {
        data[i] as u32
    };
    assert(v <= 65535);
    ((v * 255) / m) as u8
}

/// Parses a binary PAM (P7), as the decoder writes it, into RGBA8.
///
/// The header ends at the first `ENDHDR` line and must be UTF-8; `WIDTH`,
/// `HEIGHT`, `DEPTH` and `MAXVAL` are read from its words, and the first
/// `TUPLTYPE` names the colour layout (grey, grey and alpha, RGB, RGBA);
/// samples past those colour channels in each pixel are skipped. A
/// `MAXVAL` over 255 means two big-endian bytes a sample. Samples are
/// scaled to 8 bits by `v * 255 / MAXVAL`.
pub fn parse_pam(b: &[u8]) -> (r: Result<(Vec<u8>, u32, u32), String>)
    ensures
        match r {
            Ok((v, w, h)) => pam_decode(b@) == Ok::<(Seq<u8>, u32, u32), Seq<char>>((v@, w, h)),
            Err(e) => pam_decode(b@) == Err::<(Seq<u8>, u32, u32), Seq<char>>(e@),
        },
        r matches Ok((v, w, h)) ==> v@.len() == 4 * (w * h),
{
    let pos = match find_endhdr(b) {
        Some(p) => p,
        None => {
            return Err("PAM: missing ENDHDR".to_owned());
        },
    };
    proof {
        lemma_marker_from(b@, 0);
    }
    let (head, rest) = b.split_at(pos);
    assert(head@ == b@.take(pos as int));
    let text = match utf8_text(head) {
        Some(s) => s,
        None => {
            return Err("PAM: non-utf8 header".to_owned());
        },
    };
    let chars = str_chars(text);
    proof {
        encode_utf8_decode_utf8(text@);
    }
    assert(chars@ == decode_utf8(b@.take(pos as int)));
    let t = tokenize(&chars);
    let (w, h, depth, maxval, tt) = match scan_pam_header(&t) {
        Ok(x) => x,
        Err(e) => {
            return Err(e.to_owned());
        },
    };
    let ghost hd = scanned(views(t@), w, h, depth, maxval, tt);
    if w == 0 || h == 0 || depth == 0 {
        return Err("PAM: incomplete header".to_owned());
    }
    let color = color_count(&t, tt, depth);
    assert(color == pam_color(hd.tupltype, depth as int));
    let m: u32 = if maxval == 0 {
        1
    } else {
        maxval
    };
    let wide = m > 255;
    let bps: usize = if wide {
        2
    } else {
        1
    };
    let (_, data) = rest.split_at(7);
    assert(data@ == b@.skip(pos + 7));
    let dn = data.len();
    assert((w as u64) * (h as u64) <= u64::MAX) by (nonlinear_arith)
        requires
            w <= u32::MAX,
            h <= u32::MAX,
    ;
    let px: u64 = (w as u64) * (h as u64);
    let per: u128 = (depth as u128) * (bps as u128);
    let need = (px as u128).checked_mul(per);
    let enough = match need {
        Some(k) => k <= data.len() as u128,
        None => false,
    };
    proof {
        assert(px * per == w * h * depth * bps) by (nonlinear_arith)
            requires
                px == w * h,
                per == depth * bps,
        ;
    }
    if !enough {
        assert(data@.len() < px * per);
        return Err("PAM: truncated pixel data".to_owned());
    }
    proof {
        assert(1 <= depth * bps) by (nonlinear_arith)
            requires
                1 <= depth,
                1 <= bps,
        ;
        assert(px <= px * (depth * bps)) by (nonlinear_arith)
            requires
                1 <= depth * bps,
        ;
    }
    let pxs = px as usize;
    let mut out: Vec<u8> = Vec::new();
    let mut p: usize = 0;
    let mut base: usize = 0;
    while p < pxs
        invariant
            dn == data@.len(),
            pxs == px,
            p <= pxs,
            base == p * depth,
            1 <= depth,
            1 <= color <= 4,
            color <= depth,
            1 <= m,
            wide == (m > 255),
            bps == (if wide {
                2int
            } else {
                1int
            }),
            px * depth * bps <= data@.len(),
            out@ == pam_pixels(data@, wide, m, depth as int, color as int, p as int),
        decreases pxs - p,
    {
        proof {
            assert((p + 1) * depth == p * depth + depth) by (nonlinear_arith);
            assert((p + 1) * depth <= px * depth) by (nonlinear_arith)
                requires
                    p + 1 <= px,
            ;
            assert(px * depth <= px * depth * bps) by (nonlinear_arith)
                requires
                    1 <= bps,
            ;
        }
        let ghost before = out@;
        let s0 = sample_at(data, wide, m, base);
        if color == 1 {
            out.push(s0);
            out.push(s0);
            out.push(s0);
            out.push(255);
        } else if color == 2 {
            let s1 = sample_at(data, wide, m, base + 1);
            out.push(s0);
            out.push(s0);
            out.push(s0);
            out.push(s1);
        } else if color == 3 {
            let s1 = sample_at(data, wide, m, base + 1);
            let s2 = sample_at(data, wide, m, base + 2);
            out.push(s0);
            out.push(s1);
            out.push(s2);
            out.push(255);
        } else {
            let s1 = sample_at(data, wide, m, base + 1);
            let s2 = sample_at(data, wide, m, base + 2);
            let s3 = sample_at(data, wide, m, base + 3);
            out.push(s0);
            out.push(s1);
            out.push(s2);
            out.push(s3);
        }
        assert(out@ =~= before + pam_pixel(data@, wide, m, depth as int, color as int, p as int));
        base = base + depth;
        p = p + 1;
    }
    proof {
        lemma_pam_pixels_len(data@, wide, m, depth as int, color as int, px as int);
    }
    Ok((out, w, h))
}


// ── Fit to a longest edge ───────────────────────────────────────────────────

/// What `image::imageops::resize` makes of the RGBA8 image of `width` ×
/// `height` whose samples `pixels` starts with: the samples of a
/// `new_width` × `new_height` image, resampled with the Lanczos3 filter
/// when `lanczos` holds and with the Triangle filter otherwise.
pub uninterp spec fn resampled(
    pixels: Seq<u8>,
    width: u32,
    height: u32,
    new_width: u32,
    new_height: u32,
    lanczos: bool,
) -> Seq<u8>;

/// `image::imageops::resize` on the image `RgbaImage::from_raw` makes of
/// `rgba`. `from_raw` refuses exactly a buffer shorter than
/// `4 * width * height` samples; `resize` returns a new buffer of
/// `new_width * new_height` pixels of four samples, and panics when its
/// buffers (`4 * width * new_height` samples of `f32`, then the output)
/// cannot be had, which the `requires` leaves out. Which samples come out is
/// named by `resampled`, not stated.
#[verifier::external_body]
fn resize_rgba(
    rgba: Vec<u8>,
    width: u32,
    height: u32,
    new_width: u32,
    new_height: u32,
    lanczos: bool,
) -> (r: Option<Vec<u8>>)
    requires
        16 * (width * new_height) <= isize::MAX,
        4 * (new_width * new_height) <= isize::MAX,
    ensures
        r is Some <==> 4 * (width * height) <= rgba@.len(),
        r matches Some(v) ==> v@ == resampled(rgba@, width, height, new_width, new_height, lanczos),
        r matches Some(v) ==> v@.len() == 4 * (new_width * new_height),
{
    let filter = if lanczos {
        FilterType::Lanczos3
    } else {
        FilterType::Triangle
    };
    match image::RgbaImage::from_raw(width, height, rgba) {
        Some(img) => Some(image::imageops::resize(&img, new_width, new_height, filter).into_raw()),
        None => None,
    }
}

pub open spec fn longest(w: u32, h: u32) -> u32 {
    if w >= h {
        w
    } else {
        h
    }
}

/// Whether an image of `w` × `h` keeps its size for `max_dim`: 0 asks for
/// the native size, and an image whose longest edge is `max_dim` already
/// fits.
pub open spec fn keeps_size(w: u32, h: u32, max_dim: u32) -> bool {
    max_dim == 0 || longest(w, h) == max_dim
}

/// The edge `e` scaled by `max_dim / l`, rounded down, and at least 1.
pub open spec fn scaled_edge(e: u32, l: u32, max_dim: u32) -> u32 {
    let s = e * max_dim / (l as int);
    if s < 1 {
        1
    } else {
        s as u32
    }
}

/// The size an image of `w` × `h` is fitted to when it does not keep its
/// size: its longest edge becomes `max_dim`.
pub open spec fn fitted(w: u32, h: u32, max_dim: u32) -> (u32, u32) {
    let l = longest(w, h);
    (scaled_edge(w, l, max_dim), scaled_edge(h, l, max_dim))
}

/// Whether the resampler can work on an image of `w` × `h` fitted to
/// `max_dim`: its buffers must be addressable.
pub open spec fn fit_is_addressable(w: u32, h: u32, max_dim: u32) -> bool {
    keeps_size(w, h, max_dim) || {
        let (ow, oh) = fitted(w, h, max_dim);
        16 * (w * oh) <= isize::MAX && 4 * (ow * oh) <= isize::MAX
    }
}

/// `e * max_dim / l`, rounded down and at least 1, for `e <= l`.
fn scale_edge(e: u32, l: u32, max_dim: u32) -> (r: u32)
    requires
        0 < l,
        e <= l,
    ensures
        r == scaled_edge(e, l, max_dim),
        1 <= r <= max_dim || (max_dim == 0 && r == 1),
{
    proof {
        assert(e * max_dim <= l * max_dim) by (nonlinear_arith)
            requires
                e <= l,
                0 <= max_dim,
        ;
        assert(e * max_dim <= u64::MAX) by (nonlinear_arith)
            requires
                e <= u32::MAX,
                max_dim <= u32::MAX,
        ;
        assert(e * max_dim / (l as int) <= max_dim) by (nonlinear_arith)
            requires
                e * max_dim <= l * max_dim,
                0 < l,
        ;
    }
    let s: u64 = (e as u64) * (max_dim as u64) / (l as u64);
    if s < 1 {
        1
    } else {
        s as u32
    }
}

/// Whether `scale_to_max_dim` can fit an image of `w` × `h` to `max_dim`
/// (the resampler's buffers must be addressable).
pub fn can_fit(w: u32, h: u32, max_dim: u32) -> (r: bool)
    requires
        max_dim == 0 || longest(w, h) > 0,
    ensures
        r == fit_is_addressable(w, h, max_dim),
{
    let l = if w >= h {
        w
    } else {
        h
    };
    if max_dim == 0 || l == max_dim {
        return true;
    }
    let ow = scale_edge(w, l, max_dim);
    let oh = scale_edge(h, l, max_dim);
    proof {
        assert((w as u128) * (oh as u128) <= 0xffff_ffff_ffff_ffff_ffff) by (nonlinear_arith)
            requires
                w <= u32::MAX,
                oh <= u32::MAX,
        ;
        assert((ow as u128) * (oh as u128) <= 0xffff_ffff_ffff_ffff_ffff) by (nonlinear_arith)
            requires
                ow <= u32::MAX,
                oh <= u32::MAX,
        ;
    }
    let a: u128 = 16 * ((w as u128) * (oh as u128));
    let b: u128 = 4 * ((ow as u128) * (oh as u128));
    a <= isize::MAX as u128 && b <= isize::MAX as u128
}

/// The part of decoding that fits the decoded RGBA8 image of `w` × `h` to
/// `max_dim`: 0 keeps the native size, and so does an image whose longest
/// edge is `max_dim` already. Otherwise the longest edge is scaled to
/// `max_dim` (each edge rounded down, at least 1), with Lanczos3 when an
/// edge shrinks and Triangle when none does; a buffer too short for
/// `w` × `h` is refused.
pub fn scale_to_max_dim(rgba: Vec<u8>, w: u32, h: u32, max_dim: u32) -> (r: Result<
    (Vec<u8>, u32, u32),
    String,
>)
    requires
        max_dim == 0 || longest(w, h) > 0,
        fit_is_addressable(w, h, max_dim),
    ensures
        keeps_size(w, h, max_dim) ==> (r matches Ok((v, rw, rh)) && v@ == rgba@ && rw == w && rh
            == h),
        !keeps_size(w, h, max_dim) ==> match r {
            Ok((v, rw, rh)) => {
                &&& 4 * (w * h) <= rgba@.len()
                &&& (rw, rh) == fitted(w, h, max_dim)
                &&& longest(rw, rh) == max_dim
                &&& v@ == resampled(rgba@, w, h, rw, rh, rw < w || rh < h)
                &&& v@.len() == 4 * (rw * rh)
            },
            Err(e) => rgba@.len() < 4 * (w * h) && e@ == "rgba buffer shape mismatch"@,
        },
{
    if max_dim == 0 {
        return Ok((rgba, w, h));
    }
    let l = if w >= h {
        w
    } else {
        h
    };
    if l == max_dim {
        return Ok((rgba, w, h));
    }
    let ow = scale_edge(w, l, max_dim);
    let oh = scale_edge(h, l, max_dim);
    proof {
        assert((l as int) * max_dim / (l as int) == max_dim) by (nonlinear_arith)
            requires
                0 < l,
        ;
    }
    let lanczos = ow < w || oh < h;
    match resize_rgba(rgba, w, h, ow, oh, lanczos) {
        Some(v) => Ok((v, ow, oh)),
        None => Err("rgba buffer shape mismatch".to_owned()),
    }
}

} // verus!
