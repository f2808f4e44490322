//! Decoding H.264 (with the `openh264` crate) to RGB frames: the conversion of the
//! decoder's YUV 4:2:0 planes to RGB.
use crate::text::{decimal, push_str, u64_to_decimal};
use crate::wire::push_all;
use openh264::formats::YUVSource;
use vstd::prelude::*;

verus! {

/// A decoded frame: RGB bytes, row by row, and its size in pixels.
#[derive(Clone, Debug)]
pub struct DecodedFrame {
    pub data: Vec<u8>,
    pub width: u32,
    pub height: u32,
}

/// `x` clamped to a byte.
pub open spec fn clamp_byte(x: int) -> u8 {
    if x < 0 {
        0
    } else if x > 255 {
        255
    } else {
        x as u8
    }
}

/// The RGB bytes of a pixel from its luma and the chroma it shares, in 8-bit fixed point:
/// R = Y + 1.402 V, G = Y - 0.344 U - 0.714 V, B = Y + 1.772 U (U and V centered on 128),
/// each rounded down and clamped.
pub open spec fn yuv_pixel(yv: u8, uv: u8, vv: u8) -> Seq<u8> {
    let u = uv - 128;
    let v = vv - 128;
    let ys = yv * 256;
    seq![
        clamp_byte((ys + 179 * v) / 256),
        clamp_byte((ys - (44 * u + 91 * v)) / 256),
        clamp_byte((ys + 227 * u) / 256),
    ]
}

/// Where byte `k` of the pixel at `row`, `col` goes in RGB rows `w` pixels wide.
pub open spec fn pixel_index(w: int, row: int, col: int, k: int) -> int {
    (row * w + col) * 3 + k
}

/// Whether planes with these lengths and strides hold every sample of a `w` by `h`
/// frame: the luma of each pixel, and one chroma sample for each 2 by 2 block.
pub open spec fn planes_fit(
    y_len: int,
    u_len: int,
    v_len: int,
    w: int,
    h: int,
    y_stride: int,
    u_stride: int,
    v_stride: int,
) -> bool {
    w > 0 && h > 0 ==> {
        &&& (h - 1) * y_stride + w <= y_len
        &&& ((h - 1) / 2) * u_stride + (w - 1) / 2 < u_len
        &&& ((h - 1) / 2) * v_stride + (w - 1) / 2 < v_len
    }
}

/// Whether the row offsets of an `h`-row frame fit in a `usize`.
pub open spec fn row_offsets_fit(h: int, y_stride: int, u_stride: int, v_stride: int) -> bool {
    h > 0 ==> {
        &&& (h - 1) * y_stride <= usize::MAX
        &&& ((h - 1) / 2) * u_stride <= usize::MAX
        &&& ((h - 1) / 2) * v_stride <= usize::MAX
    }
}

/// The RGB bytes of the pixel at `row`, `col`.
pub open spec fn rgb_of(y: Seq<u8>, u: Seq<u8>, v: Seq<u8>, ys: int, us: int, vs: int, row: int, col: int) -> Seq<u8> {
    yuv_pixel(y[row * ys + col], u[(row / 2) * us + col / 2], v[(row / 2) * vs + col / 2])
}

/// Whether `out` holds the converted pixels of every row before `row_lim`, and of the
/// first `col_lim` pixels of row `row_lim`.
pub open spec fn converted(
    out: Seq<u8>,
    y: Seq<u8>,
    u: Seq<u8>,
    v: Seq<u8>,
    w: int,
    ys: int,
    us: int,
    vs: int,
    row_lim: int,
    col_lim: int,
) -> bool {
    forall|row: int, col: int, k: int|
        0 <= k < 3 && 0 <= col < w && 0 <= row && (row < row_lim || (row == row_lim && col < col_lim))
            ==> #[trigger] out[pixel_index(w, row, col, k)] == rgb_of(y, u, v, ys, us, vs, row, col)[k]
}

/// A byte of the fixed-point product `sum` / 256, rounded down and clamped.
fn scaled_byte(sum: i32) -> (b: u8)
    requires
        -0x100_0000 < sum < 0x100_0000,
    ensures
        b == clamp_byte(sum / 256),
{
    if sum < 0 {
        0
    } else {
        let t = sum as u32;
        let q = t >> 8u32;
        assert(q == t / 256) by (bit_vector)
            requires
                q == t >> 8u32,
        ;
        if q > 255 {
            255
        } else {
            q as u8
        }
    }
}

/// Writes the RGB bytes of the pixel with luma `yv` and chroma `uv`, `vv` at `idx`.
fn put_pixel(rgb_out: &mut [u8], idx: usize, yv: u8, uv: u8, vv: u8)
    requires
        idx + 3 <= old(rgb_out)@.len(),
    ensures
        final(rgb_out)@ == old(rgb_out)@.update(idx as int, yuv_pixel(yv, uv, vv)[0]).update(
            idx + 1,
            yuv_pixel(yv, uv, vv)[1],
        ).update(idx + 2, yuv_pixel(yv, uv, vv)[2]),
{
    let y_val = yv as i32;
    let u_val = (uv as i32) - 128;
    let v_val = (vv as i32) - 128;
    let rv = 179 * v_val;
    let guv = 44 * u_val + 91 * v_val;
    let bu = 227 * u_val;
    let y_scaled = y_val * 256;
    let r = scaled_byte(y_scaled + rv);
    let g = scaled_byte(y_scaled - guv);
    let b = scaled_byte(y_scaled + bu);
    rgb_out[idx] = r;
    rgb_out[idx + 1] = g;
    rgb_out[idx + 2] = b;
}

/// Earlier pixels come earlier in the rows.
proof fn lemma_pixel_order(w: int, r: int, c: int, row: int, x: int)
    requires
        0 <= r,
        0 <= c < w,
        0 <= x <= w,
        r < row || (r == row && c < x),
    ensures
        pixel_index(w, r, c, 2) < pixel_index(w, row, x, 0),
{
    assert(r * w + c < row * w + x) by (nonlinear_arith)
        requires
            0 <= r,
            0 <= c < w,
            0 <= x <= w,
            r < row || (r == row && c < x),
    ;
}

/// The bytes of the pixels of a `w` by `h` frame lie below `h * w * 3`.
proof fn lemma_pixel_bound(w: int, h: int, row: int, col: int, k: int)
    requires
        0 <= row < h,
        0 <= col < w,
        0 <= k < 3,
    ensures
        0 <= pixel_index(w, row, col, k) < h * w * 3,
        pixel_index(w, row, col, k) == row * w * 3 + col * 3 + k,
{
    assert(0 <= row * w + col < h * w && (row * w + col) * 3 + k < h * w * 3 && (row * w + col)
        * 3 + k == row * w * 3 + col * 3 + k) by (nonlinear_arith)
        requires
            0 <= row < h,
            0 <= col < w,
            0 <= k < 3,
    ;
}

/// Writing the pixel at `row`, `col` extends what is converted by that pixel and leaves
/// the bytes after it as they were.
proof fn lemma_convert_step(
    before: Seq<u8>,
    after: Seq<u8>,
    orig: Seq<u8>,
    y: Seq<u8>,
    u: Seq<u8>,
    v: Seq<u8>,
    w: int,
    h: int,
    ys: int,
    us: int,
    vs: int,
    row: int,
    col: int,
)
    requires
        0 <= row < h,
        0 <= col < w,
        h * w * 3 <= before.len(),
        converted(before, y, u, v, w, ys, us, vs, row, col),
        forall|i: int| row * w * 3 + col * 3 <= i < before.len() ==> before[i] == orig[i],
        after == before.update(row * w * 3 + col * 3, rgb_of(y, u, v, ys, us, vs, row, col)[0]).update(
            row * w * 3 + col * 3 + 1,
            rgb_of(y, u, v, ys, us, vs, row, col)[1],
        ).update(row * w * 3 + col * 3 + 2, rgb_of(y, u, v, ys, us, vs, row, col)[2]),
    ensures
        converted(after, y, u, v, w, ys, us, vs, row, col + 1),
        forall|i: int| row * w * 3 + (col + 1) * 3 <= i < after.len() ==> after[i] == orig[i],
        after.len() == before.len(),
{
    lemma_pixel_bound(w, h, row, col, 0);
    assert forall|r: int, c: int, k: int|
        0 <= k < 3 && 0 <= c < w && 0 <= r && (r < row || (r == row && c < col + 1))
            implies #[trigger] after[pixel_index(w, r, c, k)] == rgb_of(y, u, v, ys, us, vs, r, c)[k] by {
        if r == row && c == col {
            lemma_pixel_bound(w, h, r, c, k);
        } else {
            lemma_pixel_order(w, r, c, row, col);
        }
    }
}

/// Converts YUV 4:2:0 planes with the given strides to RGB rows `width` pixels wide in
/// `rgb_out` (see `yuv_pixel`); the bytes of `rgb_out` past the frame are left as they are.
pub fn yuv420_to_rgb_strided_reusable(
    y: &[u8],
    u: &[u8],
    v: &[u8],
    width: u32,
    height: u32,
    y_stride: usize,
    u_stride: usize,
    v_stride: usize,
    rgb_out: &mut [u8],
)
    requires
        planes_fit(y@.len() as int, u@.len() as int, v@.len() as int, width as int, height as int, y_stride as int, u_stride as int, v_stride as int),
        row_offsets_fit(height as int, y_stride as int, u_stride as int, v_stride as int),
        height * width * 3 <= old(rgb_out)@.len(),
    ensures
        final(rgb_out)@.len() == old(rgb_out)@.len(),
        converted(final(rgb_out)@, y@, u@, v@, width as int, y_stride as int, u_stride as int, v_stride as int, height as int, 0),
        forall|i: int| height * width * 3 <= i < old(rgb_out)@.len() ==> final(rgb_out)@[i] == old(rgb_out)@[i],
{
    let w = width as usize;
    let h = height as usize;
    let ghost old_out = rgb_out@;
    let ghost wi = w as int;
    let ghost ysi = y_stride as int;
    let ghost usi = u_stride as int;
    let ghost vsi = v_stride as int;
    let out_len = rgb_out.len();
    let y_len = y.len();
    let u_len = u.len();
    let v_len = v.len();
    let mut y_coord: usize = 0;
    assert(h * w * 3 == height * width * 3);
    while y_coord < h
        invariant
            w == width,
            h == height,
            wi == w as int,
            ysi == y_stride as int,
            usi == u_stride as int,
            vsi == v_stride as int,
            planes_fit(y@.len() as int, u@.len() as int, v@.len() as int, wi, h as int, ysi, usi, vsi),
            row_offsets_fit(h as int, ysi, usi, vsi),
            h * w * 3 <= rgb_out@.len(),
            rgb_out@.len() == old_out.len(),
            out_len == rgb_out@.len(),
            y_len == y@.len(),
            u_len == u@.len(),
            v_len == v@.len(),
            y_coord <= h,
            converted(rgb_out@, y@, u@, v@, wi, ysi, usi, vsi, y_coord as int, 0),
            forall|i: int| y_coord * w * 3 <= i < rgb_out@.len() ==> rgb_out@[i] == old_out[i],
        decreases h - y_coord,
    {
        proof {
            assert(y_coord * y_stride <= (h - 1) * y_stride) by (nonlinear_arith)
                requires
                    y_coord <= h - 1,
            ;
            assert((y_coord / 2) * u_stride <= ((h - 1) / 2) * u_stride) by (nonlinear_arith)
                requires
                    y_coord <= h - 1,
            ;
            assert((y_coord / 2) * v_stride <= ((h - 1) / 2) * v_stride) by (nonlinear_arith)
                requires
                    y_coord <= h - 1,
            ;
            assert(y_coord * w * 3 + w * 3 <= h * w * 3) by (nonlinear_arith)
                requires
                    y_coord < h,
            ;
            assert(y_coord * w <= h * w) by (nonlinear_arith)
                requires
                    y_coord < h,
            ;
        }
        let y_row = y_coord * y_stride;
        let half = y_coord >> 1;
        assert(half == y_coord / 2) by (bit_vector)
            requires
                half == y_coord >> 1,
        ;
        let u_row = half * u_stride;
        let v_row = half * v_stride;
        let out_row = y_coord * w * 3;
        let mut x: usize = 0;
        while x < w
            invariant
                w == width,
                h == height,
                wi == w as int,
                ysi == y_stride as int,
                usi == u_stride as int,
                vsi == v_stride as int,
                planes_fit(y@.len() as int, u@.len() as int, v@.len() as int, wi, h as int, ysi, usi, vsi),
                h * w * 3 <= rgb_out@.len(),
                rgb_out@.len() == old_out.len(),
                out_len == rgb_out@.len(),
                y_len == y@.len(),
                u_len == u@.len(),
                v_len == v@.len(),
                y_coord < h,
                x <= w,
                y_row == y_coord * y_stride,
                u_row == (y_coord / 2) * u_stride,
                v_row == (y_coord / 2) * v_stride,
                out_row == y_coord * w * 3,
                w > 0 ==> y_row + w <= y@.len(),
                w > 0 ==> u_row + (w - 1) / 2 < u@.len(),
                w > 0 ==> v_row + (w - 1) / 2 < v@.len(),
                out_row + w * 3 <= h * w * 3,
                converted(rgb_out@, y@, u@, v@, wi, ysi, usi, vsi, y_coord as int, x as int),
                forall|i: int| out_row + x * 3 <= i < rgb_out@.len() ==> rgb_out@[i] == old_out[i],
            decreases w - x,
        {
            let uv_index = x >> 1;
            assert(uv_index == x / 2) by (bit_vector)
                requires
                    uv_index == x >> 1,
            ;
            let idx = out_row + x * 3;
            let ghost before = rgb_out@;
            put_pixel(rgb_out, idx, y[y_row + x], u[u_row + uv_index], v[v_row + uv_index]);
            proof {
                lemma_convert_step(before, rgb_out@, old_out, y@, u@, v@, wi, h as int, ysi, usi, vsi, y_coord as int, x as int);
            }
            x += 1;
        }
        proof {
            assert(converted(rgb_out@, y@, u@, v@, wi, ysi, usi, vsi, y_coord + 1, 0)) by {
                assert forall|row: int, col: int, k: int|
                    0 <= k < 3 && 0 <= col < wi && 0 <= row && (row < y_coord + 1 || (row == y_coord + 1 && col < 0))
                        implies #[trigger] rgb_out@[pixel_index(wi, row, col, k)] == rgb_of(y@, u@, v@, ysi, usi, vsi, row, col)[k] by {
                }
            }
            assert(out_row + w * 3 == (y_coord + 1) * w * 3) by (nonlinear_arith)
                requires
                    out_row == y_coord * w * 3,
            ;
        }
        y_coord += 1;
    }
}

/// An H.264 decoder of the `openh264` crate.
#[verifier::external_type_specification]
#[verifier::external_body]
pub struct ExH264Decoder(openh264::decoder::Decoder);

/// An error of the `openh264` crate.
#[verifier::external_type_specification]
#[verifier::external_body]
pub struct ExH264Error(openh264::Error);

/// The picture a decoder handed out: its three planes, copied, and its size in pixels.
pub struct DecodedPlanes {
    pub y: Vec<u8>,
    pub u: Vec<u8>,
    pub v: Vec<u8>,
    pub width: usize,
    pub height: usize,
}

/// A decoder with default settings over the bundled OpenH264 library
/// (`openh264::decoder::Decoder::new`).
/// Trusted: nothing is stated of whether the library accepts the settings.
#[verifier::external_body]
fn new_decoder() -> Result<openh264::decoder::Decoder, openh264::Error> {
    openh264::decoder::Decoder::new()
}

/// Decodes `data` (`openh264::decoder::Decoder::decode`) and copies out the picture that
/// came of it, if any, with its size (`YUVSource::y`, `u`, `v`, `dimensions`).
/// Trusted: nothing is stated of the picture, which depends on all the data the decoder
/// was given before.
#[verifier::external_body]
fn decode_to_planes(decoder: &mut openh264::decoder::Decoder, data: &[u8]) -> Result<Option<DecodedPlanes>, openh264::Error> {
    match decoder.decode(data) {
        Ok(Some(yuv)) => {
            let (width, height) = yuv.dimensions();
            Ok(Some(DecodedPlanes { y: yuv.y().to_vec(), u: yuv.u().to_vec(), v: yuv.v().to_vec(), width, height }))
        },
        Ok(None) => Ok(None),
        Err(e) => Err(e),
    }
}

/// The text of an `openh264` error (its `Display`).
/// Trusted: nothing is stated of the text.
#[verifier::external_body]
fn h264_error_text(e: &openh264::Error) -> String {
    format!("{}", e)
}

/// The strides that planes of these lengths imply for a `w` by `h` frame: each plane's
/// length divided by its number of rows (`h` for luma, `h` halved rounding up for chroma),
/// or the row width in samples when there are no rows.
pub open spec fn plane_strides(y_len: int, u_len: int, v_len: int, w: int, h: int) -> (int, int, int) {
    let h2 = (h + 1) / 2;
    (
        if h > 0 { y_len / h } else { w },
        if h2 > 0 { u_len / h2 } else { (w + 1) / 2 },
        if h2 > 0 { v_len / h2 } else { (w + 1) / 2 },
    )
}

/// Whether decoded planes make an RGB frame: their implied strides reach every sample and
/// the frame's bytes can be counted in a `usize`.
pub open spec fn planes_usable(p: DecodedPlanes) -> bool {
    let w = (p.width as u32) as int;
    let h = (p.height as u32) as int;
    let s = plane_strides(p.y@.len() as int, p.u@.len() as int, p.v@.len() as int, w, h);
    &&& w * h * 3 <= usize::MAX
    &&& planes_fit(p.y@.len() as int, p.u@.len() as int, p.v@.len() as int, w, h, s.0, s.1, s.2)
    &&& row_offsets_fit(h, s.0, s.1, s.2)
}

/// The RGB frame of decoded planes, converted in `buffer` (which keeps its bytes from one
/// frame to the next) with the strides the planes imply; an error when the planes do not
/// reach every sample of the frame.
pub fn frame_from_planes(planes: &DecodedPlanes, buffer: &mut Vec<u8>) -> (r: Result<DecodedFrame, String>)
    ensures
        r is Ok <==> planes_usable(*planes),
        r is Err ==> final(buffer)@ == old(buffer)@,
        r matches Ok(f) ==> ({
            let w = planes.width as u32;
            let h = planes.height as u32;
            let s = plane_strides(planes.y@.len() as int, planes.u@.len() as int, planes.v@.len() as int, w as int, h as int);
            &&& f.width == w
            &&& f.height == h
            &&& f.data@.len() == w * h * 3
            &&& converted(f.data@, planes.y@, planes.u@, planes.v@, w as int, s.0, s.1, s.2, h as int, 0)
            &&& final(buffer)@ == f.data@
        }),
{
    let width = planes.width as u32;
    let height = planes.height as u32;
    let w = width as usize;
    let h = height as usize;
    let h2 = h / 2 + h % 2;
    assert(h2 == (h + 1) / 2);
    let y_len = planes.y.len();
    let u_len = planes.u.len();
    let v_len = planes.v.len();
    let y_stride = if h > 0 { y_len / h } else { w };
    let u_stride = if h2 > 0 { u_len / h2 } else { w / 2 + w % 2 };
    let v_stride = if h2 > 0 { v_len / h2 } else { w / 2 + w % 2 };
    let ghost s = plane_strides(y_len as int, u_len as int, v_len as int, w as int, h as int);
    assert(s == (y_stride as int, u_stride as int, v_stride as int));
    let bad = Err(String::from_str("decoded planes do not cover the frame"));
    let needed = match w.checked_mul(h) {
        Some(wh) => match wh.checked_mul(3) {
            Some(n) => n,
            None => return bad,
        },
        None => return bad,
    };
    assert(needed == w * h * 3) by (nonlinear_arith)
        requires
            needed == (w * h) * 3,
    ;
    let hm1 = if h > 0 { h - 1 } else { 0 };
    let ch = hm1 / 2;
    let (yo, uo, vo) = match (hm1.checked_mul(y_stride), ch.checked_mul(u_stride), ch.checked_mul(v_stride)) {
        (Some(a), Some(b), Some(c)) => (a, b, c),
        _ => {
            assert(!row_offsets_fit(h as int, s.0, s.1, s.2));
            return bad;
        },
    };
    if w > 0 && h > 0 {
        let half = (w - 1) / 2;
        if !(yo <= y_len && w <= y_len - yo && uo < u_len && half < u_len - uo && vo < v_len && half < v_len - vo) {
            return bad;
        }
    }
    assert(planes_usable(*planes));
    buffer.resize(needed, 0u8);
    yuv420_to_rgb_strided_reusable(
        planes.y.as_slice(),
        planes.u.as_slice(),
        planes.v.as_slice(),
        width,
        height,
        y_stride,
        u_stride,
        v_stride,
        buffer.as_mut_slice(),
    );
    let mut data: Vec<u8> = Vec::new();
    push_all(&mut data, buffer.as_slice());
    assert(data@ =~= buffer@);
    Ok(DecodedFrame { data, width, height })
}

/// An H.264 decoder that turns each decoded picture into an RGB frame.
pub struct H264Decoder {
    decoder: openh264::decoder::Decoder,
    rgb_buffer: Vec<u8>,
}

impl H264Decoder {
    /// The RGB bytes of the last frame made.
    pub closed spec fn last_rgb(&self) -> Seq<u8> {
        self.rgb_buffer@
    }

    /// A decoder over the bundled OpenH264 library.
    pub fn new() -> (r: Result<Self, String>)
        ensures
            r matches Ok(d) ==> d.last_rgb().len() == 0,
    {
        match new_decoder() {
            Ok(decoder) => Ok(H264Decoder { decoder, rgb_buffer: Vec::new() }),
            Err(e) => Err(h264_error_text(&e)),
        }
    }

    /// Decodes `data` and gives the RGB frame of the picture that came of it (see
    /// `frame_from_planes`); an error when the decoder refuses the data, gives no picture,
    /// or gives planes that do not cover the frame.
    pub fn decode(&mut self, data: &[u8]) -> (r: Result<DecodedFrame, String>)
        ensures
            r matches Ok(f) ==> f.data@.len() == f.width * f.height * 3 && final(self).last_rgb() == f.data@,
    {
        match decode_to_planes(&mut self.decoder, data) {
            Err(e) => Err(h264_error_text(&e)),
            Ok(None) => Err(String::from_str("could not decode the H.264 frame")),
            Ok(Some(planes)) => frame_from_planes(&planes, &mut self.rgb_buffer),
        }
    }
}

/// The message for a frame whose size is not the encoder's.
pub open spec fn wrong_dimensions_message(enc_w: u32, enc_h: u32, width: u32, height: u32) -> Seq<char> {
    "Wrong dimensions: expected "@ + decimal(enc_w as nat) + "x"@ + decimal(enc_h as nat) + ", got "@
        + decimal(width as nat) + "x"@ + decimal(height as nat)
}

/// The message for RGB data whose length is not three bytes per pixel.
pub open spec fn wrong_buffer_message(expected: nat, got: nat) -> Seq<char> {
    "Wrong buffer size: expected "@ + decimal(expected) + ", got "@ + decimal(got)
}

/// Checks a frame handed to an encoder made for `enc_w` by `enc_h` pixels: its size must
/// be the encoder's, then its RGB data must hold three bytes per pixel.
pub fn check_encoder_input(enc_w: u32, enc_h: u32, width: u32, height: u32, rgb_len: usize) -> (r: Result<(), String>)
    requires
        width == enc_w && height == enc_h ==> width * height * 3 <= u32::MAX,
    ensures
        (width != enc_w || height != enc_h) ==> (r matches Err(m) && m@ == wrong_dimensions_message(enc_w, enc_h, width, height)),
        (width == enc_w && height == enc_h && rgb_len == width * height * 3) ==> r is Ok,
        (width == enc_w && height == enc_h && rgb_len != width * height * 3) ==> (r matches Err(m) && m@
            == wrong_buffer_message((width * height * 3) as nat, rgb_len as nat)),
{
    if width != enc_w || height != enc_h {
        let mut m = String::from_str("Wrong dimensions: expected ");
        let a = u64_to_decimal(enc_w as u64);
        push_str(&mut m, a.as_str());
        push_str(&mut m, "x");
        let b = u64_to_decimal(enc_h as u64);
        push_str(&mut m, b.as_str());
        push_str(&mut m, ", got ");
        let c = u64_to_decimal(width as u64);
        push_str(&mut m, c.as_str());
        push_str(&mut m, "x");
        let d = u64_to_decimal(height as u64);
        push_str(&mut m, d.as_str());
        return Err(m);
    }
    let expected = width * height * 3;
    if rgb_len as u64 != expected as u64 {
        let mut m = String::from_str("Wrong buffer size: expected ");
        let a = u64_to_decimal(expected as u64);
        push_str(&mut m, a.as_str());
        push_str(&mut m, ", got ");
        let b = u64_to_decimal(rgb_len as u64);
        push_str(&mut m, b.as_str());
        return Err(m);
    }
    Ok(())
}

} // verus!
