//! The volume OSD's geometry and pixels: DPI scaling, placement next to the
//! taskbar inside the work area, nearest-neighbour scaling, and premultiplied
//! alpha compositing.

use vstd::prelude::*;
use crate::text::{append_chars, chars_of, string_of};
use crate::text::{concat, decimal_nat, ends_with, ends_with_exec, format_u64, trim, trim_exec};

verus! {

pub const OSD_WIDTH: i32 = 244;

pub const OSD_HEIGHT: i32 = 56;

/// A rectangle in screen coordinates (right and bottom exclusive).
#[derive(Clone, Copy, Debug, PartialEq, Eq, Structural)]
pub struct Rect {
    pub left: i32,
    pub top: i32,
    pub right: i32,
    pub bottom: i32,
}

/// A screen point.
#[derive(Clone, Copy, Debug, PartialEq, Eq, Structural)]
pub struct Point {
    pub x: i32,
    pub y: i32,
}

/// Where the OSD's top-left corner goes.
#[derive(Clone, Copy, Debug, PartialEq, Eq, Structural)]
pub struct OsdPosition {
    pub x: i32,
    pub y: i32,
}

/// A failed OSD thread restarts only when a request arrived after it began.
pub fn should_retry_osd_thread(start_generation: u64, latest_generation: u64) -> (r: bool)
    ensures
        r == (latest_generation != start_generation),
{
    latest_generation != start_generation
}

/// Integer division rounding toward zero, as Rust's `/` on integers does.
pub open spec fn div_toward_zero(a: int, b: int) -> int {
    if a >= 0 {
        a / b
    } else {
        -((-a) / b)
    }
}

/// `value` device-independent pixels at `dpi`, rounded half up for positive
/// values.
pub open spec fn dpi_scaled(value: i32, dpi: u32) -> i32 {
    div_toward_zero(value * dpi + 48, 96) as i32
}

pub fn scale_for_dpi(value: i32, dpi: u32) -> (r: i32)
    ensures
        r == dpi_scaled(value, dpi),
{
    assert(i64::MIN + 48 <= value * dpi <= i64::MAX - 48) by (nonlinear_arith)
        requires
            i32::MIN <= value <= i32::MAX,
            0 <= dpi <= u32::MAX,
    ;
    let wide = value as i64 * dpi as i64 + 48;
    (wide / 96) as i32
}

pub open spec fn in_i32(v: int) -> bool {
    i32::MIN <= v <= i32::MAX
}

pub open spec fn max_int(a: int, b: int) -> int {
    if a >= b {
        a
    } else {
        b
    }
}

pub open spec fn clamp_int(v: int, lo: int, hi: int) -> int {
    if v < lo {
        lo
    } else if v > hi {
        hi
    } else {
        v
    }
}

/// The inputs for which every step of the placement stays within `i32`.
pub open spec fn osd_fits(work: Rect, point: Point, width: i32, height: i32, dpi: u32) -> bool {
    let margin = dpi_scaled(12, dpi) as int;
    let offset = dpi_scaled(16, dpi) as int;
    &&& in_i32(work.left + margin)
    &&& in_i32(work.right - width)
    &&& in_i32(work.right - width - margin)
    &&& in_i32(work.top + margin)
    &&& in_i32(work.bottom - height)
    &&& in_i32(work.bottom - height - margin)
    &&& in_i32(work.left + offset)
    &&& in_i32(work.right - width - offset)
    &&& in_i32(work.top + offset)
    &&& in_i32(work.bottom - height - offset)
    &&& in_i32(point.y - div_toward_zero(height as int, 2))
    &&& in_i32(point.x - div_toward_zero(width as int, 2))
}

/// The OSD beside the taskbar edge the cursor is on (left, right, top, else
/// bottom), centred on the cursor along that edge, `offset` off the edge,
/// and kept `margin` inside the work area.
pub open spec fn osd_position(work: Rect, point: Point, width: i32, height: i32, dpi: u32) -> OsdPosition {
    let margin = dpi_scaled(12, dpi) as int;
    let offset = dpi_scaled(16, dpi) as int;
    let min_x = work.left + margin;
    let max_x = max_int(work.right - width - margin, min_x);
    let min_y = work.top + margin;
    let max_y = max_int(work.bottom - height - margin, min_y);
    let (x, y) = if point.x < work.left {
        (work.left + offset, point.y - div_toward_zero(height as int, 2))
    } else if point.x >= work.right {
        (work.right - width - offset, point.y - div_toward_zero(height as int, 2))
    } else if point.y < work.top {
        (point.x - div_toward_zero(width as int, 2), work.top + offset)
    } else {
        (point.x - div_toward_zero(width as int, 2), work.bottom - height - offset)
    };
    OsdPosition { x: clamp_int(x, min_x, max_x) as i32, y: clamp_int(y, min_y, max_y) as i32 }
}

pub fn position_in_work_area(work_area: Rect, point: Point, width: i32, height: i32, dpi: u32) -> (r:
    OsdPosition)
    requires
        osd_fits(work_area, point, width, height, dpi),
    ensures
        r == osd_position(work_area, point, width, height, dpi),
        work_area.left + dpi_scaled(12, dpi) <= r.x,
        work_area.top + dpi_scaled(12, dpi) <= r.y,
{
    let margin = scale_for_dpi(12, dpi);
    let offset = scale_for_dpi(16, dpi);
    let min_x = work_area.left + margin;
    let right_limit = work_area.right - width - margin;
    let max_x = if right_limit >= min_x {
        right_limit
    } else {
        min_x
    };
    let min_y = work_area.top + margin;
    let bottom_limit = work_area.bottom - height - margin;
    let max_y = if bottom_limit >= min_y {
        bottom_limit
    } else {
        min_y
    };
    let (x, y) = if point.x < work_area.left {
        (work_area.left + offset, point.y - height / 2)
    } else if point.x >= work_area.right {
        (work_area.right - width - offset, point.y - height / 2)
    } else if point.y < work_area.top {
        (point.x - width / 2, work_area.top + offset)
    } else {
        (point.x - width / 2, work_area.bottom - height - offset)
    };
    OsdPosition {
        x: if x < min_x {
            min_x
        } else if x > max_x {
            max_x
        } else {
            x
        },
        y: if y < min_y {
            min_y
        } else if y > max_y {
            max_y
        } else {
            y
        },
    }
}

/// `s` cut to `max_chars` characters, the last replaced by an ellipsis when
/// anything was cut.
pub open spec fn truncated(s: Seq<char>, max_chars: usize) -> Seq<char> {
    if s.len() <= max_chars {
        s
    } else {
        s.take(max_chars - 1) + seq!['…']
    }
}

pub fn truncate_string(s: &str, max_chars: usize) -> (r: String)
    requires
        max_chars > 0 || s@.len() == 0,
    ensures
        r@ == truncated(s@, max_chars),
{
    let cs = chars_of(s);
    if cs.len() <= max_chars {
        return string_of(cs.as_slice());
    }
    let mut out = crate::text::slice_to_vec(cs.as_slice(), 0, max_chars - 1);
    out.push('…');
    assert(out@ =~= cs@.take(max_chars - 1) + seq!['…']);
    string_of(out.as_slice())
}

/// ARGB from its four channels.
pub open spec fn argb(a: u32, r: u32, g: u32, b: u32) -> u32 {
    (a << 24) | (r << 16) | (g << 8) | b
}

pub open spec fn min255(v: int) -> int {
    if v < 255 {
        v
    } else {
        255
    }
}

/// A colour with straight alpha as premultiplied ARGB.
pub open spec fn premultiplied(r: u8, g: u8, b: u8, a: u8) -> u32 {
    argb(a as u32, (r * a / 255) as u32, (g * a / 255) as u32, (b * a / 255) as u32)
}

pub fn pack_premultiplied(r: u8, g: u8, b: u8, a: u8) -> (p: u32)
    ensures
        p == premultiplied(r, g, b, a),
{
    assert(r * a <= 255 * 255 && g * a <= 255 * 255 && b * a <= 255 * 255) by (nonlinear_arith)
        requires
            r <= 255,
            g <= 255,
            b <= 255,
            a <= 255,
    ;
    let pr = ((r as u32) * (a as u32)) / 255;
    let pg = ((g as u32) * (a as u32)) / 255;
    let pb = ((b as u32) * (a as u32)) / 255;
    ((a as u32) << 24) | (pr << 16) | (pg << 8) | pb
}

/// Porter-Duff "over": a straight-alpha source colour composited onto a
/// premultiplied destination pixel.
pub open spec fn blended(dst: u32, src: (u8, u8, u8), alpha: u8) -> u32 {
    if alpha == 0 {
        dst
    } else {
        let inv = 255 - alpha;
        let channel = |s: u8, d: u32| min255(s * alpha / 255 + d * inv / 255) as u32;
        argb(
            min255(alpha + ((dst >> 24) & 0xFF) * inv / 255) as u32,
            channel(src.0, (dst >> 16) & 0xFF),
            channel(src.1, (dst >> 8) & 0xFF),
            channel(src.2, dst & 0xFF),
        )
    }
}

proof fn lemma_channel_bounds(s: u32, a: u32, d: u32)
    requires
        s <= 255,
        a <= 255,
        d <= 255,
    ensures
        s * a <= 255 * 255,
        d * (255 - a) <= 255 * 255,
        s * a / 255 + d * (255 - a) / 255 <= 2 * 255,
{
    assert(s * a <= 255 * 255) by (nonlinear_arith)
        requires
            s <= 255,
            a <= 255,
    ;
    assert(d * (255 - a) <= 255 * 255) by (nonlinear_arith)
        requires
            d <= 255,
            a <= 255,
    ;
}

fn blend_channel(s: u32, d: u32, a: u32) -> (r: u32)
    requires
        s <= 255,
        d <= 255,
        a <= 255,
    ensures
        r == min255(s * a / 255 + d * (255 - a) / 255),
{
    proof {
        lemma_channel_bounds(s, a, d);
    }
    let v = (s * a) / 255 + (d * (255 - a)) / 255;
    if v < 255 {
        v
    } else {
        255
    }
}

pub fn blend_over(dst_premul: u32, src_rgb: (u8, u8, u8), src_alpha: u8) -> (r: u32)
    ensures
        r == blended(dst_premul, src_rgb, src_alpha),
{
    if src_alpha == 0 {
        return dst_premul;
    }
    let dst_a = (dst_premul >> 24) & 0xFF;
    let dst_pr = (dst_premul >> 16) & 0xFF;
    let dst_pg = (dst_premul >> 8) & 0xFF;
    let dst_pb = dst_premul & 0xFF;
    assert(dst_a <= 255 && dst_pr <= 255 && dst_pg <= 255 && dst_pb <= 255) by (bit_vector)
        requires
            dst_a == (dst_premul >> 24) & 0xFF,
            dst_pr == (dst_premul >> 16) & 0xFF,
            dst_pg == (dst_premul >> 8) & 0xFF,
            dst_pb == dst_premul & 0xFF,
    ;
    let sa = src_alpha as u32;
    let out_pr = blend_channel(src_rgb.0 as u32, dst_pr, sa);
    let out_pg = blend_channel(src_rgb.1 as u32, dst_pg, sa);
    let out_pb = blend_channel(src_rgb.2 as u32, dst_pb, sa);
    proof {
        lemma_channel_bounds(255, sa, dst_a);
    }
    let va = sa + (dst_a * (255 - sa)) / 255;
    let out_a = if va < 255 {
        va
    } else {
        255
    };
    (out_a << 24) | (out_pr << 16) | (out_pg << 8) | out_pb
}

/// Nearest-neighbour scaling: destination pixel `(x, y)` takes source pixel
/// `(x * sw / dw, y * sh / dh)`.
pub open spec fn scaled_pixel(source: Seq<u32>, sw: int, sh: int, dw: int, dh: int, x: int, y: int) -> u32 {
    source[(y * sh / dh) * sw + x * sw / dw]
}

proof fn lemma_source_index(sw: int, sh: int, dw: int, dh: int, x: int, y: int)
    requires
        sw > 0,
        sh > 0,
        dw > 0,
        dh > 0,
        0 <= x < dw,
        0 <= y < dh,
    ensures
        0 <= x * sw / dw < sw,
        0 <= y * sh / dh < sh,
        0 <= (y * sh / dh) * sw + x * sw / dw < sw * sh,
        x * sw <= dw * sw,
        y * sh <= dh * sh,
{
    assert(0 <= x * sw / dw < sw) by (nonlinear_arith)
        requires
            sw > 0,
            dw > 0,
            0 <= x < dw,
    ;
    assert(0 <= y * sh / dh < sh) by (nonlinear_arith)
        requires
            sh > 0,
            dh > 0,
            0 <= y < dh,
    ;
    let sy = y * sh / dh;
    let sx = x * sw / dw;
    assert(0 <= sy * sw + sx < sw * sh) by (nonlinear_arith)
        requires
            0 <= sy < sh,
            0 <= sx < sw,
            sw > 0,
    ;
    assert(x * sw <= dw * sw) by (nonlinear_arith)
        requires
            0 <= x < dw,
            sw > 0,
    ;
    assert(y * sh <= dh * sh) by (nonlinear_arith)
        requires
            0 <= y < dh,
            sh > 0,
    ;
}

pub fn scale_pixels(
    source: &[u32],
    source_width: i32,
    source_height: i32,
    destination: &mut [u32],
    destination_width: i32,
    destination_height: i32,
)
    requires
        destination_width > 0 && destination_height > 0 ==> source_width > 0 && source_height > 0,
        destination_width >= 0,
        destination_height >= 0,
        source_width * source_height <= source@.len(),
        destination_width * destination_height <= old(destination)@.len(),
        destination_width * destination_height <= i32::MAX,
        destination_width * source_width <= i32::MAX,
        destination_height * source_height <= i32::MAX,
        source_width * source_height <= i32::MAX,
    ensures
        final(destination)@.len() == old(destination)@.len(),
        forall|x: int, y: int|
            0 <= x < destination_width && 0 <= y < destination_height ==> #[trigger] final(destination)@[y * destination_width + x] == scaled_pixel(
                source@,
                source_width as int,
                source_height as int,
                destination_width as int,
                destination_height as int,
                x,
                y,
            ),
        forall|i: int|
            destination_width * destination_height <= i < old(destination)@.len() ==> #[trigger] final(destination)@[i] == old(destination)@[i],
{
    let (sw, sh, dw, dh) = (source_width, source_height, destination_width, destination_height);
    let mut y: i32 = 0;
    while y < dh
        invariant
            0 <= y <= dh,
            dw >= 0,
            dh >= 0,
            dw > 0 && dh > 0 ==> sw > 0 && sh > 0,
            sw * sh <= source@.len(),
            dw * dh <= destination@.len(),
            dw * dh <= i32::MAX,
            dw * sw <= i32::MAX,
            dh * sh <= i32::MAX,
            sw * sh <= i32::MAX,
            (sw, sh, dw, dh) == (source_width, source_height, destination_width, destination_height),
            destination@.len() == old(destination)@.len(),
            forall|x: int, yy: int|
                0 <= x < dw && 0 <= yy < y ==> #[trigger] destination@[yy * dw + x] == scaled_pixel(
                    source@,
                    sw as int,
                    sh as int,
                    dw as int,
                    dh as int,
                    x,
                    yy,
                ),
            forall|i: int| dw * dh <= i < old(destination)@.len() ==> #[trigger] destination@[i] == old(destination)@[i],
        decreases dh - y,
    {
        if dw == 0 {
            y += 1;
            continue;
        }
        proof {
            lemma_source_index(sw as int, sh as int, dw as int, dh as int, 0, y as int);
        }
        let source_y = y * sh / dh;
        let mut x: i32 = 0;
        while x < dw
            invariant
                0 <= y < dh,
                0 <= x <= dw,
                dw > 0 && dh > 0,
                sw > 0 && sh > 0,
                sw * sh <= source@.len(),
                dw * dh <= destination@.len(),
                dw * dh <= i32::MAX,
                dw * sw <= i32::MAX,
                dh * sh <= i32::MAX,
                sw * sh <= i32::MAX,
                source_y as int == (y * sh) as int / (dh as int),
                destination@.len() == old(destination)@.len(),
                forall|xx: int, yy: int|
                    0 <= xx < dw && 0 <= yy < y ==> #[trigger] destination@[yy * dw + xx]
                        == scaled_pixel(source@, sw as int, sh as int, dw as int, dh as int, xx, yy),
                forall|xx: int| 0 <= xx < x ==> #[trigger] destination@[y * dw + xx] == scaled_pixel(
                    source@,
                    sw as int,
                    sh as int,
                    dw as int,
                    dh as int,
                    xx,
                    y as int,
                ),
                forall|i: int| dw * dh <= i < old(destination)@.len() ==> #[trigger] destination@[i]
                    == old(destination)@[i],
            decreases dw - x,
        {
            proof {
                lemma_source_index(sw as int, sh as int, dw as int, dh as int, x as int, y as int);
                assert(y * dw + x < dw * dh) by (nonlinear_arith)
                    requires
                        0 <= x < dw,
                        0 <= y < dh,
                ;
                assert(y * dw + x >= 0) by (nonlinear_arith)
                    requires
                        0 <= x < dw,
                        0 <= y < dh,
                ;
            }
            let source_x = x * sw / dw;
            let at = (y * dw + x) as usize;
            let from = (source_y * sw + source_x) as usize;
            let ghost before = destination@;
            destination[at] = source[from];
            proof {
                assert forall|xx: int, yy: int|
                    0 <= xx < dw && 0 <= yy < y implies #[trigger] destination@[yy * dw + xx]
                    == scaled_pixel(source@, sw as int, sh as int, dw as int, dh as int, xx, yy) by {
                    assert(yy * dw + xx < y * dw) by (nonlinear_arith)
                        requires
                            0 <= xx < dw,
                            0 <= yy < y,
                    ;
                    assert(before[yy * dw + xx] == scaled_pixel(source@, sw as int, sh as int, dw as int, dh as int, xx, yy));
                }
            }
            x += 1;
        }
        y += 1;
    }
}

// ---------------------------------------------------------------------------
// Typography
// ---------------------------------------------------------------------------

/// `s` with every trailing copy of `p` removed.
pub open spec fn strip_suffixes(s: Seq<char>, p: Seq<char>) -> Seq<char>
    decreases s.len(),
{
    if p.len() > 0 && ends_with(s, p) {
        strip_suffixes(s.take(s.len() - p.len()), p)
    } else {
        s
    }
}

/// The OSD's two lines of text: the device title on the left, and the
/// status (no audio, muted, or the volume) on the right in its colour.
#[derive(Debug)]
pub struct OsdLabels {
    pub title: String,
    pub title_rect: Rect,
    pub status: String,
    pub status_color: (u8, u8, u8),
    pub status_rect: Rect,
}

/// A title marked "(No Audio)" names a device with no session.
pub open spec fn is_no_audio(title: Seq<char>) -> bool {
    ends_with(title, "(No Audio)"@)
}

/// The title shown: without its " (No Audio)" marks and surrounding
/// whitespace when it has one, then cut to 15 characters (19 without the
/// mark).
pub open spec fn shown_title(title: Seq<char>) -> Seq<char> {
    if is_no_audio(title) {
        truncated(trim(strip_suffixes(title, " (No Audio)"@)), 15)
    } else {
        truncated(title, 19)
    }
}

/// The status text and its colour.
pub open spec fn status_of(title: Seq<char>, muted: bool, percentage: u32) -> (Seq<char>, (u8, u8, u8)) {
    if is_no_audio(title) {
        ("No Audio"@, (148u8, 163u8, 184u8))
    } else if muted {
        ("Muted"@, (248u8, 113u8, 113u8))
    } else {
        (decimal_nat(percentage as nat) + "%"@, (203u8, 213u8, 225u8))
    }
}

/// Lays out the OSD's text for a panel `width` pixels wide.
pub fn osd_labels(title: &str, muted: bool, percentage: u32, width: i32) -> (r: OsdLabels)
    requires
        width >= i32::MIN + 82,
    ensures
        r.title@ == shown_title(title@),
        r.title_rect == (Rect {
            left: 38,
            top: 10,
            right: if is_no_audio(title@) { (width - 82) as i32 } else { (width - 58) as i32 },
            bottom: 27,
        }),
        r.status@ == status_of(title@, muted, percentage).0,
        r.status_color == status_of(title@, muted, percentage).1,
        r.status_rect == (Rect {
            left: if is_no_audio(title@) { (width - 80) as i32 } else { (width - 62) as i32 },
            top: 10,
            right: (width - 16) as i32,
            bottom: 27,
        }),
{
    let cs = chars_of(title);
    let mark = chars_of("(No Audio)");
    let no_audio = ends_with_exec(cs.as_slice(), mark.as_slice());
    let shown = if no_audio {
        let suffix = chars_of(" (No Audio)");
        proof {
            reveal_strlit(" (No Audio)");
        }
        let mut rest = cs;
        while ends_with_exec(rest.as_slice(), suffix.as_slice())
            invariant
                suffix@ == " (No Audio)"@,
                suffix@.len() == 11,
                strip_suffixes(rest@, suffix@) == strip_suffixes(title@, suffix@),
            decreases rest@.len(),
        {
            let cut = rest.len() - suffix.len();
            rest = crate::text::slice_to_vec(rest.as_slice(), 0, cut);
        }
        let trimmed = trim_exec(rest.as_slice());
        let text = string_of(trimmed.as_slice());
        truncate_string(text.as_str(), 15)
    } else {
        truncate_string(title, 19)
    };
    let (status, status_color) = if no_audio {
        (String::from_str("No Audio"), (148u8, 163u8, 184u8))
    } else if muted {
        (String::from_str("Muted"), (248u8, 113u8, 113u8))
    } else {
        let digits = format_u64(percentage as u64);
        (concat(digits.as_str(), "%"), (203u8, 213u8, 225u8))
    };
    OsdLabels {
        title: shown,
        title_rect: Rect { left: 38, top: 10, right: if no_audio { width - 82 } else { width - 58 }, bottom: 27 },
        status,
        status_color,
        status_rect: Rect { left: if no_audio { width - 80 } else { width - 62 }, top: 10, right: width - 16, bottom: 27 },
    }
}

/// Pixel `k` of a `width`-wide bitmap lies in the rows `rows.0..rows.1` and
/// columns `cols.0..cols.1`.
pub open spec fn in_band(k: int, width: int, rows: (i32, i32), cols: (i32, i32)) -> bool {
    rows.0 <= k / width < rows.1 && cols.0 <= k % width < cols.1
}

/// What compositing rendered text leaves at pixel `k`: the text colour
/// blended over it by the text's coverage (its low byte) inside the band,
/// the pixel as it was elsewhere.
pub open spec fn composited(
    old: Seq<u32>,
    coverage: Seq<u32>,
    width: int,
    rows: (i32, i32),
    cols: (i32, i32),
    color: (u8, u8, u8),
    k: int,
) -> u32 {
    if in_band(k, width, rows, cols) && k < coverage.len() && (coverage[k] & 0xFF) > 0 {
        blended(old[k], color, (coverage[k] & 0xFF) as u8)
    } else {
        old[k]
    }
}

/// Blends a colour over the pixels by the coverage that text rendering left
/// in a bitmap of the same width, within a band of rows and columns.
pub fn composite_coverage(
    pixels: &mut Vec<u32>,
    coverage: &[u32],
    width: i32,
    rows: (i32, i32),
    cols: (i32, i32),
    color: (u8, u8, u8),
)
    requires
        width > 0,
        0 <= cols.0,
        cols.1 <= width,
    ensures
        final(pixels)@.len() == old(pixels)@.len(),
        forall|k: int|
            0 <= k < old(pixels)@.len() ==> #[trigger] final(pixels)@[k] == composited(
                old(pixels)@,
                coverage@,
                width as int,
                rows,
                cols,
                color,
                k,
            ),
{
    let ghost before = pixels@;
    let w = width as usize;
    let mut k: usize = 0;
    while k < pixels.len()
        invariant
            w == width as int,
            w > 0,
            0 <= cols.0,
            cols.1 <= width,
            pixels@.len() == before.len(),
            k <= pixels@.len(),
            forall|j: int| 0 <= j < k ==> #[trigger] pixels@[j] == composited(before, coverage@, width as int, rows, cols, color, j),
            forall|j: int| k <= j < pixels@.len() ==> #[trigger] pixels@[j] == before[j],
        decreases pixels@.len() - k,
    {
        let y = k / w;
        let x = k % w;
        let in_rows = rows.1 > 0 && (rows.0 < 0 || y >= rows.0 as usize) && y < rows.1 as usize;
        let in_cols = cols.1 > 0 && x >= cols.0 as usize && x < cols.1 as usize;
        assert(y as int == (k as int) / (width as int));
        assert(x as int == (k as int) % (width as int));
        assert(x < w) by (nonlinear_arith)
            requires
                x as int == (k as int) % (w as int),
                w > 0,
        ;
        assert(in_rows <==> (rows.0 <= y && y < rows.1));
        assert(in_cols <==> (cols.0 <= x && x < cols.1));
        assert(in_rows && in_cols <==> in_band(k as int, width as int, rows, cols));
        if k < coverage.len() && in_rows && in_cols {
            let value = coverage[k];
            let low = value & 0xFF;
            assert(low <= 0xFF) by (bit_vector)
                requires
                    low == value & 0xFF,
            ;
            let cov = low as u8;
            if cov > 0 {
                let blended_px = blend_over(pixels[k], color, cov);
                pixels.set(k, blended_px);
            }
        }
        k += 1;
    }
}

} // verus!
