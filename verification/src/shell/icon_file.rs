//! The file that hands the chosen Start icon to the Explorer hook: the
//! magic `PRISICON1`, the width and height as little-endian `u32`, then the
//! RGBA pixels row by row.

use vstd::prelude::*;
use crate::catalog::usn::le_u32;

verus! {

/// `PRISICON1`.
pub open spec fn icon_magic_bytes() -> Seq<u8> {
    seq![80u8, 82, 73, 83, 73, 67, 79, 78, 49]
}

pub fn icon_magic() -> (r: Vec<u8>)
    ensures
        r@ == icon_magic_bytes(),
{
    let r = vec![80u8, 82, 73, 83, 73, 67, 79, 78, 49];
    assert(r@ =~= icon_magic_bytes());
    r
}

/// Length of the header: the magic and two `u32`.
pub const ICON_HEADER_LEN: usize = 17;

/// Largest accepted width or height.
pub const ICON_MAX_EDGE: u32 = 4096;

/// An icon as RGBA rows; `rgba` holds four bytes per pixel.
#[derive(Debug)]
pub struct IconPixels {
    pub width: u32,
    pub height: u32,
    pub rgba: Vec<u8>,
}

impl IconPixels {
    pub open spec fn well_formed(&self) -> bool {
        self.rgba@.len() == self.width * self.height * 4
    }
}

/// `v` as four little-endian bytes.
pub open spec fn u32_le(v: u32) -> Seq<u8> {
    seq![(v % 256) as u8, ((v / 256) % 256) as u8, ((v / 65536) % 256) as u8, (v / 16777216) as u8]
}

proof fn lemma_u32_le_round_trip(v: u32, prefix: Seq<u8>)
    ensures
        le_u32(prefix + u32_le(v), prefix.len() as int) == v,
{
    let b = prefix + u32_le(v);
    let off = prefix.len() as int;
    assert(b[off] == (v % 256) as u8);
    assert(b[off + 1] == ((v / 256) % 256) as u8);
    assert(b[off + 2] == ((v / 65536) % 256) as u8);
    assert(b[off + 3] == (v / 16777216) as u8);
    assert(v == (v % 256) + 256 * (((v / 256) % 256) + 256 * (((v / 65536) % 256) + 256 * (v
        / 16777216)))) by (bit_vector);
}

/// The bytes of an icon file.
pub open spec fn icon_file_bytes(width: u32, height: u32, rgba: Seq<u8>) -> Seq<u8> {
    icon_magic_bytes() + u32_le(width) + u32_le(height) + rgba
}

fn push_u32_le(out: &mut Vec<u8>, v: u32)
    ensures
        final(out)@ == old(out)@ + u32_le(v),
{
    out.push((v % 256) as u8);
    out.push(((v / 256) % 256) as u8);
    out.push(((v / 65536) % 256) as u8);
    out.push((v / 16777216) as u8);
    assert(out@ =~= old(out)@ + u32_le(v));
}

/// Writes an icon in the hook's file format.
pub fn encode_icon_file(icon: &IconPixels) -> (r: Vec<u8>)
    ensures
        r@ == icon_file_bytes(icon.width, icon.height, icon.rgba@),
{
    let mut out = icon_magic();
    push_u32_le(&mut out, icon.width);
    push_u32_le(&mut out, icon.height);
    let mut i: usize = 0;
    let ghost head = out@;
    while i < icon.rgba.len()
        invariant
            i <= icon.rgba@.len(),
            head == icon_magic_bytes() + u32_le(icon.width) + u32_le(icon.height),
            out@ == head + icon.rgba@.take(i as int),
        decreases icon.rgba@.len() - i,
    {
        out.push(icon.rgba[i]);
        i += 1;
        assert(out@ =~= head + icon.rgba@.take(i as int));
    }
    assert(icon.rgba@.take(icon.rgba@.len() as int) =~= icon.rgba@);
    out
}

/// How the hook reads an icon file: `-12` for a short file or a wrong
/// magic, `-13` for an empty or oversized icon or a length that does not
/// match its size.
pub open spec fn icon_parse(bytes: Seq<u8>) -> Result<(u32, u32, Seq<u8>), isize> {
    if bytes.len() < 17 || bytes.take(9) != icon_magic_bytes() {
        Err(-12isize)
    } else {
        let w = le_u32(bytes, 9);
        let h = le_u32(bytes, 13);
        if w == 0 || h == 0 || w > 4096 || h > 4096 || bytes.len() != 17 + w * h * 4 {
            Err(-13isize)
        } else {
            Ok((w, h, bytes.skip(17)))
        }
    }
}

pub fn parse_icon_file(bytes: &[u8]) -> (r: Result<IconPixels, isize>)
    ensures
        match icon_parse(bytes@) {
            Ok((w, h, px)) => r matches Ok(icon) && icon.width == w && icon.height == h
                && icon.rgba@ == px && icon.well_formed(),
            Err(code) => r matches Err(c) && c == code,
        },
{
    let n = bytes.len();
    if n < ICON_HEADER_LEN {
        return Err(-12);
    }
    let magic = icon_magic();
    let mut i: usize = 0;
    while i < 9
        invariant
            i <= 9,
            n == bytes@.len(),
            n >= 17,
            magic@ == icon_magic_bytes(),
            forall|k: int| 0 <= k < i ==> bytes@[k] == magic@[k],
        decreases 9 - i,
    {
        if bytes[i] != magic[i] {
            assert(bytes@.take(9)[i as int] != icon_magic_bytes()[i as int]);
            return Err(-12);
        }
        i += 1;
    }
    assert(bytes@.take(9) =~= icon_magic_bytes());
    let width = match crate::catalog::usn::read_u32(bytes, 9) {
        Some(w) => w,
        None => return Err(-12),
    };
    let height = match crate::catalog::usn::read_u32(bytes, 13) {
        Some(h) => h,
        None => return Err(-12),
    };
    if width == 0 || height == 0 || width > ICON_MAX_EDGE || height > ICON_MAX_EDGE {
        return Err(-13);
    }
    assert(width * height * 4 <= 4096 * 4096 * 4) by (nonlinear_arith)
        requires
            width <= 4096,
            height <= 4096,
    ;
    let pixel_bytes = (width as usize) * (height as usize) * 4;
    if n - ICON_HEADER_LEN != pixel_bytes {
        return Err(-13);
    }
    let mut rgba: Vec<u8> = Vec::new();
    let mut j: usize = ICON_HEADER_LEN;
    while j < n
        invariant
            ICON_HEADER_LEN <= j <= n,
            n == bytes@.len(),
            rgba@ == bytes@.subrange(17, j as int),
        decreases n - j,
    {
        rgba.push(bytes[j]);
        j += 1;
        assert(rgba@ =~= bytes@.subrange(17, j as int));
    }
    assert(bytes@.subrange(17, n as int) =~= bytes@.skip(17));
    Ok(IconPixels { width, height, rgba })
}

/// Reading back a written icon gives the same icon, for every icon the hook
/// accepts (at least one and at most 4096 pixels on each side).
pub proof fn law_icon_file_round_trip(width: u32, height: u32, rgba: Seq<u8>)
    requires
        1 <= width <= 4096,
        1 <= height <= 4096,
        rgba.len() == width * height * 4,
    ensures
        icon_parse(icon_file_bytes(width, height, rgba)) == Ok::<(u32, u32, Seq<u8>), isize>(
            (width, height, rgba),
        ),
{
    let bytes = icon_file_bytes(width, height, rgba);
    let m = icon_magic_bytes();
    lemma_u32_le_round_trip(width, m);
    lemma_u32_le_round_trip(height, m + u32_le(width));
    assert(bytes =~= (m + u32_le(width)) + u32_le(height) + rgba);
    assert((m + u32_le(width) + u32_le(height) + rgba).take(9) =~= m);
    assert(le_u32(bytes, 9) == le_u32(m + u32_le(width), 9));
    assert(le_u32(bytes, 13) == le_u32(m + u32_le(width) + u32_le(height), 13));
    assert(bytes.skip(17) =~= rgba);
}

// ---------------------------------------------------------------------------
// Painting the icon over the Start button
// ---------------------------------------------------------------------------

/// Edge of the square the custom icon is drawn in.
pub const ICON_TARGET_EDGE: i32 = 24;

pub open spec fn min_int(a: int, b: int) -> int {
    if a <= b {
        a
    } else {
        b
    }
}

/// The square over the native glyph that is painted out: 32 pixels (the
/// icon square and a margin) or the frame's smaller side, centred.
pub open spec fn glyph_edge(w: int, h: int) -> int {
    min_int(min_int(ICON_TARGET_EDGE + 8, w), h)
}

pub open spec fn glyph_left(w: int, h: int) -> int {
    (w - glyph_edge(w, h)) / 2
}

pub open spec fn glyph_top(w: int, h: int) -> int {
    (h - glyph_edge(w, h)) / 2
}

/// The pixel at column `x`, row `y` lies in the painted square.
pub open spec fn in_glyph(w: int, h: int, x: int, y: int) -> bool {
    let edge = glyph_edge(w, h);
    let left = glyph_left(w, h);
    let top = glyph_top(w, h);
    top <= y < top + edge && left <= x < left + edge
}

/// The blend of `l` and `r` at `offset` of `span` steps from `l`.
pub open spec fn blend(l: u8, r: u8, offset: int, span: int) -> u8 {
    ((l * (span - offset) + r * offset) / span) as u8
}

/// Byte `i` of a `w`-pixel-wide BGRA frame after the glyph square is
/// painted out: each row of the square becomes an opaque blend from the
/// pixel just left of it (the row's first pixel when the square starts at
/// the frame's edge) to the pixel at its right edge (clamped to the frame),
/// as they were before painting.
pub open spec fn erased_byte(old: Seq<u8>, w: int, h: int, i: int) -> u8 {
    let p = i / 4;
    let ch = i % 4;
    let x = p % w;
    let y = p / w;
    if 0 <= i < w * h * 4 && in_glyph(w, h, x, y) {
        if ch == 3 {
            255
        } else {
            let left = glyph_left(w, h);
            let edge = glyph_edge(w, h);
            let lx = if left >= 1 {
                left - 1
            } else {
                0
            };
            let rx = min_int(left + edge, w - 1);
            blend(old[(y * w + lx) * 4 + ch], old[(y * w + rx) * 4 + ch], x - left, edge)
        }
    } else {
        old[i]
    }
}

/// Byte `i` is already painted when the painting has reached column `col`
/// of row `row`.
pub open spec fn painted(w: int, h: int, row: int, col: int, i: int) -> bool {
    let p = i / 4;
    let x = p % w;
    let y = p / w;
    &&& 0 <= i < w * h * 4
    &&& in_glyph(w, h, x, y)
    &&& (y < row || (y == row && x < col))
}

pub open spec fn partly_erased(old: Seq<u8>, w: int, h: int, row: int, col: int, i: int) -> u8 {
    if painted(w, h, row, col, i) {
        erased_byte(old, w, h, i)
    } else {
        old[i]
    }
}

proof fn lemma_pixel_index(w: int, h: int, x: int, y: int, ch: int)
    requires
        w >= 1,
        0 <= x < w,
        0 <= y < h,
        0 <= ch < 4,
    ensures
        0 <= y * w,
        0 <= (y * w + x) * 4,
        (y * w + x) * 4 + 3 < w * h * 4,
        ((y * w + x) * 4 + ch) / 4 == y * w + x,
        ((y * w + x) * 4 + ch) % 4 == ch,
        (y * w + x) % w == x,
        (y * w + x) / w == y,
{
    assert(y * w + x < w * h) by (nonlinear_arith)
        requires
            0 <= x < w,
            0 <= y < h,
    ;
    assert(0 <= y * w) by (nonlinear_arith)
        requires
            0 <= y,
            w >= 1,
    ;
    vstd::arithmetic::div_mod::lemma_fundamental_div_mod_converse(y * w + x, w, y, x);
    vstd::arithmetic::div_mod::lemma_fundamental_div_mod_converse(
        (y * w + x) * 4 + ch,
        4,
        y * w + x,
        ch,
    );
}

/// A byte of pixel `p` belongs to the pixel at column `p % w`, row `p / w`.
proof fn lemma_same_pixel(w: int, i: int, x: int, y: int)
    requires
        w >= 1,
        0 <= x < w,
        0 <= i,
        (i / 4) % w == x,
        (i / 4) / w == y,
    ensures
        i / 4 == y * w + x,
{
    vstd::arithmetic::div_mod::lemma_fundamental_div_mod(i / 4, w);
    assert(w * y == y * w) by (nonlinear_arith);
}

/// Offset of byte `ch` of the pixel at column `x`, row `y`.
fn pixel_byte(w: i32, h: i32, x: i32, y: i32, ch: usize) -> (r: usize)
    requires
        w >= 1,
        w * h * 4 <= i32::MAX,
        0 <= x < w,
        0 <= y < h,
        ch < 4,
    ensures
        r == (y * w + x) * 4 + ch,
        r / 4 == y * w + x,
        r % 4 == ch,
        (r as int / 4) % (w as int) == x,
        (r as int / 4) / (w as int) == y,
        r < w * h * 4,
{
    proof {
        lemma_pixel_index(w as int, h as int, x as int, y as int, ch as int);
    }
    let row: i32 = y * w;
    let p: i32 = row + x;
    (p as usize) * 4 + ch
}

fn blend_exec(l: u8, r: u8, offset: u32, span: u32) -> (b: u8)
    requires
        0 <= offset < span <= 32,
    ensures
        b == blend(l, r, offset as int, span as int),
{
    assert(l * (span - offset) <= 255 * 32 && r * offset <= 255 * 32) by (nonlinear_arith)
        requires
            l <= 255,
            r <= 255,
            offset < span <= 32,
    ;
    let a: u32 = l as u32 * (span - offset);
    let c: u32 = r as u32 * offset;
    assert(a + c <= 255 * span) by (nonlinear_arith)
        requires
            a == l * (span - offset),
            c == r * offset,
            l <= 255,
            r <= 255,
            offset < span,
    ;
    assert((a + c) / (span as int) <= 255) by (nonlinear_arith)
        requires
            a + c <= 255 * span,
            span > 0,
    ;
    ((a + c) / span) as u8
}

/// Paints out the native Start glyph in a `width` by `height` BGRA frame
/// (see `erased_byte`).
pub fn erase_native_glyph(frame: &mut Vec<u8>, width: i32, height: i32)
    requires
        width >= 1 && height >= 1 ==> width * height * 4 <= i32::MAX && old(frame)@.len() >= width
            * height * 4,
    ensures
        final(frame)@.len() == old(frame)@.len(),
        forall|i: int|
            0 <= i < old(frame)@.len() ==> final(frame)@[i] == erased_byte(
                old(frame)@,
                width as int,
                height as int,
                i,
            ),
{
    let ghost old_frame = frame@;
    let ghost w = width as int;
    let ghost h = height as int;
    if width < 1 || height < 1 {
        proof {
            assert forall|i: int| 0 <= i < old_frame.len() implies frame@[i] == erased_byte(old_frame, w, h, i) by {
                assert(glyph_edge(w, h) <= 0);
            }
        }
        return;
    }
    let edge: i32 = if ICON_TARGET_EDGE + 8 < width {
        ICON_TARGET_EDGE + 8
    } else {
        width
    };
    let edge: i32 = if edge < height {
        edge
    } else {
        height
    };
    let left: i32 = (width - edge) / 2;
    let top: i32 = (height - edge) / 2;
    let right: i32 = left + edge;
    let bottom: i32 = top + edge;
    assert(edge == glyph_edge(w, h) && left == glyph_left(w, h) && top == glyph_top(w, h));
    let lx: i32 = if left >= 1 {
        left - 1
    } else {
        0
    };
    let rx: i32 = if right < width - 1 {
        right
    } else {
        width - 1
    };
    let mut y: i32 = top;
    assert forall|i: int| 0 <= i < old_frame.len() implies frame@[i] == partly_erased(old_frame, w, h, top as int, left as int, i) by {
        if painted(w, h, top as int, left as int, i) {
            assert(false);
        }
    }
    while y < bottom
        invariant
            top <= y <= bottom,
            1 <= edge <= 32,
            edge == glyph_edge(w, h),
            left == glyph_left(w, h),
            top == glyph_top(w, h),
            right == left + edge,
            bottom == top + edge,
            0 <= left,
            right <= width,
            bottom <= height,
            lx == (if left >= 1 { left - 1 } else { 0 }),
            rx == min_int(left + edge, w - 1),
            w == width,
            h == height,
            width >= 1,
            height >= 1,
            width * height * 4 <= i32::MAX,
            frame@.len() == old_frame.len(),
            old_frame.len() >= w * h * 4,
            forall|i: int|
                0 <= i < old_frame.len() ==> frame@[i] == #[trigger] partly_erased(
                    old_frame,
                    w,
                    h,
                    y as int,
                    left as int,
                    i,
                ),
        decreases bottom - y,
    {
        let ls0 = pixel_byte(width, height, lx, y, 0);
        let ls1 = pixel_byte(width, height, lx, y, 1);
        let ls2 = pixel_byte(width, height, lx, y, 2);
        let rs0 = pixel_byte(width, height, rx, y, 0);
        let rs1 = pixel_byte(width, height, rx, y, 1);
        let rs2 = pixel_byte(width, height, rx, y, 2);
        proof {
            assert(!painted(w, h, y as int, left as int, ls0 as int));
            assert(!painted(w, h, y as int, left as int, ls1 as int));
            assert(!painted(w, h, y as int, left as int, ls2 as int));
            assert(!painted(w, h, y as int, left as int, rs0 as int));
            assert(!painted(w, h, y as int, left as int, rs1 as int));
            assert(!painted(w, h, y as int, left as int, rs2 as int));
            assert(frame@[ls0 as int] == partly_erased(old_frame, w, h, y as int, left as int, ls0 as int));
            assert(frame@[ls1 as int] == partly_erased(old_frame, w, h, y as int, left as int, ls1 as int));
            assert(frame@[ls2 as int] == partly_erased(old_frame, w, h, y as int, left as int, ls2 as int));
            assert(frame@[rs0 as int] == partly_erased(old_frame, w, h, y as int, left as int, rs0 as int));
            assert(frame@[rs1 as int] == partly_erased(old_frame, w, h, y as int, left as int, rs1 as int));
            assert(frame@[rs2 as int] == partly_erased(old_frame, w, h, y as int, left as int, rs2 as int));
        }
        let l0 = frame[ls0];
        let l1 = frame[ls1];
        let l2 = frame[ls2];
        let r0 = frame[rs0];
        let r1 = frame[rs1];
        let r2 = frame[rs2];
        let mut x: i32 = left;
        while x < right
            invariant
                left <= x <= right,
                top <= y < bottom,
                1 <= edge <= 32,
                edge == glyph_edge(w, h),
                left == glyph_left(w, h),
                top == glyph_top(w, h),
                right == left + edge,
                bottom == top + edge,
                0 <= left,
                right <= width,
                bottom <= height,
                w == width,
                h == height,
                width >= 1,
                height >= 1,
                width * height * 4 <= i32::MAX,
                frame@.len() == old_frame.len(),
                old_frame.len() >= w * h * 4,
                l0 == old_frame[(y * w + lx) * 4],
                l1 == old_frame[(y * w + lx) * 4 + 1],
                l2 == old_frame[(y * w + lx) * 4 + 2],
                r0 == old_frame[(y * w + rx) * 4],
                r1 == old_frame[(y * w + rx) * 4 + 1],
                r2 == old_frame[(y * w + rx) * 4 + 2],
                lx == (if left >= 1 { left - 1 } else { 0 }),
                rx == min_int(left + edge, w - 1),
                forall|i: int|
                    0 <= i < old_frame.len() ==> frame@[i] == #[trigger] partly_erased(
                        old_frame,
                        w,
                        h,
                        y as int,
                        x as int,
                        i,
                    ),
            decreases right - x,
        {
            let d0 = pixel_byte(width, height, x, y, 0);
            let d1 = pixel_byte(width, height, x, y, 1);
            let d2 = pixel_byte(width, height, x, y, 2);
            let d3 = pixel_byte(width, height, x, y, 3);
            let offset = (x - left) as u32;
            let span = edge as u32;
            let b0 = blend_exec(l0, r0, offset, span);
            let b1 = blend_exec(l1, r1, offset, span);
            let b2 = blend_exec(l2, r2, offset, span);
            let ghost before = frame@;
            frame.set(d0, b0);
            frame.set(d1, b1);
            frame.set(d2, b2);
            frame.set(d3, 255);
            proof {
                assert forall|i: int| 0 <= i < old_frame.len() implies frame@[i] == #[trigger] partly_erased(
                    old_frame,
                    w,
                    h,
                    y as int,
                    x + 1,
                    i,
                ) by {
                    if d0 <= i < d0 + 4 {
                        assert(i / 4 == y * w + x);
                        assert((i / 4) % w == x);
                        assert((i / 4) / w == y);
                        assert(painted(w, h, y as int, x + 1, i));
                    } else {
                        assert(before[i] == partly_erased(old_frame, w, h, y as int, x as int, i));
                        if 0 <= i < w * h * 4 && (i / 4) / w == y && (i / 4) % w == x {
                            lemma_same_pixel(w, i, x as int, y as int);
                            assert(false);
                        }
                    }
                }
            }
            x += 1;
        }
        proof {
            assert forall|i: int| 0 <= i < old_frame.len() implies frame@[i] == #[trigger] partly_erased(
                old_frame,
                w,
                h,
                y + 1,
                left as int,
                i,
            ) by {
                assert(frame@[i] == partly_erased(old_frame, w, h, y as int, right as int, i));
            }
        }
        y += 1;
    }
    proof {
        assert forall|i: int| 0 <= i < old_frame.len() implies frame@[i] == erased_byte(old_frame, w, h, i) by {
            assert(frame@[i] == partly_erased(old_frame, w, h, bottom as int, left as int, i));
            if !painted(w, h, bottom as int, left as int, i) {
                if 0 <= i < w * h * 4 {
                    let p = i / 4;
                    if in_glyph(w, h, p % w, p / w) {
                        assert(false);
                    }
                }
            }
        }
    }
}

/// `src` drawn with opacity `alpha` over `dst`.
pub open spec fn over(src: u8, alpha: u8, dst: u8) -> u8 {
    ((src * alpha + dst * (255 - alpha)) / 255) as u8
}

/// The pixel at column `x`, row `y` of the frame is covered by the icon
/// drawn `dw` by `dh` in its centre.
pub open spec fn in_drawing(fw: int, fh: int, dw: int, dh: int, x: int, y: int) -> bool {
    let left = (fw - dw) / 2;
    let top = (fh - dh) / 2;
    left <= x < left + dw && top <= y < top + dh
}

/// Byte `i` of a `fw` by `fh` BGRA frame after the RGBA icon (`iw` by `ih`)
/// is drawn over its centre at `dw` by `dh`, each drawn pixel taking the
/// nearest icon pixel at or before its position, blended by the icon's
/// alpha; the frame's own alpha bytes stay.
pub open spec fn composed_byte(
    old: Seq<u8>,
    fw: int,
    fh: int,
    icon: Seq<u8>,
    iw: int,
    ih: int,
    dw: int,
    dh: int,
    i: int,
) -> u8 {
    let p = i / 4;
    let ch = i % 4;
    let x = p % fw;
    let y = p / fw;
    if 0 <= i < fw * fh * 4 && in_drawing(fw, fh, dw, dh, x, y) && ch < 3 {
        let sx = min_int((x - (fw - dw) / 2) * iw / dw, iw - 1);
        let sy = min_int((y - (fh - dh) / 2) * ih / dh, ih - 1);
        let s = (sy * iw + sx) * 4;
        over(icon[s + 2 - ch], icon[s + 3], old[i])
    } else {
        old[i]
    }
}

pub open spec fn drawn(fw: int, fh: int, dw: int, dh: int, row: int, col: int, i: int) -> bool {
    let p = i / 4;
    let x = p % fw;
    let y = p / fw;
    &&& 0 <= i < fw * fh * 4
    &&& in_drawing(fw, fh, dw, dh, x, y)
    &&& (y < row || (y == row && x < col))
    &&& i % 4 < 3
}

pub open spec fn partly_composed(
    old: Seq<u8>,
    fw: int,
    fh: int,
    icon: Seq<u8>,
    iw: int,
    ih: int,
    dw: int,
    dh: int,
    row: int,
    col: int,
    i: int,
) -> u8 {
    if drawn(fw, fh, dw, dh, row, col, i) {
        composed_byte(old, fw, fh, icon, iw, ih, dw, dh, i)
    } else {
        old[i]
    }
}

/// Offset of byte `ch` of the pixel at column `x`, row `y` of a `w`-wide
/// image.
fn pixel_byte_u32(w: u32, h: u32, x: u32, y: u32, ch: usize) -> (r: usize)
    requires
        w >= 1,
        w * h * 4 <= u32::MAX,
        x < w,
        y < h,
        ch < 4,
    ensures
        r == (y * w + x) * 4 + ch,
        r / 4 == y * w + x,
        r % 4 == ch,
        (r as int / 4) % (w as int) == x,
        (r as int / 4) / (w as int) == y,
        r < w * h * 4,
{
    proof {
        lemma_pixel_index(w as int, h as int, x as int, y as int, ch as int);
    }
    let row: u32 = y * w;
    let p: u32 = row + x;
    (p as usize) * 4 + ch
}

fn over_exec(src: u8, alpha: u8, dst: u8) -> (r: u8)
    ensures
        r == over(src, alpha, dst),
{
    let a = alpha as u32;
    assert(src * a <= 255 * 255 && dst * (255 - a) <= 255 * 255) by (nonlinear_arith)
        requires
            src <= 255,
            dst <= 255,
            a <= 255,
    ;
    let t: u32 = src as u32 * a + dst as u32 * (255 - a);
    assert(t / 255 <= 255) by (nonlinear_arith)
        requires
            t == src * a + dst * (255 - a),
            src <= 255,
            dst <= 255,
            a <= 255,
    ;
    (t / 255) as u8
}

/// The icon pixel drawn at column `x` of a `draw`-wide drawing of an
/// `edge`-wide icon.
fn source_index(x: u32, edge: u32, draw: u32) -> (r: u32)
    requires
        x < draw,
        edge >= 1,
        draw * edge <= u32::MAX,
    ensures
        r == min_int(x * edge / (draw as int), edge - 1),
        r < edge,
{
    assert(x * edge <= draw * edge) by (nonlinear_arith)
        requires
            x < draw,
    ;
    let s: u32 = x * edge / draw;
    if s < edge - 1 {
        s
    } else {
        edge - 1
    }
}

/// Draws the RGBA `icon` (`icon_width` by `icon_height`) over the centre of
/// the BGRA `frame` at `draw_width` by `draw_height` (see `composed_byte`).
pub fn blit_icon(
    frame: &mut Vec<u8>,
    frame_width: u32,
    frame_height: u32,
    icon: &[u8],
    icon_width: u32,
    icon_height: u32,
    draw_width: u32,
    draw_height: u32,
)
    requires
        1 <= draw_width <= frame_width,
        1 <= draw_height <= frame_height,
        icon_width >= 1,
        icon_height >= 1,
        frame_width * frame_height * 4 <= u32::MAX,
        icon_width * icon_height * 4 <= u32::MAX,
        draw_width * icon_width <= u32::MAX,
        draw_height * icon_height <= u32::MAX,
        old(frame)@.len() >= frame_width * frame_height * 4,
        icon@.len() >= icon_width * icon_height * 4,
    ensures
        final(frame)@.len() == old(frame)@.len(),
        forall|i: int|
            0 <= i < old(frame)@.len() ==> final(frame)@[i] == composed_byte(
                old(frame)@,
                frame_width as int,
                frame_height as int,
                icon@,
                icon_width as int,
                icon_height as int,
                draw_width as int,
                draw_height as int,
                i,
            ),
{
    let ghost old_frame = frame@;
    let ghost fw = frame_width as int;
    let ghost fh = frame_height as int;
    let ghost iw = icon_width as int;
    let ghost ih = icon_height as int;
    let ghost dw = draw_width as int;
    let ghost dh = draw_height as int;
    let left: u32 = (frame_width - draw_width) / 2;
    let top: u32 = (frame_height - draw_height) / 2;
    let mut y: u32 = 0;
    assert forall|i: int| 0 <= i < old_frame.len() implies frame@[i] == partly_composed(
        old_frame, fw, fh, icon@, iw, ih, dw, dh, top as int, 0, i,
    ) by {
        if drawn(fw, fh, dw, dh, top as int, 0, i) {
            assert(false);
        }
    }
    while y < draw_height
        invariant
            y <= draw_height,
            left == (fw - dw) / 2,
            top == (fh - dh) / 2,
            left + draw_width <= frame_width,
            top + draw_height <= frame_height,
            fw == frame_width,
            fh == frame_height,
            iw == icon_width,
            ih == icon_height,
            dw == draw_width,
            dh == draw_height,
            1 <= draw_width <= frame_width,
            1 <= draw_height <= frame_height,
            icon_width >= 1,
            icon_height >= 1,
            frame_width * frame_height * 4 <= u32::MAX,
            icon_width * icon_height * 4 <= u32::MAX,
            draw_width * icon_width <= u32::MAX,
            draw_height * icon_height <= u32::MAX,
            icon@.len() >= icon_width * icon_height * 4,
            frame@.len() == old_frame.len(),
            old_frame.len() >= fw * fh * 4,
            forall|i: int|
                0 <= i < old_frame.len() ==> frame@[i] == #[trigger] partly_composed(
                    old_frame, fw, fh, icon@, iw, ih, dw, dh, top + y, left as int, i,
                ),
        decreases draw_height - y,
    {
        let sy = source_index(y, icon_height, draw_height);
        let mut x: u32 = 0;
        while x < draw_width
            invariant
                x <= draw_width,
                y < draw_height,
                sy == min_int(y * ih / dh, ih - 1) as u32,
                sy < icon_height,
                left == (fw - dw) / 2,
                top == (fh - dh) / 2,
                left + draw_width <= frame_width,
                top + draw_height <= frame_height,
                fw == frame_width,
                fh == frame_height,
                iw == icon_width,
                ih == icon_height,
                dw == draw_width,
                dh == draw_height,
                1 <= draw_width <= frame_width,
                1 <= draw_height <= frame_height,
                icon_width >= 1,
                icon_height >= 1,
                frame_width * frame_height * 4 <= u32::MAX,
                icon_width * icon_height * 4 <= u32::MAX,
                draw_width * icon_width <= u32::MAX,
                draw_height * icon_height <= u32::MAX,
                icon@.len() >= icon_width * icon_height * 4,
                frame@.len() == old_frame.len(),
                old_frame.len() >= fw * fh * 4,
                forall|i: int|
                    0 <= i < old_frame.len() ==> frame@[i] == #[trigger] partly_composed(
                        old_frame, fw, fh, icon@, iw, ih, dw, dh, top + y, left + x, i,
                    ),
            decreases draw_width - x,
        {
            let sx = source_index(x, icon_width, draw_width);
            let s0 = pixel_byte_u32(icon_width, icon_height, sx, sy, 0);
            let s1 = pixel_byte_u32(icon_width, icon_height, sx, sy, 1);
            let s2 = pixel_byte_u32(icon_width, icon_height, sx, sy, 2);
            let s3 = pixel_byte_u32(icon_width, icon_height, sx, sy, 3);
            let d0 = pixel_byte_u32(frame_width, frame_height, left + x, top + y, 0);
            let d1 = pixel_byte_u32(frame_width, frame_height, left + x, top + y, 1);
            let d2 = pixel_byte_u32(frame_width, frame_height, left + x, top + y, 2);
            let ghost before = frame@;
            proof {
                assert(!drawn(fw, fh, dw, dh, top + y, left + x, d0 as int));
                assert(!drawn(fw, fh, dw, dh, top + y, left + x, d1 as int));
                assert(!drawn(fw, fh, dw, dh, top + y, left + x, d2 as int));
                assert(frame@[d0 as int] == partly_composed(old_frame, fw, fh, icon@, iw, ih, dw, dh, top + y, left + x, d0 as int));
                assert(frame@[d1 as int] == partly_composed(old_frame, fw, fh, icon@, iw, ih, dw, dh, top + y, left + x, d1 as int));
                assert(frame@[d2 as int] == partly_composed(old_frame, fw, fh, icon@, iw, ih, dw, dh, top + y, left + x, d2 as int));
            }
            let alpha = icon[s3];
            let b0 = over_exec(icon[s2], alpha, frame[d0]);
            let b1 = over_exec(icon[s1], alpha, frame[d1]);
            let b2 = over_exec(icon[s0], alpha, frame[d2]);
            frame.set(d0, b0);
            frame.set(d1, b1);
            frame.set(d2, b2);
            proof {
                assert forall|i: int| 0 <= i < old_frame.len() implies frame@[i] == #[trigger] partly_composed(
                    old_frame, fw, fh, icon@, iw, ih, dw, dh, top + y, left + x + 1, i,
                ) by {
                    if d0 <= i < d0 + 3 {
                        assert(i / 4 == (top + y) * fw + left + x);
                        assert(drawn(fw, fh, dw, dh, top + y, left + x + 1, i));
                    } else {
                        assert(before[i] == partly_composed(old_frame, fw, fh, icon@, iw, ih, dw, dh, top + y, left + x, i));
                        if 0 <= i < fw * fh * 4 && (i / 4) / fw == top + y && (i / 4) % fw == left + x {
                            lemma_same_pixel(fw, i, left + x, top + y);
                            if i % 4 < 3 {
                                assert(false);
                            }
                        }
                    }
                }
            }
            x += 1;
        }
        let ghost row = top + y;
        y += 1;
        proof {
            assert forall|i: int| 0 <= i < old_frame.len() implies frame@[i] == #[trigger] partly_composed(
                old_frame, fw, fh, icon@, iw, ih, dw, dh, top + y, left as int, i,
            ) by {
                assert(frame@[i] == partly_composed(old_frame, fw, fh, icon@, iw, ih, dw, dh, row, left + draw_width, i));
            }
        }
    }
    proof {
        assert forall|i: int| 0 <= i < old_frame.len() implies frame@[i] == composed_byte(
            old_frame, fw, fh, icon@, iw, ih, dw, dh, i,
        ) by {
            assert(frame@[i] == partly_composed(old_frame, fw, fh, icon@, iw, ih, dw, dh, top + dh, left as int, i));
            if !drawn(fw, fh, dw, dh, top + dh, left as int, i) {
                if 0 <= i < fw * fh * 4 && i % 4 < 3 {
                    let p = i / 4;
                    if in_drawing(fw, fh, dw, dh, p % fw, p / fw) {
                        assert(false);
                    }
                }
            }
        }
    }
}

} // verus!
