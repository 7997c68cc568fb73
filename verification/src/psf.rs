//! PC Screen Font (PSF1) bitmap fonts: parsing, glyph lookup and text
//! rendering onto a framebuffer.
use vstd::prelude::*;
use crate::vesa::{
    Framebuffer, FbView, put_px, px_is, on_screen, in_px, rect_covers, geometry_ok, pixel_offset, px_bytes,
    lemma_px_disjoint, lemma_put_px, lemma_offset_fits,
};

verus! {

pub const PSF1_MAGIC0: u8 = 0x36;

pub const PSF1_MAGIC1: u8 = 0x04;

pub const MAX_UNICODE_MAPPINGS: usize = 512;

/// Glyph shown for characters the font cannot map.
pub const FALLBACK_GLYPH: usize = 63;

// ---------------------------------------------------------------- unicode map

/// Appends a mapping unless the map is full.
pub open spec fn map_insert(m: Seq<(u16, u16)>, codepoint: u16, glyph: u16) -> Seq<(u16, u16)> {
    if m.len() < MAX_UNICODE_MAPPINGS {
        m.push((codepoint, glyph))
    } else {
        m
    }
}

/// The glyph of the first mapping for `codepoint` at index `i` or above.
pub open spec fn map_lookup_from(m: Seq<(u16, u16)>, codepoint: u16, i: nat) -> Option<u16>
    decreases m.len() - i,
{
    if i >= m.len() {
        None
    } else if m[i as int].0 == codepoint {
        Some(m[i as int].1)
    } else {
        map_lookup_from(m, codepoint, i + 1)
    }
}

pub open spec fn map_lookup(m: Seq<(u16, u16)>, codepoint: u16) -> Option<u16> {
    map_lookup_from(m, codepoint, 0)
}

/// Codepoint-to-glyph mappings, in insertion order, at most
/// MAX_UNICODE_MAPPINGS of them.
pub struct UnicodeMap {
    entries: Vec<(u16, u16)>,
    len: usize,
}

impl View for UnicodeMap {
    type V = Seq<(u16, u16)>;

    closed spec fn view(&self) -> Seq<(u16, u16)> {
        self.entries@.subrange(0, self.len as int)
    }
}

impl UnicodeMap {
    pub closed spec fn wf(&self) -> bool {
        self.entries.len() == MAX_UNICODE_MAPPINGS && self.len <= MAX_UNICODE_MAPPINGS
    }

    /// An empty map.
    pub fn new() -> (r: Self)
        ensures
            r.wf(),
            r@ == Seq::<(u16, u16)>::empty(),
    {
        let mut entries: Vec<(u16, u16)> = Vec::new();
        let mut i: usize = 0;
        while i < MAX_UNICODE_MAPPINGS
            invariant
                i <= MAX_UNICODE_MAPPINGS,
                entries.len() == i,
            decreases MAX_UNICODE_MAPPINGS - i,
        {
            entries.push((0, 0));
            i += 1;
        }
        let r = UnicodeMap { entries, len: 0 };
        assert(r@ =~= Seq::<(u16, u16)>::empty());
        r
    }

    /// Adds a mapping; ignored once the map is full.
    pub fn insert(&mut self, codepoint: u16, glyph: u16)
        requires
            old(self).wf(),
        ensures
            final(self).wf(),
            final(self)@ == map_insert(old(self)@, codepoint, glyph),
    {
        if self.len < MAX_UNICODE_MAPPINGS {
            self.entries.set(self.len, (codepoint, glyph));
            self.len += 1;
            assert(self@ =~= old(self)@.push((codepoint, glyph)));
        }
    }

    /// The glyph of the first mapping for `codepoint`.
    pub fn lookup(&self, codepoint: u16) -> (r: Option<u16>)
        requires
            self.wf(),
        ensures
            r == map_lookup(self@, codepoint),
    {
        let mut i: usize = 0;
        while i < self.len
            invariant
                self.wf(),
                i <= self.len,
                map_lookup_from(self@, codepoint, i as nat) == map_lookup(self@, codepoint),
            decreases self.len - i,
        {
            if self.entries[i].0 == codepoint {
                return Some(self.entries[i].1);
            }
            i += 1;
        }
        None
    }
}

// ---------------------------------------------------------------- parsing

/// Glyph count of a PSF1 font with mode byte `mode`.
pub open spec fn glyph_count(mode: u8) -> nat {
    if mode & 1 != 0 {
        512
    } else {
        256
    }
}

/// Whether `d` starts with a PSF1 header followed by all its glyphs.
pub open spec fn psf_ok(d: Seq<u8>) -> bool {
    &&& d.len() >= 4
    &&& d[0] == PSF1_MAGIC0
    &&& d[1] == PSF1_MAGIC1
    &&& d.len() >= 4 + glyph_count(d[2]) * d[3]
}

/// The mappings read from a unicode table `t` from byte `off` on, for glyph
/// `glyph` on: little-endian 16-bit values, 0xFFFF ends a glyph's list and
/// 0xFFFE is skipped.
pub open spec fn unicode_scan(t: Seq<u8>, off: nat, glyph: nat, nglyphs: nat, m: Seq<(u16, u16)>) -> Seq<(u16, u16)>
    decreases t.len() - off,
{
    if !(off + 1 < t.len() && glyph < nglyphs) {
        m
    } else {
        let v = t[off as int] as int + 256 * t[off + 1int] as int;
        if v == 0xFFFF {
            unicode_scan(t, off + 2, glyph + 1, nglyphs, m)
        } else if v == 0xFFFE {
            unicode_scan(t, off + 2, glyph, nglyphs, m)
        } else {
            unicode_scan(t, off + 2, glyph, nglyphs, map_insert(m, v as u16, glyph as u16))
        }
    }
}

/// The abstract state of a parsed font.
pub struct FontView {
    pub glyphs: Seq<u8>,
    pub charsize: nat,
    pub width: nat,
    pub height: nat,
    pub num_glyphs: nat,
    pub unicode: Seq<(u16, u16)>,
}

/// The font that `PsfFont::parse` reads from `d` (meaningful when `psf_ok(d)`).
pub open spec fn parsed_font(d: Seq<u8>) -> FontView {
    let n = glyph_count(d[2]);
    let len = n * d[3];
    FontView {
        glyphs: d.subrange(4, 4 + len),
        charsize: d[3] as nat,
        width: 8,
        height: d[3] as nat,
        num_glyphs: n,
        unicode: if d[2] & 2 != 0 {
            unicode_scan(d.subrange(4 + len, d.len() as int), 0, 0, n, seq![])
        } else {
            seq![]
        },
    }
}

// ---------------------------------------------------------------- rendering

/// (r, g, b) of a 0xRRGGBB colour.
pub open spec fn rgb_of(c: u32) -> (u8, u8, u8) {
    (((c >> 16) & 0xFF) as u8, ((c >> 8) & 0xFF) as u8, (c & 0xFF) as u8)
}

/// Whether column `col` (0 = leftmost) of a glyph row is set.
pub open spec fn glyph_bit(bits: u8, col: int) -> bool {
    bits & (0x80u8 >> (col as u8)) != 0
}

/// Drawing columns `col ..` 8 of one glyph row at (x, y).
pub open spec fn glyph_row(
    f: FbView,
    pix: Seq<u8>,
    bits: u8,
    x: int,
    y: int,
    col: int,
    fg: (u8, u8, u8),
    bg: (u8, u8, u8),
) -> Seq<u8>
    decreases 8 - col,
{
    if col >= 8 {
        pix
    } else {
        let c = if glyph_bit(bits, col) { fg } else { bg };
        glyph_row(f, put_px(f, pix, x + col, y, c.0, c.1, c.2), bits, x, y, col + 1, fg, bg)
    }
}

/// Drawing rows `row .. height` of a glyph at (x, y).
pub open spec fn glyph_rows(
    f: FbView,
    pix: Seq<u8>,
    glyph: Seq<u8>,
    x: int,
    y: int,
    row: int,
    height: int,
    fg: (u8, u8, u8),
    bg: (u8, u8, u8),
) -> Seq<u8>
    decreases height - row,
{
    if row >= height {
        pix
    } else {
        glyph_rows(f, glyph_row(f, pix, glyph[row], x, y + row, 0, fg, bg), glyph, x, y, row + 1, height, fg, bg)
    }
}

/// The colour of column `col` of glyph row `bits`.
pub open spec fn glyph_colour(bits: u8, col: int, fg: (u8, u8, u8), bg: (u8, u8, u8)) -> (u8, u8, u8) {
    if glyph_bit(bits, col) {
        fg
    } else {
        bg
    }
}

/// Pixel (xx, yy) of `pix` shows column `xx - x0` of glyph row `bits`.
pub open spec fn glyph_px_ok(
    f: FbView,
    pix: Seq<u8>,
    bits: u8,
    x0: int,
    xx: int,
    yy: int,
    fg: (u8, u8, u8),
    bg: (u8, u8, u8),
) -> bool {
    let c = glyph_colour(bits, xx - x0, fg, bg);
    px_is(f, pix, xx, yy, c.0, c.1, c.2)
}

/// Pixel (xx, yy) of `pix` shows the pixel of `glyph`, drawn at (x0, y0),
/// that falls there.
pub open spec fn char_px_ok(
    f: FbView,
    pix: Seq<u8>,
    glyph: Seq<u8>,
    x0: int,
    y0: int,
    xx: int,
    yy: int,
    fg: (u8, u8, u8),
    bg: (u8, u8, u8),
) -> bool {
    glyph_px_ok(f, pix, glyph[yy - y0], x0, xx, yy, fg, bg)
}

proof fn lemma_glyph_row(
    f: FbView,
    pix: Seq<u8>,
    bits: u8,
    x: int,
    y: int,
    col: int,
    fg: (u8, u8, u8),
    bg: (u8, u8, u8),
)
    requires
        geometry_ok(f, pix),
    ensures
        glyph_row(f, pix, bits, x, y, col, fg, bg).len() == pix.len(),
        forall|xx: int|
            x + col <= xx < x + 8 && on_screen(f, xx, y) ==> #[trigger] glyph_px_ok(
                f,
                glyph_row(f, pix, bits, x, y, col, fg, bg),
                bits,
                x,
                xx,
                y,
                fg,
                bg,
            ),
        forall|k: int|
            0 <= k < pix.len() && !rect_covers(f, k, x + col, x + 8, y, y + 1) ==> #[trigger] glyph_row(
                f,
                pix,
                bits,
                x,
                y,
                col,
                fg,
                bg,
            )[k] == pix[k],
    decreases 8 - col,
{
    if col < 8 {
        let c = glyph_colour(bits, col, fg, bg);
        let p1 = put_px(f, pix, x + col, y, c.0, c.1, c.2);
        lemma_put_px(f, pix, x + col, y, c.0, c.1, c.2);
        lemma_glyph_row(f, p1, bits, x, y, col + 1, fg, bg);
        let res = glyph_row(f, pix, bits, x, y, col, fg, bg);
        assert(res == glyph_row(f, p1, bits, x, y, col + 1, fg, bg));
        assert forall|k: int| 0 <= k < pix.len() && !rect_covers(f, k, x + col, x + 8, y, y + 1) implies #[trigger] res[k]
            == pix[k] by {
            if rect_covers(f, k, x + col + 1, x + 8, y, y + 1) {
                let (xa, ya) = choose|xa: int, ya: int|
                    x + col + 1 <= xa < x + 8 && y <= ya < y + 1 && on_screen(f, xa, ya) && #[trigger] in_px(
                        f,
                        k,
                        xa,
                        ya,
                    );
                assert(in_px(f, k, xa, ya));
            }
            if on_screen(f, x + col, y) && in_px(f, k, x + col, y) {
                assert(in_px(f, k, x + col, y));
            }
        }
        assert forall|xx: int| x + col <= xx < x + 8 && on_screen(f, xx, y) implies #[trigger] glyph_px_ok(
            f,
            res,
            bits,
            x,
            xx,
            y,
            fg,
            bg,
        ) by {
            if xx == x + col {
                let off = pixel_offset(f, xx, y);
                let fv = FbView { pixels: pix, ..f };
                lemma_offset_fits(fv, xx, y);
                assert forall|k: int| off <= k < off + px_bytes(f) implies #[trigger] res[k] == p1[k] by {
                    assert(in_px(f, k, xx, y));
                    if rect_covers(f, k, x + col + 1, x + 8, y, y + 1) {
                        let (xa, ya) = choose|xa: int, ya: int|
                            x + col + 1 <= xa < x + 8 && y <= ya < y + 1 && on_screen(f, xa, ya) && #[trigger] in_px(
                                f,
                                k,
                                xa,
                                ya,
                            );
                        lemma_px_disjoint(f, k, xx, y, xa, ya);
                    }
                }
                assert(res[off] == p1[off]);
                assert(res[off + 1] == p1[off + 1]);
                assert(res[off + 2] == p1[off + 2]);
                if f.bpp >= 4 {
                    assert(res[off + 3] == p1[off + 3]);
                }
            }
        }
    }
}

proof fn lemma_glyph_rows(
    f: FbView,
    pix: Seq<u8>,
    glyph: Seq<u8>,
    x: int,
    y: int,
    row: int,
    height: int,
    fg: (u8, u8, u8),
    bg: (u8, u8, u8),
)
    requires
        geometry_ok(f, pix),
        0 <= row,
    ensures
        glyph_rows(f, pix, glyph, x, y, row, height, fg, bg).len() == pix.len(),
        forall|xx: int, yy: int|
            x <= xx < x + 8 && y + row <= yy < y + height && on_screen(f, xx, yy) ==> #[trigger] char_px_ok(
                f,
                glyph_rows(f, pix, glyph, x, y, row, height, fg, bg),
                glyph,
                x,
                y,
                xx,
                yy,
                fg,
                bg,
            ),
        forall|k: int|
            0 <= k < pix.len() && !rect_covers(f, k, x, x + 8, y + row, y + height) ==> #[trigger] glyph_rows(
                f,
                pix,
                glyph,
                x,
                y,
                row,
                height,
                fg,
                bg,
            )[k] == pix[k],
    decreases height - row,
{
    if row < height {
        let p1 = glyph_row(f, pix, glyph[row], x, y + row, 0, fg, bg);
        lemma_glyph_row(f, pix, glyph[row], x, y + row, 0, fg, bg);
        lemma_glyph_rows(f, p1, glyph, x, y, row + 1, height, fg, bg);
        let res = glyph_rows(f, pix, glyph, x, y, row, height, fg, bg);
        assert(res == glyph_rows(f, p1, glyph, x, y, row + 1, height, fg, bg));
        assert forall|k: int| 0 <= k < pix.len() && !rect_covers(f, k, x, x + 8, y + row, y + height) implies #[trigger] res[k]
            == pix[k] by {
            if rect_covers(f, k, x, x + 8, y + row + 1, y + height) {
                let (xa, ya) = choose|xa: int, ya: int|
                    x <= xa < x + 8 && y + row + 1 <= ya < y + height && on_screen(f, xa, ya) && #[trigger] in_px(
                        f,
                        k,
                        xa,
                        ya,
                    );
                assert(in_px(f, k, xa, ya));
            }
            if rect_covers(f, k, x + 0, x + 8, y + row, y + row + 1) {
                let (xa, ya) = choose|xa: int, ya: int|
                    x + 0 <= xa < x + 8 && y + row <= ya < y + row + 1 && on_screen(f, xa, ya) && #[trigger] in_px(
                        f,
                        k,
                        xa,
                        ya,
                    );
                assert(in_px(f, k, xa, ya));
            }
        }
        assert forall|xx: int, yy: int|
            x <= xx < x + 8 && y + row <= yy < y + height && on_screen(f, xx, yy) implies #[trigger] char_px_ok(
            f,
            res,
            glyph,
            x,
            y,
            xx,
            yy,
            fg,
            bg,
        ) by {
            if yy == y + row {
                assert(glyph_px_ok(f, p1, glyph[row], x, xx, yy, fg, bg));
                let off = pixel_offset(f, xx, yy);
                let fv = FbView { pixels: pix, ..f };
                lemma_offset_fits(fv, xx, yy);
                assert forall|k: int| off <= k < off + px_bytes(f) implies #[trigger] res[k] == p1[k] by {
                    assert(in_px(f, k, xx, yy));
                    if rect_covers(f, k, x, x + 8, y + row + 1, y + height) {
                        let (xa, ya) = choose|xa: int, ya: int|
                            x <= xa < x + 8 && y + row + 1 <= ya < y + height && on_screen(f, xa, ya)
                                && #[trigger] in_px(f, k, xa, ya);
                        lemma_px_disjoint(f, k, xx, yy, xa, ya);
                    }
                }
                assert(res[off] == p1[off]);
                assert(res[off + 1] == p1[off + 1]);
                assert(res[off + 2] == p1[off + 2]);
                if f.bpp >= 4 {
                    assert(res[off + 3] == p1[off + 3]);
                }
            }
        }
    }
}

/// The glyph bitmap shown for `codepoint` (meaningful when its index is
/// below `num_glyphs`).
pub open spec fn glyph_of(font: FontView, codepoint: u32) -> Seq<u8> {
    let idx = glyph_index_of(font, codepoint);
    font.glyphs.subrange((idx * font.charsize) as int, ((idx + 1) * font.charsize) as int)
}

/// The glyph shown for `codepoint`: itself for ASCII, else its unicode
/// mapping (by the low 16 bits), else FALLBACK_GLYPH.
pub open spec fn glyph_index_of(font: FontView, codepoint: u32) -> nat {
    if codepoint < 0x80 && codepoint < font.num_glyphs {
        codepoint as nat
    } else {
        match map_lookup(font.unicode, codepoint as u16) {
            Some(g) => g as nat,
            None => FALLBACK_GLYPH as nat,
        }
    }
}

/// The buffer after drawing `codepoint` at (x, y).
pub open spec fn draw_char_pixels(font: FontView, f: FbView, x: int, y: int, codepoint: u32, fg: u32, bg: u32) -> Seq<u8> {
    let idx = glyph_index_of(font, codepoint);
    if idx >= font.num_glyphs {
        f.pixels
    } else {
        glyph_rows(
            f,
            f.pixels,
            font.glyphs.subrange((idx * font.charsize) as int, ((idx + 1) * font.charsize) as int),
            x,
            y,
            0,
            font.height as int,
            rgb_of(fg),
            rgb_of(bg),
        )
    }
}

/// The buffer after drawing characters `i ..` of `chars` with the cursor at
/// (cx, cy): a newline or a character that would cross the right edge moves
/// to column `x` of the next line; drawing stops at a line that would cross
/// the bottom edge.
pub open spec fn draw_str_from(
    font: FontView,
    f: FbView,
    chars: Seq<char>,
    i: nat,
    x: int,
    cx: int,
    cy: int,
    fg: u32,
    bg: u32,
) -> Seq<u8>
    decreases chars.len() - i,
{
    if i >= chars.len() {
        f.pixels
    } else if chars[i as int] == '\n' {
        draw_str_from(font, f, chars, i + 1, x, x, cy + font.height, fg, bg)
    } else {
        let wrap = cx + font.width > f.width;
        let cx2 = if wrap { x } else { cx };
        let cy2 = if wrap { cy + font.height } else { cy };
        if cy2 + font.height > f.height {
            f.pixels
        } else {
            let f2 = FbView { pixels: draw_char_pixels(font, f, cx2, cy2, chars[i as int] as u32, fg, bg), ..f };
            draw_str_from(font, f2, chars, i + 1, x, cx2 + font.width, cy2, fg, bg)
        }
    }
}

/// Whether drawing `chars` from index `i` with the pen at (cx, cy), as
/// `draw_str_from` describes, keeps every coordinate it computes within
/// `usize` on a `fw` x `fh` framebuffer: the next line after a newline or a
/// wrap, the right and bottom edges it tests, and the pen after each glyph
/// drawn.  Nothing past the point where drawing stops is asked.
pub open spec fn str_fits(
    font: FontView,
    fw: int,
    fh: int,
    chars: Seq<char>,
    i: nat,
    x: int,
    cx: int,
    cy: int,
) -> bool
    decreases chars.len() - i,
{
    if i >= chars.len() {
        true
    } else if chars[i as int] == '\n' {
        cy + font.height <= usize::MAX && str_fits(font, fw, fh, chars, i + 1, x, x, cy + font.height)
    } else {
        let wrap = cx + font.width > fw;
        let cx2 = if wrap { x } else { cx };
        let cy2 = if wrap { cy + font.height } else { cy };
        &&& cx + font.width <= usize::MAX
        &&& cy2 + font.height <= usize::MAX
        &&& cy2 + font.height <= fh ==> {
            &&& cx2 + font.width <= usize::MAX
            &&& str_fits(font, fw, fh, chars, i + 1, x, cx2 + font.width, cy2)
        }
    }
}

pub struct PsfFont<'a> {
    glyphs: &'a [u8],
    charsize: usize,
    width: usize,
    height: usize,
    num_glyphs: usize,
    unicode_map: UnicodeMap,
}

impl<'a> View for PsfFont<'a> {
    type V = FontView;

    closed spec fn view(&self) -> FontView {
        FontView {
            glyphs: self.glyphs@,
            charsize: self.charsize as nat,
            width: self.width as nat,
            height: self.height as nat,
            num_glyphs: self.num_glyphs as nat,
            unicode: self.unicode_map@,
        }
    }
}

impl<'a> PsfFont<'a> {
    #[verifier::type_invariant]
    closed spec fn inv(&self) -> bool {
        &&& self.unicode_map.wf()
        &&& self.charsize < 256
        &&& self.height == self.charsize
        &&& self.width == 8
        &&& (self.num_glyphs == 256 || self.num_glyphs == 512)
        &&& self.glyphs@.len() == self.num_glyphs * self.charsize
    }

    /// Parses a PSF1 font; `None` without the magic bytes or when the data
    /// is shorter than the glyphs it announces.
    pub fn parse(data: &'a [u8]) -> (r: Option<Self>)
        ensures
            r is Some == psf_ok(data@),
            r matches Some(font) ==> font@ == parsed_font(data@),
    {
        if data.len() < 4 || data[0] != PSF1_MAGIC0 || data[1] != PSF1_MAGIC1 {
            return None;
        }
        let mode = data[2];
        let charsize = data[3] as usize;
        let num_glyphs: usize = if mode & 0x01 != 0 { 512 } else { 256 };
        let glyph_data_len = num_glyphs * charsize;
        if data.len() < 4 + glyph_data_len {
            return None;
        }
        let mut unicode_map = UnicodeMap::new();
        let has_unicode = mode & 0x02 != 0;
        if has_unicode {
            let table = &data[4 + glyph_data_len..data.len()];
            let mut off: usize = 0;
            let mut glyph_idx: u16 = 0;
            let ghost result = unicode_scan(table@, 0, 0, num_glyphs as nat, seq![]);
            while off < table.len() && table.len() - off > 1 && (glyph_idx as usize) < num_glyphs
                invariant
                    unicode_map.wf(),
                    num_glyphs <= 512,
                    off <= table@.len(),
                    glyph_idx <= num_glyphs,
                    unicode_scan(table@, off as nat, glyph_idx as nat, num_glyphs as nat, unicode_map@)
                        == result,
                decreases table@.len() - off,
            {
                let lo = table[off];
                let hi = table[off + 1];
                let v = (lo as u16) | ((hi as u16) << 8);
                proof {
                    assert(v as int == lo as int + 256 * hi as int) by (bit_vector)
                        requires
                            v == (lo as u16) | ((hi as u16) << 8),
                    ;
                }
                off += 2;
                if v == 0xFFFF {
                    glyph_idx += 1;
                } else if v == 0xFFFE {
                    continue;
                } else {
                    unicode_map.insert(v, glyph_idx);
                }
            }
        } else {
            assert(unicode_map@ =~= seq![]);
        }
        let glyphs = &data[4..4 + glyph_data_len];
        Some(PsfFont { glyphs, charsize, width: 8, height: charsize, num_glyphs, unicode_map })
    }

    pub fn charsize(&self) -> (r: usize)
        ensures
            r == self@.charsize,
    {
        self.charsize
    }

    pub fn width(&self) -> (r: usize)
        ensures
            r == self@.width,
    {
        self.width
    }

    pub fn height(&self) -> (r: usize)
        ensures
            r == self@.height,
    {
        self.height
    }

    /// The glyph shown for `codepoint`.
    pub fn glyph_index(&self, codepoint: u32) -> (r: usize)
        ensures
            r == glyph_index_of(self@, codepoint),
    {
        proof {
            use_type_invariant(self);
        }
        if codepoint < 0x80 && (codepoint as usize) < self.num_glyphs {
            return codepoint as usize;
        }
        if let Some(idx) = self.unicode_map.lookup(codepoint as u16) {
            return idx as usize;
        }
        FALLBACK_GLYPH
    }

    /// Draws the glyph of `codepoint` with its top-left corner at (x, y):
    /// set bits in `fg`, clear bits in `bg` (0xRRGGBB).
    pub fn draw_char(&self, fb: &mut Framebuffer, x: usize, y: usize, codepoint: u32, fg: u32, bg: u32)
        requires
            old(fb).wf(),
            x + self@.width <= usize::MAX,
            y + self@.height <= usize::MAX,
        ensures
            final(fb).wf(),
            final(fb)@ == (FbView {
                pixels: draw_char_pixels(self@, old(fb)@, x as int, y as int, codepoint, fg, bg),
                ..old(fb)@
            }),
            glyph_index_of(self@, codepoint) < self@.num_glyphs ==> forall|xx: int, yy: int|
                x <= xx < x + 8 && y <= yy < y + self@.height && on_screen(old(fb)@, xx, yy) ==> #[trigger] char_px_ok(
                    old(fb)@,
                    final(fb)@.pixels,
                    glyph_of(self@, codepoint),
                    x as int,
                    y as int,
                    xx,
                    yy,
                    rgb_of(fg),
                    rgb_of(bg),
                ),
            forall|k: int|
                0 <= k < old(fb)@.pixels.len() && !rect_covers(
                    old(fb)@,
                    k,
                    x as int,
                    x + 8,
                    y as int,
                    y + self@.height,
                ) ==> #[trigger] final(fb)@.pixels[k] == old(fb)@.pixels[k],
    {
        proof {
            use_type_invariant(self);
            let f0 = old(fb)@;
            lemma_glyph_rows(
                f0,
                f0.pixels,
                glyph_of(self@, codepoint),
                x as int,
                y as int,
                0,
                self@.height as int,
                rgb_of(fg),
                rgb_of(bg),
            );
        }
        let idx = self.glyph_index(codepoint);
        if idx >= self.num_glyphs {
            return;
        }
        proof {
            assert((idx + 1) * self.charsize <= self.num_glyphs * self.charsize) by (nonlinear_arith)
                requires
                    idx < self.num_glyphs,
            ;
            assert((idx + 1) * self.charsize == idx * self.charsize + self.charsize) by (nonlinear_arith);
            assert((idx + 1) * self.charsize <= 512 * 256) by (nonlinear_arith)
                requires
                    idx < self.num_glyphs,
                    self.num_glyphs <= 512,
                    self.charsize < 256,
            ;
        }
        let glyph = &self.glyphs[idx * self.charsize..(idx + 1) * self.charsize];
        let fg_r = ((fg >> 16) & 0xFF) as u8;
        let fg_g = ((fg >> 8) & 0xFF) as u8;
        let fg_b = (fg & 0xFF) as u8;
        let bg_r = ((bg >> 16) & 0xFF) as u8;
        let bg_g = ((bg >> 8) & 0xFF) as u8;
        let bg_b = (bg & 0xFF) as u8;
        let ghost f0 = fb@;
        let ghost fgc = rgb_of(fg);
        let ghost bgc = rgb_of(bg);
        let mut row: usize = 0;
        while row < self.height
            invariant
                fb.wf(),
                fb@.width == f0.width,
                fb@.height == f0.height,
                fb@.pitch == f0.pitch,
                fb@.bpp == f0.bpp,
                self.height == self.charsize,
                self.width == 8,
                glyph@.len() == self.charsize,
                row <= self.height,
                x + 8 <= usize::MAX,
                y + self.height <= usize::MAX,
                fgc == (fg_r, fg_g, fg_b),
                bgc == (bg_r, bg_g, bg_b),
                glyph_rows(f0, fb@.pixels, glyph@, x as int, y as int, row as int, self.height as int, fgc, bgc)
                    == glyph_rows(f0, f0.pixels, glyph@, x as int, y as int, 0, self.height as int, fgc, bgc),
            decreases self.height - row,
        {
            let bits = glyph[row];
            let ghost row_start = fb@.pixels;
            let mut col: usize = 0;
            while col < self.width
                invariant
                    fb.wf(),
                    fb@.width == f0.width,
                    fb@.height == f0.height,
                    fb@.pitch == f0.pitch,
                    fb@.bpp == f0.bpp,
                    self.width == 8,
                    col <= 8,
                    x + 8 <= usize::MAX,
                    row < self.height,
                    y + self.height <= usize::MAX,
                    glyph_row(f0, fb@.pixels, bits, x as int, (y + row) as int, col as int, fgc, bgc)
                        == glyph_row(f0, row_start, bits, x as int, (y + row) as int, 0, fgc, bgc),
                    fgc == (fg_r, fg_g, fg_b),
                    bgc == (bg_r, bg_g, bg_b),
                decreases 8 - col,
            {
                if bits & (0x80 >> col) != 0 {
                    proof {
                        assert(glyph_bit(bits, col as int));
                    }
                    fb.put_pixel(x + col, y + row, fg_r, fg_g, fg_b);
                } else {
                    fb.put_pixel(x + col, y + row, bg_r, bg_g, bg_b);
                }
                col += 1;
            }
            row += 1;
        }
    }

    /// Whether `draw_str(fb, x, y, s, ..)` keeps its coordinates within
    /// `usize` (`str_fits`).
    pub fn fits_str(&self, fb: &Framebuffer, x: usize, y: usize, s: &str) -> (r: bool)
        ensures
            r == str_fits(self@, fb@.width as int, fb@.height as int, s@, 0, x as int, x as int, y as int),
    {
        let ghost chars = s@;
        let fw = fb.width();
        let fh = fb.height();
        let w = self.width();
        let h = self.height();
        let mut cx = x;
        let mut cy = y;
        for ch in it: s.chars()
            invariant
                it.seq() == chars,
                chars == s@,
                fw == fb@.width,
                fh == fb@.height,
                w == self@.width,
                h == self@.height,
                str_fits(self@, fw as int, fh as int, chars, it.index() as nat, x as int, cx as int, cy as int)
                    == str_fits(self@, fw as int, fh as int, chars, 0, x as int, x as int, y as int),
        {
            if ch == '\n' {
                if cy > usize::MAX - h {
                    return false;
                }
                cx = x;
                cy = cy + h;
            } else {
                if cx > usize::MAX - w {
                    return false;
                }
                if cx + w > fw {
                    if cy > usize::MAX - h {
                        return false;
                    }
                    cx = x;
                    cy = cy + h;
                }
                if cy > usize::MAX - h {
                    return false;
                }
                if cy + h > fh {
                    return true;
                }
                if cx > usize::MAX - w {
                    return false;
                }
                cx = cx + w;
            }
        }
        true
    }

    /// Draws `s` from (x, y) as `draw_str_from` describes.
    pub fn draw_str(&self, fb: &mut Framebuffer, x: usize, y: usize, s: &str, fg: u32, bg: u32)
        requires
            old(fb).wf(),
            str_fits(self@, old(fb)@.width as int, old(fb)@.height as int, s@, 0, x as int, x as int, y as int),
        ensures
            final(fb).wf(),
            final(fb)@ == (FbView {
                pixels: draw_str_from(self@, old(fb)@, s@, 0, x as int, x as int, y as int, fg, bg),
                ..old(fb)@
            }),
    {
        proof {
            use_type_invariant(self);
        }
        let ghost f0 = fb@;
        let ghost chars = s@;
        let mut cx = x;
        let mut cy = y;
        for ch in it: s.chars()
            invariant_except_break
                fb.wf(),
                f0 == old(fb)@,
                fb@.width == f0.width,
                fb@.height == f0.height,
                fb@.pitch == f0.pitch,
                fb@.bpp == f0.bpp,
                it.seq() == chars,
                chars == s@,
                self.width == 8,
                self@.width == 8,
                self@.height == self.height,
                str_fits(self@, f0.width as int, f0.height as int, chars, it.index() as nat, x as int, cx as int, cy as int),
                draw_str_from(self@, fb@, chars, it.index() as nat, x as int, cx as int, cy as int, fg, bg)
                    == draw_str_from(self@, f0, chars, 0, x as int, x as int, y as int, fg, bg),
            ensures
                fb.wf(),
                fb@ == (FbView {
                    pixels: draw_str_from(self@, f0, chars, 0, x as int, x as int, y as int, fg, bg),
                    ..f0
                }),
        {
            if ch == '\n' {
                cx = x;
                cy += self.height;
            } else {
                if cx + self.width > fb.width() {
                    cx = x;
                    cy += self.height;
                }
                if cy + self.height > fb.height() {
                    break;
                }
                self.draw_char(fb, cx, cy, ch as u32, fg, bg);
                cx += self.width;
            }
        }
    }
}

} // verus!
