//! A linear framebuffer: `height` rows of `pitch` bytes, `bpp` bytes per
//! pixel stored blue, green, red (and an alpha byte of 0xFF when there is a
//! fourth byte).
use vstd::prelude::*;

verus! {

/// The abstract state of a framebuffer.
pub struct FbView {
    pub width: nat,
    pub height: nat,
    pub pitch: nat,
    pub bpp: nat,
    pub pixels: Seq<u8>,
}

/// The framebuffer invariant: each row's pixels fit in its pitch and every
/// row fits in the buffer.
pub open spec fn fb_wf(f: FbView) -> bool {
    &&& f.bpp >= 3
    &&& f.width * f.bpp <= f.pitch
    &&& f.pitch <= usize::MAX
    &&& f.height * f.pitch <= f.pixels.len()
}

/// Byte offset of pixel (x, y).
pub open spec fn pixel_offset(f: FbView, x: int, y: int) -> int {
    y * f.pitch + x * f.bpp
}

/// The buffer after writing colour (r, g, b) at (x, y) of a framebuffer of
/// `f`'s geometry holding `pix`; pixels off the screen are ignored.
pub open spec fn put_px(f: FbView, pix: Seq<u8>, x: int, y: int, r: u8, g: u8, b: u8) -> Seq<u8> {
    if x < 0 || y < 0 || x >= f.width || y >= f.height {
        pix
    } else {
        let off = pixel_offset(f, x, y);
        let p1 = pix.update(off, b).update(off + 1, g).update(off + 2, r);
        if f.bpp >= 4 {
            p1.update(off + 3, 0xFF)
        } else {
            p1
        }
    }
}

/// Filling columns `x .. xend` of row `y`, left to right.
pub open spec fn fill_row(f: FbView, pix: Seq<u8>, x: int, xend: int, y: int, r: u8, g: u8, b: u8) -> Seq<u8>
    decreases xend - x,
{
    if x >= xend {
        pix
    } else {
        fill_row(f, put_px(f, pix, x, y, r, g, b), x + 1, xend, y, r, g, b)
    }
}

/// Filling rows `y .. yend`, top to bottom, each from column `x0` to `xend`.
pub open spec fn fill_rows(
    f: FbView,
    pix: Seq<u8>,
    x0: int,
    xend: int,
    y: int,
    yend: int,
    r: u8,
    g: u8,
    b: u8,
) -> Seq<u8>
    decreases yend - y,
{
    if y >= yend {
        pix
    } else {
        fill_rows(f, fill_row(f, pix, x0, xend, y, r, g, b), x0, xend, y + 1, yend, r, g, b)
    }
}

/// The colour stored at (x, y), as (r, g, b).
pub open spec fn pixel_rgb(f: FbView, pix: Seq<u8>, x: int, y: int) -> (u8, u8, u8) {
    let off = pixel_offset(f, x, y);
    (pix[off + 2], pix[off + 1], pix[off])
}

/// The bytes of a pixel that a write sets: blue, green, red, and the alpha
/// byte when there is a fourth.
pub open spec fn px_bytes(f: FbView) -> int {
    if f.bpp >= 4 {
        4
    } else {
        3
    }
}

pub open spec fn on_screen(f: FbView, x: int, y: int) -> bool {
    0 <= x < f.width && 0 <= y < f.height
}

/// Byte `k` is one that writing pixel (x, y) sets.
pub open spec fn in_px(f: FbView, k: int, x: int, y: int) -> bool {
    pixel_offset(f, x, y) <= k < pixel_offset(f, x, y) + px_bytes(f)
}

/// Pixel (x, y) of `pix` holds colour (r, g, b), with an opaque alpha
/// byte when there is one.
pub open spec fn px_is(f: FbView, pix: Seq<u8>, x: int, y: int, r: u8, g: u8, b: u8) -> bool {
    &&& pixel_rgb(f, pix, x, y) == (r, g, b)
    &&& f.bpp >= 4 ==> pix[pixel_offset(f, x, y) + 3] == 0xFF
}

/// Byte `k` is set when filling columns `x0 .. xend` of rows `y0 .. yend`.
pub open spec fn rect_covers(f: FbView, k: int, x0: int, xend: int, y0: int, yend: int) -> bool {
    exists|x: int, y: int| x0 <= x < xend && y0 <= y < yend && on_screen(f, x, y) && #[trigger] in_px(f, k, x, y)
}

/// The geometry part of `fb_wf`, for a buffer `pix` of that geometry.
pub open spec fn geometry_ok(f: FbView, pix: Seq<u8>) -> bool {
    &&& f.bpp >= 3
    &&& f.width * f.bpp <= f.pitch
    &&& f.pitch <= usize::MAX
    &&& f.height * f.pitch <= pix.len()
}

/// Distinct on-screen pixels set distinct bytes.
pub proof fn lemma_px_disjoint(f: FbView, k: int, x: int, y: int, x2: int, y2: int)
    requires
        f.bpp >= 3,
        f.width * f.bpp <= f.pitch,
        on_screen(f, x, y),
        on_screen(f, x2, y2),
        in_px(f, k, x, y),
        in_px(f, k, x2, y2),
    ensures
        x == x2 && y == y2,
{
    let pb = px_bytes(f);
    assert(pb <= f.bpp);
    if y < y2 {
        assert(y * f.pitch + x * f.bpp + pb <= y2 * f.pitch + x2 * f.bpp) by (nonlinear_arith)
            requires
                0 <= x < f.width,
                0 <= x2,
                y < y2,
                0 <= y,
                f.width * f.bpp <= f.pitch,
                pb <= f.bpp,
        ;
    } else if y2 < y {
        assert(y2 * f.pitch + x2 * f.bpp + pb <= y * f.pitch + x * f.bpp) by (nonlinear_arith)
            requires
                0 <= x2 < f.width,
                0 <= x,
                y2 < y,
                0 <= y2,
                f.width * f.bpp <= f.pitch,
                pb <= f.bpp,
        ;
    } else if x < x2 {
        assert(x * f.bpp + pb <= x2 * f.bpp) by (nonlinear_arith)
            requires
                x < x2,
                pb <= f.bpp,
        ;
    } else if x2 < x {
        assert(x2 * f.bpp + pb <= x * f.bpp) by (nonlinear_arith)
            requires
                x2 < x,
                pb <= f.bpp,
        ;
    }
}

pub proof fn lemma_put_px(f: FbView, pix: Seq<u8>, x: int, y: int, r: u8, g: u8, b: u8)
    requires
        geometry_ok(f, pix),
    ensures
        put_px(f, pix, x, y, r, g, b).len() == pix.len(),
        on_screen(f, x, y) ==> px_is(f, put_px(f, pix, x, y, r, g, b), x, y, r, g, b),
        forall|k: int| 0 <= k < pix.len() && !in_px(f, k, x, y) ==> #[trigger] put_px(f, pix, x, y, r, g, b)[k]
            == pix[k],
{
    if on_screen(f, x, y) {
        let fv = FbView { pixels: pix, ..f };
        lemma_offset_fits(fv, x, y);
    }
}

proof fn lemma_fill_row(f: FbView, pix: Seq<u8>, x: int, xend: int, y: int, r: u8, g: u8, b: u8)
    requires
        geometry_ok(f, pix),
    ensures
        fill_row(f, pix, x, xend, y, r, g, b).len() == pix.len(),
        forall|x2: int| x <= x2 < xend && on_screen(f, x2, y) ==> #[trigger] px_is(
            f,
            fill_row(f, pix, x, xend, y, r, g, b),
            x2,
            y,
            r,
            g,
            b,
        ),
        forall|k: int|
            0 <= k < pix.len() && !rect_covers(f, k, x, xend, y, y + 1) ==> #[trigger] fill_row(
                f,
                pix,
                x,
                xend,
                y,
                r,
                g,
                b,
            )[k] == pix[k],
    decreases xend - x,
{
    if x < xend {
        let p1 = put_px(f, pix, x, y, r, g, b);
        lemma_put_px(f, pix, x, y, r, g, b);
        lemma_fill_row(f, p1, x + 1, xend, y, r, g, b);
        let res = fill_row(f, pix, x, xend, y, r, g, b);
        assert(res == fill_row(f, p1, x + 1, xend, y, r, g, b));
        assert forall|k: int| 0 <= k < pix.len() && !rect_covers(f, k, x, xend, y, y + 1) implies #[trigger] res[k]
            == pix[k] by {
            if rect_covers(f, k, x + 1, xend, y, y + 1) {
                let (xa, ya) = choose|xa: int, ya: int|
                    x + 1 <= xa < xend && y <= ya < y + 1 && on_screen(f, xa, ya) && #[trigger] in_px(f, k, xa, ya);
                assert(in_px(f, k, xa, ya));
            }
            if on_screen(f, x, y) && in_px(f, k, x, y) {
                assert(in_px(f, k, x, y));
            }
        }
        assert forall|x2: int| x <= x2 < xend && on_screen(f, x2, y) implies #[trigger] px_is(f, res, x2, y, r, g, b) by {
            if x2 == x {
                let off = pixel_offset(f, x, y);
                let fv = FbView { pixels: pix, ..f };
                lemma_offset_fits(fv, x, y);
                assert forall|k: int| off <= k < off + px_bytes(f) implies #[trigger] res[k] == p1[k] by {
                    assert(in_px(f, k, x, y));
                    if rect_covers(f, k, x + 1, xend, y, y + 1) {
                        let (xa, ya) = choose|xa: int, ya: int|
                            x + 1 <= xa < xend && y <= ya < y + 1 && on_screen(f, xa, ya) && #[trigger] in_px(
                                f,
                                k,
                                xa,
                                ya,
                            );
                        lemma_px_disjoint(f, k, x, y, xa, ya);
                    }
                }
                assert(res[off] == p1[off]);
                assert(res[off + 1] == p1[off + 1]);
                assert(res[off + 2] == p1[off + 2]);
                if f.bpp >= 4 {
                    assert(res[off + 3] == p1[off + 3]);
                }
            }
        }
    }
}

proof fn lemma_fill_rows(
    f: FbView,
    pix: Seq<u8>,
    x0: int,
    xend: int,
    y: int,
    yend: int,
    r: u8,
    g: u8,
    b: u8,
)
    requires
        geometry_ok(f, pix),
    ensures
        fill_rows(f, pix, x0, xend, y, yend, r, g, b).len() == pix.len(),
        forall|x2: int, y2: int|
            x0 <= x2 < xend && y <= y2 < yend && on_screen(f, x2, y2) ==> #[trigger] px_is(
                f,
                fill_rows(f, pix, x0, xend, y, yend, r, g, b),
                x2,
                y2,
                r,
                g,
                b,
            ),
        forall|k: int|
            0 <= k < pix.len() && !rect_covers(f, k, x0, xend, y, yend) ==> #[trigger] fill_rows(
                f,
                pix,
                x0,
                xend,
                y,
                yend,
                r,
                g,
                b,
            )[k] == pix[k],
    decreases yend - y,
{
    if y < yend {
        let p1 = fill_row(f, pix, x0, xend, y, r, g, b);
        lemma_fill_row(f, pix, x0, xend, y, r, g, b);
        lemma_fill_rows(f, p1, x0, xend, y + 1, yend, r, g, b);
        let res = fill_rows(f, pix, x0, xend, y, yend, r, g, b);
        assert(res == fill_rows(f, p1, x0, xend, y + 1, yend, r, g, b));
        assert forall|k: int| 0 <= k < pix.len() && !rect_covers(f, k, x0, xend, y, yend) implies #[trigger] res[k]
            == pix[k] by {
            if rect_covers(f, k, x0, xend, y + 1, yend) {
                let (xa, ya) = choose|xa: int, ya: int|
                    x0 <= xa < xend && y + 1 <= ya < yend && on_screen(f, xa, ya) && #[trigger] in_px(f, k, xa, ya);
                assert(in_px(f, k, xa, ya));
            }
            if rect_covers(f, k, x0, xend, y, y + 1) {
                let (xa, ya) = choose|xa: int, ya: int|
                    x0 <= xa < xend && y <= ya < y + 1 && on_screen(f, xa, ya) && #[trigger] in_px(f, k, xa, ya);
                assert(in_px(f, k, xa, ya));
            }
        }
        assert forall|x2: int, y2: int|
            x0 <= x2 < xend && y <= y2 < yend && on_screen(f, x2, y2) implies #[trigger] px_is(f, res, x2, y2, r, g, b) by {
            if y2 == y {
                assert(px_is(f, p1, x2, y, r, g, b));
                let off = pixel_offset(f, x2, y);
                let fv = FbView { pixels: pix, ..f };
                lemma_offset_fits(fv, x2, y);
                assert forall|k: int| off <= k < off + px_bytes(f) implies #[trigger] res[k] == p1[k] by {
                    assert(in_px(f, k, x2, y));
                    if rect_covers(f, k, x0, xend, y + 1, yend) {
                        let (xa, ya) = choose|xa: int, ya: int|
                            x0 <= xa < xend && y + 1 <= ya < yend && on_screen(f, xa, ya) && #[trigger] in_px(
                                f,
                                k,
                                xa,
                                ya,
                            );
                        lemma_px_disjoint(f, k, x2, y, xa, ya);
                    }
                }
                assert(res[off] == p1[off]);
                assert(res[off + 1] == p1[off + 1]);
                assert(res[off + 2] == p1[off + 2]);
                if f.bpp >= 4 {
                    assert(res[off + 3] == p1[off + 3]);
                }
            }
        }
    }
}

pub struct Framebuffer {
    pixels: Vec<u8>,
    width: usize,
    height: usize,
    pitch: usize,
    bpp: usize,
}

impl View for Framebuffer {
    type V = FbView;

    closed spec fn view(&self) -> FbView {
        FbView {
            width: self.width as nat,
            height: self.height as nat,
            pitch: self.pitch as nat,
            bpp: self.bpp as nat,
            pixels: self.pixels@,
        }
    }
}

pub proof fn lemma_offset_fits(f: FbView, x: int, y: int)
    requires
        fb_wf(f),
        0 <= x < f.width,
        0 <= y < f.height,
    ensures
        0 <= pixel_offset(f, x, y),
        pixel_offset(f, x, y) + f.bpp <= f.pixels.len(),
        0 <= y * f.pitch <= f.pixels.len(),
        0 <= x * f.bpp <= f.pixels.len(),
{
    assert(0 <= y * f.pitch && 0 <= x * f.bpp) by (nonlinear_arith)
        requires
            0 <= x,
            0 <= y,
    ;
    assert(0 <= y * f.pitch + x * f.bpp) by (nonlinear_arith)
        requires
            0 <= x,
            0 <= y,
    ;
    assert(y * f.pitch + x * f.bpp + f.bpp <= f.height * f.pitch) by (nonlinear_arith)
        requires
            x < f.width,
            y < f.height,
            f.width * f.bpp <= f.pitch,
            0 <= x,
            0 <= y,
    ;
}

impl Framebuffer {
    pub open spec fn wf(&self) -> bool {
        fb_wf(self@)
    }

    /// A framebuffer over `pixels`, `width` by `height` pixels of `bpp`
    /// bytes with rows `pitch` bytes apart.
    pub fn new(pixels: Vec<u8>, width: usize, height: usize, pitch: usize, bpp: usize) -> (r: Self)
        requires
            bpp >= 3,
            width * bpp <= pitch,
            height * pitch <= pixels@.len(),
        ensures
            r.wf(),
            r@ == (FbView {
                width: width as nat,
                height: height as nat,
                pitch: pitch as nat,
                bpp: bpp as nat,
                pixels: pixels@,
            }),
    {
        Framebuffer { pixels, width, height, pitch, bpp }
    }

    pub fn width(&self) -> (r: usize)
        ensures
            r == self@.width,
    {
        self.width
    }

    pub fn height(&self) -> (r: usize)
        ensures
            r == self@.height,
    {
        self.height
    }

    /// The bytes of the buffer.
    pub fn pixels(&self) -> (r: &[u8])
        ensures
            r@ == self@.pixels,
    {
        self.pixels.as_slice()
    }

    /// Writes colour (r, g, b) at (x, y); off-screen positions are ignored.
    pub fn put_pixel(&mut self, x: usize, y: usize, r: u8, g: u8, b: u8)
        requires
            old(self).wf(),
        ensures
            final(self).wf(),
            final(self)@ == (FbView {
                pixels: put_px(old(self)@, old(self)@.pixels, x as int, y as int, r, g, b),
                ..old(self)@
            }),
    {
        if x >= self.width || y >= self.height {
            return;
        }
        let _len = self.pixels.len();
        proof {
            lemma_offset_fits(self@, x as int, y as int);
        }
        let off = y * self.pitch + x * self.bpp;
        self.pixels.set(off, b);
        self.pixels.set(off + 1, g);
        self.pixels.set(off + 2, r);
        if self.bpp >= 4 {
            self.pixels.set(off + 3, 0xFF);
        }
    }

    /// Fills the rectangle of `w` by `h` pixels at (x0, y0), row by row;
    /// pixels off the screen are skipped.
    pub fn fill_rect(&mut self, x0: usize, y0: usize, w: usize, h: usize, r: u8, g: u8, b: u8)
        requires
            old(self).wf(),
            x0 + w <= usize::MAX,
            y0 + h <= usize::MAX,
        ensures
            final(self).wf(),
            final(self)@ == (FbView {
                pixels: fill_rows(
                    old(self)@,
                    old(self)@.pixels,
                    x0 as int,
                    x0 + w,
                    y0 as int,
                    y0 + h,
                    r,
                    g,
                    b,
                ),
                ..old(self)@
            }),
            forall|x: int, y: int|
                x0 <= x < x0 + w && y0 <= y < y0 + h && on_screen(old(self)@, x, y) ==> #[trigger] px_is(
                    old(self)@,
                    final(self)@.pixels,
                    x,
                    y,
                    r,
                    g,
                    b,
                ),
            forall|k: int|
                0 <= k < old(self)@.pixels.len() && !rect_covers(old(self)@, k, x0 as int, x0 + w, y0 as int, y0 + h)
                    ==> #[trigger] final(self)@.pixels[k] == old(self)@.pixels[k],
    {
        let ghost f0 = self@;
        proof {
            lemma_fill_rows(f0, f0.pixels, x0 as int, x0 + w, y0 as int, y0 + h, r, g, b);
        }
        let mut y = y0;
        while y < y0 + h
            invariant
                self.wf(),
                self@.width == f0.width,
                self@.height == f0.height,
                self@.pitch == f0.pitch,
                self@.bpp == f0.bpp,
                y0 <= y <= y0 + h,
                x0 + w <= usize::MAX,
                y0 + h <= usize::MAX,
                fill_rows(f0, self@.pixels, x0 as int, x0 + w, y as int, y0 + h, r, g, b) == fill_rows(
                    f0,
                    f0.pixels,
                    x0 as int,
                    x0 + w,
                    y0 as int,
                    y0 + h,
                    r,
                    g,
                    b,
                ),
            decreases y0 + h - y,
        {
            let ghost row_start = self@.pixels;
            let mut x = x0;
            while x < x0 + w
                invariant
                    self.wf(),
                    self@.width == f0.width,
                    self@.height == f0.height,
                    self@.pitch == f0.pitch,
                    self@.bpp == f0.bpp,
                    x0 <= x <= x0 + w,
                    x0 + w <= usize::MAX,
                    fill_row(f0, self@.pixels, x as int, x0 + w, y as int, r, g, b) == fill_row(
                        f0,
                        row_start,
                        x0 as int,
                        x0 + w,
                        y as int,
                        r,
                        g,
                        b,
                    ),
                decreases x0 + w - x,
            {
                self.put_pixel(x, y, r, g, b);
                x += 1;
            }
            y += 1;
        }
    }

    /// Fills the whole screen.
    pub fn clear(&mut self, r: u8, g: u8, b: u8)
        requires
            old(self).wf(),
        ensures
            final(self).wf(),
            final(self)@ == (FbView {
                pixels: fill_rows(
                    old(self)@,
                    old(self)@.pixels,
                    0,
                    old(self)@.width as int,
                    0,
                    old(self)@.height as int,
                    r,
                    g,
                    b,
                ),
                ..old(self)@
            }),
            forall|x: int, y: int| on_screen(old(self)@, x, y) ==> #[trigger] px_is(
                old(self)@,
                final(self)@.pixels,
                x,
                y,
                r,
                g,
                b,
            ),
            forall|k: int|
                0 <= k < old(self)@.pixels.len() && !rect_covers(
                    old(self)@,
                    k,
                    0,
                    old(self)@.width as int,
                    0,
                    old(self)@.height as int,
                ) ==> #[trigger] final(self)@.pixels[k] == old(self)@.pixels[k],
    {
        self.fill_rect(0, 0, self.width, self.height, r, g, b);
    }
}

} // verus!
