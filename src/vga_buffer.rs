//! A linear pixel surface: an owned byte region with its geometry and pixel encoding.
use vstd::prelude::*;
use crate::color::{
    Color, GraphicsError, decode, encode, encode_color, is_decodable_bpp, is_supported_bpp,
};

verus! {

/// The mathematical content of a surface: its bytes and geometry.
pub struct SurfaceView {
    pub bytes: Seq<u8>,
    pub width: nat,
    pub height: nat,
    pub bpp: nat,
}

impl SurfaceView {
    /// The region holds exactly `width * height` pixels of `bpp` bytes each.
    pub open spec fn wf(self) -> bool {
        self.bytes.len() == self.width * self.height * self.bpp
    }

    /// The same geometry over other bytes.
    pub open spec fn with_bytes(self, bytes: Seq<u8>) -> SurfaceView {
        SurfaceView { bytes, width: self.width, height: self.height, bpp: self.bpp }
    }

    pub open spec fn in_bounds(self, x: int, y: int) -> bool {
        0 <= x < self.width && 0 <= y < self.height
    }

    /// Index of the first byte of pixel `(x, y)`.
    pub open spec fn offset(self, x: int, y: int) -> int {
        (y * self.width + x) * self.bpp
    }

    /// The bytes of pixel `(x, y)`.
    pub open spec fn pixel_bytes(self, x: int, y: int) -> Seq<u8> {
        self.bytes.subrange(self.offset(x, y), self.offset(x, y) + self.bpp)
    }
}

/// `bytes` with `enc` written at index `at`.
pub open spec fn paint(bytes: Seq<u8>, at: int, enc: Seq<u8>) -> Seq<u8> {
    Seq::new(bytes.len(), |i: int| if at <= i < at + enc.len() { enc[i - at] } else { bytes[i] })
}

/// `len` bytes repeating the pattern `enc`.
pub open spec fn filled(len: nat, enc: Seq<u8>) -> Seq<u8> {
    Seq::new(len, |i: int| enc[i % (enc.len() as int)])
}

/// `bytes` moved towards the start by `s` positions; the last `s` bytes keep their old values.
pub open spec fn shifted(bytes: Seq<u8>, s: int) -> Seq<u8> {
    Seq::new(bytes.len(), |i: int| if i + s < bytes.len() { bytes[i + s] } else { bytes[i] })
}

/// Pixel `p` (counted row-major) lies in the block of `grid` placed at `(x, y)`, and its cell
/// comes before cell `(row, col)` in row-major order.
pub open spec fn in_block_before(
    v: SurfaceView,
    x: int,
    y: int,
    grid: Seq<Seq<Color>>,
    p: int,
    row: int,
    col: int,
) -> bool {
    let px = p % (v.width as int);
    let py = p / (v.width as int);
    &&& y <= py < y + grid.len()
    &&& x <= px < x + grid[py - y].len()
    &&& (py - y < row || (py - y == row && px - x < col))
}

/// The surface's bytes after the cells of `grid` before `(row, col)` were written at `(x, y)`.
pub open spec fn blit_upto(
    v: SurfaceView,
    x: int,
    y: int,
    grid: Seq<Seq<Color>>,
    row: int,
    col: int,
) -> Seq<u8> {
    Seq::new(
        v.bytes.len(),
        |i: int|
            {
                let p = i / (v.bpp as int);
                if in_block_before(v, x, y, grid, p, row, col) {
                    encode(
                        grid[p / (v.width as int) - y][p % (v.width as int) - x],
                        v.bpp as int,
                    )[i % (v.bpp as int)]
                } else {
                    v.bytes[i]
                }
            },
    )
}

/// The surface's bytes after all of `grid` was written with its top-left cell at `(x, y)`.
pub open spec fn blit(v: SurfaceView, x: int, y: int, grid: Seq<Seq<Color>>) -> Seq<u8> {
    blit_upto(v, x, y, grid, grid.len() as int, 0)
}

/// Every cell of `grid` placed at `(x, y)` lies on the surface.
pub open spec fn block_fits(v: SurfaceView, x: int, y: int, grid: Seq<Seq<Color>>) -> bool {
    &&& 0 <= y && y + grid.len() <= v.height
    &&& 0 <= x
    &&& forall|r: int| 0 <= r < grid.len() ==> x + #[trigger] grid[r].len() <= v.width
}

/// Pixel `(x, y)` of a `width`-wide surface starts inside the region and its bytes end there.
pub proof fn lemma_offset_bound(width: int, height: int, bpp: int, x: int, y: int)
    requires
        0 <= x < width,
        0 <= y < height,
        0 <= bpp,
    ensures
        0 <= (y * width + x) * bpp,
        (y * width + x) * bpp + bpp <= width * height * bpp,
        0 < bpp ==> y * width + x < width * height * bpp,
        0 < bpp ==> y * width <= width * height * bpp,
{
    assert(y * width + x + 1 <= height * width) by (nonlinear_arith)
        requires
            0 <= x < width,
            0 <= y < height,
    ;
    assert((y * width + x) * bpp + bpp <= width * height * bpp) by (nonlinear_arith)
        requires
            y * width + x + 1 <= height * width,
            0 <= bpp,
    ;
    assert(0 <= (y * width + x) * bpp) by (nonlinear_arith)
        requires
            0 <= x,
            0 <= y,
            0 <= width,
            0 <= bpp,
    ;
    if 0 < bpp {
        assert(y * width + x <= (y * width + x) * bpp) by (nonlinear_arith)
            requires
                0 < bpp,
                0 <= y * width + x,
        ;
    }
}

/// A byte index splits uniquely into a pixel `(x, y)` and a byte `k` within it.
pub proof fn lemma_offset_split(width: int, bpp: int, x: int, y: int, k: int)
    requires
        0 <= x < width,
        0 <= y,
        0 <= k < bpp,
    ensures
        ((y * width + x) * bpp + k) / bpp == y * width + x,
        ((y * width + x) * bpp + k) % bpp == k,
        (y * width + x) % width == x,
        (y * width + x) / width == y,
{
    vstd::arithmetic::div_mod::lemma_fundamental_div_mod_converse(
        (y * width + x) * bpp + k,
        bpp,
        y * width + x,
        k,
    );
    vstd::arithmetic::div_mod::lemma_fundamental_div_mod_converse(y * width + x, width, y, x);
}

/// An index lies in the bytes of pixel `p` exactly when it divides down to `p`.
pub proof fn lemma_in_pixel(i: int, bpp: int, p: int)
    requires
        0 <= i,
        0 < bpp,
        0 <= p,
    ensures
        (p * bpp <= i < p * bpp + bpp) <==> i / bpp == p,
{
    vstd::arithmetic::div_mod::lemma_fundamental_div_mod(i, bpp);
    if p * bpp <= i < p * bpp + bpp {
        vstd::arithmetic::div_mod::lemma_fundamental_div_mod_converse(i, bpp, p, i - p * bpp);
    }
    if i / bpp == p {
        assert(i == bpp * p + i % bpp);
        assert(0 <= i % bpp < bpp) by {
            vstd::arithmetic::div_mod::lemma_mod_bound(i, bpp);
        }
        assert(bpp * p == p * bpp) by (nonlinear_arith);
    }
}

/// The rows of a grid of color slices.
pub open spec fn grid_view(pixels: &[&[Color]]) -> Seq<Seq<Color>> {
    Seq::new(pixels@.len(), |r: int| pixels@[r]@)
}

/// Writing cell `(row, col)` of `grid` extends the written part by that one cell.
pub proof fn lemma_blit_step(
    v: SurfaceView,
    x: int,
    y: int,
    grid: Seq<Seq<Color>>,
    row: int,
    col: int,
)
    requires
        v.wf(),
        v.bpp > 0,
        block_fits(v, x, y, grid),
        0 <= row < grid.len(),
        0 <= col < grid[row].len(),
        encode(grid[row][col], v.bpp as int).len() == v.bpp,
    ensures
        paint(
            blit_upto(v, x, y, grid, row, col),
            v.offset(x + col, y + row),
            encode(grid[row][col], v.bpp as int),
        ) =~= blit_upto(v, x, y, grid, row, col + 1),
{
    let w = v.width as int;
    let bpp = v.bpp as int;
    let p0 = (y + row) * w + (x + col);
    let at = v.offset(x + col, y + row);
    let enc = encode(grid[row][col], bpp);
    let before = blit_upto(v, x, y, grid, row, col);
    let after = blit_upto(v, x, y, grid, row, col + 1);
    assert(x + col < w) by {
        assert(x + grid[row].len() <= w);
    }
    assert(0 <= p0) by (nonlinear_arith)
        requires
            0 <= y + row,
            0 <= x + col,
            0 < w,
            p0 == (y + row) * w + (x + col),
    ;
    assert forall|i: int| 0 <= i < v.bytes.len() implies #[trigger] paint(before, at, enc)[i]
        == after[i] by {
        let p = i / bpp;
        lemma_in_pixel(i, bpp, p0);
        vstd::arithmetic::div_mod::lemma_div_pos_is_pos(i, bpp);
        if p == p0 {
            lemma_offset_split(w, bpp, x + col, y + row, i - at);
        } else {
            vstd::arithmetic::div_mod::lemma_fundamental_div_mod(p, w);
            if p / w - y == row && p % w - x == col {
                assert(p == w * (p / w) + p % w);
                assert(w * (y + row) == (y + row) * w) by (nonlinear_arith);
            }
        }
    }
}

/// Once a row is written, the next row starts.
pub proof fn lemma_blit_row_end(v: SurfaceView, x: int, y: int, grid: Seq<Seq<Color>>, row: int)
    requires
        0 <= row < grid.len(),
    ensures
        blit_upto(v, x, y, grid, row, grid[row].len() as int) =~= blit_upto(
            v,
            x,
            y,
            grid,
            row + 1,
            0,
        ),
{
}

/// Nothing is written before the first cell.
pub proof fn lemma_blit_start(v: SurfaceView, x: int, y: int, grid: Seq<Seq<Color>>)
    ensures
        blit_upto(v, x, y, grid, 0, 0) =~= v.bytes,
{
}

/// A framebuffer surface: `width * height` pixels of `bytes_per_pixel` bytes, row-major.
pub struct VGABuffer {
    buffer: Vec<u8>,
    bytes_per_pixel: usize,
    width: usize,
    height: usize,
}

impl View for VGABuffer {
    type V = SurfaceView;

    closed spec fn view(&self) -> SurfaceView {
        SurfaceView {
            bytes: self.buffer@,
            width: self.width as nat,
            height: self.height as nat,
            bpp: self.bytes_per_pixel as nat,
        }
    }
}

impl VGABuffer {
    pub open spec fn wf(&self) -> bool {
        self@.wf()
    }

    /// Takes ownership of `buffer` as a surface of the given geometry; the pixel format is
    /// checked only when a pixel is written or read.
    pub fn new(buffer: Vec<u8>, bytes_per_pixel: usize, width: usize, height: usize) -> (r: Self)
        requires
            buffer@.len() == width * height * bytes_per_pixel,
        ensures
            r.wf(),
            r@ == (SurfaceView {
                bytes: buffer@,
                width: width as nat,
                height: height as nat,
                bpp: bytes_per_pixel as nat,
            }),
    {
        VGABuffer { buffer, bytes_per_pixel, width, height }
    }

    pub fn width(&self) -> (r: usize)
        ensures
            r == self@.width,
    {
        self.width
    }

    pub fn height(&self) -> (r: usize)
        ensures
            r == self@.height,
    {
        self.height
    }

    pub fn bytes_per_pixel(&self) -> (r: usize)
        ensures
            r == self@.bpp,
    {
        self.bytes_per_pixel
    }

    /// The raw bytes of the surface.
    pub fn as_bytes(&self) -> (r: &[u8])
        ensures
            r@ == self@.bytes,
    {
        self.buffer.as_slice()
    }

    /// Sets every byte of the region to zero.
    pub fn clear(&mut self)
        requires
            old(self).wf(),
        ensures
            final(self).wf(),
            final(self)@ == old(self)@.with_bytes(Seq::new(old(self)@.bytes.len(), |i: int| 0u8)),
    {
        let n = self.buffer.len();
        let mut i: usize = 0;
        while i < n
            invariant
                n == self.buffer@.len(),
                i <= n,
                self@ == old(self)@.with_bytes(self@.bytes),
                forall|j: int| 0 <= j < i ==> self.buffer@[j] == 0u8,
            decreases n - i,
        {
            self.buffer.set(i, 0u8);
            i += 1;
        }
        assert(self@.bytes =~= Seq::new(old(self)@.bytes.len(), |i: int| 0u8));
    }

    /// Writes `color` to every pixel; fails on a bytes-per-pixel that has no encoding.
    pub fn fill(&mut self, color: Color) -> (r: Result<(), GraphicsError>)
        requires
            old(self).wf(),
        ensures
            final(self).wf(),
            r is Err <==> !is_supported_bpp(old(self)@.bpp as int),
            r is Err ==> r == Err::<(), GraphicsError>(GraphicsError::UnsupportedFormat)
                && final(self)@ == old(self)@,
            r is Ok ==> final(self)@ == old(self)@.with_bytes(
                filled(old(self)@.bytes.len(), encode(color, old(self)@.bpp as int)),
            ),
    {
        let enc = match encode_color(color, self.bytes_per_pixel) {
            Ok(enc) => enc,
            Err(e) => return Err(e),
        };
        let bpp = self.bytes_per_pixel;
        let n = self.buffer.len();
        let mut i: usize = 0;
        while i < n
            invariant
                n == self.buffer@.len(),
                i <= n,
                bpp == self@.bpp,
                enc@.len() == bpp,
                bpp > 0,
                self@ == old(self)@.with_bytes(self@.bytes),
                forall|j: int| 0 <= j < i ==> self.buffer@[j] == enc@[j % (bpp as int)],
            decreases n - i,
        {
            self.buffer.set(i, enc[i % bpp]);
            i += 1;
        }
        assert(self@.bytes =~= filled(n as nat, enc@));
        Ok(())
    }

    /// Writes `enc` over the bytes starting at `at`.
    fn write_encoded(&mut self, at: usize, enc: &Vec<u8>)
        requires
            old(self).wf(),
            at + enc@.len() <= old(self)@.bytes.len(),
        ensures
            final(self).wf(),
            final(self)@ == old(self)@.with_bytes(paint(old(self)@.bytes, at as int, enc@)),
    {
        let n = self.buffer.len();
        let mut k: usize = 0;
        while k < enc.len()
            invariant
                n == self.buffer@.len(),
                k <= enc@.len(),
                at + enc@.len() <= self.buffer@.len(),
                self@ == old(self)@.with_bytes(self@.bytes),
                self@.bytes =~= paint(old(self)@.bytes, at as int, enc@.subrange(0, k as int)),
            decreases enc.len() - k,
        {
            self.buffer.set(at + k, enc[k]);
            k += 1;
            assert(self@.bytes =~= paint(old(self)@.bytes, at as int, enc@.subrange(0, k as int)));
        }
        assert(enc@.subrange(0, k as int) =~= enc@);
    }

    /// Writes `color` to pixel `(x, y)`.
    pub fn set_pixel(&mut self, x: usize, y: usize, color: Color) -> (r: Result<(), GraphicsError>)
        requires
            old(self).wf(),
        ensures
            final(self).wf(),
            r is Err ==> final(self)@ == old(self)@,
            r == Err::<(), GraphicsError>(GraphicsError::UnsupportedFormat) <==> !is_supported_bpp(
                old(self)@.bpp as int,
            ),
            r == Err::<(), GraphicsError>(GraphicsError::OutOfBounds) <==> is_supported_bpp(
                old(self)@.bpp as int,
            ) && !old(self)@.in_bounds(x as int, y as int),
            r is Ok <==> is_supported_bpp(old(self)@.bpp as int) && old(self)@.in_bounds(
                x as int,
                y as int,
            ),
            r is Ok ==> final(self)@ == old(self)@.with_bytes(
                paint(
                    old(self)@.bytes,
                    old(self)@.offset(x as int, y as int),
                    encode(color, old(self)@.bpp as int),
                ),
            ),
    {
        let enc = match encode_color(color, self.bytes_per_pixel) {
            Ok(enc) => enc,
            Err(e) => return Err(e),
        };
        if x >= self.width || y >= self.height {
            return Err(GraphicsError::OutOfBounds);
        }
        // The region's length, which fits in usize, bounds every offset computed below.
        let len = self.buffer.len();
        proof {
            lemma_offset_bound(
                self.width as int,
                self.height as int,
                self.bytes_per_pixel as int,
                x as int,
                y as int,
            );
        }
        let at = (y * self.width + x) * self.bytes_per_pixel;
        self.write_encoded(at, &enc);
        Ok(())
    }

    /// Reads pixel `(x, y)` back as a color; only one- and three-byte pixels can be read.
    pub fn get_pixel(&self, x: usize, y: usize) -> (r: Result<Color, GraphicsError>)
        requires
            self.wf(),
        ensures
            r == Err::<Color, GraphicsError>(GraphicsError::UnsupportedFormat) <==> !is_decodable_bpp(
                self@.bpp as int,
            ),
            r == Err::<Color, GraphicsError>(GraphicsError::OutOfBounds) <==> is_decodable_bpp(
                self@.bpp as int,
            ) && !self@.in_bounds(x as int, y as int),
            r is Ok <==> is_decodable_bpp(self@.bpp as int) && self@.in_bounds(x as int, y as int),
            r is Ok ==> r == Ok::<Color, GraphicsError>(
                decode(self@.pixel_bytes(x as int, y as int)),
            ),
    {
        let bpp = self.bytes_per_pixel;
        if bpp != 1 && bpp != 3 {
            return Err(GraphicsError::UnsupportedFormat);
        }
        if x >= self.width || y >= self.height {
            return Err(GraphicsError::OutOfBounds);
        }
        // The region's length, which fits in usize, bounds every offset computed below.
        let len = self.buffer.len();
        proof {
            lemma_offset_bound(self.width as int, self.height as int, bpp as int, x as int, y as int);
        }
        let at = (y * self.width + x) * bpp;
        if bpp == 1 {
            Ok(Color::GRAYSCALE(self.buffer[at] as usize))
        } else {
            Ok(
                Color::RGB(
                    self.buffer[at] as usize,
                    self.buffer[at + 1] as usize,
                    self.buffer[at + 2] as usize,
                ),
            )
        }
    }
    /// Moves the contents up by `rows` scanlines; the last `rows` scanlines keep their old
    /// bytes.
    pub fn shift_up(&mut self, rows: usize) -> (r: Result<(), GraphicsError>)
        requires
            old(self).wf(),
        ensures
            final(self).wf(),
            r is Err <==> rows > old(self)@.height,
            r is Err ==> r == Err::<(), GraphicsError>(GraphicsError::OutOfBounds)
                && final(self)@ == old(self)@,
            r is Ok ==> final(self)@ == old(self)@.with_bytes(
                shifted(old(self)@.bytes, rows * old(self)@.width * old(self)@.bpp),
            ),
    {
        if rows > self.height {
            return Err(GraphicsError::OutOfBounds);
        }
        let n = self.buffer.len();
        let w = self.width;
        let bpp = self.bytes_per_pixel;
        let h = self.height;
        proof {
            assert(rows * (w * bpp) <= w * h * bpp && rows * (w * bpp) == rows * w * bpp)
                by (nonlinear_arith)
                requires
                    rows <= h,
            ;
            if rows > 0 {
                assert(w * bpp <= w * h * bpp) by (nonlinear_arith)
                    requires
                        1 <= rows <= h,
                ;
            }
        }
        let s = if rows == 0 {
            0
        } else {
            rows * (w * bpp)
        };
        let mut i: usize = 0;
        while i + s < n
            invariant
                n == self.buffer@.len(),
                s <= n,
                i + s <= n,
                s == rows * w * bpp,
                self@ == old(self)@.with_bytes(self@.bytes),
                forall|j: int| 0 <= j < i ==> self.buffer@[j] == old(self)@.bytes[j + s],
                forall|j: int| i <= j < n ==> self.buffer@[j] == old(self)@.bytes[j],
            decreases n - i,
        {
            let b = self.buffer[i + s];
            self.buffer.set(i, b);
            i += 1;
        }
        assert(self@.bytes =~= shifted(old(self)@.bytes, s as int));
        Ok(())
    }

    /// Writes the rows of `pixels` with its first cell at `(x, y)`; nothing is written unless
    /// the whole block lies on the surface.
    pub fn write_pixels_at(&mut self, x: usize, y: usize, pixels: &[&[Color]]) -> (r: Result<
        (),
        GraphicsError,
    >)
        requires
            old(self).wf(),
        ensures
            final(self).wf(),
            r is Err ==> final(self)@ == old(self)@,
            r == Err::<(), GraphicsError>(GraphicsError::UnsupportedFormat) <==> !is_supported_bpp(
                old(self)@.bpp as int,
            ),
            r == Err::<(), GraphicsError>(GraphicsError::OutOfBounds) <==> is_supported_bpp(
                old(self)@.bpp as int,
            ) && !block_fits(old(self)@, x as int, y as int, grid_view(pixels)),
            r is Ok <==> is_supported_bpp(old(self)@.bpp as int) && block_fits(old(self)@, x as int, y as int, grid_view(pixels)),
            r is Ok ==> final(self)@ == old(self)@.with_bytes(
                blit(old(self)@, x as int, y as int, grid_view(pixels)),
            ),
    {
        let bpp = self.bytes_per_pixel;
        let w = self.width;
        let h = self.height;
        if bpp != 1 && bpp != 3 && bpp != 4 {
            return Err(GraphicsError::UnsupportedFormat);
        }
        let ghost grid = grid_view(pixels);
        if pixels.len() > h || y > h - pixels.len() {
            return Err(GraphicsError::OutOfBounds);
        }
        let mut r: usize = 0;
        while r < pixels.len()
            invariant
                r <= pixels@.len(),
                grid == grid_view(pixels),
                self@ == old(self)@,
                old(self).wf(),
                is_supported_bpp(bpp as int),
                bpp == self@.bpp,
                w == self@.width,
                h == self@.height,
                y + grid.len() <= h,
                forall|k: int| 0 <= k < r ==> x + #[trigger] grid[k].len() <= w,
            decreases pixels.len() - r,
        {
            let row = pixels[r];
            if row.len() > w || x > w - row.len() {
                assert(x + grid[r as int].len() > w);
                return Err(GraphicsError::OutOfBounds);
            }
            r += 1;
        }
        assert(block_fits(self@, x as int, y as int, grid));
        // The region's length, which fits in usize, bounds every offset computed below.
        let len = self.buffer.len();
        proof {
            lemma_blit_start(old(self)@, x as int, y as int, grid);
        }
        let mut r: usize = 0;
        while r < pixels.len()
            invariant
                r <= pixels@.len(),
                grid == grid_view(pixels),
                old(self).wf(),
                is_supported_bpp(bpp as int),
                bpp == old(self)@.bpp,
                w == old(self)@.width,
                h == old(self)@.height,
                len == old(self)@.bytes.len(),
                block_fits(old(self)@, x as int, y as int, grid),
                self@ == old(self)@.with_bytes(self@.bytes),
                self@.bytes =~= blit_upto(old(self)@, x as int, y as int, grid, r as int, 0),
            decreases pixels.len() - r,
        {
            let row = pixels[r];
            let mut c: usize = 0;
            while c < row.len()
                invariant
                    r < pixels@.len(),
                    row@ == grid[r as int],
                    c <= row@.len(),
                    grid == grid_view(pixels),
                    old(self).wf(),
                    is_supported_bpp(bpp as int),
                    bpp == old(self)@.bpp,
                    w == old(self)@.width,
                    h == old(self)@.height,
                    len == old(self)@.bytes.len(),
                    block_fits(old(self)@, x as int, y as int, grid),
                    self@ == old(self)@.with_bytes(self@.bytes),
                    self@.bytes =~= blit_upto(
                        old(self)@,
                        x as int,
                        y as int,
                        grid,
                        r as int,
                        c as int,
                    ),
                decreases row.len() - c,
            {
                let enc = match encode_color(row[c], bpp) {
                    Ok(enc) => enc,
                    Err(e) => return Err(e),
                };
                assert(x + row@.len() <= w);
                proof {
                    lemma_offset_bound(
                        w as int,
                        h as int,
                        bpp as int,
                        (x + c) as int,
                        (y + r) as int,
                    );
                    lemma_blit_step(old(self)@, x as int, y as int, grid, r as int, c as int);
                }
                let at = ((y + r) * w + (x + c)) * bpp;
                self.write_encoded(at, &enc);
                c += 1;
            }
            proof {
                lemma_blit_row_end(old(self)@, x as int, y as int, grid, r as int);
            }
            r += 1;
        }
        Ok(())
    }

    /// Writes the rows of `pixels` with its first cell at the surface's origin.
    pub fn write_pixels(&mut self, pixels: &[&[Color]]) -> (r: Result<(), GraphicsError>)
        requires
            old(self).wf(),
        ensures
            final(self).wf(),
            r is Err ==> final(self)@ == old(self)@,
            r == Err::<(), GraphicsError>(GraphicsError::UnsupportedFormat) <==> !is_supported_bpp(
                old(self)@.bpp as int,
            ),
            r == Err::<(), GraphicsError>(GraphicsError::OutOfBounds) <==> is_supported_bpp(
                old(self)@.bpp as int,
            ) && !block_fits(old(self)@, 0, 0, grid_view(pixels)),
            r is Ok <==> is_supported_bpp(old(self)@.bpp as int) && block_fits(old(self)@, 0, 0, grid_view(pixels)),
            r is Ok ==> final(self)@ == old(self)@.with_bytes(
                blit(old(self)@, 0, 0, grid_view(pixels)),
            ),
    {
        self.write_pixels_at(0, 0, pixels)
    }
}

} // verus!
