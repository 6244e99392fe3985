//! A text console drawing 8x8 bitmap glyphs on a surface, with line wrap and scrolling.
use vstd::prelude::*;
use font8x8::UnicodeFonts;
use crate::color::{Color, GraphicsError, is_supported_bpp};
use crate::vga_buffer::{SurfaceView, VGABuffer, blit, block_fits, grid_view, shifted};

verus! {

/// The bitmap that font8x8's basic font holds for a character, if any: eight rows, the lowest
/// bit of each row being its leftmost pixel.
pub uninterp spec fn basic_glyph(c: char) -> Option<Seq<u8>>;

/// Relies on `font8x8::BASIC_FONTS.get` (trait `UnicodeFonts`): a binary search of the font's
/// table of the 128 Basic Latin characters, sorted by code point, which has a bitmap for
/// U+0000 to U+007F and for nothing else.
#[verifier::external_body]
fn lookup_glyph(c: char) -> (r: Option<[u8; 8]>)
    ensures
        r is Some <==> (c as u32) < 128,
        r matches Some(g) ==> basic_glyph(c) == Some(g@),
        r is None ==> basic_glyph(c) is None,
{
    font8x8::BASIC_FONTS.get(c)
}

/// The console's cursor, in pixels, and its surface.
pub struct ConsoleView {
    pub surface: SurfaceView,
    pub x: nat,
    pub y: nat,
}

impl ConsoleView {
    /// The cursor sits on a glyph-cell boundary, no further right than the surface's width.
    pub open spec fn wf(self) -> bool {
        &&& self.surface.wf()
        &&& self.x <= self.surface.width
        &&& self.x % 8 == 0
        &&& self.y % 8 == 0
    }

    pub open spec fn with_cursor(self, x: nat, y: nat) -> ConsoleView {
        ConsoleView { surface: self.surface, x, y }
    }

    /// The state after one scroll: the surface moved up one glyph row, the cursor with it.
    pub open spec fn scrolled(self) -> ConsoleView {
        ConsoleView {
            surface: self.surface.with_bytes(
                shifted(self.surface.bytes, (8 * self.surface.width * self.surface.bpp) as int),
            ),
            x: self.x,
            y: (self.y - 8) as nat,
        }
    }
}

/// The color of pixel `col` of a glyph row: white where its bit is set, black elsewhere.
pub open spec fn cell_color(bits: u8, col: int) -> Color {
    if (bits >> (col as u8)) & 1u8 == 1u8 {
        Color::GRAYSCALE(255)
    } else {
        Color::GRAYSCALE(0)
    }
}

/// The 8x8 block of colors that renders a glyph bitmap.
pub open spec fn glyph_grid(g: Seq<u8>) -> Seq<Seq<Color>> {
    Seq::new(8, |row: int| Seq::new(8, |col: int| cell_color(g[row], col)))
}

/// Scrolls one glyph row at a time while the cursor row leaves no room for a glyph.
pub open spec fn scroll_to_fit(v: ConsoleView) -> ConsoleView
    decreases v.y,
{
    if v.y >= v.surface.height - 8 && v.y >= 8 {
        scroll_to_fit(v.scrolled())
    } else {
        v
    }
}

/// Control characters that only move the cursor.
pub open spec fn is_control(c: char) -> bool {
    c == '\n' || c == '\r'
}

/// The effect of one character, given the glyph bitmap the font has for it.
/// A newline moves to the start of the next glyph row and a carriage return to the start of
/// this one. Any other character wraps to the next row if the current one has no room left,
/// scrolls until the cursor row fits, draws the glyph and advances by one cell. It fails,
/// changing nothing, on a surface format without encoding, on a surface too small to hold a
/// glyph below the top row, and on a character without glyph.
pub open spec fn write_char_spec(v: ConsoleView, c: char, glyph: Option<Seq<u8>>) -> Result<
    ConsoleView,
    GraphicsError,
> {
    if c == '\n' {
        Ok(v.with_cursor(0, v.y + 8))
    } else if c == '\r' {
        Ok(v.with_cursor(0, v.y))
    } else if !is_supported_bpp(v.surface.bpp as int) {
        Err(GraphicsError::UnsupportedFormat)
    } else if v.surface.width < 8 || v.surface.height <= 8 {
        Err(GraphicsError::OutOfBounds)
    } else if glyph is None {
        Err(GraphicsError::GlyphNotFound)
    } else {
        let wrapped = if v.x + 8 > v.surface.width {
            v.with_cursor(0, v.y + 8)
        } else {
            v
        };
        let s = scroll_to_fit(wrapped);
        Ok(
            ConsoleView {
                surface: s.surface.with_bytes(
                    blit(s.surface, s.x as int, s.y as int, glyph_grid(glyph.unwrap())),
                ),
                x: s.x + 8,
                y: s.y,
            },
        )
    }
}

/// The effect of a character sequence, each character with its glyph: the state reached and
/// whether every character was written. Writing stops at the first character that fails; the
/// state is then the one before it.
pub open spec fn write_all(v: ConsoleView, cs: Seq<char>, gs: Seq<Option<Seq<u8>>>) -> (
    ConsoleView,
    Result<(), GraphicsError>,
)
    decreases cs.len(),
{
    if cs.len() == 0 {
        (v, Ok(()))
    } else {
        let (prev, res) = write_all(v, cs.drop_last(), gs.drop_last());
        if res is Err {
            (prev, res)
        } else {
            match write_char_spec(prev, cs.last(), gs.last()) {
                Ok(next) => (next, Ok(())),
                Err(e) => (prev, Err(e)),
            }
        }
    }
}

/// The basic font's glyph for each character of `s`.
pub open spec fn glyphs_of(s: Seq<char>) -> Seq<Option<Seq<u8>>> {
    Seq::new(s.len(), |i: int| basic_glyph(s[i]))
}

pub open spec fn glyph_view(glyph: Option<[u8; 8]>) -> Option<Seq<u8>> {
    match glyph {
        Some(g) => Some(g@),
        None => None,
    }
}

/// Scrolling keeps the console well formed, only moves the cursor up, and ends with room for
/// a glyph below the cursor row.
pub proof fn lemma_scroll_to_fit(v: ConsoleView)
    requires
        v.wf(),
        v.surface.height > 8,
    ensures
        scroll_to_fit(v).wf(),
        scroll_to_fit(v).surface.width == v.surface.width,
        scroll_to_fit(v).surface.height == v.surface.height,
        scroll_to_fit(v).surface.bpp == v.surface.bpp,
        scroll_to_fit(v).x == v.x,
        scroll_to_fit(v).y <= v.y,
        scroll_to_fit(v).y + 8 < v.surface.height,
    decreases v.y,
{
    if v.y >= v.surface.height - 8 && v.y >= 8 {
        lemma_scroll_to_fit(v.scrolled());
    }
}

/// Once a prefix fails, every longer prefix ends in the same state with the same error.
pub proof fn lemma_write_all_stops(
    v: ConsoleView,
    cs: Seq<char>,
    gs: Seq<Option<Seq<u8>>>,
    k: int,
    m: int,
)
    requires
        0 <= k <= m <= cs.len(),
        cs.len() == gs.len(),
        write_all(v, cs.take(k), gs.take(k)).1 is Err,
    ensures
        write_all(v, cs.take(m), gs.take(m)) == write_all(v, cs.take(k), gs.take(k)),
    decreases m - k,
{
    if m > k {
        lemma_write_all_stops(v, cs, gs, k, m - 1);
        assert(cs.take(m).drop_last() =~= cs.take(m - 1));
        assert(gs.take(m).drop_last() =~= gs.take(m - 1));
    }
}

/// A glyph-cell text console over an owned surface.
pub struct Console {
    buf: VGABuffer,
    x: usize,
    y: usize,
}

impl View for Console {
    type V = ConsoleView;

    closed spec fn view(&self) -> ConsoleView {
        ConsoleView { surface: self.buf@, x: self.x as nat, y: self.y as nat }
    }
}

impl Console {
    pub open spec fn wf(&self) -> bool {
        self@.wf()
    }

    /// A console over `buf` with the cursor at the top-left corner.
    pub fn new(buf: VGABuffer) -> (r: Console)
        requires
            buf.wf(),
        ensures
            r.wf(),
            r@ == (ConsoleView { surface: buf@, x: 0, y: 0 }),
    {
        Console { buf, x: 0, y: 0 }
    }

    /// The cursor position in pixels.
    pub fn cursor(&self) -> (r: (usize, usize))
        ensures
            r.0 == self@.x,
            r.1 == self@.y,
    {
        (self.x, self.y)
    }

    /// The surface the console draws on.
    pub fn surface(&self) -> (r: &VGABuffer)
        ensures
            r@ == self@.surface,
    {
        &self.buf
    }

    /// Moves the cursor to the start of the next glyph row.
    pub fn nl(&mut self)
        requires
            old(self).wf(),
            old(self)@.y + 8 <= usize::MAX,
        ensures
            final(self).wf(),
            final(self)@ == old(self)@.with_cursor(0, old(self)@.y + 8),
    {
        self.y = self.y + 8;
        self.x = 0;
    }

    /// Moves the cursor to the start of its row.
    pub fn cr(&mut self)
        requires
            old(self).wf(),
        ensures
            final(self).wf(),
            final(self)@ == old(self)@.with_cursor(0, old(self)@.y),
    {
        self.x = 0;
    }

    /// Clears the surface and moves the cursor to the top-left corner.
    pub fn clear(&mut self)
        requires
            old(self).wf(),
        ensures
            final(self).wf(),
            final(self)@ == (ConsoleView {
                surface: old(self)@.surface.with_bytes(
                    Seq::new(old(self)@.surface.bytes.len(), |i: int| 0u8),
                ),
                x: 0,
                y: 0,
            }),
    {
        self.buf.clear();
        self.x = 0;
        self.y = 0;
    }

    /// Moves the surface and the cursor up by one glyph row; fails, changing nothing, when the
    /// cursor or the surface is less than a glyph row high.
    pub fn scroll(&mut self) -> (r: Result<(), GraphicsError>)
        requires
            old(self).wf(),
        ensures
            final(self).wf(),
            r is Err <==> old(self)@.y < 8 || old(self)@.surface.height < 8,
            r is Err ==> r == Err::<(), GraphicsError>(GraphicsError::OutOfBounds)
                && final(self)@ == old(self)@,
            r is Ok ==> final(self)@ == old(self)@.scrolled(),
    {
        if self.y < 8 {
            return Err(GraphicsError::OutOfBounds);
        }
        match self.buf.shift_up(8) {
            Ok(()) => {
                self.y = self.y - 8;
                Ok(())
            },
            Err(e) => Err(e),
        }
    }

    /// Draws a glyph bitmap at the cursor and advances the cursor by one cell.
    fn write_rendered_char(&mut self, rendered_char: [u8; 8])
        requires
            old(self).wf(),
            is_supported_bpp(old(self)@.surface.bpp as int),
            old(self)@.x + 8 <= old(self)@.surface.width,
            old(self)@.y + 8 <= old(self)@.surface.height,
        ensures
            final(self).wf(),
            final(self)@ == (ConsoleView {
                surface: old(self)@.surface.with_bytes(
                    blit(
                        old(self)@.surface,
                        old(self)@.x as int,
                        old(self)@.y as int,
                        glyph_grid(rendered_char@),
                    ),
                ),
                x: old(self)@.x + 8,
                y: old(self)@.y,
            }),
    {
        let ghost grid = glyph_grid(rendered_char@);
        let mut rows: Vec<Vec<Color>> = Vec::new();
        let mut row: usize = 0;
        while row < 8
            invariant
                row <= 8,
                rows@.len() == row,
                grid == glyph_grid(rendered_char@),
                self@ == old(self)@,
                forall|r: int| 0 <= r < row ==> #[trigger] rows@[r]@ == grid[r],
            decreases 8 - row,
        {
            let bits = rendered_char[row];
            let mut cells: Vec<Color> = Vec::new();
            let mut bit: u8 = 0;
            while bit < 8
                invariant
                    bit <= 8,
                    cells@.len() == bit,
                    bits == rendered_char@[row as int],
                    forall|k: int| 0 <= k < bit ==> #[trigger] cells@[k] == cell_color(bits, k),
                decreases 8 - bit,
            {
                let color = if (bits >> bit) & 1u8 == 1u8 {
                    Color::GRAYSCALE(255)
                } else {
                    Color::GRAYSCALE(0)
                };
                cells.push(color);
                bit += 1;
            }
            assert(cells@ =~= grid[row as int]);
            rows.push(cells);
            row += 1;
        }
        let mut refs: Vec<&[Color]> = Vec::new();
        let mut i: usize = 0;
        while i < rows.len()
            invariant
                i <= rows@.len(),
                rows@.len() == 8,
                refs@.len() == i,
                grid == glyph_grid(rendered_char@),
                self@ == old(self)@,
                forall|r: int| 0 <= r < i ==> #[trigger] refs@[r]@ == grid[r],
                forall|r: int| 0 <= r < 8 ==> #[trigger] rows@[r]@ == grid[r],
            decreases rows.len() - i,
        {
            refs.push(rows[i].as_slice());
            i += 1;
        }
        let block = refs.as_slice();
        assert(grid_view(block) =~= grid);
        let w = self.buf.width();
        assert forall|r: int| 0 <= r < grid.len() implies self.x + #[trigger] grid[r].len() <= w by {
            assert(grid[r].len() == 8);
        }
        assert(block_fits(self.buf@, self.x as int, self.y as int, grid));
        let written = self.buf.write_pixels_at(self.x, self.y, block);
        assert(written is Ok);
        self.x = self.x + 8;
    }

    /// Writes one character whose glyph bitmap, if the font has one, is `glyph`.
    pub fn put_char(&mut self, c: char, glyph: Option<[u8; 8]>) -> (r: Result<(), GraphicsError>)
        requires
            old(self).wf(),
            old(self)@.y + 8 <= usize::MAX,
        ensures
            final(self).wf(),
            final(self)@.y <= old(self)@.y + 8,
            match write_char_spec(old(self)@, c, glyph_view(glyph)) {
                Ok(v) => r is Ok && final(self)@ == v,
                Err(e) => r == Err::<(), GraphicsError>(e) && final(self)@ == old(self)@,
            },
            !is_control(c) && r is Ok ==> final(self)@.y + 8 < final(self)@.surface.height,
    {
        if c == '\n' {
            self.nl();
            return Ok(());
        }
        if c == '\r' {
            self.cr();
            return Ok(());
        }
        let bpp = self.buf.bytes_per_pixel();
        if bpp != 1 && bpp != 3 && bpp != 4 {
            return Err(GraphicsError::UnsupportedFormat);
        }
        let w = self.buf.width();
        let h = self.buf.height();
        if w < 8 || h <= 8 {
            return Err(GraphicsError::OutOfBounds);
        }
        let bitmap = match glyph {
            Some(g) => g,
            None => return Err(GraphicsError::GlyphNotFound),
        };
        if self.x > w - 8 {
            self.nl();
        }
        let ghost wrapped = self@;
        proof {
            lemma_scroll_to_fit(wrapped);
        }
        while self.y >= h - 8
            invariant
                self.wf(),
                h == self@.surface.height,
                w == self@.surface.width,
                bpp == self@.surface.bpp,
                is_supported_bpp(bpp as int),
                w >= 8,
                h > 8,
                self@.y <= wrapped.y,
                scroll_to_fit(self@) == scroll_to_fit(wrapped),
            decreases self.y,
        {
            let scrolled = self.scroll();
            assert(scrolled is Ok);
        }
        assert(scroll_to_fit(self@) == self@);
        self.write_rendered_char(bitmap);
        Ok(())
    }

    /// Writes one character, with its glyph from the basic font.
    pub fn write_char(&mut self, c: char) -> (r: Result<(), GraphicsError>)
        requires
            old(self).wf(),
            old(self)@.y + 8 <= usize::MAX,
        ensures
            final(self).wf(),
            final(self)@.y <= old(self)@.y + 8,
            match write_char_spec(old(self)@, c, basic_glyph(c)) {
                Ok(v) => r is Ok && final(self)@ == v,
                Err(e) => r == Err::<(), GraphicsError>(e) && final(self)@ == old(self)@,
            },
    {
        let glyph = lookup_glyph(c);
        self.put_char(c, glyph)
    }
    /// Writes the characters of `s` in order, each with its glyph from the basic font,
    /// stopping at the first that fails.
    fn write_string(&mut self, s: &str) -> (r: Result<(), GraphicsError>)
        requires
            old(self).wf(),
            old(self)@.y + 8 * s@.len() <= usize::MAX,
        ensures
            final(self).wf(),
            (final(self)@, r) == write_all(old(self)@, s@, glyphs_of(s@)),
    {
        let n = s.unicode_len();
        let ghost cs = s@;
        let ghost gs = glyphs_of(s@);
        let mut i: usize = 0;
        while i < n
            invariant
                n == cs.len(),
                cs == s@,
                gs == glyphs_of(s@),
                i <= n,
                self.wf(),
                self@.y + 8 * (n - i) <= usize::MAX,
                (self@, Ok::<(), GraphicsError>(())) == write_all(
                    old(self)@,
                    cs.take(i as int),
                    gs.take(i as int),
                ),
            decreases n - i,
        {
            let c = s.get_char(i);
            let ghost before = self@;
            let res = self.write_char(c);
            proof {
                assert(cs.take(i + 1).drop_last() =~= cs.take(i as int));
                assert(gs.take(i + 1).drop_last() =~= gs.take(i as int));
                assert(cs.take(i + 1).last() == c);
                assert(gs.take(i + 1).last() == basic_glyph(c));
            }
            if res.is_err() {
                proof {
                    lemma_write_all_stops(old(self)@, cs, gs, i + 1, n as int);
                    assert(cs.take(n as int) =~= cs);
                    assert(gs.take(n as int) =~= gs);
                }
                return res;
            }
            i += 1;
        }
        proof {
            assert(cs.take(n as int) =~= cs);
            assert(gs.take(n as int) =~= gs);
        }
        Ok(())
    }

    /// Writes text to the console (the console's text sink).
    pub fn write_str(&mut self, s: &str) -> (r: Result<(), GraphicsError>)
        requires
            old(self).wf(),
            old(self)@.y + 8 * s@.len() <= usize::MAX,
        ensures
            final(self).wf(),
            (final(self)@, r) == write_all(old(self)@, s@, glyphs_of(s@)),
    {
        self.write_string(s)
    }
}

/// Writes already formatted text to `console`.
pub fn _print(console: &mut Console, text: &str) -> (r: Result<(), GraphicsError>)
    requires
        old(console).wf(),
        old(console)@.y + 8 * text@.len() <= usize::MAX,
    ensures
        final(console).wf(),
        (final(console)@, r) == write_all(old(console)@, text@, glyphs_of(text@)),
{
    console.write_str(text)
}

} // verus!
