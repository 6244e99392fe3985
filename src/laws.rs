//! Properties relating the surface operations to one another.
use vstd::prelude::*;
use crate::color::{Color, decode, encode, intensity, is_decodable_bpp, is_supported_bpp, round_trips};
use crate::console::{ConsoleView, is_control, lemma_scroll_to_fit, scroll_to_fit, write_all, write_char_spec};
use crate::vga_buffer::{
    SurfaceView, blit, block_fits, filled, lemma_offset_bound, lemma_offset_split, paint, shifted,
};

verus! {

/// Reading back the bytes of an encoded color gives the gray level for one-byte pixels, and
/// the color itself when it round-trips.
pub proof fn lemma_decode_encode(c: Color, bpp: int)
    requires
        is_decodable_bpp(bpp),
    ensures
        encode(c, bpp).len() == bpp,
        bpp == 1 ==> decode(encode(c, bpp)) == Color::GRAYSCALE(intensity(c) as usize),
        round_trips(c, bpp) ==> decode(encode(c, bpp)) == c,
{
}

/// The bytes of pixel `(x, y)` in a region of the surface's size, as a sequence.
pub open spec fn pixel_of(v: SurfaceView, bytes: Seq<u8>, x: int, y: int) -> Seq<u8> {
    v.with_bytes(bytes).pixel_bytes(x, y)
}

/// Writing a color to a pixel and reading that pixel gives the color back as the format
/// stores it: a gray level for one-byte pixels, the color itself where it round-trips.
pub proof fn lemma_set_then_get(v: SurfaceView, x: int, y: int, c: Color)
    requires
        v.wf(),
        is_decodable_bpp(v.bpp as int),
        v.in_bounds(x, y),
    ensures
        ({
            let read = decode(
                pixel_of(v, paint(v.bytes, v.offset(x, y), encode(c, v.bpp as int)), x, y),
            );
            &&& read == decode(encode(c, v.bpp as int))
            &&& v.bpp == 1 ==> read == Color::GRAYSCALE(intensity(c) as usize)
            &&& round_trips(c, v.bpp as int) ==> read == c
        }),
{
    let bpp = v.bpp as int;
    let enc = encode(c, bpp);
    lemma_decode_encode(c, bpp);
    lemma_offset_bound(v.width as int, v.height as int, bpp, x, y);
    let at = v.offset(x, y);
    assert(pixel_of(v, paint(v.bytes, at, enc), x, y) =~= enc);
}

/// After a fill, every pixel reads back as the filled color would.
pub proof fn lemma_fill_then_get(v: SurfaceView, x: int, y: int, c: Color)
    requires
        v.wf(),
        is_decodable_bpp(v.bpp as int),
        v.in_bounds(x, y),
    ensures
        decode(pixel_of(v, filled(v.bytes.len(), encode(c, v.bpp as int)), x, y)) == decode(
            encode(c, v.bpp as int),
        ),
{
    let bpp = v.bpp as int;
    let enc = encode(c, bpp);
    lemma_decode_encode(c, bpp);
    lemma_offset_bound(v.width as int, v.height as int, bpp, x, y);
    assert forall|k: int| 0 <= k < bpp implies #[trigger] pixel_of(
        v,
        filled(v.bytes.len(), enc),
        x,
        y,
    )[k] == enc[k] by {
        lemma_offset_split(v.width as int, bpp, x, y, k);
    }
    assert(pixel_of(v, filled(v.bytes.len(), enc), x, y) =~= enc);
}

/// Clearing a surface leaves the same bytes as filling it with black, for every writable
/// format.
pub proof fn lemma_clear_is_fill_black(v: SurfaceView)
    requires
        is_supported_bpp(v.bpp as int),
    ensures
        Seq::new(v.bytes.len(), |i: int| 0u8) =~= filled(
            v.bytes.len(),
            encode(Color::GRAYSCALE(0), v.bpp as int),
        ),
{
    let enc = encode(Color::GRAYSCALE(0), v.bpp as int);
    assert forall|i: int| 0 <= i < v.bytes.len() implies #[trigger] filled(v.bytes.len(), enc)[i]
        == 0u8 by {
        vstd::arithmetic::div_mod::lemma_mod_bound(i, v.bpp as int);
    }
}

/// Scanline `r` of a region of the surface's size.
pub open spec fn scanline(v: SurfaceView, bytes: Seq<u8>, r: int) -> Seq<u8> {
    bytes.subrange(r * (v.width * v.bpp), (r + 1) * (v.width * v.bpp))
}

/// After shifting up by `n` scanlines, each scanline above the last `n` holds what the
/// scanline `n` below it held.
pub proof fn lemma_shift_up_rows(v: SurfaceView, n: int, r: int)
    requires
        v.wf(),
        0 <= n <= v.height,
        0 <= r < v.height - n,
    ensures
        scanline(v, shifted(v.bytes, n * v.width * v.bpp), r) =~= scanline(v, v.bytes, r + n),
{
    let rb = (v.width * v.bpp) as int;
    let s = n * v.width * v.bpp;
    assert(s == n * rb && (r + n) * rb == r * rb + s && (r + n + 1) * rb <= v.bytes.len()
        && 0 <= r * rb && rb <= (r + 1) * rb - r * rb) by (nonlinear_arith)
        requires
            rb == v.width * v.bpp,
            s == n * v.width * v.bpp,
            0 <= n,
            0 <= r,
            r + n + 1 <= v.height,
            v.bytes.len() == v.width * v.height * v.bpp,
            0 <= rb,
    ;
    assert((r + 1) * rb == r * rb + rb) by (nonlinear_arith);
    assert((r + n + 1) * rb == (r + n) * rb + rb) by (nonlinear_arith);
    let after = scanline(v, shifted(v.bytes, s), r);
    let before = scanline(v, v.bytes, r + n);
    assert(after.len() == rb && before.len() == rb);
    assert forall|k: int| 0 <= k < rb implies #[trigger] after[k] == before[k] by {
        assert(r * rb + k + s < v.bytes.len());
    }
}

/// After a block write, every cell of the block reads back as its color is stored.
pub proof fn lemma_write_block_then_get(
    v: SurfaceView,
    x: int,
    y: int,
    grid: Seq<Seq<Color>>,
    row: int,
    col: int,
)
    requires
        v.wf(),
        is_decodable_bpp(v.bpp as int),
        block_fits(v, x, y, grid),
        0 <= row < grid.len(),
        0 <= col < grid[row].len(),
    ensures
        ({
            let read = decode(pixel_of(v, blit(v, x, y, grid), x + col, y + row));
            &&& read == decode(encode(grid[row][col], v.bpp as int))
            &&& round_trips(grid[row][col], v.bpp as int) ==> read == grid[row][col]
        }),
{
    let bpp = v.bpp as int;
    let w = v.width as int;
    let c = grid[row][col];
    lemma_decode_encode(c, bpp);
    assert(x + col < w) by {
        assert(x + grid[row].len() <= w);
    }
    lemma_offset_bound(w, v.height as int, bpp, x + col, y + row);
    let px = pixel_of(v, blit(v, x, y, grid), x + col, y + row);
    assert forall|k: int| 0 <= k < bpp implies #[trigger] px[k] == encode(c, bpp)[k] by {
        lemma_offset_split(w, bpp, x + col, y + row, k);
    }
    assert(px =~= encode(c, bpp));
}

/// After a character other than a newline or carriage return is written, the console stays
/// well formed and the cursor row leaves room for a glyph above the surface's last glyph row.
pub proof fn lemma_glyph_keeps_cursor_on_surface(v: ConsoleView, c: char, glyph: Option<Seq<u8>>)
    requires
        v.wf(),
        !is_control(c),
        write_char_spec(v, c, glyph) is Ok,
    ensures
        write_char_spec(v, c, glyph).unwrap().wf(),
        write_char_spec(v, c, glyph).unwrap().y + 8 < v.surface.height,
        write_char_spec(v, c, glyph).unwrap().surface.width == v.surface.width,
        write_char_spec(v, c, glyph).unwrap().surface.height == v.surface.height,
{
    let wrapped = if v.x + 8 > v.surface.width {
        v.with_cursor(0, v.y + 8)
    } else {
        v
    };
    lemma_scroll_to_fit(wrapped);
}

/// Writing glyphs from the start of a row, with room for two more rows below, keeps them on
/// that row as long as they fit.
proof fn lemma_row_prefix(v: ConsoleView, cs: Seq<char>, gs: Seq<Option<Seq<u8>>>, i: int)
    requires
        v.wf(),
        v.x == 0,
        is_supported_bpp(v.surface.bpp as int),
        v.surface.width >= 8,
        v.y + 16 < v.surface.height,
        cs.len() == gs.len(),
        0 <= i <= cs.len(),
        8 * i <= v.surface.width,
        forall|j: int| 0 <= j < cs.len() ==> !is_control(#[trigger] cs[j]) && gs[j] is Some,
    ensures
        ({
            let (u, res) = write_all(v, cs.take(i), gs.take(i));
            &&& res is Ok
            &&& u.wf()
            &&& u.x == 8 * i
            &&& u.y == v.y
            &&& u.surface.width == v.surface.width
            &&& u.surface.height == v.surface.height
            &&& u.surface.bpp == v.surface.bpp
        }),
    decreases i,
{
    if i > 0 {
        lemma_row_prefix(v, cs, gs, i - 1);
        assert(cs.take(i).drop_last() =~= cs.take(i - 1));
        assert(gs.take(i).drop_last() =~= gs.take(i - 1));
        let prev = write_all(v, cs.take(i - 1), gs.take(i - 1)).0;
        assert(scroll_to_fit(prev) == prev);
        assert(cs.take(i).last() == cs[i - 1]);
        assert(gs.take(i).last() == gs[i - 1]);
    } else {
        assert(cs.take(0) =~= Seq::<char>::empty());
    }
}

/// Writing one glyph more than a row holds, from the start of a row with room for two more
/// rows below, wraps exactly once: the first `width / 8` glyphs stay on the row, and the last
/// one goes to the start of the next row.
pub proof fn lemma_wrap_once(v: ConsoleView, cs: Seq<char>, gs: Seq<Option<Seq<u8>>>)
    requires
        v.wf(),
        v.x == 0,
        is_supported_bpp(v.surface.bpp as int),
        v.surface.width >= 8,
        v.y + 16 < v.surface.height,
        cs.len() == v.surface.width / 8 + 1,
        gs.len() == cs.len(),
        forall|j: int| 0 <= j < cs.len() ==> !is_control(#[trigger] cs[j]) && gs[j] is Some,
    ensures
        ({
            let n = (v.surface.width / 8) as int;
            let (mid, mid_res) = write_all(v, cs.take(n), gs.take(n));
            let (end, end_res) = write_all(v, cs, gs);
            &&& mid_res is Ok && mid.x == 8 * n && mid.y == v.y
            &&& end_res is Ok && end.x == 8 && end.y == v.y + 8
        }),
{
    let n = (v.surface.width / 8) as int;
    assert(8 * n <= v.surface.width && v.surface.width < 8 * n + 8);
    lemma_row_prefix(v, cs, gs, n);
    assert(cs.drop_last() =~= cs.take(n));
    assert(gs.drop_last() =~= gs.take(n));
    let prev = write_all(v, cs.take(n), gs.take(n)).0;
    let wrapped = prev.with_cursor(0, prev.y + 8);
    assert(scroll_to_fit(wrapped) == wrapped);
    assert(cs.last() == cs[n]);
}

} // verus!
