//! Drawing ghost pieces into the overlay's bitmap.
//!
//! The bitmap holds one pre-multiplied `0xAARRGGBB` number per pixel, row by
//! row from the top.
use crate::ai::{AiSuggestion, OverlayPlacement};
use crate::bot::{BotState, BotView};
use crate::color::CellColor;
use vstd::prelude::*;

verus! {

/// The margins around the board.
pub const PAD_LEFT: i32 = 120;

pub const PAD_TOP: i32 = 10;

pub const PAD_RIGHT: i32 = 10;

pub const PAD_BOTTOM: i32 = 10;

// ---- colours ----

/// The tint of a piece.
pub open spec fn tint(piece: CellColor) -> (u8, u8, u8) {
    match piece {
        CellColor::I => (0, 220, 220),
        CellColor::O => (220, 220, 0),
        CellColor::T => (160, 0, 220),
        CellColor::S => (0, 220, 0),
        CellColor::Z => (220, 0, 0),
        CellColor::J => (0, 0, 220),
        CellColor::L => (220, 130, 0),
        _ => (180, 180, 180),
    }
}

/// The tint of a piece.
pub fn piece_tint(piece: CellColor) -> (rgb: (u8, u8, u8))
    ensures
        rgb == tint(piece),
{
    match piece {
        CellColor::I => (0, 220, 220),
        CellColor::O => (220, 220, 0),
        CellColor::T => (160, 0, 220),
        CellColor::S => (0, 220, 0),
        CellColor::Z => (220, 0, 0),
        CellColor::J => (0, 0, 220),
        CellColor::L => (220, 130, 0),
        _ => (180, 180, 180),
    }
}

/// A colour channel multiplied by the opacity.
pub open spec fn faded(c: int, a: int) -> int {
    c * a / 255
}

/// The pixel of a colour at an opacity: the opacity, then the faded channels,
/// one byte each.
pub open spec fn premultiplied(r: int, g: int, b: int, a: int) -> int {
    a * 0x100_0000 + faded(r, a) * 0x1_0000 + faded(g, a) * 0x100 + faded(b, a)
}

fn fade(c: u8, a: u8) -> (f: u32)
    ensures
        f == faded(c as int, a as int),
        f <= 255,
        f <= a,
{
    proof {
        lemma_faded_bound(c as int, a as int);
    }
    c as u32 * a as u32 / 255
}

/// Fading leaves at most the opacity of a channel.
pub proof fn lemma_faded_bound(c: int, a: int)
    requires
        0 <= c <= 255,
        0 <= a <= 255,
    ensures
        0 <= c * a <= 65025,
        0 <= faded(c, a) <= a,
{
    assert(0 <= c * a <= 255 * a) by (nonlinear_arith)
        requires
            0 <= c <= 255,
            0 <= a <= 255,
    ;
}

/// Multiplies a colour by an opacity and packs it into a pixel.
pub fn premultiply(r: u8, g: u8, b: u8, a: u8) -> (pixel: u32)
    ensures
        pixel == premultiplied(r as int, g as int, b as int, a as int),
{
    let aa = a as u32;
    let rr = fade(r, a);
    let gg = fade(g, a);
    let bb = fade(b, a);
    aa * 0x100_0000 + rr * 0x1_0000 + gg * 0x100 + bb
}

/// The pixel that fills a ghost piece.
pub open spec fn fill_pixel(piece: CellColor, opacity: int) -> int {
    premultiplied(tint(piece).0 as int, tint(piece).1 as int, tint(piece).2 as int, opacity)
}

/// The opacity of the outline of a ghost piece.
pub open spec fn outline_opacity(opacity: int) -> int {
    if opacity + 80 > 255 {
        255
    } else {
        opacity + 80
    }
}

/// The opacity of the ghost of the hold piece: 40 less than that of the current
/// piece, though at least 40 as long as that is dimmer. Beside an invisible ghost
/// it is 40.
pub open spec fn dimmed(opacity: int) -> int {
    if opacity - 40 > 40 {
        opacity - 40
    } else if 1 <= opacity <= 40 {
        opacity - 1
    } else {
        40
    }
}

/// The pixel of a piece at an opacity.
pub fn ghost_pixel(piece: CellColor, opacity: u8) -> (pixel: u32)
    ensures
        pixel == fill_pixel(piece, opacity as int),
{
    let (r, g, b) = piece_tint(piece);
    premultiply(r, g, b, opacity)
}

/// The pixel of the outline of a piece: the same tint, more opaque.
pub fn outline_pixel(piece: CellColor, opacity: u8) -> (pixel: u32)
    ensures
        pixel == fill_pixel(piece, outline_opacity(opacity as int)),
{
    let stronger = if opacity > 175 { 255 } else { opacity + 80 };
    ghost_pixel(piece, stronger)
}

/// The opacity of the ghost of the hold piece.
pub fn hold_opacity(opacity: u8) -> (dim: u8)
    ensures
        dim == dimmed(opacity as int),
        opacity >= 1 ==> dim < opacity,
{
    if opacity > 80 {
        opacity - 40
    } else if 1 <= opacity && opacity <= 40 {
        opacity - 1
    } else {
        40
    }
}

/// A pixel is pre-multiplied: none of its colour bytes exceeds its opacity
/// byte, which is the requested opacity.
pub proof fn law_pixels_are_premultiplied(r: u8, g: u8, b: u8, a: u8)
    ensures
        ({
            let p = premultiplied(r as int, g as int, b as int, a as int);
            &&& 0 <= p <= u32::MAX
            &&& p / 0x100_0000 == a
            &&& p / 0x1_0000 % 0x100 == faded(r as int, a as int) <= a
            &&& p / 0x100 % 0x100 == faded(g as int, a as int) <= a
            &&& p % 0x100 == faded(b as int, a as int) <= a
        }),
{
    lemma_faded_bound(r as int, a as int);
    lemma_faded_bound(g as int, a as int);
    lemma_faded_bound(b as int, a as int);
    lemma_packed(
        a as int,
        faded(r as int, a as int),
        faded(g as int, a as int),
        faded(b as int, a as int),
    );
}

/// Four bytes packed into a number can be read back.
proof fn lemma_packed(a: int, r: int, g: int, b: int)
    requires
        0 <= a <= 255,
        0 <= r <= 255,
        0 <= g <= 255,
        0 <= b <= 255,
    ensures
        ({
            let p = a * 0x100_0000 + r * 0x1_0000 + g * 0x100 + b;
            &&& p / 0x100_0000 == a
            &&& p / 0x1_0000 % 0x100 == r
            &&& p / 0x100 % 0x100 == g
            &&& p % 0x100 == b
        }),
{
    let p = a * 0x100_0000 + r * 0x1_0000 + g * 0x100 + b;
    assert(p / 0x1_0000 == a * 0x100 + r);
    assert(p / 0x100 == a * 0x1_0000 + r * 0x100 + g);
}

/// The ghost of the hold piece is dimmer than that of the current piece, as long
/// as that is visible at all.
pub proof fn law_hold_ghost_is_dimmer(opacity: u8)
    requires
        opacity >= 1,
    ensures
        0 <= dimmed(opacity as int) < opacity,
{
}

// ---- cells ----

/// Where the board lies in the bitmap.
#[derive(Debug, Clone, Copy)]
pub struct BoardPlace {
    pub x: u32,
    pub y: u32,
    pub cell: u32,
}

impl BoardPlace {
    /// Whether the far corner of the board can be held by 32-bit numbers.
    pub open spec fn valid(self) -> bool {
        self.x + 10 * self.cell <= u32::MAX && self.y + 20 * self.cell <= u32::MAX
    }

    /// Whether a cell lies on the board.
    pub open spec fn has_cell(self, cell: (i32, i32)) -> bool {
        0 <= cell.0 < 10 && 0 <= cell.1 < 20
    }

    /// The left edge of a column.
    pub open spec fn left(self, col: int) -> int {
        self.x + col * self.cell
    }

    /// The top edge of a row.
    pub open spec fn top(self, row: int) -> int {
        self.y + row * self.cell
    }

    /// Whether a cell covers a pixel.
    pub open spec fn covers(self, cell: (i32, i32), x: int, y: int) -> bool {
        &&& self.has_cell(cell)
        &&& self.left(cell.0 as int) <= x < self.left(cell.0 as int) + self.cell
        &&& self.top(cell.1 as int) <= y < self.top(cell.1 as int) + self.cell
    }

    /// Whether a pixel that a cell covers belongs to its outline, which is two
    /// pixels wide.
    pub open spec fn outlines(self, cell: (i32, i32), x: int, y: int) -> bool {
        ||| x < self.left(cell.0 as int) + 2
        ||| x >= self.left(cell.0 as int) + self.cell - 2
        ||| y < self.top(cell.1 as int) + 2
        ||| y >= self.top(cell.1 as int) + self.cell - 2
    }
}

/// A pixel after a cell has been drawn over it.
pub open spec fn with_cell(
    place: BoardPlace,
    cell: (i32, i32),
    fill: u32,
    outline: u32,
    x: int,
    y: int,
    base: u32,
) -> u32 {
    if !place.covers(cell, x, y) {
        base
    } else if place.outlines(cell, x, y) {
        outline
    } else {
        fill
    }
}

/// A pixel after the first `n` cells have been drawn over it.
pub open spec fn drawn(
    place: BoardPlace,
    cells: Seq<(i32, i32)>,
    n: int,
    fill: u32,
    outline: u32,
    x: int,
    y: int,
    base: u32,
) -> u32
    decreases n,
{
    if n <= 0 {
        base
    } else {
        with_cell(
            place,
            cells[n - 1],
            fill,
            outline,
            x,
            y,
            drawn(place, cells, n - 1, fill, outline, x, y, base),
        )
    }
}

/// A pixel after a placement has been drawn over it.
pub open spec fn with_ghost(
    place: BoardPlace,
    placement: OverlayPlacement,
    opacity: int,
    x: int,
    y: int,
    base: u32,
) -> u32 {
    drawn(
        place,
        placement.cells@,
        4,
        fill_pixel(placement.piece_color, opacity) as u32,
        fill_pixel(placement.piece_color, outline_opacity(opacity)) as u32,
        x,
        y,
        base,
    )
}

/// Pixels are counted row by row.
proof fn lemma_pixel_index(w: int, h: int, x: int, y: int)
    requires
        0 <= x < w,
        0 <= y < h,
    ensures
        0 <= y * w,
        0 <= y * w + x < w * h,
        (y * w + x) / w == y,
        (y * w + x) % w == x,
{
    assert(0 <= y * w && y * w + x < w * h) by (nonlinear_arith)
        requires
            0 <= x < w,
            0 <= y < h,
    ;
    vstd::arithmetic::div_mod::lemma_fundamental_div_mod_converse(y * w + x, w, y, x);
}

/// Every pixel has a row and a column.
proof fn lemma_row_and_column(w: int, h: int, i: int)
    requires
        0 <= i < w * h,
        0 <= w,
        0 <= h,
    ensures
        0 < w,
        0 <= i % w < w,
        0 <= i / w < h,
        i == i / w * w + i % w,
{
    assert(0 < w) by (nonlinear_arith)
        requires
            0 <= i < w * h,
            0 <= w,
            0 <= h,
    ;
    vstd::arithmetic::div_mod::lemma_fundamental_div_mod(i, w);
    assert(0 <= i / w < h) by (nonlinear_arith)
        requires
            0 <= i < w * h,
            0 < w,
    ;
    assert(w * (i / w) == i / w * w) by (nonlinear_arith);
}

/// Draws one cell that lies on the board.
fn draw_cell(
    pixels: &mut [u32],
    w: usize,
    h: usize,
    place: BoardPlace,
    cell: (i32, i32),
    fill: u32,
    outline: u32,
)
    requires
        place.valid(),
        place.has_cell(cell),
        w * h <= old(pixels)@.len(),
    ensures
        final(pixels)@.len() == old(pixels)@.len(),
        forall|i: int|
            0 <= i < w * h ==> #[trigger] final(pixels)@[i] == with_cell(
                place,
                cell,
                fill,
                outline,
                i % (w as int),
                i / (w as int),
                old(pixels)@[i],
            ),
        forall|i: int|
            w * h <= i < old(pixels)@.len() ==> #[trigger] final(pixels)@[i] == old(pixels)@[i],
{
    let ghost start = pixels@;
    let ghost wide = w as int;
    let len = pixels.len();
    proof {
        assert(len == start.len());
        assert(cell.0 * place.cell + place.cell <= 10 * place.cell) by (nonlinear_arith)
            requires
                0 <= cell.0 < 10,
                0 <= place.cell,
        ;
        assert(cell.1 * place.cell + place.cell <= 20 * place.cell) by (nonlinear_arith)
            requires
                0 <= cell.1 < 20,
                0 <= place.cell,
        ;
        assert(0 <= cell.0 * place.cell && 0 <= cell.1 * place.cell) by (nonlinear_arith)
            requires
                0 <= cell.0,
                0 <= cell.1,
                0 <= place.cell,
        ;
    }
    let px = (place.x + cell.0 as u32 * place.cell) as usize;
    let py = (place.y + cell.1 as u32 * place.cell) as usize;
    let size = place.cell as usize;
    let right = if px + size < w { px + size } else { w };
    let bottom = if py + size < h { py + size } else { h };

    let mut y = py;
    while y < bottom
        invariant
            wide == w,
            px == place.left(cell.0 as int),
            py == place.top(cell.1 as int),
            size == place.cell,
            place.valid(),
            px + size <= u32::MAX,
            py + size <= u32::MAX,
            place.has_cell(cell),
            right <= w,
            bottom <= h,
            right == px + size || (right == w && w <= px + size),
            bottom == py + size || (bottom == h && h <= py + size),
            w * h <= start.len() <= usize::MAX,
            pixels@.len() == start.len(),
            py <= y,
            forall|i: int|
                0 <= i < w * h ==> #[trigger] pixels@[i] == if i / wide < y {
                    with_cell(place, cell, fill, outline, i % wide, i / wide, start[i])
                } else {
                    start[i]
                },
            forall|i: int| w * h <= i < start.len() ==> #[trigger] pixels@[i] == start[i],
        decreases bottom - y,
    {
        let mut x = px;
        while x < right
            invariant
                wide == w,
                px == place.left(cell.0 as int),
                py == place.top(cell.1 as int),
                size == place.cell,
                px + size <= u32::MAX,
                py + size <= u32::MAX,
                place.has_cell(cell),
                right <= w,
                right <= px + size,
                py <= y < bottom <= h,
                bottom <= py + size,
                w * h <= start.len() <= usize::MAX,
                pixels@.len() == start.len(),
                px <= x,
                forall|i: int|
                    0 <= i < w * h ==> #[trigger] pixels@[i] == if i / wide < y || (i / wide == y
                        && i % wide < x) {
                        with_cell(place, cell, fill, outline, i % wide, i / wide, start[i])
                    } else {
                        start[i]
                    },
                forall|i: int| w * h <= i < start.len() ==> #[trigger] pixels@[i] == start[i],
            decreases right - x,
        {
            proof {
                lemma_pixel_index(wide, h as int, x as int, y as int);
            }
            let border = x - px < 2 || px + size - x <= 2 || y - py < 2 || py + size - y <= 2;
            let ghost before = pixels@;
            let at = y * w + x;
            pixels[at] = if border {
                outline
            } else {
                fill
            };
            proof {
                assert(place.covers(cell, x as int, y as int));
                assert(border == place.outlines(cell, x as int, y as int));
                assert forall|i: int| 0 <= i < w * h implies #[trigger] pixels@[i] == if i / wide < y
                    || (i / wide == y && i % wide < x + 1) {
                    with_cell(place, cell, fill, outline, i % wide, i / wide, start[i])
                } else {
                    start[i]
                } by {
                    lemma_row_and_column(wide, h as int, i);
                    if i != at {
                        assert(pixels@[i] == before[i]);
                    }
                }
            }
            x += 1;
        }
        proof {
            assert forall|i: int| 0 <= i < w * h implies #[trigger] pixels@[i] == if i / wide < y + 1 {
                with_cell(place, cell, fill, outline, i % wide, i / wide, start[i])
            } else {
                start[i]
            } by {
                lemma_row_and_column(wide, h as int, i);
            }
        }
        y += 1;
    }
    proof {
        assert forall|i: int| 0 <= i < w * h implies #[trigger] pixels@[i] == with_cell(
            place,
            cell,
            fill,
            outline,
            i % wide,
            i / wide,
            start[i],
        ) by {
            lemma_row_and_column(wide, h as int, i);
        }
    }
}

/// Draws the ghost of a placement; cells that do not lie on the board are left
/// out.
pub fn draw_ghost_cells(
    pixels: &mut [u32],
    w: usize,
    h: usize,
    pl: &OverlayPlacement,
    place: BoardPlace,
    opacity: u8,
)
    requires
        place.valid(),
        w * h <= old(pixels)@.len(),
    ensures
        final(pixels)@.len() == old(pixels)@.len(),
        forall|i: int|
            0 <= i < w * h ==> #[trigger] final(pixels)@[i] == with_ghost(
                place,
                *pl,
                opacity as int,
                i % (w as int),
                i / (w as int),
                old(pixels)@[i],
            ),
        forall|i: int|
            w * h <= i < old(pixels)@.len() ==> #[trigger] final(pixels)@[i] == old(pixels)@[i],
{
    let fill = ghost_pixel(pl.piece_color, opacity);
    let outline = outline_pixel(pl.piece_color, opacity);
    let ghost start = pixels@;
    let ghost wide = w as int;
    for k in 0..4usize
        invariant
            wide == w,
            place.valid(),
            w * h <= start.len(),
            pixels@.len() == start.len(),
            forall|i: int|
                0 <= i < w * h ==> #[trigger] pixels@[i] == drawn(
                    place,
                    pl.cells@,
                    k as int,
                    fill,
                    outline,
                    i % wide,
                    i / wide,
                    start[i],
                ),
            forall|i: int| w * h <= i < start.len() ==> #[trigger] pixels@[i] == start[i],
    {
        let (col, row) = pl.cells[k];
        if 0 <= col && col < 10 && 0 <= row && row < 20 {
            draw_cell(pixels, w, h, place, (col, row), fill, outline);
        }
    }
}

// ---- the whole bitmap ----

/// A pixel of the overlay: empty unless the bot is running and has a suggestion,
/// else the ghost of the hold piece over the ghost of the current piece.
pub open spec fn overlay_pixel(
    bot: BotView,
    place: BoardPlace,
    opacity: int,
    x: int,
    y: int,
) -> u32 {
    match bot.suggestion {
        Some(suggestion) => if bot.enabled && !bot.paused {
            let direct = with_ghost(place, suggestion.direct, opacity, x, y, 0);
            match suggestion.hold_option {
                Some(hold) => with_ghost(place, hold, dimmed(opacity), x, y, direct),
                None => direct,
            }
        } else {
            0
        },
        None => 0,
    }
}

/// Draws the overlay for the current state of the bot.
pub fn render(pixels: &mut [u32], w: usize, h: usize, bot: &BotState, place: BoardPlace, opacity: u8)
    requires
        place.valid(),
        w * h == old(pixels)@.len(),
    ensures
        final(pixels)@.len() == old(pixels)@.len(),
        forall|i: int|
            0 <= i < w * h ==> #[trigger] final(pixels)@[i] == overlay_pixel(
                bot@,
                place,
                opacity as int,
                i % (w as int),
                i / (w as int),
            ),
{
    let ghost len = pixels@.len();
    let count = pixels.len();
    for i in 0..count
        invariant
            pixels@.len() == len,
            count == len,
            forall|k: int| 0 <= k < i ==> #[trigger] pixels@[k] == 0,
    {
        pixels[i] = 0;
    }
    if bot.enabled && !bot.paused {
        if let Some(suggestion) = &bot.current_suggestion {
            draw_ghost_cells(pixels, w, h, &suggestion.direct, place, opacity);
            if let Some(hold) = &suggestion.hold_option {
                draw_ghost_cells(pixels, w, h, hold, place, hold_opacity(opacity));
            }
        }
    }
}

/// A stopped or paused bot, and one without a suggestion, draws nothing.
pub proof fn law_idle_overlay_is_transparent(
    bot: BotView,
    place: BoardPlace,
    opacity: int,
    x: int,
    y: int,
)
    requires
        !bot.enabled || bot.paused || bot.suggestion is None,
    ensures
        overlay_pixel(bot, place, opacity, x, y) == 0,
{
}

/// Nothing is drawn outside of the board.
pub proof fn law_nothing_outside_the_board(
    bot: BotView,
    place: BoardPlace,
    opacity: int,
    x: int,
    y: int,
)
    requires
        x < place.x || y < place.y || x >= place.x + 10 * place.cell || y >= place.y + 20 * place.cell,
    ensures
        overlay_pixel(bot, place, opacity, x, y) == 0,
{
    if let Some(suggestion) = bot.suggestion {
        lemma_outside(place, suggestion.direct, opacity, x, y, 0);
        if let Some(hold) = suggestion.hold_option {
            lemma_outside(place, hold, dimmed(opacity), x, y, 0);
        }
    }
}

proof fn lemma_outside(
    place: BoardPlace,
    placement: OverlayPlacement,
    opacity: int,
    x: int,
    y: int,
    base: u32,
)
    requires
        x < place.x || y < place.y || x >= place.x + 10 * place.cell || y >= place.y + 20 * place.cell,
    ensures
        with_ghost(place, placement, opacity, x, y, base) == base,
{
    reveal_with_fuel(drawn, 5);
    assert forall|cell: (i32, i32)| !place.covers(cell, x, y) by {
        if place.has_cell(cell) {
            let (col, row, size) = (cell.0 as int, cell.1 as int, place.cell as int);
            assert(0 <= col * size && col * size + size <= 10 * size) by (nonlinear_arith)
                requires
                    0 <= col < 10,
                    0 <= size,
            ;
            assert(0 <= row * size && row * size + size <= 20 * size) by (nonlinear_arith)
                requires
                    0 <= row < 20,
                    0 <= size,
            ;
        }
    }
}

// ---- the window ----

/// Where the overlay window lies on the screen, and its size.
#[derive(Debug, Clone, Copy, PartialEq, Eq, Structural)]
pub struct OverlayWindow {
    pub x: i32,
    pub y: i32,
    pub w: i32,
    pub h: i32,
}

/// A screen coordinate moved back by a margin, but not off the screen.
pub open spec fn moved_back(c: u32, pad: int) -> int {
    if c > i32::MAX {
        i32::MAX - pad
    } else if c - pad > 0 {
        c - pad
    } else {
        0
    }
}

fn move_back(c: u32, pad: i32) -> (x: i32)
    requires
        0 <= pad,
    ensures
        x == moved_back(c, pad as int),
{
    if c > 0x7fff_ffff {
        i32::MAX - pad
    } else {
        let moved = c as i32 - pad;
        if moved > 0 {
            moved
        } else {
            0
        }
    }
}

/// Whether a window can hold a board of cells of the given size.
pub fn fits_window(cell: u32) -> (ok: bool)
    ensures
        ok == (10 * cell + PAD_LEFT + PAD_RIGHT <= i32::MAX && 20 * cell + PAD_TOP + PAD_BOTTOM
            <= i32::MAX),
{
    let size = cell as i64;
    10 * size + PAD_LEFT as i64 + PAD_RIGHT as i64 <= i32::MAX as i64 && 20 * size + PAD_TOP as i64
        + PAD_BOTTOM as i64 <= i32::MAX as i64
}

/// Whether a window is the one for a board: moved back by the margins, though
/// not off the screen, and large enough for the board and its margins.
pub open spec fn is_window_of(window: OverlayWindow, board_x: u32, board_y: u32, cell: u32) -> bool {
    &&& window.x == moved_back(board_x, PAD_LEFT as int)
    &&& window.y == moved_back(board_y, PAD_TOP as int)
    &&& window.w == 10 * cell + PAD_LEFT + PAD_RIGHT
    &&& window.h == 20 * cell + PAD_TOP + PAD_BOTTOM
}

/// The window that covers the board and its margins.
pub fn overlay_window(board_x: u32, board_y: u32, cell: u32) -> (window: OverlayWindow)
    requires
        10 * cell + PAD_LEFT + PAD_RIGHT <= i32::MAX,
        20 * cell + PAD_TOP + PAD_BOTTOM <= i32::MAX,
    ensures
        is_window_of(window, board_x, board_y, cell),
{
    OverlayWindow {
        x: move_back(board_x, PAD_LEFT),
        y: move_back(board_y, PAD_TOP),
        w: (10 * cell) as i32 + PAD_LEFT + PAD_RIGHT,
        h: (20 * cell) as i32 + PAD_TOP + PAD_BOTTOM,
    }
}

/// Where the board lies in the overlay's bitmap: as far from the corner of the
/// window as it lies on the screen.
pub fn board_place(board_x: u32, board_y: u32, cell: u32, window: &OverlayWindow) -> (place:
    BoardPlace)
    requires
        is_window_of(*window, board_x, board_y, cell),
    ensures
        place.x == board_x - window.x,
        place.y == board_y - window.y,
        place.cell == cell,
        place.valid(),
{
    BoardPlace { x: board_x - window.x as u32, y: board_y - window.y as u32, cell }
}

/// A ghost lies exactly on the playfield: the screen position of every pixel of
/// the overlay that a cell covers is one that the same cell of the board covers,
/// and for a board on the screen all of it is inside the window.
pub proof fn law_ghost_lies_on_the_playfield(
    window: OverlayWindow,
    place: BoardPlace,
    board_x: u32,
    board_y: u32,
    cell: (i32, i32),
    x: int,
    y: int,
)
    requires
        is_window_of(window, board_x, board_y, place.cell),
        place.x == board_x - window.x,
        place.y == board_y - window.y,
        place.has_cell(cell),
    ensures
        place.covers(cell, x, y) <==> {
            &&& board_x + cell.0 * place.cell <= window.x + x < board_x + cell.0 * place.cell
                + place.cell
            &&& board_y + cell.1 * place.cell <= window.y + y < board_y + cell.1 * place.cell
                + place.cell
        },
        board_x <= i32::MAX && board_y <= i32::MAX && place.covers(cell, x, y) ==> 0 <= x < window.w
            && 0 <= y < window.h,
{
    let (col, row, size) = (cell.0 as int, cell.1 as int, place.cell as int);
    assert(0 <= col * size && col * size + size <= 10 * size) by (nonlinear_arith)
        requires
            0 <= col < 10,
            0 <= size,
    ;
    assert(0 <= row * size && row * size + size <= 20 * size) by (nonlinear_arith)
        requires
            0 <= row < 20,
            0 <= size,
    ;
}

// ---- what is drawn ----

/// Cells of a board do not overlap: a pixel lies in one column and one row only.
proof fn lemma_cells_are_apart(origin: int, size: int, a: int, b: int, x: int)
    requires
        origin + a * size <= x < origin + a * size + size,
        origin + b * size <= x < origin + b * size + size,
    ensures
        a == b,
{
    if a < b {
        assert(a * size + size <= b * size) by (nonlinear_arith)
            requires
                a + 1 <= b,
                0 < size,
        ;
    } else if b < a {
        assert(b * size + size <= a * size) by (nonlinear_arith)
            requires
                b + 1 <= a,
                0 < size,
        ;
    }
}

/// Two cells that cover the same pixel are the same cell.
proof fn lemma_covering_cell_is_unique(
    place: BoardPlace,
    a: (i32, i32),
    b: (i32, i32),
    x: int,
    y: int,
)
    requires
        place.covers(a, x, y),
        place.covers(b, x, y),
    ensures
        a == b,
{
    lemma_cells_are_apart(place.x as int, place.cell as int, a.0 as int, b.0 as int, x);
    lemma_cells_are_apart(place.y as int, place.cell as int, a.1 as int, b.1 as int, y);
}

/// A cell of column `col` and row `row` covers the square of a cell's size that lies
/// so many columns to the right of the board's corner and so many rows below it.
pub proof fn law_cells_tile_the_board(place: BoardPlace, col: i32, row: i32, x: int, y: int)
    ensures
        place.covers((col, row), x, y) <==> {
            &&& 0 <= col < 10
            &&& 0 <= row < 20
            &&& 0 <= x - place.x - col * place.cell < place.cell
            &&& 0 <= y - place.y - row * place.cell < place.cell
        },
{
}

/// Every cell of a placement that lies on the board is drawn in full: a pixel of the
/// `k`-th cell gets the colour of the outline within two pixels of the edge of the
/// cell, and else the colour of the piece.
pub proof fn law_every_cell_of_a_ghost_is_drawn(
    place: BoardPlace,
    placement: OverlayPlacement,
    opacity: int,
    x: int,
    y: int,
    base: u32,
    k: int,
)
    requires
        0 <= k < 4,
        0 <= placement.cells@[k].0 < 10,
        0 <= placement.cells@[k].1 < 20,
        place.x + placement.cells@[k].0 * place.cell <= x < place.x + placement.cells@[k].0
            * place.cell + place.cell,
        place.y + placement.cells@[k].1 * place.cell <= y < place.y + placement.cells@[k].1
            * place.cell + place.cell,
    ensures
        ({
            let dx = x - place.x - placement.cells@[k].0 * place.cell;
            let dy = y - place.y - placement.cells@[k].1 * place.cell;
            with_ghost(place, placement, opacity, x, y, base) == if dx < 2 || dy < 2 || place.cell
                - dx <= 2 || place.cell - dy <= 2 {
                fill_pixel(placement.piece_color, outline_opacity(opacity)) as u32
            } else {
                fill_pixel(placement.piece_color, opacity) as u32
            }
        }),
{
    let cells = placement.cells@;
    assert(place.covers(cells[k], x, y));
    reveal_with_fuel(drawn, 5);
    assert forall|j: int| 0 <= j < 4 && place.covers(#[trigger] cells[j], x, y) implies cells[j]
        == cells[k] by {
        lemma_covering_cell_is_unique(place, cells[j], cells[k], x, y);
    }
    assert(cells[0] == cells[k] || !place.covers(cells[0], x, y));
    assert(cells[1] == cells[k] || !place.covers(cells[1], x, y));
    assert(cells[2] == cells[k] || !place.covers(cells[2], x, y));
    assert(cells[3] == cells[k] || !place.covers(cells[3], x, y));
}

/// Nothing but the cells of a placement is drawn: a pixel outside of all of them
/// stays as it was.
pub proof fn law_nothing_else_of_a_ghost_is_drawn(
    place: BoardPlace,
    placement: OverlayPlacement,
    opacity: int,
    x: int,
    y: int,
    base: u32,
)
    requires
        forall|k: int|
            0 <= k < 4 ==> {
                let cell = #[trigger] placement.cells@[k];
                ||| !(0 <= cell.0 < 10 && 0 <= cell.1 < 20)
                ||| x < place.x + cell.0 * place.cell
                ||| x >= place.x + cell.0 * place.cell + place.cell
                ||| y < place.y + cell.1 * place.cell
                ||| y >= place.y + cell.1 * place.cell + place.cell
            },
    ensures
        with_ghost(place, placement, opacity, x, y, base) == base,
{
    let cells = placement.cells@;
    reveal_with_fuel(drawn, 5);
    assert(!place.covers(cells[0], x, y));
    assert(!place.covers(cells[1], x, y));
    assert(!place.covers(cells[2], x, y));
    assert(!place.covers(cells[3], x, y));
}

/// Whether one of the cells of a placement that lie on the board covers a pixel.
pub open spec fn ghost_covers(
    place: BoardPlace,
    placement: OverlayPlacement,
    x: int,
    y: int,
) -> bool {
    exists|k: int| 0 <= k < 4 && place.covers(#[trigger] placement.cells@[k], x, y)
}

/// A running bot shows both of its placements: where the ghost of the hold piece
/// lies, the overlay has one of its two colours, at the dimmer opacity; elsewhere it
/// has one of the two colours of the current piece where that ghost lies, and is
/// transparent where neither does.
pub proof fn law_overlay_shows_both_ghosts(
    bot: BotView,
    place: BoardPlace,
    opacity: int,
    x: int,
    y: int,
    suggestion: AiSuggestion,
)
    requires
        bot.enabled,
        !bot.paused,
        bot.suggestion == Some(suggestion),
    ensures
        ({
            let shown = overlay_pixel(bot, place, opacity, x, y);
            let direct = suggestion.direct;
            let held = suggestion.hold_option matches Some(hold) && ghost_covers(place, hold, x, y);
            &&& held ==> {
                let color = suggestion.hold_option->Some_0.piece_color;
                ||| shown == fill_pixel(color, dimmed(opacity)) as u32
                ||| shown == fill_pixel(color, outline_opacity(dimmed(opacity))) as u32
            }
            &&& !held && ghost_covers(place, direct, x, y) ==> {
                ||| shown == fill_pixel(direct.piece_color, opacity) as u32
                ||| shown == fill_pixel(direct.piece_color, outline_opacity(opacity)) as u32
            }
            &&& !held && !ghost_covers(place, direct, x, y) ==> shown == 0
        }),
{
    let direct = with_ghost(place, suggestion.direct, opacity, x, y, 0);
    lemma_ghost_pixel(place, suggestion.direct, opacity, x, y, 0);
    if let Some(hold) = suggestion.hold_option {
        lemma_ghost_pixel(place, hold, dimmed(opacity), x, y, direct);
    }
}

proof fn lemma_ghost_pixel(
    place: BoardPlace,
    placement: OverlayPlacement,
    opacity: int,
    x: int,
    y: int,
    base: u32,
)
    ensures
        ({
            let shown = with_ghost(place, placement, opacity, x, y, base);
            &&& ghost_covers(place, placement, x, y) ==> {
                ||| shown == fill_pixel(placement.piece_color, opacity) as u32
                ||| shown == fill_pixel(placement.piece_color, outline_opacity(opacity)) as u32
            }
            &&& !ghost_covers(place, placement, x, y) ==> shown == base
        }),
{
    if ghost_covers(place, placement, x, y) {
        let k = choose|k: int| 0 <= k < 4 && place.covers(#[trigger] placement.cells@[k], x, y);
        law_every_cell_of_a_ghost_is_drawn(place, placement, opacity, x, y, base, k);
    } else {
        assert forall|k: int| 0 <= k < 4 implies !place.covers(#[trigger] placement.cells@[k], x, y) by {}
        law_nothing_else_of_a_ghost_is_drawn(place, placement, opacity, x, y, base);
    }
}

/// A ghost is drawn in the colour of its piece: the pixel's opacity byte is the
/// requested opacity, and its colour bytes are those of the piece's tint scaled by
/// that opacity, so that the pixel grows opaque and bright together.
pub proof fn law_ghost_has_the_tint_of_its_piece(piece: CellColor, opacity: u8)
    ensures
        ({
            let p = fill_pixel(piece, opacity as int);
            let (r, g, b) = tint(piece);
            &&& 0 <= p <= u32::MAX
            &&& p / 0x100_0000 == opacity
            &&& p / 0x1_0000 % 0x100 == r * opacity / 255
            &&& p / 0x100 % 0x100 == g * opacity / 255
            &&& p % 0x100 == b * opacity / 255
        }),
{
    let (r, g, b) = tint(piece);
    law_pixels_are_premultiplied(r, g, b, opacity);
}

/// Ghosts of different pieces have different tints.
pub proof fn law_tints_tell_pieces_apart(a: CellColor, b: CellColor)
    requires
        a.is_piece(),
        a != b,
    ensures
        tint(a) != tint(b),
{
}

/// The outline of a ghost is more opaque than its inside, by 80 as far as there is
/// room.
pub proof fn law_outline_is_stronger(opacity: u8)
    ensures
        opacity <= outline_opacity(opacity as int) <= 255,
        opacity < 255 ==> opacity < outline_opacity(opacity as int),
        outline_opacity(opacity as int) == opacity + 80 || outline_opacity(opacity as int) == 255,
        opacity <= 175 ==> outline_opacity(opacity as int) == opacity + 80,
{
}

/// The ghost of the hold piece is 40 dimmer than that of the current piece, but no
/// dimmer than 40 unless it has to be to stay behind it.
pub proof fn law_hold_ghost_stays_visible(opacity: u8)
    ensures
        opacity >= 80 ==> dimmed(opacity as int) == opacity - 40,
        opacity > 40 ==> dimmed(opacity as int) >= 40,
        dimmed(opacity as int) + 40 >= opacity,
{
}

/// The window covers the board and its margins wherever the board lies on the
/// screen: the margins are kept to the right and below, and to the left and above
/// as far as the screen reaches.
pub proof fn law_window_covers_the_board(
    window: OverlayWindow,
    board_x: u32,
    board_y: u32,
    cell: u32,
)
    requires
        is_window_of(window, board_x, board_y, cell),
        board_x <= i32::MAX,
        board_y <= i32::MAX,
    ensures
        0 <= window.x <= board_x,
        0 <= window.y <= board_y,
        board_x - window.x == if board_x >= 120 {
            120
        } else {
            board_x as int
        },
        board_y - window.y == if board_y >= 10 {
            10
        } else {
            board_y as int
        },
        window.x + window.w >= board_x + 10 * cell + 10,
        window.y + window.h >= board_y + 20 * cell + 10,
        window.w == 10 * cell + 130,
        window.h == 20 * cell + 20,
{
}

} // verus!
