//! Calibrating against a captured screen: a buffer of packed rows of four-byte
//! pixels in the order blue, green, red, alpha.
use crate::analyze::{cell_center, grid_center, grid_in_range, is_grid_in_range};
use crate::color::{
    brightness, classified, classify_color_slow, hue, rgb_to_hsv, saturation, spec_brightness,
    value, CellColor, Hsv, GHOST_NOTE_VALUE, GHOST_VALUE,
};
use crate::inspect::{cell_label, distance, in_ghost_range, jump, label, Edge, GridMark};
use crate::vision::{as_signed, can_shift, count_votes, leader, signed, tally};
use vstd::prelude::*;

verus! {

/// How far the brightness has to jump for an edge.
pub const EDGE_JUMP: u16 = 30;

/// The letter that a pixel is classified as.
pub fn classify_piece(r: u8, g: u8, b: u8) -> (text: &'static str)
    ensures
        text@ == label(classified(r, g, b)),
{
    cell_label(classify_color_slow(r, g, b))
}

// ---- the pixels of a captured screen ----

/// Where the bytes of a pixel start, on a screen of the given width.
pub open spec fn offset(stride_w: u32, x: int, y: int) -> int {
    y * stride_w * 4 + x * 4
}

/// Whether the buffer holds the bytes at an offset.
pub open spec fn holds(pixels: Seq<u8>, at: int) -> bool {
    0 <= at && at + 3 < pixels.len()
}

/// Red, green and blue at an offset.
pub open spec fn rgb_at(pixels: Seq<u8>, at: int) -> (u8, u8, u8) {
    (pixels[at + 2], pixels[at + 1], pixels[at])
}

/// The classification of the pixel at an offset.
pub open spec fn color_at_offset(pixels: Seq<u8>, at: int) -> CellColor {
    let p = rgb_at(pixels, at);
    classified(p.0, p.1, p.2)
}

/// The brightness of the pixel at an offset.
pub open spec fn bright_at(pixels: Seq<u8>, at: int) -> int {
    let p = rgb_at(pixels, at);
    spec_brightness(p.0, p.1, p.2)
}

fn read(pixels: &Vec<u8>, stride_w: u32, x: u32, y: u32) -> (rgb: Option<(u8, u8, u8)>)
    requires
        offset(stride_w, x as int, y as int) <= u32::MAX,
    ensures
        match rgb {
            Some(p) => holds(pixels@, offset(stride_w, x as int, y as int)) && p == rgb_at(
                pixels@,
                offset(stride_w, x as int, y as int),
            ),
            None => !holds(pixels@, offset(stride_w, x as int, y as int)),
        },
{
    assert(0 <= y * stride_w) by (nonlinear_arith)
        requires
            0 <= y,
            0 <= stride_w,
    ;
    let at = (y * stride_w * 4 + x * 4) as usize;
    if pixels.len() < 4 || at > pixels.len() - 4 {
        None
    } else {
        Some((pixels[at + 2], pixels[at + 1], pixels[at]))
    }
}

// ---- saving ----

/// The bytes of an image with the first and third channel of every pixel
/// exchanged.
pub open spec fn swapped(pixels: Seq<u8>, len: nat) -> Seq<u8> {
    Seq::new(
        len,
        |k: int|
            if k % 4 == 0 {
                pixels[k + 2]
            } else if k % 4 == 2 {
                pixels[k - 2]
            } else {
                pixels[k]
            },
    )
}

/// Converts a captured screen to the channel order of image files.
pub fn bgra_to_rgba(pixels: &Vec<u8>, w: u32, h: u32) -> (rgba: Vec<u8>)
    requires
        w * h * 4 <= u32::MAX,
        w * h * 4 <= pixels@.len(),
    ensures
        rgba@ == swapped(pixels@, (w * h * 4) as nat),
{
    assert(0 <= w * h) by (nonlinear_arith)
        requires
            0 <= w,
            0 <= h,
    ;
    let count = (w * h) as usize;
    let mut rgba: Vec<u8> = Vec::new();
    for i in 0..count
        invariant
            count == w * h,
            w * h * 4 <= u32::MAX,
            w * h * 4 <= pixels@.len(),
            rgba@.len() == 4 * i,
            forall|k: int|
                0 <= k < 4 * i ==> #[trigger] rgba@[k] == swapped(
                    pixels@,
                    (w * h * 4) as nat,
                )[k],
    {
        rgba.push(pixels[i * 4 + 2]);
        rgba.push(pixels[i * 4 + 1]);
        rgba.push(pixels[i * 4]);
        rgba.push(pixels[i * 4 + 3]);
    }
    assert(rgba@ =~= swapped(pixels@, (w * h * 4) as nat));
    rgba
}

/// Converting twice gives the captured bytes back.
pub proof fn law_conversion_undoes_itself(pixels: Seq<u8>)
    requires
        pixels.len() % 4 == 0,
    ensures
        swapped(swapped(pixels, pixels.len()), pixels.len()) == pixels,
{
    let once = swapped(pixels, pixels.len());
    assert forall|k: int| 0 <= k < pixels.len() implies swapped(once, pixels.len())[k] == pixels[k] by {
        if k % 4 == 0 {
            assert((k + 2) % 4 == 2);
        } else if k % 4 == 2 {
            assert((k - 2) % 4 == 0);
        }
    }
    assert(swapped(once, pixels.len()) =~= pixels);
}

// ---- single pixels ----

/// A pixel and its surroundings.
#[derive(Debug)]
pub struct PixelReport {
    pub rgb: (u8, u8, u8),
    pub hsv: Hsv,
    /// Whether the pixel has the brightness of the ghost overlay.
    pub is_ghost: bool,
    pub color: CellColor,
    /// The pixels around it, row by row; pixels that the buffer does not hold are
    /// missing.
    pub around: Vec<Option<(u8, u8, u8)>>,
}

/// The `k`-th pixel of the three by three surroundings of a pixel.
pub open spec fn around(pixels: Seq<u8>, stride_w: u32, x: int, y: int, k: int) -> Option<
    (u8, u8, u8),
> {
    let at = offset(stride_w, x + k % 3 - 1, y + k / 3 - 1);
    if holds(pixels, at) {
        Some(rgb_at(pixels, at))
    } else {
        None
    }
}

/// Samples a pixel and its surroundings; nothing if the buffer does not hold the
/// pixel.
pub fn sample_pixel(pixels: &Vec<u8>, stride_w: u32, x: u32, y: u32) -> (report: Option<PixelReport>)
    requires
        offset(stride_w, x as int, y as int) <= u32::MAX,
        holds(pixels@, offset(stride_w, x as int, y as int)) ==> {
            &&& 1 <= x
            &&& 1 <= y < i32::MAX
            &&& offset(stride_w, x + 1, y + 1) <= u32::MAX
        },
    ensures
        match report {
            Some(s) => {
                let at = offset(stride_w, x as int, y as int);
                &&& holds(pixels@, at)
                &&& s.rgb == rgb_at(pixels@, at)
                &&& s.hsv.h == hue(s.rgb.0, s.rgb.1, s.rgb.2)
                &&& s.hsv.s == saturation(s.rgb.0, s.rgb.1, s.rgb.2)
                &&& s.hsv.v == value(s.rgb.0, s.rgb.1, s.rgb.2)
                &&& s.is_ghost == in_ghost_range(value(s.rgb.0, s.rgb.1, s.rgb.2))
                &&& s.color == color_at_offset(pixels@, at)
                &&& s.around@ == Seq::new(
                    9,
                    |k: int| around(pixels@, stride_w, x as int, y as int, k),
                )
            },
            None => !holds(pixels@, offset(stride_w, x as int, y as int)),
        },
{
    let (r, g, b) = match read(pixels, stride_w, x, y) {
        Some(p) => p,
        None => {
            return None;
        },
    };
    let hsv = rgb_to_hsv(r, g, b);
    let mut list: Vec<Option<(u8, u8, u8)>> = Vec::new();
    for k in 0..9u32
        invariant
            1 <= x,
            1 <= y < i32::MAX,
            offset(stride_w, x + 1, y + 1) <= u32::MAX,
            list@.len() == k,
            forall|j: int|
                0 <= j < k ==> #[trigger] list@[j] == around(pixels@, stride_w, x as int, y as int, j),
    {
        proof {
            lemma_offset_grows(stride_w, x + k % 3 - 1, y + k / 3 - 1, x + 1, y + 1);
        }
        let sx = x - 1 + k % 3;
        let sy = y - 1 + k / 3;
        list.push(read(pixels, stride_w, sx, sy));
    }
    assert(list@ =~= Seq::new(9, |k: int| around(pixels@, stride_w, x as int, y as int, k)));
    Some(
        PixelReport {
            rgb: (r, g, b),
            hsv,
            is_ghost: hsv.v >= GHOST_NOTE_VALUE && hsv.v < GHOST_VALUE,
            color: classify_color_slow(r, g, b),
            around: list,
        },
    )
}

/// Pixels further right and further down start later.
proof fn lemma_offset_grows(stride_w: u32, x: int, y: int, x1: int, y1: int)
    requires
        0 <= x <= x1,
        0 <= y <= y1,
    ensures
        0 <= offset(stride_w, x, y) <= offset(stride_w, x1, y1),
        x * 4 <= offset(stride_w, x1, y1),
{
    assert(0 <= y * stride_w <= y1 * stride_w) by (nonlinear_arith)
        requires
            0 <= y <= y1,
            0 <= stride_w,
    ;
}

// ---- cells ----

/// A coordinate shifted by `d`, but not below zero.
pub open spec fn nudged(c: u32, d: int) -> int {
    if as_signed(c) + d < 0 {
        0
    } else {
        as_signed(c) + d
    }
}

fn nudge(c: u32, d: i32) -> (n: u32)
    requires
        i32::MIN <= as_signed(c) + d <= i32::MAX,
    ensures
        n == nudged(c, d as int),
{
    let x = signed(c) + d;
    if x < 0 {
        0
    } else {
        x as u32
    }
}

/// The offset of a sample of a cell.
pub open spec fn sample_offset(stride_w: u32, cx: u32, cy: u32, dx: int, dy: int) -> int {
    offset(stride_w, nudged(cx, dx), nudged(cy, dy))
}

/// The samples with one more, if the buffer holds it.
pub open spec fn with_sample(
    samples: Seq<CellColor>,
    pixels: Seq<u8>,
    stride_w: u32,
    cx: u32,
    cy: u32,
    dx: int,
    dy: int,
) -> Seq<CellColor> {
    let at = sample_offset(stride_w, cx, cy, dx, dy);
    if holds(pixels, at) {
        samples.push(color_at_offset(pixels, at))
    } else {
        samples
    }
}

/// The samples of a cell that the buffer holds: the centre, left, right, above
/// and below.
pub open spec fn cell_samples(pixels: Seq<u8>, stride_w: u32, cx: u32, cy: u32, off: int) -> Seq<
    CellColor,
> {
    let s = with_sample(Seq::empty(), pixels, stride_w, cx, cy, 0, 0);
    let s = with_sample(s, pixels, stride_w, cx, cy, -off, 0);
    let s = with_sample(s, pixels, stride_w, cx, cy, off, 0);
    let s = with_sample(s, pixels, stride_w, cx, cy, 0, -off);
    with_sample(s, pixels, stride_w, cx, cy, 0, off)
}

/// Whether the samples of a cell can be located by 32-bit numbers.
pub open spec fn can_sample_cell(stride_w: u32, cx: u32, cy: u32, off: u32) -> bool {
    &&& off <= i32::MAX
    &&& can_shift(cx, off as int)
    &&& can_shift(cy, off as int)
    &&& sample_offset(stride_w, cx, cy, off as int, 0) <= u32::MAX
    &&& sample_offset(stride_w, cx, cy, 0, off as int) <= u32::MAX
}

/// The letter of a colour that fewer than three samples agree on.
pub open spec fn doubtful_label(c: CellColor) -> Seq<char> {
    match c {
        CellColor::Empty => "."@,
        CellColor::I => "I?"@,
        CellColor::O => "O?"@,
        CellColor::T => "T?"@,
        CellColor::S => "S?"@,
        CellColor::Z => "Z?"@,
        CellColor::J => "J?"@,
        CellColor::L => "L?"@,
        CellColor::Garbage => "G?"@,
    }
}

fn doubtful(c: CellColor) -> (text: &'static str)
    ensures
        text@ == doubtful_label(c),
{
    match c {
        CellColor::Empty => ".",
        CellColor::I => "I?",
        CellColor::O => "O?",
        CellColor::T => "T?",
        CellColor::S => "S?",
        CellColor::Z => "Z?",
        CellColor::J => "J?",
        CellColor::L => "L?",
        CellColor::Garbage => "G?",
    }
}

/// How many samples agree on the outcome of a vote: on the leading colour, or on
/// an empty cell if no sample is filled.
pub open spec fn agreement(samples: Seq<CellColor>) -> int {
    tally(samples, leader(samples).spec_index())
}

fn add_sample(
    samples: &mut Vec<CellColor>,
    pixels: &Vec<u8>,
    stride_w: u32,
    cx: u32,
    cy: u32,
    dx: i32,
    dy: i32,
)
    requires
        i32::MIN <= as_signed(cx) + dx <= i32::MAX,
        i32::MIN <= as_signed(cy) + dy <= i32::MAX,
        sample_offset(stride_w, cx, cy, dx as int, dy as int) <= u32::MAX,
    ensures
        final(samples)@ == with_sample(
            old(samples)@,
            pixels@,
            stride_w,
            cx,
            cy,
            dx as int,
            dy as int,
        ),
{
    if let Some((r, g, b)) = read(pixels, stride_w, nudge(cx, dx), nudge(cy, dy)) {
        samples.push(classify_color_slow(r, g, b));
    }
}

fn vote(pixels: &Vec<u8>, stride_w: u32, cx: u32, cy: u32, off: u32) -> (outcome: (CellColor, u8))
    requires
        can_sample_cell(stride_w, cx, cy, off),
    ensures
        outcome.0 == leader(cell_samples(pixels@, stride_w, cx, cy, off as int)),
        outcome.1 == agreement(cell_samples(pixels@, stride_w, cx, cy, off as int)),
{
    let d = off as i32;
    proof {
        let (right, low) = (nudged(cx, off as int), nudged(cy, off as int));
        lemma_offset_grows(stride_w, nudged(cx, 0), nudged(cy, 0), right, nudged(cy, 0));
        lemma_offset_grows(stride_w, nudged(cx, -off), nudged(cy, 0), right, nudged(cy, 0));
        lemma_offset_grows(stride_w, nudged(cx, 0), nudged(cy, -off), nudged(cx, 0), low);
    }
    let mut samples: Vec<CellColor> = Vec::new();
    add_sample(&mut samples, pixels, stride_w, cx, cy, 0, 0);
    add_sample(&mut samples, pixels, stride_w, cx, cy, -d, 0);
    add_sample(&mut samples, pixels, stride_w, cx, cy, d, 0);
    add_sample(&mut samples, pixels, stride_w, cx, cy, 0, -d);
    add_sample(&mut samples, pixels, stride_w, cx, cy, 0, d);
    let (color, count, empty) = count_votes(&samples);
    if color == CellColor::Empty {
        (color, empty)
    } else {
        (color, count)
    }
}

/// The letter of a cell and the number of samples that agree on it. The letter
/// of a piece that fewer than three samples agree on has a question mark.
pub fn sample_cell_votes(pixels: &Vec<u8>, stride_w: u32, cx: u32, cy: u32, off: u32) -> (votes: (
    &'static str,
    u8,
))
    requires
        can_sample_cell(stride_w, cx, cy, off),
    ensures
        ({
            let samples = cell_samples(pixels@, stride_w, cx, cy, off as int);
            &&& votes.1 == agreement(samples)
            &&& votes.0@ == if agreement(samples) < 3 {
                doubtful_label(leader(samples))
            } else {
                label(leader(samples))
            }
        }),
{
    let (color, count) = vote(pixels, stride_w, cx, cy, off);
    if count < 3 {
        (doubtful(color), count)
    } else {
        (cell_label(color), count)
    }
}

/// The mark of a cell of the grid: uncertain if fewer than three samples agree
/// on a piece.
pub open spec fn grid_mark(samples: Seq<CellColor>) -> GridMark {
    if agreement(samples) < 3 && leader(samples) != CellColor::Empty {
        GridMark::Uncertain
    } else {
        GridMark::Color(leader(samples))
    }
}

/// Whether all cells of a grid can be sampled.
pub open spec fn can_sample_grid(stride_w: u32, bx: u32, by: u32, cs: u32) -> bool {
    &&& grid_in_range(bx, by, cs, cs as int / 4)
    &&& forall|row: int, col: int|
        #![trigger grid_center(bx, by, cs, row, col)]
        0 <= row < 20 && 0 <= col < 10 ==> can_sample_cell(
            stride_w,
            grid_center(bx, by, cs, row, col).0,
            grid_center(bx, by, cs, row, col).1,
            cs / 4,
        )
}

fn is_offset_small(stride_w: u32, x: u32, y: u32) -> (ok: bool)
    ensures
        ok == (offset(stride_w, x as int, y as int) <= u32::MAX),
{
    assert(0 <= y * stride_w <= 0xffff_ffff * 0xffff_ffff) by (nonlinear_arith)
        requires
            0 <= y <= 0xffff_ffff,
            0 <= stride_w <= 0xffff_ffff,
    ;
    y as u128 * stride_w as u128 * 4 + x as u128 * 4 <= 0xffff_ffff
}

/// Whether the pixel at `(x, y)` and its surroundings can be sampled.
pub fn can_sample_pixel(pixels: &Vec<u8>, stride_w: u32, x: u32, y: u32) -> (ok: bool)
    ensures
        ok == (offset(stride_w, x as int, y as int) <= u32::MAX && (holds(
            pixels@,
            offset(stride_w, x as int, y as int),
        ) ==> 1 <= x && 1 <= y < i32::MAX && offset(stride_w, x + 1, y + 1) <= u32::MAX)),
{
    if !is_offset_small(stride_w, x, y) {
        return false;
    }
    assert(0 <= y * stride_w) by (nonlinear_arith)
        requires
            0 <= y,
            0 <= stride_w,
    ;
    match read(pixels, stride_w, x, y) {
        Some(_) => 1 <= x && 1 <= y && y < 0x7fff_ffff && is_offset_small(stride_w, x + 1, y + 1),
        None => true,
    }
}

/// Whether all cells of a grid can be sampled.
pub fn is_grid_readable(stride_w: u32, bx: u32, by: u32, cs: u32) -> (ok: bool)
    ensures
        ok == can_sample_grid(stride_w, bx, by, cs),
{
    let off = cs / 4;
    if !is_grid_in_range(bx, by, cs, off) {
        return false;
    }
    for i in 0..200usize
        invariant
            off == cs / 4,
            grid_in_range(bx, by, cs, cs as int / 4),
            forall|row: int, col: int|
                #![trigger grid_center(bx, by, cs, row, col)]
                0 <= row < 20 && 0 <= col < 10 && 10 * row + col < i ==> can_sample_cell(
                    stride_w,
                    grid_center(bx, by, cs, row, col).0,
                    grid_center(bx, by, cs, row, col).1,
                    off,
                ),
    {
        let (cx, cy) = cell_center(bx, by, cs, i / 10, i % 10);
        assert(can_shift(cx, off as int) && can_shift(cy, off as int));
        let d = off as i32;
        if !is_offset_small(stride_w, nudge(cx, d), nudge(cy, 0)) || !is_offset_small(
            stride_w,
            nudge(cx, 0),
            nudge(cy, d),
        ) {
            return false;
        }
    }
    true
}

/// Marks every cell of a grid by the vote of its samples.
pub fn read_grid(pixels: &Vec<u8>, stride_w: u32, bx: u32, by: u32, cs: u32) -> (grid: [[GridMark;
    10]; 20])
    requires
        can_sample_grid(stride_w, bx, by, cs),
    ensures
        forall|row: int, col: int|
            0 <= row < 20 && 0 <= col < 10 ==> #[trigger] grid@[row]@[col] == grid_mark(
                cell_samples(
                    pixels@,
                    stride_w,
                    grid_center(bx, by, cs, row, col).0,
                    grid_center(bx, by, cs, row, col).1,
                    cs as int / 4,
                ),
            ),
{
    let mut grid = [[GridMark::Uncertain; 10]; 20];
    for i in 0..200usize
        invariant
            can_sample_grid(stride_w, bx, by, cs),
            forall|row: int, col: int|
                0 <= row < 20 && 0 <= col < 10 && 10 * row + col < i ==> #[trigger] grid@[row]@[col]
                    == grid_mark(
                    cell_samples(
                        pixels@,
                        stride_w,
                        grid_center(bx, by, cs, row, col).0,
                        grid_center(bx, by, cs, row, col).1,
                        cs as int / 4,
                    ),
                ),
    {
        let row = i / 10;
        let col = i % 10;
        let (cx, cy) = cell_center(bx, by, cs, row, col);
        let (color, count) = vote(pixels, stride_w, cx, cy, cs / 4);
        grid[row][col] = if count < 3 && color != CellColor::Empty {
            GridMark::Uncertain
        } else {
            GridMark::Color(color)
        };
    }
    grid
}

// ---- rows ----

/// The edge at a position of a row.
pub open spec fn row_edge(pixels: Seq<u8>, stride_w: u32, y: int, x: int) -> Edge {
    let from = bright_at(pixels, offset(stride_w, x - 1, y));
    let to = bright_at(pixels, offset(stride_w, x, y));
    Edge {
        pos: x as u32,
        from: from as u16,
        to: to as u16,
        diff: jump(from, to) as u16,
        rgb: rgb_at(pixels, offset(stride_w, x, y)),
    }
}

/// The edges of a row from `lo` to `hi`, up to the first pixel that the buffer
/// does not hold.
pub open spec fn row_edges(pixels: Seq<u8>, stride_w: u32, y: int, lo: int, hi: int) -> Seq<Edge>
    decreases hi - lo,
{
    if hi <= lo + 1 {
        Seq::empty()
    } else if !holds(pixels, offset(stride_w, hi - 1, y)) {
        row_edges(pixels, stride_w, y, lo, hi - 1)
    } else if row_edge(pixels, stride_w, y, hi - 1).diff > EDGE_JUMP {
        row_edges(pixels, stride_w, y, lo, hi - 1).push(row_edge(pixels, stride_w, y, hi - 1))
    } else {
        row_edges(pixels, stride_w, y, lo, hi - 1)
    }
}

/// Past the end of the buffer there are no edges.
proof fn lemma_no_edges_past_end(pixels: Seq<u8>, stride_w: u32, y: int, lo: int, k: int, hi: int)
    requires
        lo <= k <= hi,
        0 <= lo,
        0 <= y,
        !holds(pixels, offset(stride_w, k, y)),
    ensures
        row_edges(pixels, stride_w, y, lo, hi) == row_edges(pixels, stride_w, y, lo, k),
    decreases hi - k,
{
    if k < hi {
        lemma_no_edges_past_end(pixels, stride_w, y, lo, k, hi - 1);
        lemma_offset_grows(stride_w, k, y, hi - 1, y);
    }
}

/// Whether a row can be scanned from `lo` to `hi`: every pixel that is looked at
/// can be located by a 32-bit number.
pub open spec fn can_scan_row(pixels: Seq<u8>, stride_w: u32, y: int, lo: int, hi: int) -> bool {
    forall|x: int|
        #![trigger offset(stride_w, x, y)]
        lo <= x < hi && (x == lo || holds(pixels, offset(stride_w, x - 1, y))) ==> offset(
            stride_w,
            x,
            y,
        ) <= u32::MAX
}

/// Whether a row can be scanned from `x_start` to `x_end`.
pub fn is_row_scannable(pixels: &Vec<u8>, stride_w: u32, y: u32, x_start: u32, x_end: u32) -> (ok:
    bool)
    ensures
        ok == can_scan_row(pixels@, stride_w, y as int, x_start as int, x_end as int),
{
    let mut x = x_start;
    while x < x_end
        invariant
            x_start <= x,
            x > x_start ==> holds(pixels@, offset(stride_w, x - 1, y as int)),
            forall|k: int|
                x_start <= k < x ==> #[trigger] offset(stride_w, k, y as int) <= u32::MAX,
        decreases x_end - x,
    {
        if !is_offset_small(stride_w, x, y) {
            assert(offset(stride_w, x as int, y as int) > u32::MAX);
            return false;
        }
        if read(pixels, stride_w, x, y).is_none() {
            proof {
                assert forall|k: int|
                    #![trigger offset(stride_w, k, y as int)]
                    x_start <= k < x_end && (k == x_start || holds(
                        pixels@,
                        offset(stride_w, k - 1, y as int),
                    )) implies offset(stride_w, k, y as int) <= u32::MAX by {
                    if k > x {
                        lemma_offset_grows(stride_w, x as int, y as int, k - 1, y as int);
                    }
                }
            }
            return true;
        }
        x += 1;
    }
    true
}

/// Scans a row for edges, from `x_start` to `x_end` or to the end of the buffer.
pub fn scan_row(pixels: &Vec<u8>, stride_w: u32, y: u32, x_start: u32, x_end: u32) -> (edges: Vec<
    Edge,
>)
    requires
        can_scan_row(pixels@, stride_w, y as int, x_start as int, x_end as int),
    ensures
        edges@ == row_edges(pixels@, stride_w, y as int, x_start as int, x_end as int),
{
    let mut edges: Vec<Edge> = Vec::new();
    let mut prev: Option<u16> = None;
    let mut x = x_start;
    while x < x_end
        invariant
            can_scan_row(pixels@, stride_w, y as int, x_start as int, x_end as int),
            x_start <= x,
            x_start <= x_end ==> x <= x_end,
            x_end < x_start ==> x == x_start,
            x == x_start ==> prev is None,
            x > x_start ==> holds(pixels@, offset(stride_w, x - 1, y as int)) && prev == Some(
                bright_at(pixels@, offset(stride_w, x - 1, y as int)) as u16,
            ),
            edges@ == row_edges(pixels@, stride_w, y as int, x_start as int, x as int),
        decreases x_end - x,
    {
        assert(offset(stride_w, x as int, y as int) <= u32::MAX);
        match read(pixels, stride_w, x, y) {
            Some((r, g, b)) => {
                let bright = brightness(r, g, b);
                if let Some(before) = prev {
                    let diff = distance(before, bright);
                    if diff > EDGE_JUMP {
                        edges.push(Edge { pos: x, from: before, to: bright, diff, rgb: (r, g, b) });
                    }
                }
                prev = Some(bright);
            },
            None => {
                proof {
                    lemma_no_edges_past_end(
                        pixels@,
                        stride_w,
                        y as int,
                        x_start as int,
                        x as int,
                        x_end as int,
                    );
                }
                return edges;
            },
        }
        x += 1;
    }
    assert(x_end <= x_start ==> row_edges(
        pixels@,
        stride_w,
        y as int,
        x_start as int,
        x_end as int,
    ) =~= row_edges(pixels@, stride_w, y as int, x_start as int, x_start as int));
    edges
}

// ---- what the calibration tells ----

/// Converting exchanges red and blue of every pixel and keeps green and alpha.
pub proof fn law_conversion_exchanges_red_and_blue(pixels: Seq<u8>, n: nat, p: int)
    requires
        0 <= p,
        4 * p + 3 < n,
    ensures
        swapped(pixels, n).len() == n,
        swapped(pixels, n)[4 * p] == pixels[4 * p + 2],
        swapped(pixels, n)[4 * p + 1] == pixels[4 * p + 1],
        swapped(pixels, n)[4 * p + 2] == pixels[4 * p],
        swapped(pixels, n)[4 * p + 3] == pixels[4 * p + 3],
{
}

/// A pixel of the buffer is the pixel of the captured frame at the same place, whose bytes
/// hold blue, green, red and alpha in this order.
pub proof fn law_buffer_pixel_is_the_frame_pixel(pixels: Seq<u8>, w: u32, h: int, x: int, y: int)
    ensures
        rgb_at(pixels, offset(w, x, y)) == crate::capture::screen_frame(pixels, w as int, h).pixel(
            x,
            y,
        ),
        offset(w, x, y) == 4 * (y * w + x),
        ({
            let at = offset(w, x, y);
            rgb_at(pixels, at) == (pixels[at + 2], pixels[at + 1], pixels[at])
        }),
{
    assert(y * (w * 4) == y * w * 4) by (nonlinear_arith);
}

/// A cell that fewer than three samples agree on is named like one that they agree on,
/// with a question mark, unless it is empty.
pub proof fn law_doubt_is_a_question_mark(c: CellColor)
    ensures
        c != CellColor::Empty ==> doubtful_label(c) == label(c) + "?"@,
        c == CellColor::Empty ==> doubtful_label(c) == label(c),
{
    reveal_strlit("I");
    reveal_strlit("O");
    reveal_strlit("T");
    reveal_strlit("S");
    reveal_strlit("Z");
    reveal_strlit("J");
    reveal_strlit("L");
    reveal_strlit("G");
    reveal_strlit("?");
    reveal_strlit("I?");
    reveal_strlit("O?");
    reveal_strlit("T?");
    reveal_strlit("S?");
    reveal_strlit("Z?");
    reveal_strlit("J?");
    reveal_strlit("L?");
    reveal_strlit("G?");
    assert("I?"@ =~= "I"@ + "?"@);
    assert("O?"@ =~= "O"@ + "?"@);
    assert("T?"@ =~= "T"@ + "?"@);
    assert("S?"@ =~= "S"@ + "?"@);
    assert("Z?"@ =~= "Z"@ + "?"@);
    assert("J?"@ =~= "J"@ + "?"@);
    assert("L?"@ =~= "L"@ + "?"@);
    assert("G?"@ =~= "G"@ + "?"@);
}

/// Both tools mark the cells of a grid alike: as uncertain where fewer than three samples
/// agree on a colour, else with that colour.
pub proof fn law_tools_mark_alike(samples: Seq<CellColor>)
    ensures
        grid_mark(samples) == crate::inspect::mark_of(samples),
        0 <= agreement(samples) <= samples.len(),
{
    lemma_tally_bound(samples, leader(samples).spec_index());
}

proof fn lemma_tally_bound(samples: Seq<CellColor>, i: int)
    ensures
        0 <= tally(samples, i) <= samples.len(),
    decreases samples.len(),
{
    if samples.len() > 0 {
        lemma_tally_bound(samples.drop_last(), i);
    }
}

/// A painted cell is marked with the colour it is painted in, by all five samples, if the
/// buffer holds it.
pub proof fn law_painted_cell_is_marked(
    pixels: Seq<u8>,
    stride_w: u32,
    cx: u32,
    cy: u32,
    cs: int,
    left: int,
    top: int,
    rgb: (u8, u8, u8),
)
    requires
        cs > 0,
        cx - left == cs / 2,
        cy - top == cs / 2,
        0 <= left,
        0 <= top,
        left + cs <= i32::MAX,
        top + cs <= i32::MAX,
        forall|x: int, y: int|
            left <= x < left + cs && top <= y < top + cs ==> holds(
                pixels,
                #[trigger] offset(stride_w, x, y),
            ) && rgb_at(pixels, offset(stride_w, x, y)) == rgb,
    ensures
        ({
            let samples = cell_samples(pixels, stride_w, cx, cy, cs / 4);
            &&& samples.len() == 5
            &&& grid_mark(samples) == GridMark::Color(classified(rgb.0, rgb.1, rgb.2))
            &&& agreement(samples) == 5
        }),
{
    let off = cs / 4;
    let c = classified(rgb.0, rgb.1, rgb.2);
    assert(0 <= off && 0 <= cs / 2 - off && cs / 2 + off < cs);
    assert forall|dx: int, dy: int| -off <= dx <= off && -off <= dy <= off implies holds(
        pixels,
        #[trigger] sample_offset(stride_w, cx, cy, dx, dy),
    ) && color_at_offset(pixels, sample_offset(stride_w, cx, cy, dx, dy)) == c by {
        assert(nudged(cx, dx) == cx + dx && nudged(cy, dy) == cy + dy);
        assert(holds(pixels, offset(stride_w, cx + dx, cy + dy)));
    }
    let samples = cell_samples(pixels, stride_w, cx, cy, off);
    assert(holds(pixels, sample_offset(stride_w, cx, cy, 0, 0)));
    assert(holds(pixels, sample_offset(stride_w, cx, cy, -off, 0)));
    assert(holds(pixels, sample_offset(stride_w, cx, cy, off, 0)));
    assert(holds(pixels, sample_offset(stride_w, cx, cy, 0, -off)));
    assert(holds(pixels, sample_offset(stride_w, cx, cy, 0, off)));
    assert(samples =~= seq![c, c, c, c, c]);
    crate::inspect::law_unanimous_mark(samples, c);
}

/// Whether an edge tells of a position of a row what there is to see: the brightness
/// before and after, how far apart these are, and the colour after it.
pub open spec fn tells_of(e: Edge, pixels: Seq<u8>, stride_w: u32, y: int) -> bool {
    let before = bright_at(pixels, offset(stride_w, e.pos - 1, y));
    let after = bright_at(pixels, offset(stride_w, e.pos as int, y));
    &&& e.from == before
    &&& e.to == after
    &&& before + e.diff == after || after + e.diff == before
    &&& e.rgb == rgb_at(pixels, offset(stride_w, e.pos as int, y))
}

/// The edges of a row are its jumps by more than 30, all of them and nothing else, as far
/// as the buffer holds the row, from left to right.
pub proof fn law_row_edges_are_the_large_jumps(
    pixels: Seq<u8>,
    stride_w: u32,
    y: int,
    lo: int,
    hi: int,
    j: int,
    k: int,
    x: int,
)
    requires
        0 <= lo,
        hi <= u32::MAX,
    ensures
        ({
            let edges = row_edges(pixels, stride_w, y, lo, hi);
            let before = bright_at(pixels, offset(stride_w, x - 1, y));
            let after = bright_at(pixels, offset(stride_w, x, y));
            &&& 0 <= k < edges.len() ==> {
                &&& lo < edges[k].pos < hi
                &&& holds(pixels, offset(stride_w, edges[k].pos as int, y))
                &&& tells_of(edges[k], pixels, stride_w, y)
                &&& edges[k].diff > 30
            }
            &&& 0 <= j < k < edges.len() ==> edges[j].pos < edges[k].pos
            &&& lo < x < hi && holds(pixels, offset(stride_w, x, y)) && (after - before > 30 || before
                - after > 30) ==> crate::analyze::has_edge_at(edges, x)
        }),
    decreases hi - lo,
{
    let edges = row_edges(pixels, stride_w, y, lo, hi);
    if hi > lo + 1 {
        law_row_edges_are_the_large_jumps(pixels, stride_w, y, lo, hi - 1, j, k, x);
        law_row_edges_are_the_large_jumps(pixels, stride_w, y, lo, hi - 1, j, j, x);
        let init = row_edges(pixels, stride_w, y, lo, hi - 1);
        let e = row_edge(pixels, stride_w, y, hi - 1);
        if holds(pixels, offset(stride_w, hi - 1, y)) && e.diff > EDGE_JUMP {
            assert(edges[edges.len() - 1].pos == hi - 1);
        }
        if x < hi - 1 && crate::analyze::has_edge_at(init, x) {
            let m = choose|m: int| 0 <= m < init.len() && (#[trigger] init[m]).pos == x;
            assert(edges[m].pos == x);
        }
    }
}

/// The surroundings of a pixel are the three by three pixels around it, row by row, with
/// the pixel itself in the middle; what the buffer does not hold is missing.
pub proof fn law_neighbourhood_is_centred(
    pixels: Seq<u8>,
    stride_w: u32,
    x: int,
    y: int,
    dx: int,
    dy: int,
)
    requires
        -1 <= dx <= 1,
        -1 <= dy <= 1,
    ensures
        ({
            let at = offset(stride_w, x + dx, y + dy);
            let found = around(pixels, stride_w, x, y, 3 * (dy + 1) + dx + 1);
            &&& found is Some <==> 0 <= at && at + 3 < pixels.len()
            &&& found matches Some(rgb) ==> rgb == rgb_at(pixels, at)
        }),
        holds(pixels, offset(stride_w, x, y)) ==> around(pixels, stride_w, x, y, 4) == Some(
            rgb_at(pixels, offset(stride_w, x, y)),
        ),
{
    let k = 3 * (dy + 1) + dx + 1;
    assert(k % 3 == dx + 1 && k / 3 == dy + 1);
}

} // verus!
