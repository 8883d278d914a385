//! Analysing a screenshot to find the board on it.
use crate::color::{
    brightness, classified, classify_color_slow, hue, rgb_to_hsv, saturation, value, CellColor, Hsv,
    GHOST_NOTE_VALUE, GHOST_VALUE,
};
use crate::inspect::{
    cell_label, distance, first_index, in_ghost_range, jump, label, last_index, lemma_first_index,
    lemma_first_index_extends, lemma_last_index, mark, mark_of, Edge, GridMark,
};
use crate::screenshot::Screenshot;
use crate::vision::{as_signed, can_shift, is_shiftable, shift, shifted};
use vstd::prelude::*;

verus! {

/// The letter that a pixel is classified as.
pub fn classify(r: u8, g: u8, b: u8) -> (text: &'static str)
    ensures
        text@ == label(classified(r, g, b)),
{
    cell_label(classify_color_slow(r, g, b))
}

/// The classification of a pixel of a screenshot.
pub open spec fn color_on(img: Screenshot, x: int, y: int) -> CellColor {
    let p = img.pixel(x, y);
    classified(p.0, p.1, p.2)
}

// ---- scanning lines ----

/// A horizontal or vertical line of pixels.
#[derive(Debug, Clone, Copy)]
pub enum ScanLine {
    /// The row with this vertical position.
    Row(u32),
    /// The column with this horizontal position.
    Column(u32),
}

impl ScanLine {
    /// The pixel at a position of the line, as horizontal and vertical position.
    pub open spec fn at(self, i: int) -> (int, int) {
        match self {
            ScanLine::Row(y) => (i, y as int),
            ScanLine::Column(x) => (x as int, i),
        }
    }

    /// Whether a position of the line lies on a screenshot.
    pub open spec fn on(self, img: Screenshot, i: int) -> bool {
        img.has_pixel(self.at(i).0, self.at(i).1)
    }

    /// The brightness at a position of the line.
    pub open spec fn bright(self, img: Screenshot, i: int) -> int {
        img.bright(self.at(i).0, self.at(i).1)
    }

    /// The jump in brightness that ends at a position of the line.
    pub open spec fn jump(self, img: Screenshot, i: int) -> int {
        jump(self.bright(img, i - 1), self.bright(img, i))
    }

    /// The edge at a position of the line.
    pub open spec fn edge(self, img: Screenshot, i: int) -> Edge {
        Edge {
            pos: i as u32,
            from: self.bright(img, i - 1) as u16,
            to: self.bright(img, i) as u16,
            diff: self.jump(img, i) as u16,
            rgb: img.pixel(self.at(i).0, self.at(i).1),
        }
    }

    /// The edges of the line from `lo` to `hi`: jumps above the threshold, in
    /// order.
    pub open spec fn edges(self, img: Screenshot, lo: int, hi: int, threshold: int) -> Seq<Edge>
        decreases hi - lo,
    {
        if hi <= lo + 1 {
            Seq::empty()
        } else if self.jump(img, hi - 1) > threshold {
            self.edges(img, lo, hi - 1, threshold).push(self.edge(img, hi - 1))
        } else {
            self.edges(img, lo, hi - 1, threshold)
        }
    }

    fn rgb(&self, img: &Screenshot, i: u32) -> (rgb: (u8, u8, u8))
        requires
            img.complete(),
            self.on(*img, i as int),
        ensures
            rgb == img.pixel(self.at(i as int).0, self.at(i as int).1),
    {
        match self {
            ScanLine::Row(y) => img.rgb(i, *y),
            ScanLine::Column(x) => img.rgb(*x, i),
        }
    }

    /// Finds the edges of the line from `lo` to `hi`.
    fn find_edges(&self, img: &Screenshot, lo: u32, hi: u32, threshold: u16) -> (edges: Vec<Edge>)
        requires
            img.complete(),
            forall|i: int| lo <= i < hi ==> #[trigger] self.on(*img, i),
        ensures
            edges@ == self.edges(*img, lo as int, hi as int, threshold as int),
    {
        let mut edges: Vec<Edge> = Vec::new();
        let mut prev: Option<u16> = None;
        let mut i = lo;
        while i < hi
            invariant
                img.complete(),
                forall|k: int| lo <= k < hi ==> #[trigger] self.on(*img, k),
                lo <= i,
                lo <= hi ==> i <= hi,
                hi < lo ==> i == lo,
                i == lo ==> prev is None,
                i > lo ==> prev == Some(self.bright(*img, i - 1) as u16),
                edges@ == self.edges(*img, lo as int, i as int, threshold as int),
            decreases hi - i,
        {
            assert(self.on(*img, i as int));
            let (r, g, b) = self.rgb(img, i);
            let bright = brightness(r, g, b);
            if let Some(before) = prev {
                let diff = distance(before, bright);
                if diff > threshold {
                    edges.push(Edge { pos: i, from: before, to: bright, diff, rgb: (r, g, b) });
                }
            }
            prev = Some(bright);
            i += 1;
        }
        assert(hi <= lo ==> self.edges(*img, lo as int, hi as int, threshold as int)
            =~= self.edges(*img, lo as int, lo as int, threshold as int));
        edges
    }
}

/// The edges of a row, from `x0` to `x1`.
pub fn hscan(img: &Screenshot, y: u32, x0: u32, x1: u32) -> (edges: Vec<Edge>)
    requires
        img.complete(),
        x0 < x1 ==> x1 <= img.width && y < img.height,
    ensures
        edges@ == ScanLine::Row(y).edges(*img, x0 as int, x1 as int, 15),
{
    ScanLine::Row(y).find_edges(img, x0, x1, 15)
}

/// The edges of a column, from `y0` to `y1`.
pub fn vscan(img: &Screenshot, x: u32, y0: u32, y1: u32) -> (edges: Vec<Edge>)
    requires
        img.complete(),
        y0 < y1 ==> y1 <= img.height && x < img.width,
    ensures
        edges@ == ScanLine::Column(x).edges(*img, y0 as int, y1 as int, 15),
{
    ScanLine::Column(x).find_edges(img, y0, y1, 15)
}

// ---- single pixels ----

/// A pixel and its surroundings.
#[derive(Debug)]
pub struct PixelSample {
    pub rgb: (u8, u8, u8),
    pub hsv: Hsv,
    /// Whether the pixel has the brightness of the ghost overlay.
    pub is_ghost: bool,
    pub color: CellColor,
    /// The pixels around it, row by row.
    pub around: Vec<(u8, u8, u8)>,
}

/// The `k`-th pixel of the five by five surroundings of a pixel; at the border
/// of the screenshot the nearest pixel takes its place.
pub open spec fn around(img: Screenshot, x: u32, y: u32, k: int) -> (u8, u8, u8) {
    img.pixel(
        shifted(x, k % 5 - 2, img.width as int),
        shifted(y, k / 5 - 2, img.height as int),
    )
}

/// Samples a pixel and its surroundings.
pub fn sample(img: &Screenshot, x: u32, y: u32) -> (s: PixelSample)
    requires
        img.complete(),
        img.has_pixel(x as int, y as int),
        img.width <= i32::MAX,
        img.height <= i32::MAX,
        can_shift(x, 2),
        can_shift(y, 2),
    ensures
        s.rgb == img.pixel(x as int, y as int),
        s.hsv.h == hue(s.rgb.0, s.rgb.1, s.rgb.2),
        s.hsv.s == saturation(s.rgb.0, s.rgb.1, s.rgb.2),
        s.hsv.v == value(s.rgb.0, s.rgb.1, s.rgb.2),
        s.is_ghost == in_ghost_range(value(s.rgb.0, s.rgb.1, s.rgb.2)),
        s.color == color_on(*img, x as int, y as int),
        s.around@ == Seq::new(25, |k: int| around(*img, x, y, k)),
{
    let (r, g, b) = img.rgb(x, y);
    let hsv = rgb_to_hsv(r, g, b);
    let mut list: Vec<(u8, u8, u8)> = Vec::new();
    for k in 0..25i32
        invariant
            img.complete(),
            1 <= img.width <= i32::MAX,
            1 <= img.height <= i32::MAX,
            can_shift(x, 2),
            can_shift(y, 2),
            list@.len() == k,
            forall|j: int| 0 <= j < k ==> #[trigger] list@[j] == around(*img, x, y, j),
    {
        let sx = shift(x, k % 5 - 2, img.width);
        let sy = shift(y, k / 5 - 2, img.height);
        list.push(img.rgb(sx, sy));
    }
    assert(list@ =~= Seq::new(25, |k: int| around(*img, x, y, k)));
    PixelSample {
        rgb: (r, g, b),
        hsv,
        is_ghost: hsv.v >= GHOST_NOTE_VALUE && hsv.v < GHOST_VALUE,
        color: classify_color_slow(r, g, b),
        around: list,
    }
}

// ---- the grid ----

/// The centre of a cell of a grid.
pub open spec fn grid_center(bx: u32, by: u32, cs: u32, row: int, col: int) -> (u32, u32) {
    ((bx + col * cs + cs / 2) as u32, (by + row * cs + cs / 2) as u32)
}

/// The distance of the outer samples of a cell of a grid from its centre: a
/// quarter of the cell, but at least four pixels.
pub open spec fn grid_offset(cs: int) -> int {
    if cs / 4 >= 4 {
        cs / 4
    } else {
        4
    }
}

/// The classification of the pixel next to `(cx, cy)`, shifted by `(dx, dy)` and
/// kept on the screenshot.
pub open spec fn color_near(img: Screenshot, cx: u32, cy: u32, dx: int, dy: int) -> CellColor {
    color_on(
        img,
        shifted(cx, dx, img.width as int),
        shifted(cy, dy, img.height as int),
    )
}

/// The five samples of a cell.
pub open spec fn grid_samples(img: Screenshot, cx: u32, cy: u32, off: int) -> Seq<CellColor> {
    seq![
        color_near(img, cx, cy, 0, 0),
        color_near(img, cx, cy, -off, 0),
        color_near(img, cx, cy, off, 0),
        color_near(img, cx, cy, 0, -off),
        color_near(img, cx, cy, 0, off),
    ]
}

/// Whether all cells of a grid can be sampled without leaving the range of
/// 32-bit numbers.
pub open spec fn grid_in_range(bx: u32, by: u32, cs: u32, off: int) -> bool {
    &&& bx + 9 * cs + cs / 2 <= u32::MAX
    &&& by + 19 * cs + cs / 2 <= u32::MAX
    &&& forall|row: int, col: int|
        #![trigger grid_center(bx, by, cs, row, col)]
        0 <= row < 20 && 0 <= col < 10 ==> can_shift(grid_center(bx, by, cs, row, col).0, off)
            && can_shift(grid_center(bx, by, cs, row, col).1, off)
}

/// Whether all cells of a grid can be sampled without leaving the range of
/// 32-bit numbers.
pub fn is_grid_in_range(bx: u32, by: u32, cs: u32, off: u32) -> (ok: bool)
    ensures
        ok == grid_in_range(bx, by, cs, off as int),
{
    let limit: u64 = 0xffff_ffff;
    if bx as u64 + 9 * cs as u64 + cs as u64 / 2 > limit || by as u64 + 19 * cs as u64 + cs as u64 / 2
        > limit {
        return false;
    }
    for i in 0..200usize
        invariant
            bx + 9 * cs + cs / 2 <= u32::MAX,
            by + 19 * cs + cs / 2 <= u32::MAX,
            forall|row: int, col: int|
                #![trigger grid_center(bx, by, cs, row, col)]
                0 <= row < 20 && 0 <= col < 10 && 10 * row + col < i ==> can_shift(
                    grid_center(bx, by, cs, row, col).0,
                    off as int,
                ) && can_shift(grid_center(bx, by, cs, row, col).1, off as int),
    {
        let (cx, cy) = cell_center(bx, by, cs, i / 10, i % 10);
        if !is_shiftable(cx, off) || !is_shiftable(cy, off) {
            return false;
        }
    }
    true
}

/// The centre of a cell of a grid.
pub fn cell_center(bx: u32, by: u32, cs: u32, row: usize, col: usize) -> (center: (u32, u32))
    requires
        row < 20,
        col < 10,
        bx + 9 * cs + cs / 2 <= u32::MAX,
        by + 19 * cs + cs / 2 <= u32::MAX,
    ensures
        center == grid_center(bx, by, cs, row as int, col as int),
{
    proof {
        assert(col * cs <= 9 * cs && 0 <= col * cs) by (nonlinear_arith)
            requires
                0 <= col <= 9,
                0 <= cs,
        ;
        assert(row * cs <= 19 * cs && 0 <= row * cs) by (nonlinear_arith)
            requires
                0 <= row <= 19,
                0 <= cs,
        ;
    }
    (bx + col as u32 * cs + cs / 2, by + row as u32 * cs + cs / 2)
}

fn near(img: &Screenshot, cx: u32, cy: u32, dx: i32, dy: i32) -> (c: CellColor)
    requires
        img.complete(),
        1 <= img.width <= i32::MAX,
        1 <= img.height <= i32::MAX,
        i32::MIN <= as_signed(cx) + dx <= i32::MAX,
        i32::MIN <= as_signed(cy) + dy <= i32::MAX,
    ensures
        c == color_near(*img, cx, cy, dx as int, dy as int),
{
    let (r, g, b) = img.rgb(shift(cx, dx, img.width), shift(cy, dy, img.height));
    classify_color_slow(r, g, b)
}

/// Marks every cell of a grid by the vote of five samples.
pub fn read_grid(img: &Screenshot, bx: u32, by: u32, cs: u32) -> (grid: [[GridMark; 10]; 20])
    requires
        img.complete(),
        1 <= img.width <= i32::MAX,
        1 <= img.height <= i32::MAX,
        grid_in_range(bx, by, cs, grid_offset(cs as int)),
    ensures
        forall|row: int, col: int|
            0 <= row < 20 && 0 <= col < 10 ==> #[trigger] grid@[row]@[col] == mark_of(
                grid_samples(
                    *img,
                    grid_center(bx, by, cs, row, col).0,
                    grid_center(bx, by, cs, row, col).1,
                    grid_offset(cs as int),
                ),
            ),
{
    let off: i32 = if cs / 4 >= 4 {
        (cs / 4) as i32
    } else {
        4
    };
    let mut grid = [[GridMark::Uncertain; 10]; 20];
    for i in 0..200usize
        invariant
            img.complete(),
            1 <= img.width <= i32::MAX,
            1 <= img.height <= i32::MAX,
            off == grid_offset(cs as int),
            grid_in_range(bx, by, cs, off as int),
            forall|row: int, col: int|
                0 <= row < 20 && 0 <= col < 10 && 10 * row + col < i ==> #[trigger] grid@[row]@[col]
                    == mark_of(
                    grid_samples(
                        *img,
                        grid_center(bx, by, cs, row, col).0,
                        grid_center(bx, by, cs, row, col).1,
                        off as int,
                    ),
                ),
    {
        let row = i / 10;
        let col = i % 10;
        let (cx, cy) = cell_center(bx, by, cs, row, col);
        let mut samples: Vec<CellColor> = Vec::new();
        samples.push(near(img, cx, cy, 0, 0));
        samples.push(near(img, cx, cy, -off, 0));
        samples.push(near(img, cx, cy, off, 0));
        samples.push(near(img, cx, cy, 0, -off));
        samples.push(near(img, cx, cy, 0, off));
        assert(samples@ =~= grid_samples(*img, cx, cy, off as int));
        grid[row][col] = mark(&samples);
    }
    grid
}

// ---- finding the board ----

/// How far the brightness has to jump for the border of the board.
pub const BORDER_JUMP: u16 = 20;

/// How bright a pixel of a preview box has to be.
pub const PREVIEW_BRIGHTNESS: u16 = 60;

/// Where a line gets brighter.
pub open spec fn rises(img: Screenshot, line: ScanLine) -> spec_fn(int) -> bool {
    |i: int| line.jump(img, i) > BORDER_JUMP && line.bright(img, i) > line.bright(img, i - 1)
}

/// Where a line gets darker.
pub open spec fn falls(img: Screenshot, line: ScanLine) -> spec_fn(int) -> bool {
    |i: int| line.jump(img, i) > BORDER_JUMP && line.bright(img, i) < line.bright(img, i - 1)
}

/// Where a line changes.
pub open spec fn changes(img: Screenshot, line: ScanLine) -> spec_fn(int) -> bool {
    |i: int| line.jump(img, i) > BORDER_JUMP
}

/// The row in the middle of a screenshot.
pub open spec fn middle_row(img: Screenshot) -> ScanLine {
    ScanLine::Row(img.height / 2)
}

/// The column in the middle of a screenshot.
pub open spec fn middle_column(img: Screenshot) -> ScanLine {
    ScanLine::Column(img.width / 2)
}

/// The left edge of the board: where the middle row first gets brighter.
pub open spec fn left_edge(img: Screenshot) -> Option<int> {
    first_index(1, img.width as int, rises(img, middle_row(img)))
}

/// The right edge of the board: where the middle row last gets darker, right of
/// the left edge.
pub open spec fn right_edge(img: Screenshot) -> Option<int> {
    match left_edge(img) {
        Some(left) => last_index(left + 1, img.width as int, falls(img, middle_row(img))),
        None => None,
    }
}

/// The top edge of the board: where the middle column first changes.
pub open spec fn top_edge(img: Screenshot) -> Option<int> {
    first_index(1, img.height as int, changes(img, middle_column(img)))
}

/// The bottom edge of the board: where the middle column last changes.
pub open spec fn bottom_edge(img: Screenshot) -> Option<int> {
    last_index(1, img.height as int, changes(img, middle_column(img)))
}

/// An optional position as a number.
pub open spec fn position(edge: Option<u32>) -> Option<int> {
    match edge {
        Some(p) => Some(p as int),
        None => None,
    }
}

/// The edges of the board, as far as they were found.
#[derive(Debug, Clone, Copy, PartialEq, Eq)]
pub struct BoardEdges {
    pub left: Option<u32>,
    pub right: Option<u32>,
    pub top: Option<u32>,
    pub bottom: Option<u32>,
}

impl BoardEdges {
    /// Whether these are the edges of the board on a screenshot.
    pub open spec fn are_of(self, img: Screenshot) -> bool {
        &&& position(self.left) == left_edge(img)
        &&& position(self.right) == right_edge(img)
        &&& position(self.top) == top_edge(img)
        &&& position(self.bottom) == bottom_edge(img)
    }
}

fn find_sides(img: &Screenshot) -> (sides: (Option<u32>, Option<u32>))
    requires
        img.complete(),
        img.width > 0 ==> img.height > 0,
    ensures
        position(sides.0) == left_edge(*img),
        position(sides.1) == right_edge(*img),
{
    let line = ScanLine::Row(img.height / 2);
    let ghost rise = rises(*img, line);
    let ghost fall = falls(*img, line);
    if img.width == 0 {
        return (None, None);
    }
    let mut left: Option<u32> = None;
    let mut right: Option<u32> = None;
    let (r, g, b) = line.rgb(img, 0);
    let mut before = brightness(r, g, b);
    let mut i: u32 = 1;
    while i < img.width
        invariant
            img.complete(),
            img.height > 0,
            line == middle_row(*img),
            rise == rises(*img, line),
            fall == falls(*img, line),
            1 <= i <= img.width,
            before == line.bright(*img, i - 1),
            position(left) == first_index(1, i as int, rise),
            match left {
                Some(l) => 1 <= l < i && position(right) == last_index(l + 1, i as int, fall),
                None => right is None,
            },
        decreases img.width - i,
    {
        let (r, g, b) = line.rgb(img, i);
        let bright = brightness(r, g, b);
        proof {
            lemma_first_index_extends(1, i as int, rise);
        }
        if distance(before, bright) > BORDER_JUMP {
            if left.is_none() && bright > before {
                left = Some(i);
            }
            if left.is_some() && bright < before {
                right = Some(i);
            }
        }
        before = bright;
        i += 1;
    }
    (left, right)
}

fn find_ends(img: &Screenshot) -> (ends: (Option<u32>, Option<u32>))
    requires
        img.complete(),
        img.height > 0 ==> img.width > 0,
    ensures
        position(ends.0) == top_edge(*img),
        position(ends.1) == bottom_edge(*img),
{
    let line = ScanLine::Column(img.width / 2);
    let ghost change = changes(*img, line);
    if img.height == 0 {
        return (None, None);
    }
    let mut top: Option<u32> = None;
    let mut bottom: Option<u32> = None;
    let (r, g, b) = line.rgb(img, 0);
    let mut before = brightness(r, g, b);
    let mut i: u32 = 1;
    while i < img.height
        invariant
            img.complete(),
            img.width > 0,
            line == middle_column(*img),
            change == changes(*img, line),
            1 <= i <= img.height,
            before == line.bright(*img, i - 1),
            position(top) == first_index(1, i as int, change),
            position(bottom) == last_index(1, i as int, change),
        decreases img.height - i,
    {
        let (r, g, b) = line.rgb(img, i);
        let bright = brightness(r, g, b);
        proof {
            lemma_first_index_extends(1, i as int, change);
        }
        if distance(before, bright) > BORDER_JUMP {
            if top.is_none() {
                top = Some(i);
            }
            bottom = Some(i);
        }
        before = bright;
        i += 1;
    }
    (top, bottom)
}

/// Finds the edges of the board.
pub fn find_edges(img: &Screenshot) -> (edges: BoardEdges)
    requires
        img.complete(),
        img.width > 0 <==> img.height > 0,
    ensures
        edges.are_of(*img),
{
    let (left, right) = find_sides(img);
    let (top, bottom) = find_ends(img);
    BoardEdges { left, right, top, bottom }
}

/// The edges of a board enclose it: left lies before right, and top not after
/// bottom.
pub proof fn law_edges_enclose_the_board(img: Screenshot)
    ensures
        left_edge(img) matches Some(l) ==> 1 <= l < img.width,
        right_edge(img) matches Some(r) ==> left_edge(img) matches Some(l) && l < r < img.width,
        top_edge(img) matches Some(t) ==> bottom_edge(img) matches Some(b) && 1 <= t <= b < img.height,
{
    let rise = rises(img, middle_row(img));
    let fall = falls(img, middle_row(img));
    let change = changes(img, middle_column(img));
    lemma_first_index(1, img.width as int, rise);
    if let Some(l) = left_edge(img) {
        lemma_last_index(l + 1, img.width as int, fall);
    }
    lemma_first_index(1, img.height as int, change);
    lemma_last_index(1, img.height as int, change);
    if let Some(t) = top_edge(img) {
        assert(change(t));
        if let Some(b) = bottom_edge(img) {
            if b < t {
                assert(!change(t));
            }
        }
    }
}

/// The estimated size of the board and of its cells.
#[derive(Debug, Clone, Copy, PartialEq, Eq, Structural)]
pub struct BoardGeometry {
    pub left: u32,
    pub top: u32,
    pub right: u32,
    pub bottom: u32,
    pub board_w: u32,
    pub board_h: u32,
    pub cell_w: u32,
    pub cell_h: u32,
}

/// The geometry that edges amount to, if all of them were found.
pub open spec fn geometry_of(edges: BoardEdges) -> Option<BoardGeometry> {
    match (edges.left, edges.top, edges.right, edges.bottom) {
        (Some(left), Some(top), Some(right), Some(bottom)) => Some(
            BoardGeometry {
                left,
                top,
                right,
                bottom,
                board_w: (right - left) as u32,
                board_h: (bottom - top) as u32,
                cell_w: ((right - left) / 10) as u32,
                cell_h: ((bottom - top) / 20) as u32,
            },
        ),
        _ => None,
    }
}

/// A cell that is sampled to check an estimated geometry.
#[derive(Debug, Clone, Copy, PartialEq, Eq)]
pub struct CellCheck {
    pub row: u32,
    pub col: u32,
    pub x: u32,
    pub y: u32,
    pub color: CellColor,
}

/// The rows that are checked.
pub open spec fn checked_row(k: int) -> int {
    if k == 0 {
        0
    } else if k == 1 {
        5
    } else if k == 2 {
        10
    } else if k == 3 {
        15
    } else {
        19
    }
}

/// The columns that are checked.
pub open spec fn checked_col(k: int) -> int {
    if k == 0 {
        0
    } else if k == 1 {
        4
    } else {
        9
    }
}

/// The check of a cell.
pub open spec fn cell_check(img: Screenshot, geo: BoardGeometry, row: int, col: int) -> CellCheck {
    let x = geo.left + col * geo.cell_w + geo.cell_w / 2;
    let y = geo.top + row * geo.cell_h + geo.cell_h / 2;
    CellCheck {
        row: row as u32,
        col: col as u32,
        x: x as u32,
        y: y as u32,
        color: color_on(img, x, y),
    }
}

/// The checks of a geometry: five rows of three cells each.
pub open spec fn cell_checks(img: Screenshot, geo: BoardGeometry) -> Seq<CellCheck> {
    Seq::new(15, |k: int| cell_check(img, geo, checked_row(k / 3), checked_col(k % 3)))
}

/// A pixel that may belong to a preview box.
#[derive(Debug, Clone, Copy, PartialEq, Eq)]
pub struct Hit {
    pub x: u32,
    pub y: u32,
    pub rgb: (u8, u8, u8),
    pub color: CellColor,
}

/// The hits of a row, in steps of 20 pixels from `x` to `hi`: the pixels that
/// are bright enough.
pub open spec fn row_hits(img: Screenshot, y: int, x: int, hi: int) -> Seq<Hit>
    decreases hi - x + 20,
{
    if x >= hi {
        Seq::empty()
    } else if img.bright(x, y) > PREVIEW_BRIGHTNESS {
        seq![
            Hit {
                x: x as u32,
                y: y as u32,
                rgb: img.pixel(x, y),
                color: color_on(img, x, y),
            },
        ] + row_hits(img, y, x + 20, hi)
    } else {
        row_hits(img, y, x + 20, hi)
    }
}

/// The hits of `n` rows, `step` pixels apart from row `y` on.
pub open spec fn area_hits(img: Screenshot, y: int, step: int, n: nat, x: int, hi: int) -> Seq<Hit>
    decreases n,
{
    if n == 0 {
        Seq::empty()
    } else {
        area_hits(img, y, step, (n - 1) as nat, x, hi) + row_hits(
            img,
            y + step * (n - 1),
            x,
            hi,
        )
    }
}

/// A number reduced by another, but not below zero.
pub open spec fn reduced(a: int, b: int) -> int {
    if a >= b {
        a - b
    } else {
        0
    }
}

/// The candidates for the hold box: left of the board, every 20 pixels.
pub open spec fn hold_hits(img: Screenshot, left: int) -> Seq<Hit> {
    area_hits(img, 50, 20, 18, reduced(left, 250), reduced(left, 20))
}

/// The candidates for the next queue: right of the board, every 20 pixels, rows
/// 10 pixels apart.
pub open spec fn next_hits(img: Screenshot, right: int) -> Seq<Hit> {
    area_hits(
        img,
        50,
        10,
        75,
        right + 20,
        if right + 250 < img.width {
            right + 250
        } else {
            img.width as int
        },
    )
}

/// Whether the preview boxes of a screenshot can be scanned: it reaches far
/// enough down wherever a box is looked for.
pub open spec fn can_scan(img: Screenshot) -> bool {
    &&& left_edge(img) matches Some(left) ==> left > 20 ==> img.height > 390
    &&& right_edge(img) matches Some(right) ==> right + 20 <= u32::MAX && (right + 20 < img.width
        ==> img.height > 790)
}

fn find_hits(
    img: &Screenshot,
    y: u32,
    step: u32,
    rows: u32,
    lo: u64,
    hi: u64,
) -> (hits: Vec<Hit>)
    requires
        img.complete(),
        hi <= img.width,
        y <= 100,
        step <= 20,
        rows <= 100,
        lo < hi && rows > 0 ==> y + step * (rows - 1) < img.height,
    ensures
        hits@ == area_hits(*img, y as int, step as int, rows as nat, lo as int, hi as int),
{
    let mut hits: Vec<Hit> = Vec::new();
    for k in 0..rows
        invariant
            img.complete(),
            hi <= img.width,
            y <= 100,
            step <= 20,
            rows <= 100,
            lo < hi && rows > 0 ==> y + step * (rows - 1) < img.height,
            hits@ == area_hits(*img, y as int, step as int, k as nat, lo as int, hi as int),
    {
        assert(0 <= step * k <= step * (rows - 1) && step * k <= 2000) by (nonlinear_arith)
            requires
                0 <= k <= rows - 1,
                0 <= step <= 20,
                rows <= 100,
        ;
        let row = y + step * k;
        let ghost start = hits@;
        let ghost goal = start + row_hits(*img, row as int, lo as int, hi as int);
        let mut x = lo;
        assert(hits@ + row_hits(*img, row as int, x as int, hi as int) =~= goal);
        while x < hi
            invariant
                img.complete(),
                lo <= x,
                hi <= img.width,
                lo < hi ==> row < img.height,
                hits@ + row_hits(*img, row as int, x as int, hi as int) == goal,
            decreases hi - x + 20,
        {
            let ghost found = hits@;
            let ghost rest = row_hits(*img, row as int, x + 20, hi as int);
            let (r, g, b) = img.rgb(x as u32, row);
            let bright = brightness(r, g, b);
            if bright > PREVIEW_BRIGHTNESS {
                let hit = Hit { x: x as u32, y: row, rgb: (r, g, b), color: classify_color_slow(r, g, b) };
                hits.push(hit);
                assert(found + (seq![hit] + rest) =~= hits@ + rest);
            }
            x += 20;
        }
        assert(hits@ =~= goal);
        assert(y + step * ((k + 1) - 1) == row);
    }
    hits
}

fn check_cells(img: &Screenshot, geo: BoardGeometry) -> (cells: Vec<CellCheck>)
    requires
        img.complete(),
        geo.left + 10 * geo.cell_w < img.width,
        geo.top + 20 * geo.cell_h < img.height,
    ensures
        cells@ == cell_checks(*img, geo),
{
    let rows: [u32; 5] = [0, 5, 10, 15, 19];
    let cols: [u32; 3] = [0, 4, 9];
    let mut cells: Vec<CellCheck> = Vec::new();
    for k in 0..15usize
        invariant
            img.complete(),
            geo.left + 10 * geo.cell_w < img.width,
            geo.top + 20 * geo.cell_h < img.height,
            rows@ == seq![0u32, 5, 10, 15, 19],
            cols@ == seq![0u32, 4, 9],
            cells@ == cell_checks(*img, geo).take(k as int),
    {
        let row = rows[k / 3];
        let col = cols[k % 3];
        assert(row == checked_row(k as int / 3) && col == checked_col(k as int % 3));
        proof {
            assert(0 <= col * geo.cell_w <= 9 * geo.cell_w) by (nonlinear_arith)
                requires
                    0 <= col <= 9,
                    0 <= geo.cell_w,
            ;
            assert(0 <= row * geo.cell_h <= 19 * geo.cell_h) by (nonlinear_arith)
                requires
                    0 <= row <= 19,
                    0 <= geo.cell_h,
            ;
        }
        let x = geo.left + col * geo.cell_w + geo.cell_w / 2;
        let y = geo.top + row * geo.cell_h + geo.cell_h / 2;
        let (r, g, b) = img.rgb(x, y);
        let check = CellCheck { row, col, x, y, color: classify_color_slow(r, g, b) };
        cells.push(check);
        assert(cell_checks(*img, geo)[k as int] == check);
        assert(cell_checks(*img, geo).take(k as int).push(check) =~= cell_checks(*img, geo).take(
            k + 1,
        ));
    }
    assert(cells@ =~= cell_checks(*img, geo));
    cells
}

/// What was found on a screenshot.
#[derive(Debug)]
pub struct BoardReport {
    pub edges: BoardEdges,
    /// The estimated geometry, if all edges were found.
    pub geometry: Option<BoardGeometry>,
    /// Some cells to check the geometry by.
    pub cells: Vec<CellCheck>,
    /// Candidates for the hold box.
    pub hold: Vec<Hit>,
    /// Candidates for the next queue.
    pub next: Vec<Hit>,
}

/// Looks for the board, the hold box and the next queue.
pub fn find_board(img: &Screenshot) -> (report: BoardReport)
    requires
        img.complete(),
        img.width > 0 <==> img.height > 0,
        can_scan(*img),
    ensures
        report.edges.are_of(*img),
        report.geometry == geometry_of(report.edges),
        report.cells@ == match report.geometry {
            Some(geo) => cell_checks(*img, geo),
            None => Seq::empty(),
        },
        report.hold@ == match left_edge(*img) {
            Some(left) => hold_hits(*img, left),
            None => Seq::empty(),
        },
        report.next@ == match right_edge(*img) {
            Some(right) => next_hits(*img, right),
            None => Seq::empty(),
        },
{
    let edges = find_edges(img);
    proof {
        law_edges_enclose_the_board(*img);
    }
    let mut geometry: Option<BoardGeometry> = None;
    let mut cells: Vec<CellCheck> = Vec::new();
    if let (Some(left), Some(top), Some(right), Some(bottom)) = (
        edges.left,
        edges.top,
        edges.right,
        edges.bottom,
    ) {
        let board_w = right - left;
        let board_h = bottom - top;
        let geo = BoardGeometry {
            left,
            top,
            right,
            bottom,
            board_w,
            board_h,
            cell_w: board_w / 10,
            cell_h: board_h / 20,
        };
        geometry = Some(geo);
        cells = check_cells(img, geo);
    }
    let hold = match edges.left {
        Some(left) => {
            let lo = if left >= 250 { left - 250 } else { 0 };
            let hi = if left >= 20 { left - 20 } else { 0 };
            find_hits(img, 50, 20, 18, lo as u64, hi as u64)
        },
        None => Vec::new(),
    };
    let next = match edges.right {
        Some(right) => {
            let far = right as u64 + 250;
            let hi = if far < img.width as u64 { far } else { img.width as u64 };
            find_hits(img, 50, 10, 75, right as u64 + 20, hi)
        },
        None => Vec::new(),
    };
    BoardReport { edges, geometry, cells, hold, next }
}

/// Whether the board can be looked for on a screenshot.
pub fn can_find_board(img: &Screenshot) -> (fits: bool)
    ensures
        fits == (img.complete() && (img.width > 0 <==> img.height > 0) && can_scan(*img)),
{
    if !img.is_complete() || (img.width > 0) != (img.height > 0) {
        return false;
    }
    let edges = find_edges(img);
    let hold_fits = match edges.left {
        Some(left) => left <= 20 || img.height > 390,
        None => true,
    };
    let next_fits = match edges.right {
        Some(right) => right <= 0xffff_ffff - 20 && (right + 20 >= img.width || img.height > 790),
        None => true,
    };
    hold_fits && next_fits
}

// ---- what the analysis tells ----

/// A brightness is a byte.
proof fn lemma_bright_range(img: Screenshot, x: int, y: int)
    ensures
        0 <= img.bright(x, y) <= 255,
{
}

/// Whether an edge tells of a position of a line what there is to see: the brightness
/// before and after, how far apart these are, and the colour after it.
pub open spec fn tells_of(e: Edge, line: ScanLine, img: Screenshot) -> bool {
    let before = line.bright(img, e.pos - 1);
    let after = line.bright(img, e.pos as int);
    &&& e.from == before
    &&& e.to == after
    &&& before + e.diff == after || after + e.diff == before
    &&& e.rgb == img.pixel(line.at(e.pos as int).0, line.at(e.pos as int).1)
}

/// The edges of a line are its large jumps, all of them and nothing else, from one end
/// to the other.
pub proof fn law_edges_are_the_large_jumps(
    line: ScanLine,
    img: Screenshot,
    lo: int,
    hi: int,
    threshold: int,
    j: int,
    k: int,
    x: int,
)
    requires
        0 <= lo,
        hi <= u32::MAX,
        0 <= threshold,
    ensures
        ({
            let edges = line.edges(img, lo, hi, threshold);
            &&& 0 <= k < edges.len() ==> {
                &&& lo < edges[k].pos < hi
                &&& tells_of(edges[k], line, img)
                &&& edges[k].diff > threshold
            }
            &&& 0 <= j < k < edges.len() ==> edges[j].pos < edges[k].pos
            &&& lo < x < hi && (line.bright(img, x) - line.bright(img, x - 1) > threshold
                || line.bright(img, x - 1) - line.bright(img, x) > threshold) ==> has_edge_at(edges, x)
        }),
    decreases hi - lo,
{
    let edges = line.edges(img, lo, hi, threshold);
    if hi > lo + 1 {
        law_edges_are_the_large_jumps(line, img, lo, hi - 1, threshold, j, k, x);
        law_edges_are_the_large_jumps(line, img, lo, hi - 1, threshold, j, j, x);
        let init = line.edges(img, lo, hi - 1, threshold);
        lemma_bright_range(img, line.at(hi - 1).0, line.at(hi - 1).1);
        lemma_bright_range(img, line.at(hi - 2).0, line.at(hi - 2).1);
        if line.jump(img, hi - 1) > threshold {
            assert(edges[edges.len() - 1].pos == hi - 1);
        }
        if x < hi - 1 && has_edge_at(init, x) {
            let m = choose|m: int| 0 <= m < init.len() && (#[trigger] init[m]).pos == x;
            assert(edges[m].pos == x);
        }
    }
}

/// Whether one of the edges is at a position.
pub open spec fn has_edge_at(edges: Seq<Edge>, x: int) -> bool {
    exists|k: int| 0 <= k < edges.len() && (#[trigger] edges[k]).pos == x
}

/// A row is walked from left to right and a column from top to bottom.
pub proof fn law_lines_run_along_the_image(img: Screenshot, p: u32, i: int)
    ensures
        ScanLine::Row(p).at(i) == (i, p as int),
        ScanLine::Column(p).at(i) == (p as int, i),
        ScanLine::Row(p).bright(img, i) == img.bright(i, p as int),
        ScanLine::Column(p).bright(img, i) == img.bright(p as int, i),
{
}

/// Whether the brightness jumps up by more than the border of the board takes.
pub open spec fn jumps_up(before: int, after: int) -> bool {
    after - before > 20
}

/// The left edge of the board is the first jump up of the middle row, the right edge is
/// the last jump down after it, and the top and the bottom edge are the first and the
/// last jump of the middle column, in either direction.
pub proof fn law_edges_are_first_and_last_jumps(img: Screenshot, x: int, y: int)
    requires
        1 <= x < img.width,
        1 <= y < img.height,
    ensures
        ({
            let row = img.height as int / 2;
            let col = img.width as int / 2;
            let up_x = jumps_up(img.bright(x - 1, row), img.bright(x, row));
            let down_x = jumps_up(img.bright(x, row), img.bright(x - 1, row));
            let jump_y = jumps_up(img.bright(col, y - 1), img.bright(col, y)) || jumps_up(
                img.bright(col, y),
                img.bright(col, y - 1),
            );
            &&& up_x ==> (left_edge(img) matches Some(l) && l <= x)
            &&& left_edge(img) == Some(x) ==> up_x
            &&& (left_edge(img) matches Some(l) && l < x && down_x) ==> (right_edge(
                img,
            ) matches Some(r) && x <= r)
            &&& right_edge(img) == Some(x) ==> down_x
            &&& jump_y ==> (top_edge(img) matches Some(t) && t <= y) && (bottom_edge(
                img,
            ) matches Some(b) && y <= b)
            &&& top_edge(img) == Some(y) ==> jump_y
            &&& bottom_edge(img) == Some(y) ==> jump_y
        }),
{
    let rise = rises(img, middle_row(img));
    let fall = falls(img, middle_row(img));
    let change = changes(img, middle_column(img));
    lemma_first_index(1, img.width as int, rise);
    if let Some(l) = left_edge(img) {
        lemma_last_index(l + 1, img.width as int, fall);
    }
    lemma_first_index(1, img.height as int, change);
    lemma_last_index(1, img.height as int, change);
    assert(rise(x) <==> jumps_up(
        img.bright(x - 1, img.height as int / 2),
        img.bright(x, img.height as int / 2),
    ));
    assert(fall(x) <==> jumps_up(
        img.bright(x, img.height as int / 2),
        img.bright(x - 1, img.height as int / 2),
    ));
    assert(change(y) <==> jumps_up(
        img.bright(img.width as int / 2, y - 1),
        img.bright(img.width as int / 2, y),
    ) || jumps_up(
        img.bright(img.width as int / 2, y),
        img.bright(img.width as int / 2, y - 1),
    ));
}

/// A board that lies between edges is divided into ten columns and twenty rows, as
/// large as they fit, and all edges have to be known for it.
pub proof fn law_cells_fill_the_board(edges: BoardEdges)
    requires
        edges.left matches Some(l) ==> edges.right matches Some(r) ==> l <= r,
        edges.top matches Some(t) ==> edges.bottom matches Some(b) ==> t <= b,
    ensures
        geometry_of(edges) is Some <==> edges.left is Some && edges.right is Some && edges.top is Some
            && edges.bottom is Some,
        geometry_of(edges) matches Some(geo) ==> {
            &&& Some(geo.left) == edges.left
            &&& Some(geo.right) == edges.right
            &&& Some(geo.top) == edges.top
            &&& Some(geo.bottom) == edges.bottom
            &&& geo.left + geo.board_w == geo.right
            &&& geo.top + geo.board_h == geo.bottom
            &&& 10 * geo.cell_w <= geo.board_w < 10 * geo.cell_w + 10
            &&& 20 * geo.cell_h <= geo.board_h < 20 * geo.cell_h + 20
        },
{
}

/// The cells that a geometry is checked by spread over the board from corner to corner,
/// and each is sampled in its middle.
pub proof fn law_checked_cells_spread_over_the_board(img: Screenshot, geo: BoardGeometry, k: int)
    requires
        0 <= k < 15,
        geo.left + 10 * geo.cell_w <= u32::MAX,
        geo.top + 20 * geo.cell_h <= u32::MAX,
    ensures
        cell_checks(img, geo).len() == 15,
        ({
            let c = cell_checks(img, geo)[k];
            let p = img.pixel(c.x as int, c.y as int);
            &&& c.x - geo.left - c.col * geo.cell_w == geo.cell_w as int / 2
            &&& c.y - geo.top - c.row * geo.cell_h == geo.cell_h as int / 2
            &&& c.color == classified(p.0, p.1, p.2)
            &&& c.row < 20
            &&& c.col < 10
        }),
        ({
            let c = cell_checks(img, geo);
            &&& c[0].row == 0 && c[0].col == 0
            &&& c[2].row == 0 && c[2].col == 9
            &&& c[12].row == 19 && c[12].col == 0
            &&& c[14].row == 19 && c[14].col == 9
        }),
        forall|j: int|
            0 <= j < 15 && j != k ==> (#[trigger] cell_checks(img, geo)[j]).row != cell_checks(
                img,
                geo,
            )[k].row || cell_checks(img, geo)[j].col != cell_checks(img, geo)[k].col,
{
    let (row, col) = (checked_row(k / 3), checked_col(k % 3));
    assert(0 <= col * geo.cell_w <= 9 * geo.cell_w) by (nonlinear_arith)
        requires
            0 <= col <= 9,
            0 <= geo.cell_w,
    ;
    assert(0 <= row * geo.cell_h <= 19 * geo.cell_h) by (nonlinear_arith)
        requires
            0 <= row <= 19,
            0 <= geo.cell_h,
    ;
}

/// Whether one of the hits is at a pixel.
pub open spec fn has_hit_at(hits: Seq<Hit>, x: int, y: int) -> bool {
    exists|k: int| 0 <= k < hits.len() && (#[trigger] hits[k]).x == x && hits[k].y == y
}

/// Whether all hits are bright pixels of a screenshot, told by their position, colour and
/// classification.
pub open spec fn are_hits_on(hits: Seq<Hit>, img: Screenshot) -> bool {
    forall|k: int|
        0 <= k < hits.len() ==> {
            let h = #[trigger] hits[k];
            let p = img.pixel(h.x as int, h.y as int);
            &&& img.bright(h.x as int, h.y as int) > 60
            &&& h.rgb == p
            &&& h.color == classified(p.0, p.1, p.2)
        }
}

proof fn lemma_row_hits(img: Screenshot, y: int, x: int, hi: int)
    requires
        0 <= x,
        hi <= u32::MAX,
        0 <= y <= u32::MAX,
    ensures
        are_hits_on(row_hits(img, y, x, hi), img),
        forall|j: int|
            0 <= j && x + 20 * j < hi && #[trigger] img.bright(x + 20 * j, y) > 60 ==> has_hit_at(
                row_hits(img, y, x, hi),
                x + 20 * j,
                y,
            ),
        forall|k: int|
            0 <= k < row_hits(img, y, x, hi).len() ==> x <= (#[trigger] row_hits(img, y, x, hi)[k]).x
                < hi && row_hits(img, y, x, hi)[k].y == y,
    decreases hi - x + 20,
{
    if x < hi {
        lemma_row_hits(img, y, x + 20, hi);
        let rest = row_hits(img, y, x + 20, hi);
        let hits = row_hits(img, y, x, hi);
        let bright = img.bright(x, y) > PREVIEW_BRIGHTNESS;
        let d: int = if bright {
            1
        } else {
            0
        };
        assert(hits.len() == rest.len() + d);
        assert forall|k: int| d <= k < hits.len() implies #[trigger] hits[k] == rest[k - d] by {}
        assert(bright ==> hits[0].x == x && hits[0].y == y);
        assert forall|j: int|
            0 <= j && x + 20 * j < hi && #[trigger] img.bright(x + 20 * j, y) > 60 implies has_hit_at(
            hits,
            x + 20 * j,
            y,
        ) by {
            if j > 0 {
                let i = j - 1;
                assert(x + 20 + 20 * i == x + 20 * j);
                assert(img.bright(x + 20 + 20 * i, y) > 60);
                assert(has_hit_at(rest, x + 20 * j, y));
                let k = choose|k: int|
                    0 <= k < rest.len() && (#[trigger] rest[k]).x == x + 20 * j && rest[k].y == y;
                assert(hits[k + d] == rest[k]);
            } else {
                assert(x + 20 * j == x);
            }
        }
    }
}

/// The hits of an area are its bright pixels, taken every 20 pixels of every row that is
/// looked at: all of these and nothing else.
pub proof fn law_hits_are_the_bright_pixels(
    img: Screenshot,
    y: int,
    step: int,
    n: nat,
    x: int,
    hi: int,
    i: int,
    j: int,
)
    requires
        0 <= x,
        hi <= u32::MAX,
        0 <= y,
        0 <= step,
        y + step * n <= u32::MAX,
    ensures
        are_hits_on(area_hits(img, y, step, n, x, hi), img),
        0 <= i < n && 0 <= j && x + 20 * j < hi && img.bright(x + 20 * j, y + step * i) > 60
            ==> has_hit_at(area_hits(img, y, step, n, x, hi), x + 20 * j, y + step * i),
        forall|k: int|
            0 <= k < area_hits(img, y, step, n, x, hi).len() ==> x <= (#[trigger] area_hits(
                img,
                y,
                step,
                n,
                x,
                hi,
            )[k]).x < hi,
    decreases n,
{
    if n > 0 {
        let m = (n - 1) as nat;
        let last = y + step * (n - 1);
        assert(step * (n - 1) <= step * n && 0 <= step * (n - 1)) by (nonlinear_arith)
            requires
                0 <= step,
                1 <= n,
        ;
        assert(y + step * m <= u32::MAX);
        law_hits_are_the_bright_pixels(img, y, step, m, x, hi, i, j);
        lemma_row_hits(img, last, x, hi);
        let a = area_hits(img, y, step, m, x, hi);
        let b = row_hits(img, last, x, hi);
        let hits = area_hits(img, y, step, n, x, hi);
        assert(hits == a + b);
        assert forall|k: int| 0 <= k < hits.len() implies #[trigger] hits[k] == if k < a.len() {
            a[k]
        } else {
            b[k - a.len()]
        } by {}
        if 0 <= i < n && 0 <= j && x + 20 * j < hi && img.bright(x + 20 * j, y + step * i) > 60 {
            if i < n - 1 {
                let k = choose|k: int|
                    0 <= k < a.len() && (#[trigger] a[k]).x == x + 20 * j && a[k].y == y + step * i;
                assert(hits[k] == a[k]);
            } else {
                assert(step * i == step * (n - 1));
                assert(has_hit_at(b, x + 20 * j, last));
                let k = choose|k: int|
                    0 <= k < b.len() && (#[trigger] b[k]).x == x + 20 * j && b[k].y == last;
                assert(hits[k + a.len()] == b[k]);
            }
        }
    }
}

/// The hold box is looked for in a strip left of the board, 250 to 20 pixels away from it
/// as far as the screenshot reaches, and the next queue in one right of it, 20 to 250
/// pixels away.
pub proof fn law_boxes_are_looked_for_beside_the_board(
    img: Screenshot,
    left: int,
    right: int,
    i: int,
    j: int,
)
    requires
        0 <= left < img.width,
        0 <= right < img.width,
        0 <= j,
    ensures
        are_hits_on(hold_hits(img, left), img),
        are_hits_on(next_hits(img, right), img),
        left >= 250 && 0 <= i < 18 && left - 250 + 20 * j < left - 20 && img.bright(
            left - 250 + 20 * j,
            50 + 20 * i,
        ) > 60 ==> has_hit_at(hold_hits(img, left), left - 250 + 20 * j, 50 + 20 * i),
        left < 250 && 0 <= i < 18 && 20 * j < left - 20 && img.bright(20 * j, 50 + 20 * i) > 60
            ==> has_hit_at(hold_hits(img, left), 20 * j, 50 + 20 * i),
        0 <= i < 75 && right + 20 + 20 * j < right + 250 && right + 20 + 20 * j < img.width
            && img.bright(right + 20 + 20 * j, 50 + 10 * i) > 60 ==> has_hit_at(
            next_hits(img, right),
            right + 20 + 20 * j,
            50 + 10 * i,
        ),
        forall|k: int|
            0 <= k < hold_hits(img, left).len() ==> (#[trigger] hold_hits(img, left)[k]).x + 20
                < left,
        forall|k: int|
            0 <= k < next_hits(img, right).len() ==> right + 20 <= (#[trigger] next_hits(
                img,
                right,
            )[k]).x,
{
    law_hits_are_the_bright_pixels(
        img,
        50,
        20,
        18,
        reduced(left, 250),
        reduced(left, 20),
        i,
        j,
    );
    let hi = if right + 250 < img.width {
        right + 250
    } else {
        img.width as int
    };
    law_hits_are_the_bright_pixels(img, 50, 10, 75, right + 20, hi, i, j);
}

/// The surroundings of a pixel are the five by five pixels around it, row by row, with the
/// pixel itself in the middle.
pub proof fn law_surroundings_are_centred(img: Screenshot, x: u32, y: u32, dx: int, dy: int)
    requires
        -2 <= dx <= 2,
        -2 <= dy <= 2,
        0 <= x + dx < img.width <= i32::MAX,
        0 <= y + dy < img.height <= i32::MAX,
        x < img.width,
        y < img.height,
    ensures
        around(img, x, y, 5 * (dy + 2) + dx + 2) == img.pixel(x + dx, y + dy),
        around(img, x, y, 12) == img.pixel(x as int, y as int),
{
    let k = 5 * (dy + 2) + dx + 2;
    assert(k % 5 == dx + 2 && k / 5 == dy + 2);
}

/// The cells of a grid are sampled where the board reader samples them: in the middle of
/// each cell.
pub proof fn law_grid_is_sampled_like_the_board(
    reader: crate::vision::ReaderView,
    row: int,
    col: int,
)
    requires
        reader.valid(),
        0 <= row < 20,
        0 <= col < 10,
    ensures
        ({
            let (x, y) = grid_center(reader.board_x, reader.board_y, reader.cell_size, row, col);
            &&& (x, y) == reader.cell_center(row, col)
            &&& x - reader.board_x - col * reader.cell_size == reader.cell_size as int / 2
            &&& y - reader.board_y - row * reader.cell_size == reader.cell_size as int / 2
        }),
{
    crate::vision::law_cell_is_sampled_in_its_middle(reader, row, col);
}

/// A painted cell of a grid is marked with the colour it is painted in, if the cell is
/// large enough to hold all samples.
pub proof fn law_painted_grid_cell_is_marked(
    img: Screenshot,
    cx: u32,
    cy: u32,
    cs: int,
    left: int,
    top: int,
    rgb: (u8, u8, u8),
)
    requires
        cs >= 9,
        cx - left == cs / 2,
        cy - top == cs / 2,
        0 <= left,
        0 <= top,
        left + cs <= img.width <= i32::MAX,
        top + cs <= img.height <= i32::MAX,
        forall|x: int, y: int|
            left <= x < left + cs && top <= y < top + cs ==> #[trigger] img.pixel(x, y) == rgb,
    ensures
        mark_of(grid_samples(img, cx, cy, grid_offset(cs))) == GridMark::Color(
            classified(rgb.0, rgb.1, rgb.2),
        ),
{
    let off = grid_offset(cs);
    let c = classified(rgb.0, rgb.1, rgb.2);
    let samples = grid_samples(img, cx, cy, off);
    assert(0 <= off && 0 <= cs / 2 - off && cs / 2 + off < cs);
    assert forall|dx: int, dy: int| -off <= dx <= off && -off <= dy <= off implies #[trigger]
        color_near(img, cx, cy, dx, dy) == c by {
        assert(shifted(cx, dx, img.width as int) == cx + dx);
        assert(shifted(cy, dy, img.height as int) == cy + dy);
        assert(img.pixel(cx + dx, cy + dy) == rgb);
    }
    assert(samples[0] == c && samples[1] == c && samples[2] == c && samples[3] == c && samples[4]
        == c);
    crate::inspect::law_unanimous_mark(samples, c);
}

} // verus!
