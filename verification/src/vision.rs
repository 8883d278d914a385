//! Reading the game state off a captured frame.
//!
//! Pixels are sampled at known grid positions and classified through a
//! precomputed table. Several samples vote on every cell, so that single bad
//! pixels do no harm.
pub use crate::color::CellColor;
use crate::capture::{Frame, FrameView};
use crate::color::{classified, classify_color_slow, u8_to_cell_color};
use crate::component::{cell_at, scan_cell};
use crate::config::VisionConfig;
use vstd::prelude::*;

verus! {

// ---- the game state ----

/// The full game state read off a single frame.
#[derive(Debug)]
pub struct GameState {
    pub board: [[CellColor; 10]; 20],
    pub current_piece: Option<CellColor>,
    pub hold_piece: Option<CellColor>,
    pub next_queue: Vec<CellColor>,
    pub is_active: bool,
    pub incoming_garbage: u32,
}

/// The contents of a game state.
#[verifier::ext_equal]
pub struct StateView {
    pub board: [[CellColor; 10]; 20],
    pub current_piece: Option<CellColor>,
    pub hold_piece: Option<CellColor>,
    pub next_queue: Seq<CellColor>,
    pub is_active: bool,
    pub incoming_garbage: u32,
}

impl View for GameState {
    type V = StateView;

    open spec fn view(&self) -> StateView {
        StateView {
            board: self.board,
            current_piece: self.current_piece,
            hold_piece: self.hold_piece,
            next_queue: self.next_queue@,
            is_active: self.is_active,
            incoming_garbage: self.incoming_garbage,
        }
    }
}

impl Clone for GameState {
    fn clone(&self) -> (state: Self)
        ensures
            state@ == self@,
    {
        let mut next_queue: Vec<CellColor> = Vec::new();
        for i in 0..self.next_queue.len()
            invariant
                next_queue@ == self.next_queue@.take(i as int),
        {
            next_queue.push(self.next_queue[i]);
            assert(self.next_queue@.take(i as int).push(self.next_queue@[i as int])
                =~= self.next_queue@.take(i + 1));
        }
        assert(next_queue@ =~= self.next_queue@);
        GameState {
            board: self.board,
            current_piece: self.current_piece,
            hold_piece: self.hold_piece,
            next_queue,
            is_active: self.is_active,
            incoming_garbage: self.incoming_garbage,
        }
    }
}

// ---- the colour table ----

/// The middle of the range of channel values that share a table entry.
pub open spec fn bucket_center(c: int) -> u8 {
    (c / 4 * 4 + 2) as u8
}

/// What the colour table says of a pixel: the classification of the colour in
/// the middle of its bucket.
pub open spec fn table_color(r: u8, g: u8, b: u8) -> CellColor {
    classified(bucket_center(r as int), bucket_center(g as int), bucket_center(b as int))
}

/// The entry of the colour table at a position.
pub open spec fn table_entry(idx: int) -> CellColor {
    classified(
        bucket_center(idx / 4096 * 4),
        bucket_center(idx / 64 % 64 * 4),
        bucket_center(idx % 64 * 4),
    )
}

/// The table position of a colour belongs to its bucket.
proof fn lemma_table_position(r: int, g: int, b: int)
    requires
        0 <= r < 256,
        0 <= g < 256,
        0 <= b < 256,
    ensures
        ({
            let idx = r / 4 * 4096 + g / 4 * 64 + b / 4;
            &&& 0 <= idx < 262144
            &&& bucket_center(idx / 4096 * 4) == bucket_center(r)
            &&& bucket_center(idx / 64 % 64 * 4) == bucket_center(g)
            &&& bucket_center(idx % 64 * 4) == bucket_center(b)
        }),
{
    let ri = r / 4;
    let gi = g / 4;
    let bi = b / 4;
    let idx = ri * 4096 + gi * 64 + bi;
    assert(idx / 4096 == ri);
    assert(idx / 64 == ri * 64 + gi);
    assert(idx / 64 % 64 == gi);
    assert(idx % 64 == bi);
}

/// The precomputed classification of all colours, at a resolution of 64 steps
/// per channel.
pub struct ColorLut {
    table: Vec<CellColor>,
}

impl ColorLut {
    #[verifier::type_invariant]
    spec fn complete(self) -> bool {
        &&& self.table@.len() == 262144
        &&& forall|i: int| 0 <= i < 262144 ==> self.table@[i] == #[trigger] table_entry(i)
    }

    /// The entries of the table.
    pub closed spec fn entries(self) -> Seq<CellColor> {
        self.table@
    }

    /// Fills the table.
    pub fn new() -> (lut: Self)
        ensures
            lut.entries() == Seq::new(262144, |i: int| table_entry(i)),
    {
        let mut table: Vec<CellColor> = Vec::new();
        for idx in 0..262144u32
            invariant
                table@.len() == idx,
                forall|i: int| 0 <= i < idx ==> table@[i] == #[trigger] table_entry(i),
        {
            let r = (idx / 4096 * 4 + 2) as u8;
            let g = (idx / 64 % 64 * 4 + 2) as u8;
            let b = (idx % 64 * 4 + 2) as u8;
            assert(idx / 4096 < 64);
            table.push(classify_color_slow(r, g, b));
        }
        assert(table@ =~= Seq::new(262144, |i: int| table_entry(i)));
        ColorLut { table }
    }

    /// Looks a pixel up.
    pub fn classify(&self, r: u8, g: u8, b: u8) -> (c: CellColor)
        ensures
            c == table_color(r, g, b),
    {
        proof {
            use_type_invariant(self);
        }
        let idx = (r as usize / 4) * 4096 + (g as usize / 4) * 64 + (b as usize / 4);
        proof {
            lemma_table_position(r as int, g as int, b as int);
            assert(self.table@[idx as int] == table_entry(idx as int));
        }
        self.table[idx]
    }
}

// ---- voting ----

/// How many of the samples have the colour at a position of the vote table.
pub open spec fn tally(samples: Seq<CellColor>, i: int) -> int
    decreases samples.len(),
{
    if samples.len() == 0 {
        0
    } else {
        tally(samples.drop_last(), i) + if samples.last().spec_index() == i {
            1int
        } else {
            0
        }
    }
}

/// Whether a colour leads the vote: it is a filled colour that has votes, no
/// other filled colour has more, and none that comes before it has as many.
pub open spec fn leads(samples: Seq<CellColor>, c: CellColor) -> bool {
    &&& c != CellColor::Empty
    &&& tally(samples, c.spec_index()) >= 1
    &&& forall|i: int|
        1 <= i < 9 ==> #[trigger] tally(samples, i) <= tally(samples, c.spec_index()) && (i
            < c.spec_index() ==> tally(samples, i) < tally(samples, c.spec_index()))
}

/// The colour that leads the vote; `Empty` if no sample is filled.
pub open spec fn leader(samples: Seq<CellColor>) -> CellColor {
    if exists|c: CellColor| leads(samples, c) {
        choose|c: CellColor| leads(samples, c)
    } else {
        CellColor::Empty
    }
}

/// The outcome of a vote: the leader if at least two samples agree on it, else
/// `Empty`.
pub open spec fn elected(samples: Seq<CellColor>) -> CellColor {
    if tally(samples, leader(samples).spec_index()) >= 2 {
        leader(samples)
    } else {
        CellColor::Empty
    }
}

/// A vote has at most one leader.
pub proof fn law_vote_has_one_leader(samples: Seq<CellColor>, a: CellColor)
    requires
        leads(samples, a),
    ensures
        leader(samples) == a,
{
    let c = leader(samples);
    assert(leads(samples, c));
    crate::color::law_index_round_trip(a, 0);
    crate::color::law_index_round_trip(c, 0);
    assert(tally(samples, c.spec_index()) == tally(samples, a.spec_index()));
}

/// Samples that disagree on every filled colour leave a cell empty.
pub proof fn law_single_samples_are_ignored(samples: Seq<CellColor>)
    requires
        forall|i: int| 1 <= i < 9 ==> #[trigger] tally(samples, i) <= 1,
    ensures
        elected(samples) == CellColor::Empty,
{
    crate::color::law_index_round_trip(leader(samples), 0);
    if leader(samples) != CellColor::Empty {
        assert(tally(samples, leader(samples).spec_index()) <= 1);
    }
}

/// Counts the votes: the leader and how many samples agree on it, and the number
/// of empty samples.
pub fn count_votes(samples: &Vec<CellColor>) -> (counted: (CellColor, u8, u8))
    requires
        samples@.len() <= 255,
    ensures
        counted.0 == leader(samples@),
        counted.0 != CellColor::Empty ==> counted.1 == tally(samples@, counted.0.spec_index()),
        counted.0 == CellColor::Empty ==> counted.1 == 0,
        counted.2 == tally(samples@, 0),
{
    let mut counts = [0u8; 9];
    for k in 0..samples.len()
        invariant
            samples@.len() <= 255,
            forall|i: int|
                0 <= i < 9 ==> #[trigger] counts@[i] == tally(samples@.take(k as int), i) && counts@[i]
                    <= k,
    {
        let i = samples[k].index() as usize;
        assert(samples@.take(k + 1).drop_last() =~= samples@.take(k as int));
        counts[i] = counts[i] + 1;
    }
    assert(samples@.take(samples@.len() as int) =~= samples@);
    let mut best_color = CellColor::Empty;
    let mut best_count: u8 = 0;
    for i in 1..9u8
        invariant
            forall|j: int| 0 <= j < 9 ==> #[trigger] counts@[j] == tally(samples@, j),
            best_count == 0 ==> best_color == CellColor::Empty,
            best_count > 0 ==> best_color != CellColor::Empty && best_color.spec_index() < i
                && best_count == tally(samples@, best_color.spec_index()),
            forall|j: int| 1 <= j < i ==> #[trigger] tally(samples@, j) <= best_count,
            best_count > 0 ==> forall|j: int|
                1 <= j < best_color.spec_index() ==> #[trigger] tally(samples@, j) < best_count,
    {
        assert(counts@[i as int] == tally(samples@, i as int));
        if counts[i as usize] > best_count {
            best_count = counts[i as usize];
            best_color = u8_to_cell_color(i);
            proof {
                crate::color::law_index_round_trip(best_color, i as int);
            }
        }
    }
    proof {
        assert(counts@[0] == tally(samples@, 0));
        if best_count > 0 {
            assert(leads(samples@, best_color));
            law_vote_has_one_leader(samples@, best_color);
        } else {
            assert forall|c: CellColor| !leads(samples@, c) by {
                crate::color::law_index_round_trip(c, 0);
            }
        }
    }
    (best_color, best_count, counts[0])
}

fn vote(samples: &Vec<CellColor>) -> (c: CellColor)
    requires
        samples@.len() <= 255,
    ensures
        c == elected(samples@),
{
    let (color, count, _) = count_votes(samples);
    if color != CellColor::Empty && count >= 2 {
        color
    } else {
        CellColor::Empty
    }
}

// ---- sampling ----

/// A 32-bit number read as a signed one.
pub open spec fn as_signed(x: u32) -> int {
    if x <= i32::MAX {
        x as int
    } else {
        x - 0x1_0000_0000
    }
}

/// Reads a 32-bit number as a signed one.
pub fn signed(x: u32) -> (s: i32)
    ensures
        s == as_signed(x),
{
    if x <= 0x7fff_ffff {
        x as i32
    } else {
        -((0xffff_ffff - x) as i32) - 1
    }
}

/// A coordinate shifted by `d` and brought back into a frame of the given size.
pub open spec fn shifted(c: u32, d: int, size: int) -> int {
    if as_signed(c) + d < 0 {
        0
    } else if as_signed(c) + d > size - 1 {
        size - 1
    } else {
        as_signed(c) + d
    }
}

/// Whether a coordinate can be shifted by `off` either way without leaving the
/// range of signed 32-bit numbers.
pub open spec fn can_shift(c: u32, off: int) -> bool {
    i32::MIN <= as_signed(c) - off && as_signed(c) + off <= i32::MAX
}

/// Whether a coordinate can be shifted by `off` either way.
pub fn is_shiftable(c: u32, off: u32) -> (ok: bool)
    ensures
        ok == can_shift(c, off as int),
{
    let s = signed(c) as i64;
    s - off as i64 >= i32::MIN as i64 && s + off as i64 <= i32::MAX as i64
}

/// Shifts a coordinate and brings it back into a frame of the given size.
pub fn shift(c: u32, d: i32, size: u32) -> (s: u32)
    requires
        1 <= size <= i32::MAX,
        i32::MIN <= as_signed(c) + d <= i32::MAX,
    ensures
        s == shifted(c, d as int, size as int),
        s < size,
{
    let x = signed(c) + d;
    if x < 0 {
        0
    } else if x > size as i32 - 1 {
        size - 1
    } else {
        x as u32
    }
}

/// Whether a frame can be sampled: it has pixels, all of them are there, and
/// its size can be held by signed 32-bit numbers.
pub open spec fn can_sample(frame: FrameView) -> bool {
    &&& 1 <= frame.width <= i32::MAX
    &&& 1 <= frame.height <= i32::MAX
    &&& frame.full()
}

/// Whether a frame can be sampled.
pub fn is_samplable(frame: &Frame) -> (ok: bool)
    ensures
        ok == can_sample(frame@),
{
    1 <= frame.width && frame.width <= 0x7fff_ffff && 1 <= frame.height && frame.height <= 0x7fff_ffff
        && frame.is_full()
}

/// The colour that the table gives to the pixel next to `(cx, cy)`, shifted by
/// `(dx, dy)` and kept inside the frame.
pub open spec fn sample_at(frame: FrameView, cx: u32, cy: u32, dx: int, dy: int) -> CellColor {
    let rgb = frame.pixel(shifted(cx, dx, frame.width), shifted(cy, dy, frame.height));
    table_color(rgb.0, rgb.1, rgb.2)
}

/// The distance of the outer samples of a cell from its centre: a quarter of the
/// cell.
pub open spec fn cell_offset(cell_sz: int) -> int {
    cell_sz / 4
}

/// The five samples of a cell: the centre, left, right, above and below.
pub open spec fn cell_samples(frame: FrameView, cx: u32, cy: u32, off: int) -> Seq<CellColor> {
    seq![
        sample_at(frame, cx, cy, 0, 0),
        sample_at(frame, cx, cy, -off, 0),
        sample_at(frame, cx, cy, off, 0),
        sample_at(frame, cx, cy, 0, -off),
        sample_at(frame, cx, cy, 0, off),
    ]
}

/// A colour as it counts for a preview box, where only pieces are shown: anything
/// else is empty.
pub open spec fn piece_or_empty(c: CellColor) -> CellColor {
    if c.is_piece() {
        c
    } else {
        CellColor::Empty
    }
}

/// What a sample of a region counts as.
pub open spec fn region_sample(frame: FrameView, cx: u32, cy: u32, dx: int, dy: int) -> CellColor {
    piece_or_empty(sample_at(frame, cx, cy, dx, dy))
}

/// The nine samples of a region: a three by three grid around its centre.
pub open spec fn region_samples(frame: FrameView, cx: u32, cy: u32, off: int) -> Seq<CellColor> {
    seq![
        region_sample(frame, cx, cy, -off, -off),
        region_sample(frame, cx, cy, 0, -off),
        region_sample(frame, cx, cy, off, -off),
        region_sample(frame, cx, cy, -off, 0),
        region_sample(frame, cx, cy, 0, 0),
        region_sample(frame, cx, cy, off, 0),
        region_sample(frame, cx, cy, -off, off),
        region_sample(frame, cx, cy, 0, off),
        region_sample(frame, cx, cy, off, off),
    ]
}

/// The pixel at `(x, y)`, or black outside of the frame.
pub open spec fn safe_pixel(frame: FrameView, x: u32, y: u32) -> (u8, u8, u8) {
    if x < frame.width && y < frame.height {
        frame.pixel(x as int, y as int)
    } else {
        (0, 0, 0)
    }
}

/// The pixel at `(x, y)`, or black outside of the frame.
pub fn frame_pixel_safe(frame: &Frame, x: u32, y: u32) -> (rgb: (u8, u8, u8))
    requires
        x < frame.width && y < frame.height ==> frame@.has_pixel(x as int, y as int),
    ensures
        rgb == safe_pixel(frame@, x, y),
{
    if x < frame.width && y < frame.height {
        frame.pixel_rgb(x, y)
    } else {
        (0, 0, 0)
    }
}

// ---- what the cells of a board say ----

/// The first piece colour from position `i` on, in scan order.
pub open spec fn first_piece(board: [[CellColor; 10]; 20], i: int) -> Option<CellColor>
    decreases 200 - i,
{
    if i >= 200 {
        None
    } else if cell_at(board, scan_cell(i)).is_piece() {
        Some(cell_at(board, scan_cell(i)))
    } else {
        first_piece(board, i + 1)
    }
}

/// How many of the first `i` cells in scan order are filled.
pub open spec fn filled_cells(board: [[CellColor; 10]; 20], i: int) -> int
    decreases i,
{
    if i <= 0 {
        0
    } else {
        filled_cells(board, i - 1) + if cell_at(board, scan_cell(i - 1)) != CellColor::Empty {
            1int
        } else {
            0
        }
    }
}

/// How many of the first `i` cells in scan order belong to a piece; garbage does
/// not count.
pub open spec fn piece_cells(board: [[CellColor; 10]; 20], i: int) -> int
    decreases i,
{
    if i <= 0 {
        0
    } else {
        piece_cells(board, i - 1) + if cell_at(board, scan_cell(i - 1)).is_piece() {
            1int
        } else {
            0
        }
    }
}

/// How many cells of a board belong to a piece.
pub fn count_piece_cells(board: &[[CellColor; 10]; 20]) -> (count: u32)
    ensures
        count == piece_cells(*board, 200),
{
    let mut count: u32 = 0;
    for i in 0..200usize
        invariant
            count == piece_cells(*board, i as int),
            count <= i,
    {
        let c = board[i / 10][i % 10];
        assert(c == cell_at(*board, scan_cell(i as int)));
        if c != CellColor::Empty && c != CellColor::Garbage {
            count += 1;
        }
    }
    count
}

/// A colour that was read off a preview box: nothing if it is empty.
pub open spec fn seen(c: CellColor) -> Option<CellColor> {
    if c != CellColor::Empty {
        Some(c)
    } else {
        None
    }
}

// ---- the board reader ----

/// What a board reader knows: where to look, and what its sentinel pixels
/// showed last.
#[verifier::ext_equal]
pub struct ReaderView {
    pub board_x: u32,
    pub board_y: u32,
    pub cell_size: u32,
    pub hold_x: u32,
    pub hold_y: u32,
    pub next_positions: Seq<(u32, u32)>,
    pub last_sentinels: Seq<(u8, u8, u8)>,
}

impl ReaderView {
    /// Whether the centres of all cells can be held by 32-bit numbers.
    pub open spec fn valid(self) -> bool {
        &&& self.board_x + 9 * self.cell_size + self.cell_size / 2 <= u32::MAX
        &&& self.board_y + 19 * self.cell_size + self.cell_size / 2 <= u32::MAX
    }

    /// The centre of a cell.
    pub open spec fn cell_center(self, row: int, col: int) -> (u32, u32) {
        (
            (self.board_x + col * self.cell_size + self.cell_size / 2) as u32,
            (self.board_y + row * self.cell_size + self.cell_size / 2) as u32,
        )
    }

    /// The pixels that give a changed frame away: some cells of the board, the
    /// hold box and the first slot of the next queue.
    pub open spec fn sentinels(self) -> Seq<(u32, u32)> {
        let fixed = seq![
            self.cell_center(0, 4),
            self.cell_center(0, 5),
            self.cell_center(4, 4),
            self.cell_center(10, 5),
            self.cell_center(15, 3),
            self.cell_center(19, 0),
            self.cell_center(19, 9),
            (self.hold_x, self.hold_y),
        ];
        if self.next_positions.len() > 0 {
            fixed.push(self.next_positions[0])
        } else {
            fixed
        }
    }

    /// What the sentinel pixels show on a frame.
    pub open spec fn sentinel_colors(self, frame: FrameView) -> Seq<(u8, u8, u8)> {
        Seq::new(
            self.sentinels().len(),
            |i: int| safe_pixel(frame, self.sentinels()[i].0, self.sentinels()[i].1),
        )
    }

    /// Whether no sample of the board, the hold box or the next queue leaves the
    /// range of signed 32-bit numbers.
    pub open spec fn in_range(self) -> bool {
        &&& forall|row: int, col: int|
            #![trigger self.cell_center(row, col)]
            0 <= row < 20 && 0 <= col < 10 ==> can_shift(
                self.cell_center(row, col).0,
                cell_offset(self.cell_size as int),
            ) && can_shift(self.cell_center(row, col).1, cell_offset(self.cell_size as int))
        &&& can_shift(self.hold_x, 8) && can_shift(self.hold_y, 8)
        &&& forall|i: int|
            0 <= i < self.next_positions.len() ==> can_shift((#[trigger] self.next_positions[i]).0, 8)
                && can_shift(self.next_positions[i].1, 8)
    }

    /// The colour of a cell on a frame.
    pub open spec fn cell_color(self, frame: FrameView, row: int, col: int) -> CellColor {
        elected(
            cell_samples(
                frame,
                self.cell_center(row, col).0,
                self.cell_center(row, col).1,
                cell_offset(self.cell_size as int),
            ),
        )
    }

    /// The colour in the hold box.
    pub open spec fn hold_color(self, frame: FrameView) -> CellColor {
        elected(region_samples(frame, self.hold_x, self.hold_y, 8))
    }

    /// The colours in the slots of the next queue.
    pub open spec fn slot_colors(self, frame: FrameView) -> Seq<CellColor> {
        self.next_positions.map_values(
            |p: (u32, u32)| elected(region_samples(frame, p.0, p.1, 8)),
        )
    }

    /// The next queue: the slots that are not empty, in order.
    pub open spec fn queue(self, frame: FrameView) -> Seq<CellColor> {
        self.slot_colors(frame).filter(|c: CellColor| c != CellColor::Empty)
    }

    /// Whether a game state is what a frame shows.
    pub open spec fn shows(self, frame: FrameView, state: StateView) -> bool {
        &&& forall|row: int, col: int|
            0 <= row < 20 && 0 <= col < 10 ==> #[trigger] state.board@[row]@[col] == self.cell_color(
                frame,
                row,
                col,
            )
        &&& state.current_piece == first_piece(state.board, 0)
        &&& state.hold_piece == seen(self.hold_color(frame))
        &&& state.next_queue == self.queue(frame)
        &&& state.is_active == (filled_cells(state.board, 200) >= 4)
        &&& state.incoming_garbage == 0
    }
}

/// Whether the centres of all configured cells can be held by 32-bit numbers.
pub fn has_room(cfg: &VisionConfig) -> (ok: bool)
    ensures
        ok == (cfg.board_x + 9 * cfg.cell_size + cfg.cell_size / 2 <= u32::MAX && cfg.board_y + 19
            * cfg.cell_size + cfg.cell_size / 2 <= u32::MAX),
{
    let size = cfg.cell_size as u64;
    cfg.board_x as u64 + 9 * size + size / 2 <= 0xffff_ffff && cfg.board_y as u64 + 19 * size + size
        / 2 <= 0xffff_ffff
}

/// Reads game states off frames.
pub struct BoardReader {
    board_x: u32,
    board_y: u32,
    cell_size: u32,
    hold_x: u32,
    hold_y: u32,
    next_positions: Vec<(u32, u32)>,
    lut: ColorLut,
    /// The centre of each of the 200 cells, row by row.
    cell_coords: [(u32, u32); 200],
    /// The pixels that give a changed frame away.
    sentinel_coords: Vec<(u32, u32)>,
    last_sentinel_colors: Vec<(u8, u8, u8)>,
}

impl View for BoardReader {
    type V = ReaderView;

    closed spec fn view(&self) -> ReaderView {
        ReaderView {
            board_x: self.board_x,
            board_y: self.board_y,
            cell_size: self.cell_size,
            hold_x: self.hold_x,
            hold_y: self.hold_y,
            next_positions: self.next_positions@,
            last_sentinels: self.last_sentinel_colors@,
        }
    }
}

impl BoardReader {
    #[verifier::type_invariant]
    spec fn consistent(self) -> bool {
        &&& forall|i: int|
            0 <= i < 200 ==> #[trigger] self.cell_coords@[i] == self@.cell_center(i / 10, i % 10)
        &&& self.sentinel_coords@ == self@.sentinels()
    }

    /// A reader for the configured positions, which has seen no frame yet.
    pub fn new(cfg: &VisionConfig) -> (reader: Self)
        requires
            cfg.board_x + 9 * cfg.cell_size + cfg.cell_size / 2 <= u32::MAX,
            cfg.board_y + 19 * cfg.cell_size + cfg.cell_size / 2 <= u32::MAX,
        ensures
            reader@ == (ReaderView {
                board_x: cfg.board_x,
                board_y: cfg.board_y,
                cell_size: cfg.cell_size,
                hold_x: cfg.hold_x,
                hold_y: cfg.hold_y,
                next_positions: cfg.next_positions@,
                last_sentinels: Seq::empty(),
            }),
            reader@.valid(),
    {
        let lut = ColorLut::new();
        let ghost goal = ReaderView {
            board_x: cfg.board_x,
            board_y: cfg.board_y,
            cell_size: cfg.cell_size,
            hold_x: cfg.hold_x,
            hold_y: cfg.hold_y,
            next_positions: cfg.next_positions@,
            last_sentinels: Seq::empty(),
        };

        let mut cell_coords = [(0u32, 0u32); 200];
        for i in 0..200usize
            invariant
                goal.valid(),
                goal.board_x == cfg.board_x,
                goal.board_y == cfg.board_y,
                goal.cell_size == cfg.cell_size,
                forall|k: int|
                    0 <= k < i ==> #[trigger] cell_coords@[k] == goal.cell_center(k / 10, k % 10),
        {
            let row = (i / 10) as u32;
            let col = (i % 10) as u32;
            proof {
                assert(col * cfg.cell_size <= 9 * cfg.cell_size) by (nonlinear_arith)
                    requires
                        col <= 9,
                        0 <= cfg.cell_size,
                ;
                assert(row * cfg.cell_size <= 19 * cfg.cell_size) by (nonlinear_arith)
                    requires
                        row <= 19,
                        0 <= cfg.cell_size,
                ;
            }
            let px = cfg.board_x + col * cfg.cell_size + cfg.cell_size / 2;
            let py = cfg.board_y + row * cfg.cell_size + cfg.cell_size / 2;
            cell_coords[i] = (px, py);
        }

        let mut sentinel_coords: Vec<(u32, u32)> = Vec::new();
        sentinel_coords.push(cell_coords[4]);
        sentinel_coords.push(cell_coords[5]);
        sentinel_coords.push(cell_coords[44]);
        sentinel_coords.push(cell_coords[105]);
        sentinel_coords.push(cell_coords[153]);
        sentinel_coords.push(cell_coords[190]);
        sentinel_coords.push(cell_coords[199]);
        sentinel_coords.push((cfg.hold_x, cfg.hold_y));
        if cfg.next_positions.len() > 0 {
            sentinel_coords.push(cfg.next_positions[0]);
        }
        assert(sentinel_coords@ =~= goal.sentinels());

        let mut next_positions: Vec<(u32, u32)> = Vec::new();
        for i in 0..cfg.next_positions.len()
            invariant
                next_positions@ == cfg.next_positions@.take(i as int),
        {
            next_positions.push(cfg.next_positions[i]);
            assert(cfg.next_positions@.take(i as int).push(cfg.next_positions@[i as int])
                =~= cfg.next_positions@.take(i + 1));
        }
        assert(next_positions@ =~= cfg.next_positions@);

        BoardReader {
            board_x: cfg.board_x,
            board_y: cfg.board_y,
            cell_size: cfg.cell_size,
            hold_x: cfg.hold_x,
            hold_y: cfg.hold_y,
            next_positions,
            lut,
            cell_coords,
            sentinel_coords,
            last_sentinel_colors: Vec::new(),
        }
    }

    /// Whether the sentinel pixels differ from those of the last frame that was
    /// checked.
    pub fn is_frame_dirty(&mut self, frame: &Frame) -> (dirty: bool)
        requires
            frame@.full(),
        ensures
            dirty == (old(self)@.sentinel_colors(frame@) != old(self)@.last_sentinels),
            final(self)@ == (ReaderView {
                last_sentinels: old(self)@.sentinel_colors(frame@),
                ..old(self)@
            }),
    {
        proof {
            use_type_invariant(&*self);
        }
        let ghost goal = self@.sentinel_colors(frame@);
        let mut current: Vec<(u8, u8, u8)> = Vec::new();
        for i in 0..self.sentinel_coords.len()
            invariant
                frame@.full(),
                self.sentinel_coords@ == self@.sentinels(),
                goal == self@.sentinel_colors(frame@),
                current@ == goal.take(i as int),
        {
            let (x, y) = self.sentinel_coords[i];
            current.push(frame_pixel_safe(frame, x, y));
            assert(goal.take(i as int).push(goal[i as int]) =~= goal.take(i + 1));
        }
        assert(current@ =~= goal);
        if same_colors(&current, &self.last_sentinel_colors) {
            return false;
        }
        self.last_sentinel_colors = current;
        true
    }

    /// Whether no sample leaves the range of signed 32-bit numbers.
    pub fn is_in_range(&self) -> (ok: bool)
        ensures
            ok == self@.in_range(),
    {
        proof {
            use_type_invariant(self);
        }
        let off = self.cell_size / 4;
        for i in 0..200usize
            invariant
                self.consistent(),
                off == cell_offset(self@.cell_size as int),
                forall|row: int, col: int|
                    #![trigger self@.cell_center(row, col)]
                    0 <= row < 20 && 0 <= col < 10 && 10 * row + col < i ==> can_shift(
                        self@.cell_center(row, col).0,
                        off as int,
                    ) && can_shift(self@.cell_center(row, col).1, off as int),
        {
            let (cx, cy) = self.cell_coords[i];
            assert((cx, cy) == self@.cell_center(i as int / 10, i as int % 10));
            if !is_shiftable(cx, off) || !is_shiftable(cy, off) {
                return false;
            }
        }
        if !is_shiftable(self.hold_x, 8) || !is_shiftable(self.hold_y, 8) {
            return false;
        }
        for i in 0..self.next_positions.len()
            invariant
                self@.next_positions == self.next_positions@,
                forall|k: int|
                    0 <= k < i ==> can_shift((#[trigger] self@.next_positions[k]).0, 8) && can_shift(
                        self@.next_positions[k].1,
                        8,
                    ),
        {
            let (x, y) = self.next_positions[i];
            assert(self@.next_positions[i as int] == (x, y));
            if !is_shiftable(x, 8) || !is_shiftable(y, 8) {
                return false;
            }
        }
        true
    }

    /// Reads the game state off a frame.
    pub fn read_state(&self, frame: &Frame) -> (state: GameState)
        requires
            can_sample(frame@),
            self@.in_range(),
        ensures
            self@.shows(frame@, state@),
    {
        let board = self.read_board(frame);
        let current_piece = self.detect_current_piece(&board);
        let hold_piece = self.read_hold_piece(frame);
        let next_queue = self.read_next_queue(frame);
        let is_active = self.detect_game_active(&board);
        GameState { board, current_piece, hold_piece, next_queue, is_active, incoming_garbage: 0 }
    }

    /// Samples all cells of the board.
    pub fn read_board(&self, frame: &Frame) -> (board: [[CellColor; 10]; 20])
        requires
            can_sample(frame@),
            self@.in_range(),
        ensures
            forall|row: int, col: int|
                0 <= row < 20 && 0 <= col < 10 ==> #[trigger] board@[row]@[col] == self@.cell_color(
                    frame@,
                    row,
                    col,
                ),
    {
        proof {
            use_type_invariant(self);
        }
        let mut board = [[CellColor::Empty; 10]; 20];
        for i in 0..200usize
            invariant
                can_sample(frame@),
                self@.in_range(),
                self.consistent(),
                forall|row: int, col: int|
                    0 <= row < 20 && 0 <= col < 10 && 10 * row + col < i ==> #[trigger] board@[row]@[col]
                        == self@.cell_color(frame@, row, col),
        {
            let row = i / 10;
            let col = i % 10;
            let (cx, cy) = self.cell_coords[i];
            assert((cx, cy) == self@.cell_center(row as int, col as int));
            board[row][col] = self.sample_cell(frame, cx, cy, self.cell_size);
        }
        board
    }

    fn sample_point(&self, frame: &Frame, cx: u32, cy: u32, dx: i32, dy: i32) -> (c: CellColor)
        requires
            can_sample(frame@),
            i32::MIN <= as_signed(cx) + dx <= i32::MAX,
            i32::MIN <= as_signed(cy) + dy <= i32::MAX,
        ensures
            c == sample_at(frame@, cx, cy, dx as int, dy as int),
    {
        let x = shift(cx, dx, frame.width);
        let y = shift(cy, dy, frame.height);
        assert(frame@.has_pixel(x as int, y as int));
        let (r, g, b) = frame.pixel_rgb(x, y);
        self.lut.classify(r, g, b)
    }

    /// Samples a cell at its centre and a quarter of a cell away in each
    /// direction; at least two of the five samples have to agree on a colour.
    pub fn sample_cell(&self, frame: &Frame, cx: u32, cy: u32, cell_sz: u32) -> (c: CellColor)
        requires
            can_sample(frame@),
            can_shift(cx, cell_offset(cell_sz as int)),
            can_shift(cy, cell_offset(cell_sz as int)),
        ensures
            c == elected(cell_samples(frame@, cx, cy, cell_offset(cell_sz as int))),
    {
        let off: i32 = (cell_sz / 4) as i32;
        let mut samples: Vec<CellColor> = Vec::new();
        samples.push(self.sample_point(frame, cx, cy, 0, 0));
        samples.push(self.sample_point(frame, cx, cy, -off, 0));
        samples.push(self.sample_point(frame, cx, cy, off, 0));
        samples.push(self.sample_point(frame, cx, cy, 0, -off));
        samples.push(self.sample_point(frame, cx, cy, 0, off));
        assert(samples@ =~= cell_samples(frame@, cx, cy, cell_offset(cell_sz as int)));
        vote(&samples)
    }

    /// Finds the colour of the falling piece: the first piece colour from the
    /// top left.
    pub fn detect_current_piece(&self, board: &[[CellColor; 10]; 20]) -> (piece: Option<CellColor>)
        ensures
            piece == first_piece(*board, 0),
    {
        for i in 0..200usize
            invariant
                first_piece(*board, i as int) == first_piece(*board, 0),
        {
            let c = board[i / 10][i % 10];
            assert(c == cell_at(*board, scan_cell(i as int)));
            if c != CellColor::Empty && c != CellColor::Garbage {
                return Some(c);
            }
        }
        None
    }

    /// Reads the hold box.
    pub fn read_hold_piece(&self, frame: &Frame) -> (piece: Option<CellColor>)
        requires
            can_sample(frame@),
            can_shift(self@.hold_x, 8),
            can_shift(self@.hold_y, 8),
        ensures
            piece == seen(self@.hold_color(frame@)),
    {
        let color = self.sample_region_vote(frame, self.hold_x, self.hold_y, 8);
        if color != CellColor::Empty {
            Some(color)
        } else {
            None
        }
    }

    /// Reads the next queue; empty slots are left out.
    pub fn read_next_queue(&self, frame: &Frame) -> (queue: Vec<CellColor>)
        requires
            can_sample(frame@),
            forall|i: int|
                0 <= i < self@.next_positions.len() ==> can_shift(
                    (#[trigger] self@.next_positions[i]).0,
                    8,
                ) && can_shift(self@.next_positions[i].1, 8),
        ensures
            queue@ == self@.queue(frame@),
    {
        let mut queue: Vec<CellColor> = Vec::new();
        let ghost slots = self@.slot_colors(frame@);
        let ghost filled = |c: CellColor| c != CellColor::Empty;
        proof {
            reveal(Seq::filter);
            assert(slots.take(0).filter(filled) =~= Seq::empty());
        }
        for i in 0..self.next_positions.len()
            invariant
                can_sample(frame@),
                forall|i: int|
                    0 <= i < self@.next_positions.len() ==> can_shift(
                        (#[trigger] self@.next_positions[i]).0,
                        8,
                    ) && can_shift(self@.next_positions[i].1, 8),
                self@.next_positions == self.next_positions@,
                slots == self@.slot_colors(frame@),
                filled == (|c: CellColor| c != CellColor::Empty),
                queue@ == slots.take(i as int).filter(filled),
        {
            let (x, y) = self.next_positions[i];
            assert(self@.next_positions[i as int] == (x, y));
            let c = self.sample_region_vote(frame, x, y, 8);
            proof {
                reveal(Seq::filter);
                assert(slots[i as int] == c);
                assert(slots.take(i + 1).drop_last() =~= slots.take(i as int));
            }
            if c != CellColor::Empty {
                queue.push(c);
            }
        }
        assert(slots.take(slots.len() as int) =~= slots);
        queue
    }

    fn sample_piece(&self, frame: &Frame, cx: u32, cy: u32, dx: i32, dy: i32) -> (c: CellColor)
        requires
            can_sample(frame@),
            i32::MIN <= as_signed(cx) + dx <= i32::MAX,
            i32::MIN <= as_signed(cy) + dy <= i32::MAX,
        ensures
            c == region_sample(frame@, cx, cy, dx as int, dy as int),
    {
        let c = self.sample_point(frame, cx, cy, dx, dy);
        if c == CellColor::Garbage {
            CellColor::Empty
        } else {
            c
        }
    }

    /// Samples a three by three grid of pixels; at least two of the nine samples
    /// have to agree on a piece.
    pub fn sample_region_vote(&self, frame: &Frame, cx: u32, cy: u32, off: i32) -> (c: CellColor)
        requires
            can_sample(frame@),
            i32::MIN < off,
            can_shift(cx, off as int),
            can_shift(cx, -off),
            can_shift(cy, off as int),
            can_shift(cy, -off),
        ensures
            c == elected(region_samples(frame@, cx, cy, off as int)),
    {
        let mut samples: Vec<CellColor> = Vec::new();
        samples.push(self.sample_piece(frame, cx, cy, -off, -off));
        samples.push(self.sample_piece(frame, cx, cy, 0, -off));
        samples.push(self.sample_piece(frame, cx, cy, off, -off));
        samples.push(self.sample_piece(frame, cx, cy, -off, 0));
        samples.push(self.sample_piece(frame, cx, cy, 0, 0));
        samples.push(self.sample_piece(frame, cx, cy, off, 0));
        samples.push(self.sample_piece(frame, cx, cy, -off, off));
        samples.push(self.sample_piece(frame, cx, cy, 0, off));
        samples.push(self.sample_piece(frame, cx, cy, off, off));
        assert(samples@ =~= region_samples(frame@, cx, cy, off as int));
        vote(&samples)
    }

    /// Whether a game is running: at least one complete piece is on the board.
    pub fn detect_game_active(&self, board: &[[CellColor; 10]; 20]) -> (active: bool)
        ensures
            active == (filled_cells(*board, 200) >= 4),
    {
        let mut filled: u32 = 0;
        for i in 0..200usize
            invariant
                filled == filled_cells(*board, i as int),
                filled < 4,
        {
            assert(board@[i as int / 10]@[i as int % 10] == cell_at(*board, scan_cell(i as int)));
            if board[i / 10][i % 10] != CellColor::Empty {
                filled += 1;
                if filled >= 4 {
                    proof {
                        lemma_filled_cells_grow(*board, i + 1, 200);
                    }
                    return true;
                }
            }
        }
        false
    }
}

fn same_colors(a: &Vec<(u8, u8, u8)>, b: &Vec<(u8, u8, u8)>) -> (same: bool)
    ensures
        same == (a@ == b@),
{
    if a.len() != b.len() {
        return false;
    }
    for i in 0..a.len()
        invariant
            a@.len() == b@.len(),
            forall|j: int| 0 <= j < i ==> a@[j] == b@[j],
    {
        let (ar, ag, ab) = a[i];
        let (br, bg, bb) = b[i];
        if ar != br || ag != bg || ab != bb {
            assert(a@[i as int] != b@[i as int]);
            return false;
        }
    }
    assert(a@ =~= b@);
    true
}

proof fn lemma_filled_cells_grow(board: [[CellColor; 10]; 20], i: int, j: int)
    requires
        0 <= i <= j,
    ensures
        filled_cells(board, i) <= filled_cells(board, j),
    decreases j,
{
    if i < j {
        lemma_filled_cells_grow(board, i, j - 1);
    }
}

/// A frame that was just checked is clean when it is checked again.
pub proof fn law_checked_frame_is_clean(reader: ReaderView, frame: FrameView)
    ensures
        ({
            let checked = ReaderView { last_sentinels: reader.sentinel_colors(frame), ..reader };
            checked.sentinel_colors(frame) == checked.last_sentinels
        }),
{
    let checked = ReaderView { last_sentinels: reader.sentinel_colors(frame), ..reader };
    assert(checked.sentinels() =~= reader.sentinels());
    assert(checked.sentinel_colors(frame) =~= reader.sentinel_colors(frame));
}

/// The current piece of a board is the colour of its first piece cell in scan
/// order, and none is reported only if the board shows no piece at all.
pub proof fn law_current_piece_comes_first(board: [[CellColor; 10]; 20], k: int)
    requires
        0 <= k < 200,
        cell_at(board, scan_cell(k)).is_piece(),
        forall|j: int| 0 <= j < k ==> !(#[trigger] cell_at(board, scan_cell(j))).is_piece(),
    ensures
        first_piece(board, 0) == Some(cell_at(board, scan_cell(k))),
{
    lemma_first_piece_from(board, 0, k);
}

proof fn lemma_first_piece_from(board: [[CellColor; 10]; 20], i: int, k: int)
    requires
        0 <= i <= k < 200,
        cell_at(board, scan_cell(k)).is_piece(),
        forall|j: int| i <= j < k ==> !(#[trigger] cell_at(board, scan_cell(j))).is_piece(),
    ensures
        first_piece(board, i) == Some(cell_at(board, scan_cell(k))),
    decreases k - i,
{
    if i < k {
        assert(!cell_at(board, scan_cell(i)).is_piece());
        lemma_first_piece_from(board, i + 1, k);
    }
}

/// Without a piece on the board there is no current piece.
pub proof fn law_no_piece_on_an_empty_board(board: [[CellColor; 10]; 20])
    requires
        forall|j: int| 0 <= j < 200 ==> !(#[trigger] cell_at(board, scan_cell(j))).is_piece(),
    ensures
        first_piece(board, 0) is None,
{
    lemma_no_piece_from(board, 0);
}

proof fn lemma_no_piece_from(board: [[CellColor; 10]; 20], i: int)
    requires
        0 <= i,
        forall|j: int| i <= j < 200 ==> !(#[trigger] cell_at(board, scan_cell(j))).is_piece(),
    ensures
        first_piece(board, i) is None,
    decreases 200 - i,
{
    if i < 200 {
        assert(!cell_at(board, scan_cell(i)).is_piece());
        lemma_no_piece_from(board, i + 1);
    }
}

/// As soon as two samples agree on a filled colour, the cell is filled.
pub proof fn law_agreeing_samples_fill_a_cell(samples: Seq<CellColor>, i: int)
    requires
        1 <= i < 9,
        tally(samples, i) >= 2,
    ensures
        elected(samples) != CellColor::Empty,
        tally(samples, elected(samples).spec_index()) >= tally(samples, i),
{
    let best = lemma_front_runner(samples, 8);
    let c = crate::color::color_at(best);
    crate::color::law_index_round_trip(c, best);
    assert(tally(samples, i) <= tally(samples, best));
    assert(leads(samples, c));
    law_vote_has_one_leader(samples, c);
}

/// The first of the colours up to position `n` with the most votes.
proof fn lemma_front_runner(samples: Seq<CellColor>, n: int) -> (best: int)
    requires
        1 <= n < 9,
    ensures
        1 <= best <= n,
        forall|i: int| 1 <= i <= n ==> #[trigger] tally(samples, i) <= tally(samples, best),
        forall|i: int| 1 <= i < best ==> #[trigger] tally(samples, i) < tally(samples, best),
    decreases n,
{
    if n == 1 {
        1
    } else {
        let before = lemma_front_runner(samples, n - 1);
        if tally(samples, n) > tally(samples, before) {
            n
        } else {
            before
        }
    }
}

/// A colour that no sample has gets no votes.
pub proof fn lemma_no_votes(samples: Seq<CellColor>, i: int)
    requires
        forall|k: int| 0 <= k < samples.len() ==> (#[trigger] samples[k]).spec_index() != i,
    ensures
        tally(samples, i) == 0,
    decreases samples.len(),
{
    if samples.len() > 0 {
        assert(samples.last() == samples[samples.len() - 1]);
        assert forall|k: int| 0 <= k < samples.drop_last().len() implies (
        #[trigger] samples.drop_last()[k]).spec_index() != i by {
            assert(samples.drop_last()[k] == samples[k]);
        }
        lemma_no_votes(samples.drop_last(), i);
    }
}

/// A preview box shows a piece or nothing, never garbage.
pub proof fn law_preview_shows_a_piece_or_nothing(frame: FrameView, cx: u32, cy: u32, off: int)
    ensures
        elected(region_samples(frame, cx, cy, off)) == CellColor::Empty || elected(
            region_samples(frame, cx, cy, off),
        ).is_piece(),
{
    let samples = region_samples(frame, cx, cy, off);
    lemma_no_votes(samples, CellColor::Garbage.spec_index());
}

/// The hold piece and all pieces of the next queue are pieces.
pub proof fn law_held_and_next_are_pieces(reader: ReaderView, frame: FrameView, k: int)
    ensures
        seen(reader.hold_color(frame)) matches Some(c) ==> c.is_piece(),
        0 <= k < reader.queue(frame).len() ==> reader.queue(frame)[k].is_piece(),
{
    law_preview_shows_a_piece_or_nothing(frame, reader.hold_x, reader.hold_y, 8);
    let slots = reader.slot_colors(frame);
    let queue = reader.queue(frame);
    if 0 <= k < queue.len() {
        let filled = |c: CellColor| c != CellColor::Empty;
        slots.lemma_filter_contains_rev(filled, queue[k]);
        let j = slots.index_of(queue[k]);
        let p = reader.next_positions[j];
        slots.lemma_filter_pred(filled, k);
        law_preview_shows_a_piece_or_nothing(frame, p.0, p.1, 8);
    }
}

// ---- what a frame shows ----

/// The sampled centre of a cell lies in the middle of that cell of the playfield,
/// for every position of the board and every cell size.
pub proof fn law_cell_is_sampled_in_its_middle(reader: ReaderView, row: int, col: int)
    requires
        reader.valid(),
        0 <= row < 20,
        0 <= col < 10,
    ensures
        ({
            let (x, y) = reader.cell_center(row, col);
            let left = reader.board_x + col * reader.cell_size;
            let top = reader.board_y + row * reader.cell_size;
            &&& x - left == reader.cell_size as int / 2
            &&& y - top == reader.cell_size as int / 2
            &&& reader.cell_size > 0 ==> left <= x < left + reader.cell_size
            &&& reader.cell_size > 0 ==> top <= y < top + reader.cell_size
        }),
{
    let size = reader.cell_size as int;
    assert(0 <= col * size <= 9 * size) by (nonlinear_arith)
        requires
            0 <= col <= 9,
            0 <= size,
    ;
    assert(0 <= row * size <= 19 * size) by (nonlinear_arith)
        requires
            0 <= row <= 19,
            0 <= size,
    ;
}

/// Samples that all agree decide the vote.
pub proof fn law_unanimous_vote_wins(samples: Seq<CellColor>, c: CellColor)
    requires
        samples.len() >= 2,
        forall|k: int| 0 <= k < samples.len() ==> #[trigger] samples[k] == c,
    ensures
        elected(samples) == c,
{
    lemma_all_votes(samples, c);
    crate::color::law_index_round_trip(c, 0);
    assert forall|i: int| i != c.spec_index() implies #[trigger] tally(samples, i) == 0 by {
        lemma_no_votes(samples, i);
    }
    if c == CellColor::Empty {
        law_single_samples_are_ignored(samples);
    } else {
        assert(leads(samples, c));
        law_vote_has_one_leader(samples, c);
    }
}

/// A colour that all samples have gets all votes.
pub proof fn lemma_all_votes(samples: Seq<CellColor>, c: CellColor)
    requires
        forall|k: int| 0 <= k < samples.len() ==> #[trigger] samples[k] == c,
    ensures
        tally(samples, c.spec_index()) == samples.len(),
    decreases samples.len(),
{
    if samples.len() > 0 {
        assert(samples.last() == samples[samples.len() - 1]);
        assert forall|k: int| 0 <= k < samples.drop_last().len() implies #[trigger] samples.drop_last()[k]
            == c by {
            assert(samples.drop_last()[k] == samples[k]);
        }
        lemma_all_votes(samples.drop_last(), c);
    }
}

/// Votes are counted whatever their order, and each of them counts once.
pub proof fn law_votes_add_up(a: Seq<CellColor>, b: Seq<CellColor>, c: CellColor, i: int)
    ensures
        tally(a + b, i) == tally(a, i) + tally(b, i),
        tally(seq![c], i) == if c.spec_index() == i {
            1int
        } else {
            0
        },
    decreases b.len(),
{
    reveal_with_fuel(tally, 2);
    assert(seq![c].last() == c);
    assert(seq![c].drop_last() =~= Seq::<CellColor>::empty());
    if b.len() == 0 {
        assert(a + b =~= a);
    } else {
        assert((a + b).drop_last() =~= a + b.drop_last());
        assert((a + b).last() == b.last());
        law_votes_add_up(a, b.drop_last(), c, i);
    }
}

/// Whether the pixels of a rectangle, which lies inside a frame, all have the same
/// colour. The far edges are not part of it.
pub open spec fn is_painted(
    frame: FrameView,
    left: int,
    top: int,
    right: int,
    bottom: int,
    rgb: (u8, u8, u8),
) -> bool {
    &&& 0 <= left <= right <= frame.width <= i32::MAX
    &&& 0 <= top <= bottom <= frame.height <= i32::MAX
    &&& forall|x: int, y: int|
        left <= x < right && top <= y < bottom ==> #[trigger] frame.pixel(x, y) == rgb
}

/// A painted cell is read back: where the whole square of a cell on the playfield has
/// one colour, the board shows the table's colour for it at that cell, whatever the
/// rest of the frame looks like.
pub proof fn law_painted_cell_reads_back(
    reader: ReaderView,
    frame: FrameView,
    state: StateView,
    row: int,
    col: int,
    rgb: (u8, u8, u8),
)
    requires
        reader.valid(),
        reader.shows(frame, state),
        reader.cell_size > 0,
        0 <= row < 20,
        0 <= col < 10,
        is_painted(
            frame,
            reader.board_x + col * reader.cell_size,
            reader.board_y + row * reader.cell_size,
            reader.board_x + col * reader.cell_size + reader.cell_size,
            reader.board_y + row * reader.cell_size + reader.cell_size,
            rgb,
        ),
    ensures
        state.board@[row]@[col] == table_color(rgb.0, rgb.1, rgb.2),
{
    let (cx, cy) = reader.cell_center(row, col);
    let size = reader.cell_size as int;
    law_cell_is_sampled_in_its_middle(reader, row, col);
    lemma_painted_cell(
        frame,
        cx,
        cy,
        size,
        reader.board_x + col * reader.cell_size,
        reader.board_y + row * reader.cell_size,
        rgb,
    );
    assert(state.board@[row]@[col] == reader.cell_color(frame, row, col));
}

/// All samples of a painted cell have its colour.
proof fn lemma_painted_cell(
    frame: FrameView,
    cx: u32,
    cy: u32,
    size: int,
    left: int,
    top: int,
    rgb: (u8, u8, u8),
)
    requires
        size > 0,
        cx - left == size / 2,
        cy - top == size / 2,
        is_painted(frame, left, top, left + size, top + size, rgb),
    ensures
        elected(cell_samples(frame, cx, cy, cell_offset(size))) == table_color(
            rgb.0,
            rgb.1,
            rgb.2,
        ),
{
    let off = cell_offset(size);
    let c = table_color(rgb.0, rgb.1, rgb.2);
    let samples = cell_samples(frame, cx, cy, off);
    assert(0 <= off && 0 <= size / 2 - off && size / 2 + off < size);
    assert(as_signed(cx) == cx && as_signed(cy) == cy);
    assert forall|dx: int, dy: int| -off <= dx <= off && -off <= dy <= off implies #[trigger]
        sample_at(frame, cx, cy, dx, dy) == c by {
        assert(shifted(cx, dx, frame.width) == cx + dx);
        assert(shifted(cy, dy, frame.height) == cy + dy);
        assert(frame.pixel(cx + dx, cy + dy) == rgb);
    }
    assert(samples[0] == c && samples[1] == c && samples[2] == c && samples[3] == c && samples[4]
        == c);
    law_unanimous_vote_wins(samples, c);
}

/// A preview box that is painted in one colour counts as that colour if it is a
/// piece's, and as empty else.
proof fn lemma_painted_region(frame: FrameView, cx: u32, cy: u32, off: int, rgb: (u8, u8, u8))
    requires
        0 <= off,
        is_painted(frame, cx - off, cy - off, cx + off + 1, cy + off + 1, rgb),
    ensures
        elected(region_samples(frame, cx, cy, off)) == piece_or_empty(
            table_color(rgb.0, rgb.1, rgb.2),
        ),
{
    let c = piece_or_empty(table_color(rgb.0, rgb.1, rgb.2));
    let samples = region_samples(frame, cx, cy, off);
    assert(as_signed(cx) == cx && as_signed(cy) == cy);
    assert forall|dx: int, dy: int| -off <= dx <= off && -off <= dy <= off implies #[trigger]
        region_sample(frame, cx, cy, dx, dy) == c by {
        assert(frame.pixel(cx + dx, cy + dy) == rgb);
    }
    assert(samples[0] == c && samples[1] == c && samples[2] == c);
    assert(samples[3] == c && samples[4] == c && samples[5] == c);
    assert(samples[6] == c && samples[7] == c && samples[8] == c);
    law_unanimous_vote_wins(samples, c);
}

/// A painted hold box is read back: it shows the piece of its colour, and nothing if
/// the colour is that of no piece.
pub proof fn law_painted_hold_box_reads_back(
    reader: ReaderView,
    frame: FrameView,
    state: StateView,
    rgb: (u8, u8, u8),
)
    requires
        reader.shows(frame, state),
        is_painted(
            frame,
            reader.hold_x - 8,
            reader.hold_y - 8,
            reader.hold_x + 9,
            reader.hold_y + 9,
            rgb,
        ),
    ensures
        state.hold_piece == if table_color(rgb.0, rgb.1, rgb.2).is_piece() {
            Some(table_color(rgb.0, rgb.1, rgb.2))
        } else {
            None
        },
{
    lemma_painted_region(frame, reader.hold_x, reader.hold_y, 8, rgb);
}

/// Painted slots of the next queue are read back: where each shows a piece, the next
/// queue holds these pieces, in the order of the slots.
pub proof fn law_painted_next_queue_reads_back(
    reader: ReaderView,
    frame: FrameView,
    state: StateView,
    rgb: Seq<(u8, u8, u8)>,
    k: int,
)
    requires
        reader.shows(frame, state),
        rgb.len() == reader.next_positions.len(),
        forall|i: int|
            #![trigger rgb[i]]
            0 <= i < rgb.len() ==> {
                &&& table_color(rgb[i].0, rgb[i].1, rgb[i].2).is_piece()
                &&& is_painted(
                    frame,
                    reader.next_positions[i].0 - 8,
                    reader.next_positions[i].1 - 8,
                    reader.next_positions[i].0 + 9,
                    reader.next_positions[i].1 + 9,
                    rgb[i],
                )
            },
        0 <= k < rgb.len(),
    ensures
        state.next_queue.len() == rgb.len(),
        state.next_queue[k] == table_color(rgb[k].0, rgb[k].1, rgb[k].2),
{
    let slots = reader.slot_colors(frame);
    assert forall|i: int| 0 <= i < slots.len() implies #[trigger] slots[i] == table_color(
        rgb[i].0,
        rgb[i].1,
        rgb[i].2,
    ) && slots[i] != CellColor::Empty by {
        lemma_painted_region(
            frame,
            reader.next_positions[i].0,
            reader.next_positions[i].1,
            8,
            rgb[i],
        );
    }
    lemma_nothing_filtered(slots);
}

/// A queue without empty slots is kept whole.
proof fn lemma_nothing_filtered(slots: Seq<CellColor>)
    requires
        forall|i: int| 0 <= i < slots.len() ==> #[trigger] slots[i] != CellColor::Empty,
    ensures
        slots.filter(|c: CellColor| c != CellColor::Empty) == slots,
    decreases slots.len(),
{
    reveal(Seq::filter);
    if slots.len() > 0 {
        assert forall|i: int| 0 <= i < slots.drop_last().len() implies #[trigger] slots.drop_last()[i]
            != CellColor::Empty by {
            assert(slots.drop_last()[i] == slots[i]);
        }
        lemma_nothing_filtered(slots.drop_last());
        assert(slots.last() == slots[slots.len() - 1]);
        assert(slots.drop_last().push(slots.last()) =~= slots);
    } else {
        assert(slots.filter(|c: CellColor| c != CellColor::Empty) =~= slots);
    }
}

/// Slots that show no piece are left out of the next queue, and the pieces in the
/// others keep their order.
pub proof fn law_next_queue_leaves_empty_slots_out(
    reader: ReaderView,
    frame: FrameView,
    state: StateView,
    rgb: Seq<(u8, u8, u8)>,
)
    requires
        reader.shows(frame, state),
        rgb.len() == reader.next_positions.len(),
        forall|i: int|
            #![trigger rgb[i]]
            0 <= i < rgb.len() ==> is_painted(
                frame,
                reader.next_positions[i].0 - 8,
                reader.next_positions[i].1 - 8,
                reader.next_positions[i].0 + 9,
                reader.next_positions[i].1 + 9,
                rgb[i],
            ),
    ensures
        state.next_queue == Seq::new(
            rgb.len(),
            |i: int| table_color(rgb[i].0, rgb[i].1, rgb[i].2),
        ).filter(|c: CellColor| c.is_piece()),
{
    let slots = reader.slot_colors(frame);
    let colors = Seq::new(rgb.len(), |i: int| table_color(rgb[i].0, rgb[i].1, rgb[i].2));
    assert forall|i: int| 0 <= i < slots.len() implies #[trigger] slots[i] == piece_or_empty(
        colors[i],
    ) by {
        lemma_painted_region(
            frame,
            reader.next_positions[i].0,
            reader.next_positions[i].1,
            8,
            rgb[i],
        );
    }
    lemma_pieces_filtered(slots, colors);
}

/// Leaving out the slots without a piece is leaving out the empty ones, once all that
/// is no piece counts as empty.
proof fn lemma_pieces_filtered(slots: Seq<CellColor>, colors: Seq<CellColor>)
    requires
        slots.len() == colors.len(),
        forall|i: int| 0 <= i < slots.len() ==> #[trigger] slots[i] == piece_or_empty(colors[i]),
    ensures
        slots.filter(|c: CellColor| c != CellColor::Empty) == colors.filter(
            |c: CellColor| c.is_piece(),
        ),
    decreases slots.len(),
{
    reveal(Seq::filter);
    if slots.len() > 0 {
        assert forall|i: int| 0 <= i < slots.drop_last().len() implies #[trigger] slots.drop_last()[i]
            == piece_or_empty(colors.drop_last()[i]) by {
            assert(slots.drop_last()[i] == slots[i]);
        }
        lemma_pieces_filtered(slots.drop_last(), colors.drop_last());
        assert(slots.last() == slots[slots.len() - 1]);
    }
}

/// The scan positions of the filled cells of a board.
pub open spec fn filled_positions(board: [[CellColor; 10]; 20]) -> Set<int> {
    Set::new(|i: int| 0 <= i < 200 && board@[i / 10]@[i % 10] != CellColor::Empty)
}

/// A game is active if and only if at least four cells of the board are filled,
/// wherever they lie, and the current piece is the first piece colour from the top
/// left.
pub proof fn law_game_is_active_with_four_cells(
    reader: ReaderView,
    frame: FrameView,
    state: StateView,
)
    requires
        reader.shows(frame, state),
    ensures
        filled_positions(state.board).finite(),
        state.is_active <==> filled_positions(state.board).len() >= 4,
        state.current_piece matches Some(c) ==> exists|k: int| #[trigger]
            is_first_piece_cell(state.board, 0, k) && state.board@[k / 10]@[k % 10] == c,
        state.current_piece is None ==> forall|j: int|
            0 <= j < 200 ==> !(#[trigger] cell_at(state.board, scan_cell(j))).is_piece(),
        state.incoming_garbage == 0,
{
    lemma_filled_cells_counted(state.board, 200);
    assert(filled_positions(state.board) =~= filled_before(state.board, 200));
    lemma_first_piece_is_first(state.board, 0);
}

spec fn filled_before(board: [[CellColor; 10]; 20], n: int) -> Set<int> {
    Set::new(|i: int| 0 <= i < n && cell_at(board, scan_cell(i)) != CellColor::Empty)
}

proof fn lemma_filled_cells_counted(board: [[CellColor; 10]; 20], n: int)
    requires
        0 <= n,
    ensures
        filled_before(board, n).finite(),
        filled_before(board, n).len() == filled_cells(board, n),
    decreases n,
{
    if n == 0 {
        assert(filled_before(board, n) =~= Set::empty());
    } else {
        lemma_filled_cells_counted(board, n - 1);
        if cell_at(board, scan_cell(n - 1)) != CellColor::Empty {
            assert(filled_before(board, n) =~= filled_before(board, n - 1).insert(n - 1));
        } else {
            assert(filled_before(board, n) =~= filled_before(board, n - 1));
        }
    }
}

/// Whether the first piece cell from position `i` on is the `k`-th cell.
pub open spec fn is_first_piece_cell(board: [[CellColor; 10]; 20], i: int, k: int) -> bool {
    &&& i <= k < 200
    &&& board@[k / 10]@[k % 10].is_piece()
    &&& forall|j: int| i <= j < k ==> !(#[trigger] cell_at(board, scan_cell(j))).is_piece()
}

proof fn lemma_first_piece_is_first(board: [[CellColor; 10]; 20], i: int)
    requires
        0 <= i,
    ensures
        first_piece(board, i) matches Some(c) ==> exists|k: int| #[trigger]
            is_first_piece_cell(board, i, k) && board@[k / 10]@[k % 10] == c,
        first_piece(board, i) is None ==> forall|j: int|
            i <= j < 200 ==> !(#[trigger] cell_at(board, scan_cell(j))).is_piece(),
    decreases 200 - i,
{
    if i < 200 {
        if cell_at(board, scan_cell(i)).is_piece() {
            assert(is_first_piece_cell(board, i, i));
        } else {
            lemma_first_piece_is_first(board, i + 1);
            if let Some(c) = first_piece(board, i + 1) {
                let k = choose|k: int| #[trigger]
                    is_first_piece_cell(board, i + 1, k) && board@[k / 10]@[k % 10] == c;
                assert(is_first_piece_cell(board, i, k));
            }
        }
    }
}

/// The number of piece cells of a board is that of the cells which show one of the
/// seven pieces.
pub proof fn law_piece_cells_are_counted(board: [[CellColor; 10]; 20], n: int)
    requires
        0 <= n <= 200,
    ensures
        ({
            let pieces = Set::new(|i: int| 0 <= i < n && board@[i / 10]@[i % 10].is_piece());
            pieces.finite() && pieces.len() == piece_cells(board, n)
        }),
    decreases n,
{
    let pieces = Set::new(|i: int| 0 <= i < n && board@[i / 10]@[i % 10].is_piece());
    if n == 0 {
        assert(pieces =~= Set::empty());
    } else {
        law_piece_cells_are_counted(board, n - 1);
        let fewer = Set::new(|i: int| 0 <= i < n - 1 && board@[i / 10]@[i % 10].is_piece());
        if cell_at(board, scan_cell(n - 1)).is_piece() {
            assert(pieces =~= fewer.insert(n - 1));
        } else {
            assert(pieces =~= fewer);
        }
    }
}

/// The colour table goes by the bucket of a colour: all colours that agree in the
/// upper six bits of each channel are told to be the same, namely what the classifier
/// says of a colour no more than two steps away in each channel.
pub proof fn law_table_follows_the_classifier(r: u8, g: u8, b: u8, r2: u8, g2: u8, b2: u8)
    ensures
        r / 4 == r2 / 4 && g / 4 == g2 / 4 && b / 4 == b2 / 4 ==> table_color(r, g, b)
            == table_color(r2, g2, b2),
        exists|x: u8, y: u8, z: u8|
            #![trigger classified(x, y, z)]
            table_color(r, g, b) == classified(x, y, z) && -2 <= x - r <= 2 && -2 <= y - g <= 2 && -2
                <= z - b <= 2,
        r % 4 == 2 && g % 4 == 2 && b % 4 == 2 ==> table_color(r, g, b) == classified(r, g, b),
{
    let (x, y, z) = (
        bucket_center(r as int),
        bucket_center(g as int),
        bucket_center(b as int),
    );
    assert(table_color(r, g, b) == classified(x, y, z));
}

/// Whether a frame counts as changed depends on the sentinel pixels alone, which are
/// pixels of the board, of the hold box and of the first next slot: frames that agree
/// there look the same, and one that differs in any of them is dirty.
pub proof fn law_sentinels_give_a_change_away(
    reader: ReaderView,
    before: FrameView,
    after: FrameView,
    k: int,
)
    requires
        0 <= k < reader.sentinels().len(),
    ensures
        ({
            let checked = ReaderView { last_sentinels: reader.sentinel_colors(before), ..reader };
            let p = reader.sentinels()[k];
            safe_pixel(before, p.0, p.1) != safe_pixel(after, p.0, p.1) ==> checked.sentinel_colors(
                after,
            ) != checked.last_sentinels
        }),
        reader.sentinels().len() >= 8,
        reader.sentinels()[7] == (reader.hold_x, reader.hold_y),
        reader.next_positions.len() > 0 ==> reader.sentinels().len() == 9 && reader.sentinels()[8]
            == reader.next_positions[0],
        reader.sentinels()[0] == reader.cell_center(0, 4),
        reader.sentinels()[1] == reader.cell_center(0, 5),
        reader.sentinels()[2] == reader.cell_center(4, 4),
        reader.sentinels()[3] == reader.cell_center(10, 5),
        reader.sentinels()[4] == reader.cell_center(15, 3),
        reader.sentinels()[5] == reader.cell_center(19, 0),
        reader.sentinels()[6] == reader.cell_center(19, 9),
{
    let checked = ReaderView { last_sentinels: reader.sentinel_colors(before), ..reader };
    assert(checked.sentinels() =~= reader.sentinels());
    assert(reader.sentinel_colors(before)[k] == safe_pixel(
        before,
        reader.sentinels()[k].0,
        reader.sentinels()[k].1,
    ));
    assert(checked.sentinel_colors(after)[k] == safe_pixel(
        after,
        reader.sentinels()[k].0,
        reader.sentinels()[k].1,
    ));
}

/// The outer samples of a cell lie halfway between its centre and its edges.
pub proof fn law_outer_samples_lie_halfway(size: int)
    requires
        size >= 0,
    ensures
        4 * cell_offset(size) <= size < 4 * cell_offset(size) + 4,
{
}

/// The points at which a cell is sampled, relative to its centre.
pub open spec fn cell_point(i: int, off: int) -> (int, int) {
    if i == 1 {
        (-off, 0)
    } else if i == 2 {
        (off, 0)
    } else if i == 3 {
        (0, -off)
    } else if i == 4 {
        (0, off)
    } else {
        (0, 0)
    }
}

/// Any two of the five points of a cell, the centre and one towards each side, fill it if
/// they show the same colour and no other point shows one; a single point does not.
pub proof fn law_two_of_five_points_fill_a_cell(
    frame: FrameView,
    cx: u32,
    cy: u32,
    off: int,
    i: int,
    j: int,
    c: CellColor,
)
    requires
        0 <= i < 5,
        0 <= j < 5,
        c != CellColor::Empty,
        forall|k: int|
            0 <= k < 5 ==> sample_at(
                frame,
                cx,
                cy,
                (#[trigger] cell_point(k, off)).0,
                cell_point(k, off).1,
            ) == if k == i || k == j {
                c
            } else {
                CellColor::Empty
            },
    ensures
        elected(cell_samples(frame, cx, cy, off)) == if i != j {
            c
        } else {
            CellColor::Empty
        },
{
    let samples = cell_samples(frame, cx, cy, off);
    assert forall|k: int| 0 <= k < 5 implies samples[k] == if k == i || k == j {
        c
    } else {
        CellColor::Empty
    } by {
        assert(samples[k] == sample_at(
            frame,
            cx,
            cy,
            cell_point(k, off).0,
            cell_point(k, off).1,
        ));
    }
    lemma_two_votes(samples, i, j, c);
}

/// The points at which a region is sampled, relative to its centre: a grid of three by
/// three.
pub open spec fn region_point(i: int, off: int) -> (int, int) {
    ((i % 3 - 1) * off, (i / 3 - 1) * off)
}

/// Any two of the nine points of a region decide it if they show the same piece and no
/// other point shows one; a single point does not.
pub proof fn law_two_of_nine_points_show_a_piece(
    frame: FrameView,
    cx: u32,
    cy: u32,
    off: int,
    i: int,
    j: int,
    c: CellColor,
)
    requires
        0 <= i < 9,
        0 <= j < 9,
        c.is_piece(),
        forall|k: int|
            #![trigger region_point(k, off)]
            0 <= k < 9 ==> {
                let s = sample_at(frame, cx, cy, region_point(k, off).0, region_point(k, off).1);
                if k == i || k == j {
                    s == c
                } else {
                    !s.is_piece()
                }
            },
    ensures
        elected(region_samples(frame, cx, cy, off)) == if i != j {
            c
        } else {
            CellColor::Empty
        },
{
    let samples = region_samples(frame, cx, cy, off);
    assert(-1 * off == -off && 0 * off == 0 && 1 * off == off);
    assert forall|k: int| 0 <= k < 9 implies samples[k] == if k == i || k == j {
        c
    } else {
        CellColor::Empty
    } by {
        assert(samples[k] == region_sample(
            frame,
            cx,
            cy,
            region_point(k, off).0,
            region_point(k, off).1,
        ));
    }
    lemma_two_votes(samples, i, j, c);
}

/// Two votes decide where all others are empty, one does not.
proof fn lemma_two_votes(samples: Seq<CellColor>, i: int, j: int, c: CellColor)
    requires
        0 <= i < samples.len(),
        0 <= j < samples.len(),
        c != CellColor::Empty,
        forall|k: int|
            0 <= k < samples.len() ==> #[trigger] samples[k] == if k == i || k == j {
                c
            } else {
                CellColor::Empty
            },
    ensures
        elected(samples) == if i != j {
            c
        } else {
            CellColor::Empty
        },
{
    crate::color::law_index_round_trip(c, 0);
    let n = if i != j {
        2int
    } else {
        1
    };
    lemma_marked_votes(samples, i, j, c);
    assert forall|m: int| 1 <= m < 9 && m != c.spec_index() implies #[trigger] tally(samples, m) == 0 by {
        lemma_no_votes(samples, m);
    }
    assert(tally(samples, c.spec_index()) == n);
    assert(leads(samples, c));
    law_vote_has_one_leader(samples, c);
}

proof fn lemma_marked_votes(samples: Seq<CellColor>, i: int, j: int, c: CellColor)
    requires
        c != CellColor::Empty,
        forall|k: int|
            0 <= k < samples.len() ==> #[trigger] samples[k] == if k == i || k == j {
                c
            } else {
                CellColor::Empty
            },
    ensures
        tally(samples, c.spec_index()) == (if 0 <= i < samples.len() {
            1int
        } else {
            0
        }) + (if 0 <= j < samples.len() && i != j {
            1int
        } else {
            0
        }),
    decreases samples.len(),
{
    crate::color::law_index_round_trip(c, 0);
    if samples.len() > 0 {
        let init = samples.drop_last();
        assert forall|k: int| 0 <= k < init.len() implies #[trigger] init[k] == if k == i || k == j {
            c
        } else {
            CellColor::Empty
        } by {
            assert(init[k] == samples[k]);
        }
        lemma_marked_votes(init, i, j, c);
        assert(samples.last() == samples[samples.len() - 1]);
    }
}

/// The elected colour has the most votes of all filled colours, at least two, and of those
/// with as many it is the first; a cell stays empty only if no filled colour has two.
pub proof fn law_elected_color_has_most_votes(samples: Seq<CellColor>, i: int)
    requires
        1 <= i < 9,
    ensures
        ({
            let c = elected(samples);
            let votes = tally(samples, c.spec_index());
            &&& c != CellColor::Empty ==> {
                &&& votes >= 2
                &&& tally(samples, i) <= votes
                &&& i < c.spec_index() ==> tally(samples, i) < votes
            }
            &&& c == CellColor::Empty ==> tally(samples, i) < 2
        }),
{
    if tally(samples, i) >= 2 {
        law_agreeing_samples_fill_a_cell(samples, i);
    }
    let c = leader(samples);
    if elected(samples) != CellColor::Empty {
        assert(leads(samples, c));
    }
}

/// A shifted coordinate is the sum if that lies in the frame, and else the nearest one
/// that does.
pub proof fn law_shift_stays_in_the_frame(c: u32, d: int, size: int)
    requires
        c <= i32::MAX,
        size >= 1,
    ensures
        0 <= shifted(c, d, size) < size,
        0 <= c + d < size ==> shifted(c, d, size) == c + d,
        c + d < 0 ==> shifted(c, d, size) == 0,
        c + d >= size ==> shifted(c, d, size) == size - 1,
{
}

/// Reading a number as signed keeps it up to multiples of the range.
pub proof fn law_signed_reading_wraps(x: u32)
    ensures
        i32::MIN <= as_signed(x) <= i32::MAX,
        as_signed(x) == x || as_signed(x) + 0x1_0000_0000 == x,
{
}

/// Pixels inside of a frame are read as they are, and those outside are black.
pub proof fn law_outside_is_black(frame: FrameView, x: u32, y: u32)
    ensures
        x < frame.width && y < frame.height ==> safe_pixel(frame, x, y) == frame.pixel(
            x as int,
            y as int,
        ),
        x >= frame.width || y >= frame.height ==> safe_pixel(frame, x, y) == (0u8, 0u8, 0u8),
{
}

/// The table has an entry for every bucket of colours, at the place that the upper six
/// bits of the channels give.
pub proof fn law_table_has_every_bucket(r: u8, g: u8, b: u8)
    ensures
        ({
            let idx = (r as int / 4) * 64 * 64 + (g as int / 4) * 64 + b as int / 4;
            0 <= idx < 262144 && table_entry(idx) == table_color(r, g, b)
        }),
{
    lemma_table_position(r as int, g as int, b as int);
}

/// Any two of the five points of a cell on the playfield, its middle and the points halfway to
/// its sides, are enough to read its colour off a frame.
pub proof fn law_two_points_fill_a_cell_of_the_board(
    reader: ReaderView,
    frame: FrameView,
    state: StateView,
    row: int,
    col: int,
    i: int,
    j: int,
    c: CellColor,
)
    requires
        reader.shows(frame, state),
        0 <= row < 20,
        0 <= col < 10,
        0 <= i < 5,
        0 <= j < 5,
        c != CellColor::Empty,
        forall|k: int|
            #![trigger cell_point(k, reader.cell_size as int / 4)]
            0 <= k < 5 ==> sample_at(
                frame,
                reader.cell_center(row, col).0,
                reader.cell_center(row, col).1,
                cell_point(k, reader.cell_size as int / 4).0,
                cell_point(k, reader.cell_size as int / 4).1,
            ) == if k == i || k == j {
                c
            } else {
                CellColor::Empty
            },
    ensures
        state.board@[row]@[col] == if i != j {
            c
        } else {
            CellColor::Empty
        },
{
    let (cx, cy) = reader.cell_center(row, col);
    let off = reader.cell_size as int / 4;
    law_two_of_five_points_fill_a_cell(frame, cx, cy, off, i, j, c);
    assert(state.board@[row]@[col] == reader.cell_color(frame, row, col));
}

/// Any two of the nine points eight pixels around the middle of the hold box are enough to
/// read its piece, and the same holds for the slots of the next queue.
pub proof fn law_two_points_show_a_preview(
    reader: ReaderView,
    frame: FrameView,
    state: StateView,
    x: u32,
    y: u32,
    i: int,
    j: int,
    c: CellColor,
)
    requires
        reader.shows(frame, state),
        0 <= i < 9,
        0 <= j < 9,
        i != j,
        c.is_piece(),
        forall|k: int|
            #![trigger region_point(k, 8)]
            0 <= k < 9 ==> {
                let s = sample_at(frame, x, y, region_point(k, 8).0, region_point(k, 8).1);
                if k == i || k == j {
                    s == c
                } else {
                    !s.is_piece()
                }
            },
    ensures
        x == reader.hold_x && y == reader.hold_y ==> state.hold_piece == Some(c),
        reader.next_positions == seq![(x, y)] ==> state.next_queue == seq![c],
        reader.next_positions.contains((x, y)) ==> state.next_queue.contains(c),
{
    law_two_of_nine_points_show_a_piece(frame, x, y, 8, i, j, c);
    let slots = reader.slot_colors(frame);
    let filled = |c: CellColor| c != CellColor::Empty;
    if reader.next_positions.contains((x, y)) {
        let k = reader.next_positions.index_of((x, y));
        assert(slots[k] == c);
        slots.lemma_filter_contains(filled, k);
    }
    if reader.next_positions == seq![(x, y)] {
        assert(slots =~= seq![c]);
        lemma_nothing_filtered(slots);
    }
}

} // verus!
