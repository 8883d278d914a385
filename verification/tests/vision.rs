use std::sync::Arc;
use tetris_bot::capture::Frame;
use tetris_bot::color::classify_color_slow;
use tetris_bot::config::VisionConfig;
use tetris_bot::vision::{
    count_piece_cells, count_votes, frame_pixel_safe, has_room, is_samplable, is_shiftable, shift, signed, BoardReader,
    CellColor, ColorLut,
};
use tetris_bot::vision::CellColor::{Empty, Garbage, I, J, L, O, S, T, Z};

const W: u32 = 420;
const H: u32 = 460;

fn config() -> VisionConfig {
    VisionConfig {
        board_x: 100,
        board_y: 30,
        cell_size: 20,
        hold_x: 40,
        hold_y: 60,
        next_positions: vec![(340, 60), (340, 120), (340, 180), (340, 240), (340, 300)],
        color_tolerance: 40,
    }
}

fn rgb(c: CellColor) -> (u8, u8, u8) {
    match c {
        CellColor::I => (0, 220, 220),
        CellColor::O => (220, 220, 0),
        CellColor::T => (160, 0, 220),
        CellColor::S => (0, 220, 0),
        CellColor::Z => (220, 0, 0),
        CellColor::J => (0, 0, 220),
        CellColor::L => (220, 130, 0),
        CellColor::Garbage => (150, 150, 150),
        CellColor::Empty => (10, 10, 10),
    }
}

struct Canvas {
    data: Vec<u8>,
}

impl Canvas {
    fn new() -> Self {
        Canvas { data: vec![0; (W * H * 4) as usize] }
    }

    fn dot(&mut self, x: u32, y: u32, c: (u8, u8, u8)) {
        let at = ((y * W + x) * 4) as usize;
        self.data[at] = c.2;
        self.data[at + 1] = c.1;
        self.data[at + 2] = c.0;
    }

    fn block(&mut self, x: u32, y: u32, w: u32, h: u32, c: (u8, u8, u8)) {
        for dy in 0..h {
            for dx in 0..w {
                self.dot(x + dx, y + dy, c);
            }
        }
    }

    fn cell(&mut self, row: u32, col: u32, c: CellColor) {
        self.block(100 + col * 20, 30 + row * 20, 20, 20, rgb(c));
    }

    fn frame(&self) -> Frame {
        Frame { data: Arc::new(self.data.clone()), width: W, height: H, stride: W * 4 }
    }
}

#[test]
fn the_table_holds_the_middle_of_every_bucket() {
    let lut = ColorLut::new();
    for r in (0..256u32).step_by(3) {
        for g in (0..256u32).step_by(5) {
            for b in (0..256u32).step_by(7) {
                let (r, g, b) = (r as u8, g as u8, b as u8);
                let middle = classify_color_slow(r / 4 * 4 + 2, g / 4 * 4 + 2, b / 4 * 4 + 2);
                assert_eq!(lut.classify(r, g, b), middle);
            }
        }
    }
    assert_eq!(lut.classify(255, 255, 255), CellColor::Garbage);
    assert_eq!(lut.classify(0, 0, 0), CellColor::Empty);
}

#[test]
fn votes_go_to_the_first_of_the_strongest_colours() {
    assert_eq!(count_votes(&vec![Empty, Empty, Z, T, Empty]), (T, 1, 3));
    assert_eq!(count_votes(&vec![Z, Z, T, T, Empty]), (T, 2, 1));
    assert_eq!(count_votes(&vec![Z, Garbage, Garbage, I, Garbage]), (Garbage, 3, 0));
    assert_eq!(count_votes(&vec![Empty; 5]), (Empty, 0, 5));
    assert_eq!(count_votes(&vec![]), (Empty, 0, 0));
}

#[test]
fn coordinates_are_kept_inside_the_frame() {
    assert_eq!(shift(10, -4, 100), 6);
    assert_eq!(shift(2, -4, 100), 0);
    assert_eq!(shift(98, 4, 100), 99);
    assert_eq!(shift(5000, 0, 100), 99);
    assert_eq!(shift(u32::MAX, 0, 100), 0);
    assert_eq!(signed(u32::MAX), -1);
    assert_eq!(signed(0x8000_0000), i32::MIN);
    assert_eq!(signed(7), 7);
    assert!(is_shiftable(100, 8));
    assert!(!is_shiftable(0x7fff_ffff, 1));
    assert!(!is_shiftable(0x8000_0000, 1));
}

#[test]
fn reads_a_game() {
    let mut canvas = Canvas::new();
    for col in 3..7 {
        canvas.cell(1, col, CellColor::I);
    }
    for col in 0..9 {
        canvas.cell(19, col, CellColor::Garbage);
    }
    canvas.cell(18, 0, CellColor::L);
    canvas.block(25, 45, 30, 30, rgb(CellColor::T));
    canvas.block(325, 45, 30, 30, rgb(CellColor::S));
    canvas.block(325, 105, 30, 30, rgb(CellColor::Z));
    canvas.block(325, 225, 30, 30, rgb(CellColor::J));
    let reader = BoardReader::new(&config());
    let frame = canvas.frame();
    assert!(is_samplable(&frame) && reader.is_in_range());
    let state = reader.read_state(&frame);
    assert_eq!(state.current_piece, Some(CellColor::I));
    assert_eq!(state.hold_piece, Some(CellColor::T));
    assert_eq!(state.next_queue, vec![CellColor::S, CellColor::Z, CellColor::J]);
    assert!(state.is_active);
    assert_eq!(state.incoming_garbage, 0);
    for row in 0..20 {
        for col in 0..10 {
            let expected = if row == 1 && (3..7).contains(&col) {
                CellColor::I
            } else if row == 19 && col < 9 {
                CellColor::Garbage
            } else if row == 18 && col == 0 {
                CellColor::L
            } else {
                CellColor::Empty
            };
            assert_eq!(state.board[row][col], expected, "cell {row},{col}");
        }
    }
}

#[test]
fn every_colour_is_read_back() {
    let reader = BoardReader::new(&config());
    for c in [Empty, I, O, T, S, Z, J, L, Garbage] {
        let mut canvas = Canvas::new();
        canvas.cell(7, 2, c);
        assert_eq!(reader.read_board(&canvas.frame())[7][2], c);
    }
}

#[test]
fn a_blank_frame_shows_no_game() {
    let reader = BoardReader::new(&config());
    let state = reader.read_state(&Canvas::new().frame());
    assert_eq!(state.current_piece, None);
    assert_eq!(state.hold_piece, None);
    assert!(state.next_queue.is_empty());
    assert!(!state.is_active);
}

#[test]
fn single_bad_pixels_are_ignored() {
    let reader = BoardReader::new(&config());
    // The centre of a cell, and samples at a distance of a quarter of a cell.
    let mut canvas = Canvas::new();
    canvas.dot(110, 40, rgb(CellColor::Z));
    assert_eq!(reader.read_board(&canvas.frame())[0][0], CellColor::Empty);
    canvas.dot(105, 40, rgb(CellColor::S));
    assert_eq!(reader.read_board(&canvas.frame())[0][0], CellColor::Empty);
    canvas.dot(110, 45, rgb(CellColor::S));
    assert_eq!(reader.read_board(&canvas.frame())[0][0], CellColor::S);
}

#[test]
fn cells_are_sampled_a_quarter_of_their_size_apart() {
    let mut cfg = config();
    cfg.cell_size = 8;
    let reader = BoardReader::new(&cfg);
    let mut canvas = Canvas::new();
    canvas.dot(104, 34, rgb(CellColor::O));
    canvas.dot(106, 34, rgb(CellColor::O));
    assert_eq!(reader.read_board(&canvas.frame())[0][0], CellColor::O);
    assert_eq!(reader.sample_cell(&canvas.frame(), 104, 34, 8), CellColor::O);
    assert_eq!(reader.sample_cell(&canvas.frame(), 104, 34, 16), CellColor::Empty);
    assert_eq!(reader.sample_cell(&canvas.frame(), 104, 34, 40), CellColor::Empty);
}

#[test]
fn two_red_samples_of_a_small_cell() {
    let mut data = [0u8, 0, 0, 255].repeat(81);
    for (x, y) in [(4, 4), (2, 4)] {
        data[(y * 9 + x) * 4 + 2] = 220;
    }
    let frame = Frame { data: Arc::new(data), width: 9, height: 9, stride: 36 };
    assert_eq!(BoardReader::new(&config()).sample_cell(&frame, 4, 4, 8), CellColor::Z);
}

#[test]
fn a_gray_preview_box_is_empty() {
    let frame =
        Frame { data: Arc::new(vec![128, 128, 128, 255]), width: 1, height: 1, stride: 4 };
    let reader = BoardReader::new(&config());
    assert_eq!(reader.sample_region_vote(&frame, 0, 0, 8), CellColor::Empty);
    assert_eq!(reader.read_hold_piece(&frame), None);
    assert!(reader.read_next_queue(&frame).is_empty());
    // A cell of the board may be garbage.
    assert_eq!(reader.sample_cell(&frame, 0, 0, 20), CellColor::Garbage);
    // Two samples of a piece outweigh seven of garbage.
    let mut canvas = Canvas::new();
    canvas.block(25, 45, 30, 30, rgb(CellColor::Garbage));
    canvas.dot(40, 60, rgb(CellColor::S));
    assert_eq!(reader.read_hold_piece(&canvas.frame()), None);
    canvas.dot(48, 60, rgb(CellColor::S));
    assert_eq!(reader.read_hold_piece(&canvas.frame()), Some(CellColor::S));
}

#[test]
fn piece_cells_are_counted_without_garbage() {
    let mut board = [[CellColor::Empty; 10]; 20];
    assert_eq!(count_piece_cells(&board), 0);
    board[19] = [CellColor::Garbage; 10];
    assert_eq!(count_piece_cells(&board), 0);
    board[0][0] = CellColor::I;
    board[18] = [CellColor::L; 10];
    assert_eq!(count_piece_cells(&board), 11);
    assert_eq!(count_piece_cells(&[[CellColor::Z; 10]; 20]), 200);
}

#[test]
fn preview_boxes_are_sampled_in_a_grid() {
    let reader = BoardReader::new(&config());
    let mut canvas = Canvas::new();
    canvas.dot(32, 52, rgb(CellColor::J));
    assert_eq!(reader.read_hold_piece(&canvas.frame()), None);
    canvas.dot(48, 68, rgb(CellColor::J));
    assert_eq!(reader.read_hold_piece(&canvas.frame()), Some(CellColor::J));
    assert_eq!(reader.sample_region_vote(&canvas.frame(), 40, 60, 8), CellColor::J);
    assert_eq!(reader.sample_region_vote(&canvas.frame(), 40, 60, 7), CellColor::Empty);
}

#[test]
fn garbage_is_not_the_current_piece() {
    let reader = BoardReader::new(&config());
    let mut board = [[CellColor::Empty; 10]; 20];
    board[0][3] = CellColor::Garbage;
    assert_eq!(reader.detect_current_piece(&board), None);
    board[12][9] = CellColor::L;
    board[13][0] = CellColor::S;
    assert_eq!(reader.detect_current_piece(&board), Some(CellColor::L));
    board[3][9] = CellColor::T;
    assert_eq!(reader.detect_current_piece(&board), Some(CellColor::T));
    board[3][1] = CellColor::O;
    assert_eq!(reader.detect_current_piece(&board), Some(CellColor::O));
}

#[test]
fn a_game_is_active_from_four_cells_on() {
    let reader = BoardReader::new(&config());
    let mut board = [[CellColor::Empty; 10]; 20];
    for k in 0..4 {
        assert!(!reader.detect_game_active(&board));
        board[19 - k][9] = CellColor::Garbage;
    }
    assert!(reader.detect_game_active(&board));
}

#[test]
fn frames_are_dirty_until_they_have_been_checked() {
    let mut reader = BoardReader::new(&config());
    let mut canvas = Canvas::new();
    assert!(reader.is_frame_dirty(&canvas.frame()));
    assert!(!reader.is_frame_dirty(&canvas.frame()));
    // A change that no sentinel sees.
    canvas.dot(5, 5, (9, 9, 9));
    assert!(!reader.is_frame_dirty(&canvas.frame()));
    // Row 10, column 5; the hold box; the first slot of the next queue.
    for (x, y) in [(210, 240), (40, 60), (340, 60)] {
        canvas.dot(x, y, (9, 9, 9));
        assert!(reader.is_frame_dirty(&canvas.frame()));
        assert!(!reader.is_frame_dirty(&canvas.frame()));
    }
    // The second slot is no sentinel.
    canvas.dot(340, 120, (9, 9, 9));
    assert!(!reader.is_frame_dirty(&canvas.frame()));
}

#[test]
fn pixels_outside_of_the_frame_are_black() {
    let mut canvas = Canvas::new();
    canvas.dot(3, 4, (1, 2, 3));
    let frame = canvas.frame();
    assert_eq!(frame_pixel_safe(&frame, 3, 4), (1, 2, 3));
    assert_eq!(frame_pixel_safe(&frame, W, 4), (0, 0, 0));
    assert_eq!(frame_pixel_safe(&frame, 3, H), (0, 0, 0));
}

#[test]
fn positions_off_the_frame_read_its_border() {
    let mut cfg = config();
    cfg.hold_x = 5000;
    cfg.hold_y = 60;
    let mut canvas = Canvas::new();
    for y in [52, 60, 68] {
        canvas.dot(W - 1, y, rgb(CellColor::Z));
    }
    assert_eq!(BoardReader::new(&cfg).read_hold_piece(&canvas.frame()), Some(CellColor::Z));
}

#[test]
fn a_reader_without_next_positions_has_no_queue() {
    let mut cfg = config();
    cfg.next_positions = vec![];
    let mut reader = BoardReader::new(&cfg);
    let frame = Canvas::new().frame();
    assert!(reader.read_next_queue(&frame).is_empty());
    assert!(reader.is_frame_dirty(&frame));
}

#[test]
fn what_cannot_be_sampled_is_recognised() {
    let mut cfg = config();
    assert!(has_room(&cfg));
    cfg.next_positions.push((0x7fff_ffff, 0));
    assert!(!BoardReader::new(&cfg).is_in_range());
    cfg = config();
    cfg.hold_y = 0x8000_0000;
    assert!(!BoardReader::new(&cfg).is_in_range());
    cfg = config();
    cfg.board_x = 0x7fff_ff40;
    assert!(has_room(&cfg));
    assert!(!BoardReader::new(&cfg).is_in_range());
    cfg.cell_size = 0x2000_0000;
    assert!(!has_room(&cfg));
    let empty = Frame { data: Arc::new(vec![]), width: 0, height: 0, stride: 0 };
    assert!(!is_samplable(&empty));
}

#[test]
fn states_can_be_cloned() {
    let mut canvas = Canvas::new();
    for col in 3..7 {
        canvas.cell(1, col, CellColor::I);
    }
    canvas.block(325, 45, 30, 30, rgb(CellColor::S));
    let state = BoardReader::new(&config()).read_state(&canvas.frame());
    let twin = state.clone();
    assert_eq!(twin.board, state.board);
    assert_eq!(twin.current_piece, state.current_piece);
    assert_eq!(twin.hold_piece, state.hold_piece);
    assert_eq!(twin.next_queue, state.next_queue);
    assert_eq!(twin.is_active, state.is_active);
}
