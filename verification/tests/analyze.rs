use tetris_bot::analyze::{
    can_find_board, cell_center, classify, find_board, find_edges, hscan, is_grid_in_range,
    read_grid, sample, vscan,
};
use tetris_bot::color::{rgb_to_hsv, CellColor};
use tetris_bot::inspect::{Edge, GridMark};
use tetris_bot::screenshot::Screenshot;

fn blank(width: u32, height: u32) -> Screenshot {
    Screenshot { width, height, data: vec![0; (width * height * 4) as usize] }
}

fn dot(img: &mut Screenshot, x: u32, y: u32, c: (u8, u8, u8)) {
    let at = ((y * img.width + x) * 4) as usize;
    img.data[at] = c.0;
    img.data[at + 1] = c.1;
    img.data[at + 2] = c.2;
    img.data[at + 3] = 255;
}

fn block(img: &mut Screenshot, x: u32, y: u32, w: u32, h: u32, c: (u8, u8, u8)) {
    for dy in 0..h {
        for dx in 0..w {
            dot(img, x + dx, y + dy, c);
        }
    }
}

#[test]
fn letters_of_pixels() {
    assert_eq!(classify(220, 0, 0), "Z");
    assert_eq!(classify(220, 130, 0), "L");
    assert_eq!(classify(220, 220, 0), "O");
    assert_eq!(classify(0, 220, 0), "S");
    assert_eq!(classify(0, 220, 220), "I");
    assert_eq!(classify(0, 0, 220), "J");
    assert_eq!(classify(160, 0, 220), "T");
    assert_eq!(classify(150, 150, 150), "G");
    assert_eq!(classify(5, 5, 5), ".");
}

#[test]
fn pixels_are_stored_red_first() {
    let mut img = blank(7, 5);
    dot(&mut img, 6, 4, (10, 20, 30));
    dot(&mut img, 2, 3, (40, 50, 60));
    assert!(img.is_complete());
    assert_eq!(img.rgb(6, 4), (10, 20, 30));
    assert_eq!(img.rgb(2, 3), (40, 50, 60));
    assert_eq!(img.rgb(3, 2), (0, 0, 0));
}

#[test]
fn incomplete_screenshots_are_recognised() {
    let img = Screenshot { width: 3, height: 3, data: vec![0; 35] };
    assert!(!img.is_complete());
    assert!(!can_find_board(&img));
    let img = Screenshot { width: u32::MAX, height: u32::MAX, data: vec![] };
    assert!(!img.is_complete());
}

#[test]
fn scans_report_jumps_in_brightness() {
    let mut img = blank(10, 4);
    block(&mut img, 3, 0, 4, 4, (90, 60, 30));
    assert_eq!(
        hscan(&img, 2, 0, 10),
        vec![
            Edge { pos: 3, from: 0, to: 60, diff: 60, rgb: (90, 60, 30) },
            Edge { pos: 7, from: 60, to: 0, diff: 60, rgb: (0, 0, 0) },
        ]
    );
    // The first pixel of a scan has nothing to compare with.
    assert_eq!(hscan(&img, 2, 3, 7), vec![]);
    assert_eq!(hscan(&img, 2, 7, 3), vec![]);
    assert_eq!(hscan(&img, 99, 5, 5), vec![]);
    block(&mut img, 0, 2, 10, 1, (200, 200, 200));
    let edges = vscan(&img, 3, 0, 4);
    assert_eq!(edges.iter().map(|e| (e.pos, e.from, e.to)).collect::<Vec<_>>(), vec![
        (2, 60, 200),
        (3, 200, 60),
    ]);
}

#[test]
fn small_jumps_are_not_reported() {
    let mut img = blank(3, 1);
    dot(&mut img, 1, 0, (15, 15, 15));
    assert_eq!(hscan(&img, 0, 0, 3), vec![]);
    dot(&mut img, 1, 0, (16, 16, 16));
    assert_eq!(hscan(&img, 0, 0, 3).len(), 2);
}

#[test]
fn a_sampled_pixel() {
    let mut img = blank(30, 30);
    dot(&mut img, 10, 10, (0, 220, 220));
    dot(&mut img, 8, 8, (1, 2, 3));
    dot(&mut img, 12, 11, (4, 5, 6));
    let s = sample(&img, 10, 10);
    assert_eq!(s.rgb, (0, 220, 220));
    assert_eq!(s.color, CellColor::I);
    assert_eq!(s.hsv, rgb_to_hsv(0, 220, 220));
    assert!(!s.is_ghost);
    assert_eq!(s.around.len(), 25);
    assert_eq!(s.around[0], (1, 2, 3));
    assert_eq!(s.around[12], (0, 220, 220));
    assert_eq!(s.around[19], (4, 5, 6));
}

#[test]
fn the_border_is_repeated_around_a_corner() {
    let mut img = blank(5, 5);
    dot(&mut img, 0, 0, (9, 8, 7));
    let s = sample(&img, 0, 0);
    for k in [0, 1, 2, 5, 6, 7, 10, 11, 12] {
        assert_eq!(s.around[k], (9, 8, 7));
    }
    assert_eq!(s.around[13], (0, 0, 0));
}

#[test]
fn ghost_pixels_are_pointed_out() {
    let mut img = blank(5, 5);
    for (v, is_ghost) in [(38, false), (39, true), (89, true), (90, false)] {
        dot(&mut img, 2, 2, (v, 0, 0));
        assert_eq!(sample(&img, 2, 2).is_ghost, is_ghost, "value {v}");
    }
}

#[test]
fn the_grid_marks_cells_by_majority() {
    let mut img = blank(240, 440);
    // Cells of 20 pixels from (20, 20) on, sampled 5 pixels from their centres.
    block(&mut img, 20, 20, 20, 20, (220, 0, 0));
    dot(&mut img, 50, 30, (0, 220, 0));
    dot(&mut img, 45, 30, (0, 220, 0));
    dot(&mut img, 70, 30, (0, 0, 220));
    dot(&mut img, 65, 30, (0, 0, 220));
    dot(&mut img, 70, 35, (0, 0, 220));
    let grid = read_grid(&img, 20, 20, 20);
    assert_eq!(grid[0][0], GridMark::Color(CellColor::Z));
    assert_eq!(grid[0][1], GridMark::Uncertain);
    assert_eq!(grid[0][2], GridMark::Color(CellColor::J));
    assert_eq!(grid[0][3], GridMark::Color(CellColor::Empty));
    assert_eq!(grid[19][9], GridMark::Color(CellColor::Empty));
    assert_eq!(grid[0][0].text(), "Z");
    assert_eq!(grid[0][1].text(), "*");
    assert_eq!(grid[0][3].text(), ".");
}

#[test]
fn grids_out_of_range_are_recognised() {
    assert!(is_grid_in_range(733, 86, 45, 11));
    assert!(!is_grid_in_range(0, 0, u32::MAX, 4));
    assert!(!is_grid_in_range(0x7fff_fff0, 0, 1, 8));
    assert_eq!(cell_center(733, 86, 45, 19, 9), (1160, 963));
}

/// A board of bright pixels on a dark screen, with boxes beside it.
fn game_screen() -> Screenshot {
    let mut img = blank(1000, 900);
    block(&mut img, 300, 100, 300, 600, (60, 60, 60));
    // A box left of the board and one right of it.
    block(&mut img, 100, 100, 60, 60, (0, 220, 220));
    block(&mut img, 700, 200, 60, 60, (220, 0, 0));
    // The cell in row 5, column 4.
    block(&mut img, 420, 250, 30, 30, (160, 0, 220));
    img
}

#[test]
fn finds_the_edges_of_the_board() {
    let edges = find_edges(&game_screen());
    assert_eq!(edges.left, Some(300));
    assert_eq!(edges.right, Some(600));
    assert_eq!(edges.top, Some(100));
    assert_eq!(edges.bottom, Some(700));
}

#[test]
fn finds_the_board() {
    let img = game_screen();
    assert!(can_find_board(&img));
    let report = find_board(&img);
    let geo = report.geometry.unwrap();
    assert_eq!((geo.left, geo.top, geo.right, geo.bottom), (300, 100, 600, 700));
    assert_eq!((geo.board_w, geo.board_h, geo.cell_w, geo.cell_h), (300, 600, 30, 30));
    assert_eq!(report.cells.len(), 15);
    assert_eq!(
        report.cells.iter().map(|c| (c.row, c.col)).collect::<Vec<_>>(),
        [0, 5, 10, 15, 19].iter().flat_map(|r| [(*r, 0), (*r, 4), (*r, 9)]).collect::<Vec<_>>()
    );
    assert_eq!((report.cells[0].x, report.cells[0].y), (315, 115));
    assert_eq!(report.cells[4].color, CellColor::T);
    assert_eq!(report.cells[14].color, CellColor::Empty);
}

#[test]
fn finds_the_preview_boxes() {
    let report = find_board(&game_screen());
    // Every 20 pixels from 50 on: columns 110, 130 and 150, rows 110, 130 and 150.
    assert_eq!(
        report.hold.iter().map(|h| (h.x, h.y)).collect::<Vec<_>>(),
        vec![
            (110, 110),
            (130, 110),
            (150, 110),
            (110, 130),
            (130, 130),
            (150, 130),
            (110, 150),
            (130, 150),
            (150, 150),
        ]
    );
    assert!(report.hold.iter().all(|h| h.color == CellColor::I && h.rgb == (0, 220, 220)));
    // Columns 700, 720 and 740, and rows from 200 to 250.
    assert_eq!(report.next.len(), 18);
    assert_eq!((report.next[0].x, report.next[0].y), (700, 200));
    assert_eq!((report.next[17].x, report.next[17].y), (740, 250));
    assert!(report.next.iter().all(|h| h.color == CellColor::Z));
}

#[test]
fn dark_screens_have_no_board() {
    let img = blank(50, 40);
    assert!(can_find_board(&img));
    let report = find_board(&img);
    assert!(report.edges.left.is_none() && report.edges.right.is_none());
    assert!(report.edges.top.is_none() && report.edges.bottom.is_none());
    assert!(report.geometry.is_none());
    assert!(report.cells.is_empty() && report.hold.is_empty() && report.next.is_empty());
    let nothing = blank(0, 0);
    assert!(can_find_board(&nothing));
    assert!(find_board(&nothing).geometry.is_none());
}

#[test]
fn low_screens_cannot_be_scanned_for_boxes() {
    let mut img = blank(400, 300);
    block(&mut img, 100, 100, 100, 100, (90, 90, 90));
    assert!(!can_find_board(&img));
    // Close enough to the left border no box is looked for.
    let mut img = blank(60, 300);
    block(&mut img, 10, 100, 45, 100, (90, 90, 90));
    assert!(can_find_board(&img));
    assert!(find_board(&img).hold.is_empty());
}

#[test]
fn a_fall_before_the_first_rise_is_no_right_edge() {
    let mut img = blank(60, 1);
    block(&mut img, 0, 0, 10, 1, (200, 200, 200));
    let edges = find_edges(&img);
    assert_eq!((edges.left, edges.right), (None, None));
    block(&mut img, 20, 0, 10, 1, (200, 200, 200));
    let edges = find_edges(&img);
    assert_eq!((edges.left, edges.right), (Some(20), Some(30)));
}
