use tetris_bot::calibrate::{
    bgra_to_rgba, can_sample_pixel, classify_piece, is_grid_readable, is_row_scannable, read_grid,
    sample_cell_votes, sample_pixel, scan_row,
};
use tetris_bot::color::{rgb_to_hsv, CellColor};
use tetris_bot::inspect::{Edge, GridMark};

const W: u32 = 240;
const H: u32 = 440;

fn blank() -> Vec<u8> {
    vec![0; (W * H * 4) as usize]
}

fn dot(pixels: &mut [u8], x: u32, y: u32, c: (u8, u8, u8)) {
    let at = ((y * W + x) * 4) as usize;
    pixels[at] = c.2;
    pixels[at + 1] = c.1;
    pixels[at + 2] = c.0;
}

#[test]
fn letters_agree_with_the_other_tool() {
    for r in (0..256u32).step_by(15) {
        for g in (0..256u32).step_by(15) {
            for b in (0..256u32).step_by(15) {
                let (r, g, b) = (r as u8, g as u8, b as u8);
                assert_eq!(classify_piece(r, g, b), tetris_bot::analyze::classify(r, g, b));
            }
        }
    }
    assert_eq!(classify_piece(0, 0, 220), "J");
}

#[test]
fn screens_are_converted_for_image_files() {
    let pixels = vec![1, 2, 3, 4, 5, 6, 7, 8, 99];
    assert_eq!(bgra_to_rgba(&pixels, 2, 1), vec![3, 2, 1, 4, 7, 6, 5, 8]);
    assert_eq!(bgra_to_rgba(&pixels, 0, 7), vec![]);
    let once = bgra_to_rgba(&pixels, 1, 2);
    assert_eq!(bgra_to_rgba(&once, 1, 2), pixels[..8].to_vec());
}

#[test]
fn a_sampled_pixel_of_the_screen() {
    let mut pixels = blank();
    dot(&mut pixels, 50, 60, (220, 130, 0));
    dot(&mut pixels, 49, 59, (1, 2, 3));
    dot(&mut pixels, 51, 60, (4, 5, 6));
    assert!(can_sample_pixel(&pixels, W, 50, 60));
    let report = sample_pixel(&pixels, W, 50, 60).unwrap();
    assert_eq!(report.rgb, (220, 130, 0));
    assert_eq!(report.hsv, rgb_to_hsv(220, 130, 0));
    assert_eq!(report.color, CellColor::L);
    assert!(!report.is_ghost);
    assert_eq!(report.around.len(), 9);
    assert_eq!(report.around[0], Some((1, 2, 3)));
    assert_eq!(report.around[4], Some((220, 130, 0)));
    assert_eq!(report.around[5], Some((4, 5, 6)));
}

#[test]
fn pixels_past_the_end_are_missing() {
    let pixels = blank();
    assert!(sample_pixel(&pixels, W, 0, H).is_none());
    assert!(can_sample_pixel(&pixels, W, 0, H));
    // At the bottom the surroundings are cut off.
    let report = sample_pixel(&pixels, W, 100, H - 1).unwrap();
    assert_eq!(report.around.iter().filter(|p| p.is_none()).count(), 3);
    assert!(report.around[8].is_none());
    // No surroundings left of or above the first pixel.
    assert!(!can_sample_pixel(&pixels, W, 0, 0));
    assert!(!can_sample_pixel(&pixels, u32::MAX, 0, u32::MAX));
}

#[test]
fn votes_of_a_cell() {
    let mut pixels = blank();
    assert_eq!(sample_cell_votes(&pixels, W, 50, 50, 5), (".", 5));
    dot(&mut pixels, 50, 50, (220, 0, 0));
    assert_eq!(sample_cell_votes(&pixels, W, 50, 50, 5), ("Z?", 1));
    dot(&mut pixels, 45, 50, (220, 0, 0));
    dot(&mut pixels, 55, 50, (0, 220, 220));
    assert_eq!(sample_cell_votes(&pixels, W, 50, 50, 5), ("Z?", 2));
    dot(&mut pixels, 50, 55, (220, 0, 0));
    assert_eq!(sample_cell_votes(&pixels, W, 50, 50, 5), ("Z", 3));
    // Samples past the end do not count.
    assert_eq!(sample_cell_votes(&pixels, W, 50, H + 50, 5), (".", 0));
    // Samples off the left border are taken at the border.
    for y in [30, 25, 35] {
        dot(&mut pixels, 0, y, (0, 0, 220));
    }
    assert_eq!(sample_cell_votes(&pixels, W, 0, 30, 5), ("J", 4));
}

#[test]
fn the_grid_of_a_screen() {
    let mut pixels = blank();
    for y in 20..40 {
        for x in 20..40 {
            dot(&mut pixels, x, y, (0, 220, 0));
        }
    }
    dot(&mut pixels, 50, 30, (220, 220, 0));
    assert!(is_grid_readable(W, 20, 20, 20));
    let grid = read_grid(&pixels, W, 20, 20, 20);
    assert_eq!(grid[0][0], GridMark::Color(CellColor::S));
    assert_eq!(grid[0][1], GridMark::Uncertain);
    assert_eq!(grid[5][5], GridMark::Color(CellColor::Empty));
    // Cells past the end have no samples at all.
    assert_eq!(read_grid(&pixels, W, 20, H, 20)[3][3], GridMark::Color(CellColor::Empty));
}

#[test]
fn grids_that_cannot_be_located_are_recognised() {
    assert!(!is_grid_readable(W, 0, 0, u32::MAX));
    assert!(!is_grid_readable(u32::MAX, 0, 0, 20));
    assert!(!is_grid_readable(W, 0x7fff_fffd, 0, 4));
}

#[test]
fn rows_are_scanned_for_edges() {
    let mut pixels = blank();
    for x in 100..110 {
        dot(&mut pixels, x, 7, (60, 60, 33));
    }
    dot(&mut pixels, 150, 7, (30, 30, 30));
    assert!(is_row_scannable(&pixels, W, 7, 0, W));
    assert_eq!(
        scan_row(&pixels, W, 7, 0, W),
        vec![
            Edge { pos: 100, from: 0, to: 51, diff: 51, rgb: (60, 60, 33) },
            Edge { pos: 110, from: 51, to: 0, diff: 51, rgb: (0, 0, 0) },
        ]
    );
    assert_eq!(scan_row(&pixels, W, 7, 100, 110), vec![]);
    assert_eq!(scan_row(&pixels, W, 7, 50, 20), vec![]);
}

#[test]
fn scans_end_with_the_buffer() {
    let mut pixels = blank();
    dot(&mut pixels, 200, H - 1, (200, 200, 200));
    assert_eq!(scan_row(&pixels, W, H - 1, 0, 5000).len(), 2);
    assert_eq!(scan_row(&pixels, W, H, 0, W), vec![]);
    assert!(is_row_scannable(&pixels, W, H, 0, u32::MAX));
    assert!(!is_row_scannable(&pixels, u32::MAX, u32::MAX, 0, 5));
}
