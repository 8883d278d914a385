use tetris_bot::ai::{AiSuggestion, OverlayPlacement};
use tetris_bot::bot::BotState;
use tetris_bot::color::CellColor;
use tetris_bot::overlay::{
    board_place, draw_ghost_cells, fits_window, ghost_pixel, hold_opacity, outline_pixel,
    overlay_window, piece_tint, premultiply, render, BoardPlace,
};

const W: usize = 80;
const H: usize = 130;

fn place() -> BoardPlace {
    BoardPlace { x: 10, y: 5, cell: 6 }
}

fn at(x: usize, y: usize) -> usize {
    y * W + x
}

fn running(direct: OverlayPlacement, hold_option: Option<OverlayPlacement>) -> BotState {
    let mut bot = BotState::new();
    bot.enabled = true;
    bot.current_suggestion = Some(AiSuggestion { direct, hold_option });
    bot
}

fn placement(cells: [(i32, i32); 4], piece_color: CellColor) -> OverlayPlacement {
    OverlayPlacement { cells, piece_color }
}

#[test]
fn channels_are_multiplied_by_the_opacity() {
    assert_eq!(premultiply(255, 128, 0, 255), 0xffff_8000);
    assert_eq!(premultiply(255, 128, 10, 128), 0x8080_4005);
    assert_eq!(premultiply(255, 255, 255, 0), 0);
    for a in (0..=255u32).step_by(5) {
        for c in (0..=255u32).step_by(5) {
            let p = premultiply(c as u8, 255 - c as u8, c as u8, a as u8);
            assert_eq!(p >> 24, a);
            assert_eq!((p >> 16) & 255, c * a / 255);
            assert_eq!((p >> 8) & 255, (255 - c) * a / 255);
            assert_eq!(p & 255, c * a / 255);
            assert!((p >> 16) & 255 <= a && (p >> 8) & 255 <= a && p & 255 <= a);
        }
    }
}

#[test]
fn tints_of_the_pieces() {
    assert_eq!(piece_tint(CellColor::I), (0, 220, 220));
    assert_eq!(piece_tint(CellColor::O), (220, 220, 0));
    assert_eq!(piece_tint(CellColor::T), (160, 0, 220));
    assert_eq!(piece_tint(CellColor::S), (0, 220, 0));
    assert_eq!(piece_tint(CellColor::Z), (220, 0, 0));
    assert_eq!(piece_tint(CellColor::J), (0, 0, 220));
    assert_eq!(piece_tint(CellColor::L), (220, 130, 0));
    assert_eq!(piece_tint(CellColor::Garbage), (180, 180, 180));
    assert_eq!(piece_tint(CellColor::Empty), (180, 180, 180));
}

#[test]
fn ghosts_and_outlines() {
    assert_eq!(ghost_pixel(CellColor::Z, 120), 0x7867_0000);
    assert_eq!(outline_pixel(CellColor::Z, 120), 0xc8ac_0000);
    assert_eq!(outline_pixel(CellColor::Z, 176), ghost_pixel(CellColor::Z, 255));
    assert_eq!(outline_pixel(CellColor::Z, 255), ghost_pixel(CellColor::Z, 255));
    assert_eq!(outline_pixel(CellColor::Z, 175), ghost_pixel(CellColor::Z, 255));
    assert_eq!(outline_pixel(CellColor::Z, 0), ghost_pixel(CellColor::Z, 80));
}

#[test]
fn the_hold_ghost_is_dimmer() {
    assert_eq!(hold_opacity(120), 80);
    assert_eq!(hold_opacity(255), 215);
    assert_eq!(hold_opacity(81), 41);
    assert_eq!(hold_opacity(80), 40);
    assert_eq!(hold_opacity(41), 40);
    assert_eq!(hold_opacity(40), 39);
    assert_eq!(hold_opacity(1), 0);
    // Nothing is dimmer than an invisible ghost.
    assert_eq!(hold_opacity(0), 40);
    for opacity in 1..=255u8 {
        assert!(hold_opacity(opacity) < opacity);
    }
}

#[test]
fn a_cell_has_an_outline_two_pixels_wide() {
    let mut pixels = vec![7u32; W * H];
    let pl = placement([(0, 0), (-1, 0), (10, 3), (2, 20)], CellColor::S);
    draw_ghost_cells(&mut pixels, W, H, &pl, place(), 100);
    let fill = ghost_pixel(CellColor::S, 100);
    let outline = outline_pixel(CellColor::S, 100);
    for y in 0..H {
        for x in 0..W {
            let inside = (10..16).contains(&x) && (5..11).contains(&y);
            let core = (12..14).contains(&x) && (7..9).contains(&y);
            let expected = if core {
                fill
            } else if inside {
                outline
            } else {
                7
            };
            assert_eq!(pixels[at(x, y)], expected, "pixel {x},{y}");
        }
    }
}

#[test]
fn cells_are_cut_off_at_the_border_of_the_bitmap() {
    let (w, h) = (20usize, 12usize);
    let mut pixels = vec![0u32; w * h];
    let pl = placement([(1, 1), (9, 19), (9, 19), (9, 19)], CellColor::J);
    draw_ghost_cells(&mut pixels, w, h, &pl, place(), 200);
    assert_eq!(pixels.iter().filter(|&&p| p != 0).count(), 4);
    assert_eq!(pixels[11 * w + 16], outline_pixel(CellColor::J, 200));
    assert_eq!(pixels[10 * w + 16], 0);
}

#[test]
fn both_ghosts_are_drawn() {
    let direct = placement([(0, 0), (1, 0), (2, 0), (3, 0)], CellColor::I);
    let hold = placement([(3, 0), (4, 0), (5, 0), (6, 0)], CellColor::T);
    let mut pixels = vec![9u32; W * H];
    render(&mut pixels, W, H, &running(direct, Some(hold)), place(), 120);
    // The centres of cells 0, 3 and 6: the hold ghost lies on top.
    assert_eq!(pixels[at(13, 8)], ghost_pixel(CellColor::I, 120));
    assert_eq!(pixels[at(31, 8)], ghost_pixel(CellColor::T, 80));
    assert_eq!(pixels[at(49, 8)], ghost_pixel(CellColor::T, 80));
    assert_eq!(pixels[at(55, 8)], 0);
    assert_eq!(pixels[at(5, 8)], 0);
}

#[test]
fn an_idle_bot_draws_nothing() {
    let direct = placement([(0, 0), (1, 0), (2, 0), (3, 0)], CellColor::I);
    let mut bot = running(direct, None);
    bot.paused = true;
    let mut pixels = vec![9u32; W * H];
    render(&mut pixels, W, H, &bot, place(), 120);
    assert!(pixels.iter().all(|&p| p == 0));
    bot.paused = false;
    bot.enabled = false;
    pixels.fill(9);
    render(&mut pixels, W, H, &bot, place(), 120);
    assert!(pixels.iter().all(|&p| p == 0));
    bot.enabled = true;
    bot.current_suggestion = None;
    pixels.fill(9);
    render(&mut pixels, W, H, &bot, place(), 120);
    assert!(pixels.iter().all(|&p| p == 0));
}

#[test]
fn nothing_is_drawn_outside_of_the_board() {
    let direct = placement([(0, 0), (9, 0), (0, 19), (9, 19)], CellColor::O);
    let mut pixels = vec![0u32; W * H];
    render(&mut pixels, W, H, &running(direct, None), place(), 255);
    for y in 0..H {
        for x in 0..W {
            if x < 10 || y < 5 || x >= 70 || y >= 125 {
                assert_eq!(pixels[at(x, y)], 0);
            }
        }
    }
    assert!(pixels[at(69, 124)] != 0 && pixels[at(10, 5)] != 0);
}

#[test]
fn the_window_covers_the_board_and_its_margins() {
    let window = overlay_window(733, 86, 45);
    assert_eq!((window.x, window.y, window.w, window.h), (613, 76, 580, 920));
    let corner = overlay_window(50, 3, 10);
    assert_eq!((corner.x, corner.y, corner.w, corner.h), (0, 0, 230, 220));
    let place = board_place(733, 86, 45, &window);
    assert_eq!((place.x, place.y, place.cell), (120, 10, 45));
    let place = board_place(50, 3, 10, &corner);
    assert_eq!((place.x, place.y, place.cell), (50, 3, 10));
}

#[test]
fn ghosts_lie_on_the_playfield_next_to_the_border_of_the_screen() {
    let window = overlay_window(50, 86, 45);
    assert_eq!((window.x, window.y), (0, 76));
    let place = board_place(50, 86, 45, &window);
    let (w, h) = (window.w as usize, window.h as usize);
    let mut pixels = vec![0u32; w * h];
    let bot = running(placement([(0, 0), (0, 0), (0, 0), (0, 0)], CellColor::T), None);
    render(&mut pixels, w, h, &bot, place, 120);
    for y in 0..h {
        for x in 0..w {
            let (sx, sy) = (x as i32 + window.x, y as i32 + window.y);
            let on_cell = (50..95).contains(&sx) && (86..131).contains(&sy);
            assert_eq!(pixels[y * w + x] != 0, on_cell, "screen pixel {sx},{sy}");
        }
    }
}

#[test]
fn a_faint_hold_ghost_is_fainter_than_the_direct_one() {
    let direct = placement([(0, 0), (0, 0), (0, 0), (0, 0)], CellColor::I);
    let hold = placement([(5, 5), (5, 5), (5, 5), (5, 5)], CellColor::T);
    let mut pixels = vec![0u32; W * H];
    for opacity in [1u8, 20, 40] {
        render(&mut pixels, W, H, &running(direct, Some(hold)), place(), opacity);
        assert_eq!(pixels[at(13, 8)] >> 24, opacity as u32);
        assert!(pixels[at(43, 38)] >> 24 < opacity as u32);
    }
}

#[test]
fn boards_that_no_window_can_hold_are_recognised() {
    assert!(fits_window(45));
    assert!(fits_window(107_374_181));
    assert!(!fits_window(107_374_182));
    assert!(!fits_window(u32::MAX));
}
