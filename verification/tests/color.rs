use tetris_bot::color::{
    brightness, classify_color_slow, rgb_to_hsv, u8_to_cell_color, CellColor, GHOST_NOTE_VALUE,
    GHOST_VALUE, GRAY_SATURATION,
};
use tetris_bot::single::{round, ONE};

const ALL: [CellColor; 9] = [
    CellColor::Empty,
    CellColor::I,
    CellColor::O,
    CellColor::T,
    CellColor::S,
    CellColor::Z,
    CellColor::J,
    CellColor::L,
    CellColor::Garbage,
];

/// Hue, saturation and value in floating point.
fn float_hsv(r: u8, g: u8, b: u8) -> (f32, f32, f32) {
    let r = r as f32 / 255.0;
    let g = g as f32 / 255.0;
    let b = b as f32 / 255.0;
    let max = r.max(g).max(b);
    let min = r.min(g).min(b);
    let delta = max - min;
    let s = if max == 0.0 { 0.0 } else { delta / max };
    let h = if delta == 0.0 {
        0.0
    } else if max == r {
        60.0 * (((g - b) / delta) % 6.0)
    } else if max == g {
        60.0 * (((b - r) / delta) + 2.0)
    } else {
        60.0 * (((r - g) / delta) + 4.0)
    };
    (if h < 0.0 { h + 360.0 } else { h }, s, max)
}

/// The classification in floating point.
fn float_classify(r: u8, g: u8, b: u8) -> CellColor {
    let bright = (r as u16 + g as u16 + b as u16) / 3;
    if bright < 30 {
        return CellColor::Empty;
    }
    let (h, s, v) = float_hsv(r, g, b);
    if v < 0.35 {
        return CellColor::Empty;
    }
    if s < 0.22 {
        return if bright > 80 { CellColor::Garbage } else { CellColor::Empty };
    }
    match h as u32 {
        0..=15 | 345..=360 => CellColor::Z,
        16..=45 => CellColor::L,
        46..=75 => CellColor::O,
        76..=150 => CellColor::S,
        151..=195 => CellColor::I,
        196..=265 => CellColor::J,
        266..=344 => CellColor::T,
        _ => CellColor::Empty,
    }
}

fn units(x: f32) -> i128 {
    (x as f64 * 2147483648.0) as i128
}

fn check(r: u8, g: u8, b: u8) {
    let hsv = rgb_to_hsv(r, g, b);
    let (h, s, v) = float_hsv(r, g, b);
    assert_eq!((hsv.h, hsv.s, hsv.v), (units(h), units(s), units(v)), "hsv of {r},{g},{b}");
    assert_eq!(classify_color_slow(r, g, b), float_classify(r, g, b), "class of {r},{g},{b}");
}

#[test]
fn thresholds_are_single_precision() {
    assert_eq!(GHOST_VALUE, units(0.35));
    assert_eq!(GRAY_SATURATION, units(0.22));
    assert_eq!(GHOST_NOTE_VALUE, units(0.15));
    assert_eq!(ONE, units(1.0));
}

#[test]
fn matches_floating_point_in_the_middle_of_every_bucket() {
    for r in 0..64u32 {
        for g in 0..64u32 {
            for b in 0..64u32 {
                check((r * 4 + 2) as u8, (g * 4 + 2) as u8, (b * 4 + 2) as u8);
            }
        }
    }
}

#[test]
fn matches_floating_point_across_the_colour_cube() {
    for r in (0..256u32).step_by(5) {
        for g in (0..256u32).step_by(3) {
            for b in (0..256u32).step_by(5) {
                check(r as u8, g as u8, b as u8);
            }
        }
    }
}

#[test]
fn matches_floating_point_on_the_faces_of_the_colour_cube() {
    for x in 0..256u32 {
        for y in 0..256u32 {
            let (x, y) = (x as u8, y as u8);
            check(255, x, y);
            check(x, 255, y);
            check(x, y, 255);
            check(0, x, y);
            check(x, 0, y);
            check(x, y, 0);
        }
    }
}

#[test]
fn rounding_is_to_24_bits_with_ties_to_even() {
    assert_eq!(round(5, 2), 2);
    assert_eq!(round(7, 2), 4);
    assert_eq!(round(-5, 2), -2);
    assert_eq!(round(0x100_0001, 1), 0x100_0000);
    assert_eq!(round(0x100_0003, 1), 0x100_0004);
    assert_eq!(round(0x200_0003, 1), 0x200_0004);
    assert_eq!(round(0, 7), 0);
    for n in 0..200i128 {
        let x = 0x1234_5678_9abi128 + n * 0x1_0101;
        assert_eq!(round(x, 1), (x as f32) as i128);
        assert_eq!(round(-x, 1), -((x as f32) as i128));
    }
}

#[test]
fn rounding_keeps_the_order() {
    let mut last = 0;
    for n in 0..5000i128 {
        let r = round(n * 0x10_0001, 3);
        assert!(r >= last);
        last = r;
    }
}

#[test]
fn colours_of_the_default_skin() {
    assert_eq!(classify_color_slow(220, 0, 0), CellColor::Z);
    assert_eq!(classify_color_slow(220, 130, 0), CellColor::L);
    assert_eq!(classify_color_slow(220, 220, 0), CellColor::O);
    assert_eq!(classify_color_slow(0, 220, 0), CellColor::S);
    assert_eq!(classify_color_slow(0, 220, 220), CellColor::I);
    assert_eq!(classify_color_slow(0, 0, 220), CellColor::J);
    assert_eq!(classify_color_slow(160, 0, 220), CellColor::T);
    assert_eq!(classify_color_slow(255, 0, 20), CellColor::Z);
}

#[test]
fn dark_dim_and_gray_pixels() {
    // Too dark.
    assert_eq!(classify_color_slow(0, 0, 0), CellColor::Empty);
    assert_eq!(classify_color_slow(89, 0, 0), CellColor::Empty);
    // Bright enough on average but within the ghost range.
    assert_eq!(classify_color_slow(89, 89, 0), CellColor::Empty);
    assert_eq!(classify_color_slow(90, 90, 0), CellColor::O);
    // Gray: garbage only if bright.
    assert_eq!(classify_color_slow(80, 80, 80), CellColor::Empty);
    assert_eq!(classify_color_slow(92, 80, 76), CellColor::Garbage);
    assert_eq!(classify_color_slow(95, 78, 76), CellColor::Garbage);
    assert_eq!(classify_color_slow(90, 76, 76), CellColor::Empty);
    assert_eq!(classify_color_slow(255, 255, 255), CellColor::Garbage);
}

#[test]
fn ghost_pixels_are_never_filled() {
    for r in (0..90u32).step_by(7) {
        for g in (0..90u32).step_by(7) {
            for b in (0..90u32).step_by(7) {
                let (r, g, b) = (r as u8, g as u8, b as u8);
                if rgb_to_hsv(r, g, b).v < GHOST_VALUE {
                    assert_eq!(classify_color_slow(r, g, b), CellColor::Empty);
                }
            }
        }
    }
}

#[test]
fn bright_saturated_pixels_are_pieces_and_hues_are_angles() {
    for r in (0..256u32).step_by(9) {
        for g in (0..256u32).step_by(9) {
            for b in (0..256u32).step_by(9) {
                let (r, g, b) = (r as u8, g as u8, b as u8);
                let hsv = rgb_to_hsv(r, g, b);
                assert!(0 <= hsv.h && hsv.h <= 360 * ONE);
                if brightness(r, g, b) >= 30 && hsv.v >= GHOST_VALUE && hsv.s >= GRAY_SATURATION {
                    let c = classify_color_slow(r, g, b);
                    assert!(c != CellColor::Empty && c != CellColor::Garbage);
                }
            }
        }
    }
}

#[test]
fn colours_and_positions_correspond() {
    for (i, c) in ALL.iter().enumerate() {
        assert_eq!(c.index() as usize, i);
        assert_eq!(u8_to_cell_color(i as u8), *c);
    }
    assert_eq!(u8_to_cell_color(9), CellColor::Empty);
    assert_eq!(u8_to_cell_color(255), CellColor::Empty);
}

#[test]
fn brightness_is_the_mean_rounded_down() {
    assert_eq!(brightness(1, 1, 0), 0);
    assert_eq!(brightness(10, 20, 31), 20);
    assert_eq!(brightness(255, 255, 255), 255);
}
