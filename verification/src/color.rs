//! Cell colours and the hue-based classifier that assigns them to pixels.
use crate::single::{gap, is_single, lemma_rounded_within, nearest, round, rounded, ONE};
use vstd::prelude::*;

verus! {

/// The seven standard pieces, an empty cell and a garbage cell.
#[derive(Debug, Clone, Copy, PartialEq, Eq, Hash, Structural)]
pub enum CellColor {
    Empty,
    I,
    O,
    T,
    S,
    Z,
    J,
    L,
    Garbage,
}

impl CellColor {
    /// The position of the colour in the vote tables.
    pub open spec fn spec_index(self) -> int {
        match self {
            CellColor::Empty => 0,
            CellColor::I => 1,
            CellColor::O => 2,
            CellColor::T => 3,
            CellColor::S => 4,
            CellColor::Z => 5,
            CellColor::J => 6,
            CellColor::L => 7,
            CellColor::Garbage => 8,
        }
    }

    /// Whether the colour is that of one of the seven pieces.
    pub open spec fn is_piece(self) -> bool {
        self != CellColor::Empty && self != CellColor::Garbage
    }

    /// The position of the colour in the vote tables.
    pub fn index(self) -> (i: u8)
        ensures
            i == self.spec_index(),
            i < 9,
    {
        match self {
            CellColor::Empty => 0,
            CellColor::I => 1,
            CellColor::O => 2,
            CellColor::T => 3,
            CellColor::S => 4,
            CellColor::Z => 5,
            CellColor::J => 6,
            CellColor::L => 7,
            CellColor::Garbage => 8,
        }
    }
}

/// The colour at a position of the vote tables; `Empty` past their end.
pub open spec fn color_at(i: int) -> CellColor {
    if i == 1 {
        CellColor::I
    } else if i == 2 {
        CellColor::O
    } else if i == 3 {
        CellColor::T
    } else if i == 4 {
        CellColor::S
    } else if i == 5 {
        CellColor::Z
    } else if i == 6 {
        CellColor::J
    } else if i == 7 {
        CellColor::L
    } else if i == 8 {
        CellColor::Garbage
    } else {
        CellColor::Empty
    }
}

/// The colour at a position of the vote tables; `Empty` past their end.
pub fn u8_to_cell_color(i: u8) -> (c: CellColor)
    ensures
        c == color_at(i as int),
{
    match i {
        1 => CellColor::I,
        2 => CellColor::O,
        3 => CellColor::T,
        4 => CellColor::S,
        5 => CellColor::Z,
        6 => CellColor::J,
        7 => CellColor::L,
        8 => CellColor::Garbage,
        _ => CellColor::Empty,
    }
}

/// Looking a colour up by its own position gives the colour back, and every
/// position of the vote tables belongs to exactly one colour.
pub proof fn law_index_round_trip(c: CellColor, i: int)
    ensures
        color_at(c.spec_index()) == c,
        0 <= c.spec_index() < 9,
        0 <= i < 9 ==> color_at(i).spec_index() == i,
{
}

// ---- hue, saturation and value ----

/// The value below which a pixel belongs to the ghost overlay: 0.35 in single
/// precision, in units of `2^-31`.
pub const GHOST_VALUE: i128 = 751619264;

/// The saturation below which a pixel counts as gray: 0.22 in single
/// precision, in units of `2^-31`.
pub const GRAY_SATURATION: i128 = 472446400;

/// The value from which the inspection tools point out the ghost overlay: 0.15
/// in single precision, in units of `2^-31`.
pub const GHOST_NOTE_VALUE: i128 = 322122560;

/// Hue in degrees, saturation and value, each in single precision and in units
/// of `2^-31`.
#[derive(Debug, Clone, Copy, PartialEq, Eq, Structural)]
pub struct Hsv {
    pub h: i128,
    pub s: i128,
    pub v: i128,
}

/// A colour channel scaled to the range from zero to one.
pub open spec fn channel(c: u8) -> int {
    rounded(c * ONE, 255)
}

pub open spec fn larger(a: int, b: int) -> int {
    if a >= b {
        a
    } else {
        b
    }
}

pub open spec fn smaller(a: int, b: int) -> int {
    if a <= b {
        a
    } else {
        b
    }
}

/// The difference of two numbers in single precision.
pub open spec fn difference(a: int, b: int) -> int {
    rounded(a - b, 1)
}

/// The quotient of two numbers in single precision.
pub open spec fn ratio(a: int, b: int) -> int {
    rounded(a * ONE, b)
}

/// The largest channel of a colour.
pub open spec fn value(r: u8, g: u8, b: u8) -> int {
    larger(larger(channel(r), channel(g)), channel(b))
}

/// The distance between the largest and the smallest channel of a colour.
pub open spec fn chroma(r: u8, g: u8, b: u8) -> int {
    difference(value(r, g, b), smaller(smaller(channel(r), channel(g)), channel(b)))
}

/// The chroma of a colour relative to its value.
pub open spec fn saturation(r: u8, g: u8, b: u8) -> int {
    if value(r, g, b) == 0 {
        0
    } else {
        ratio(chroma(r, g, b), value(r, g, b))
    }
}

/// The angle of a colour on the colour wheel before it is brought to the range
/// from 0 to 360 degrees: the sector of the largest channel, shifted by the
/// difference of the other two.
pub open spec fn raw_hue(r: u8, g: u8, b: u8) -> int {
    let d = chroma(r, g, b);
    let max = value(r, g, b);
    if d == 0 {
        0
    } else if max == channel(r) {
        rounded(60 * ratio(difference(channel(g), channel(b)), d), 1)
    } else if max == channel(g) {
        rounded(60 * rounded(ratio(difference(channel(b), channel(r)), d) + 2 * ONE, 1), 1)
    } else {
        rounded(60 * rounded(ratio(difference(channel(r), channel(g)), d) + 4 * ONE, 1), 1)
    }
}

/// The angle of a colour on the colour wheel, in degrees.
pub open spec fn hue(r: u8, g: u8, b: u8) -> int {
    if raw_hue(r, g, b) < 0 {
        rounded(raw_hue(r, g, b) + 360 * ONE, 1)
    } else {
        raw_hue(r, g, b)
    }
}

fn scaled_channel(c: u8) -> (x: i128)
    ensures
        x == channel(c),
        0 <= x <= 0x100_0000_0000,
{
    round(c as i128 * ONE, 255)
}

fn quotient(a: i128, b: i128) -> (q: i128)
    requires
        0 < b,
        -0x1000_0000_0000 <= a <= 0x1000_0000_0000,
    ensures
        q == ratio(a as int, b as int),
        -0x1_0000_0000_0000_0000_0000 <= q <= 0x1_0000_0000_0000_0000_0000,
{
    round(a * ONE, b)
}

/// Hue, saturation and value of a colour.
pub fn rgb_to_hsv(r: u8, g: u8, b: u8) -> (hsv: Hsv)
    ensures
        hsv.h == hue(r, g, b),
        hsv.s == saturation(r, g, b),
        hsv.v == value(r, g, b),
{
    let rf = scaled_channel(r);
    let gf = scaled_channel(g);
    let bf = scaled_channel(b);

    let rg_max = if rf >= gf { rf } else { gf };
    let max = if rg_max >= bf { rg_max } else { bf };
    let rg_min = if rf <= gf { rf } else { gf };
    let min = if rg_min <= bf { rg_min } else { bf };
    let delta = round(max - min, 1);

    let s = if max == 0 { 0 } else { quotient(delta, max) };

    let h = if delta == 0 {
        0
    } else if max == rf {
        round(60 * quotient(round(gf - bf, 1), delta), 1)
    } else if max == gf {
        round(60 * round(quotient(round(bf - rf, 1), delta) + 2 * ONE, 1), 1)
    } else {
        round(60 * round(quotient(round(rf - gf, 1), delta) + 4 * ONE, 1), 1)
    };

    let h = if h < 0 { round(h + 360 * ONE, 1) } else { h };
    Hsv { h, s, v: max }
}

// ---- classification ----

/// The mean of the three channels, rounded down.
pub open spec fn spec_brightness(r: u8, g: u8, b: u8) -> int {
    (r + g + b) / 3
}

/// The mean of the three channels, rounded down.
pub fn brightness(r: u8, g: u8, b: u8) -> (m: u16)
    ensures
        m == spec_brightness(r, g, b),
        m <= 255,
{
    (r as u16 + g as u16 + b as u16) / 3
}

/// The whole degrees of an angle; angles outside the range of `u32` take its
/// nearest end.
pub open spec fn whole_degrees(h: int) -> int {
    if h < 0 {
        0
    } else if h / (ONE as int) > u32::MAX {
        u32::MAX as int
    } else {
        h / (ONE as int)
    }
}

fn truncate_degrees(h: i128) -> (d: u32)
    ensures
        d == whole_degrees(h as int),
{
    if h < 0 {
        0
    } else {
        let whole = h / ONE;
        if whole > 0xffff_ffff {
            0xffff_ffff
        } else {
            whole as u32
        }
    }
}

/// The piece whose hue range holds the given whole degrees.
pub open spec fn hue_color(degrees: int) -> CellColor {
    if 0 <= degrees <= 15 || 345 <= degrees <= 360 {
        CellColor::Z
    } else if 16 <= degrees <= 45 {
        CellColor::L
    } else if 46 <= degrees <= 75 {
        CellColor::O
    } else if 76 <= degrees <= 150 {
        CellColor::S
    } else if 151 <= degrees <= 195 {
        CellColor::I
    } else if 196 <= degrees <= 265 {
        CellColor::J
    } else if 266 <= degrees <= 344 {
        CellColor::T
    } else {
        CellColor::Empty
    }
}

/// The classification of a pixel: dark and ghost pixels are empty, gray ones
/// are garbage if they are bright, and all others go by their hue.
#[verifier::opaque]
pub open spec fn classified(r: u8, g: u8, b: u8) -> CellColor {
    if spec_brightness(r, g, b) < 30 || value(r, g, b) < GHOST_VALUE {
        CellColor::Empty
    } else if saturation(r, g, b) < GRAY_SATURATION {
        if spec_brightness(r, g, b) > 80 {
            CellColor::Garbage
        } else {
            CellColor::Empty
        }
    } else {
        hue_color(whole_degrees(hue(r, g, b)))
    }
}

/// Classifies a pixel by hue, saturation and value.
pub fn classify_color_slow(r: u8, g: u8, b: u8) -> (c: CellColor)
    ensures
        c == classified(r, g, b),
{
    proof {
        reveal(classified);
    }
    let bright = brightness(r, g, b);
    if bright < 30 {
        return CellColor::Empty;
    }
    let hsv = rgb_to_hsv(r, g, b);

    if hsv.v < GHOST_VALUE {
        return CellColor::Empty;
    }
    if hsv.s < GRAY_SATURATION {
        return if bright > 80 {
            CellColor::Garbage
        } else {
            CellColor::Empty
        };
    }
    let degrees = truncate_degrees(hsv.h);
    if degrees <= 15 || (345 <= degrees && degrees <= 360) {
        CellColor::Z
    } else if degrees <= 45 {
        CellColor::L
    } else if degrees <= 75 {
        CellColor::O
    } else if degrees <= 150 {
        CellColor::S
    } else if degrees <= 195 {
        CellColor::I
    } else if degrees <= 265 {
        CellColor::J
    } else if degrees <= 344 {
        CellColor::T
    } else {
        CellColor::Empty
    }
}

/// Dim pixels never count as filled: the ghost overlay leaves no cell behind.
pub proof fn law_ghost_pixels_are_empty(r: u8, g: u8, b: u8)
    requires
        value(r, g, b) < GHOST_VALUE,
    ensures
        classified(r, g, b) == CellColor::Empty,
{
    reveal(classified);
}

/// The hue of a colour is an angle between 0 and 360 degrees.
pub proof fn law_hue_is_an_angle(r: u8, g: u8, b: u8)
    ensures
        0 <= hue(r, g, b) <= 360 * ONE,
{
    let (rf, gf, bf) = (channel(r), channel(g), channel(b));
    let max = value(r, g, b);
    let min = smaller(smaller(rf, gf), bf);
    let d = chroma(r, g, b);
    let one = ONE as int;
    reveal_with_fuel(is_single, 20);
    crate::single::law_rounding_is_monotone(0, (max - min) as nat, 1);
    if d != 0 {
        if max == rf {
            lemma_slope(gf, bf, max - min);
            let q = ratio(difference(gf, bf), d);
            lemma_rounded_within(60 * q, 1, (60 * one) as nat);
            if raw_hue(r, g, b) < 0 {
                lemma_rounded_within(raw_hue(r, g, b) + 360 * one, 1, (360 * one) as nat);
            }
        } else if max == gf {
            lemma_slope(bf, rf, max - min);
            let q = ratio(difference(bf, rf), d) + 2 * one;
            lemma_rounded_within(q, 1, (3 * one) as nat);
            lemma_rounded_within(60 * rounded(q, 1), 1, (180 * one) as nat);
        } else {
            lemma_slope(rf, gf, max - min);
            let q = ratio(difference(rf, gf), d) + 4 * one;
            lemma_rounded_within(q, 1, (5 * one) as nat);
            lemma_rounded_within(60 * rounded(q, 1), 1, (300 * one) as nat);
        }
    }
}

/// The difference of two channels relative to the chroma lies between minus one
/// and one.
proof fn lemma_slope(a: int, b: int, spread: int)
    requires
        -spread <= a - b <= spread,
        difference(spread, 0) != 0,
    ensures
        -ONE <= ratio(difference(a, b), difference(spread, 0)) <= ONE,
{
    let d = difference(spread, 0);
    let x = difference(a, b);
    let one = ONE as int;
    reveal_with_fuel(is_single, 10);
    crate::single::law_rounding_is_monotone(gap(a - b, 0) as nat, spread as nat, 1);
    assert(-(one * d) <= x * one <= one * d) by (nonlinear_arith)
        requires
            -d <= x <= d,
            one > 0,
    ;
    lemma_rounded_within(x * one, d, one as nat);
}

/// Every pixel that is bright and saturated enough is classified as a piece.
pub proof fn law_saturated_pixels_are_pieces(r: u8, g: u8, b: u8)
    requires
        spec_brightness(r, g, b) >= 30,
        value(r, g, b) >= GHOST_VALUE,
        saturation(r, g, b) >= GRAY_SATURATION,
    ensures
        classified(r, g, b).is_piece(),
{
    reveal(classified);
    law_hue_is_an_angle(r, g, b);
}

// ---- what the classifier tells ----

/// A single-precision number rounds to itself.
proof fn lemma_exact(x: nat, den: nat)
    requires
        den > 0,
        is_single(x),
    ensures
        nearest(x * den, den) == x,
{
    let top = x * den;
    crate::single::law_rounding_is_nearest(top, den, x);
    assert(nearest(top, den) == x) by (nonlinear_arith)
        requires
            nearest(top, den) * den == x * den,
            den > 0,
    ;
}

/// Rounding keeps the order of numbers of either sign.
proof fn lemma_rounded_monotone(a: int, b: int, den: int)
    requires
        den > 0,
        a <= b,
    ensures
        rounded(a, den) <= rounded(b, den),
{
    if a >= 0 {
        crate::single::law_rounding_is_monotone(a as nat, b as nat, den as nat);
    } else if b < 0 {
        crate::single::law_rounding_is_monotone((-b) as nat, (-a) as nat, den as nat);
    }
}

/// 256 times a number that needs no rounding needs none either.
proof fn lemma_multiple_is_single(k: nat)
    requires
        is_single(k),
    ensures
        is_single(256 * k),
{
    assert(is_single(2 * k)) by {
        assert((2 * k) / 2 == k);
    }
    assert(is_single(4 * k)) by {
        assert((4 * k) / 2 == 2 * k);
    }
    assert(is_single(8 * k)) by {
        assert((8 * k) / 2 == 4 * k);
    }
    assert(is_single(16 * k)) by {
        assert((16 * k) / 2 == 8 * k);
    }
    assert(is_single(32 * k)) by {
        assert((32 * k) / 2 == 16 * k);
    }
    assert(is_single(64 * k)) by {
        assert((64 * k) / 2 == 32 * k);
    }
    assert(is_single(128 * k)) by {
        assert((128 * k) / 2 == 64 * k);
    }
    assert((256 * k) / 2 == 128 * k);
}

/// Brighter channels are larger numbers: the order of two channels is that of their
/// bytes.
pub proof fn law_channels_keep_their_order(a: u8, b: u8)
    ensures
        a < b ==> channel(a) < channel(b),
        a == b ==> channel(a) == channel(b),
        0 <= channel(a) <= ONE,
        channel(0) == 0,
        channel(255) == ONE,
{
    let one = ONE as int;
    reveal_with_fuel(is_single, 20);
    lemma_exact(0, 255);
    lemma_exact(ONE as nat, 255);
    lemma_rounded_monotone(0, a * one, 255);
    lemma_rounded_monotone(a * one, 255 * one, 255);
    if a < b {
        let k = (a * one / 255 / 256 + 1) as nat;
        let x = 256 * k;
        let y = 256 * (k + 1);
        lemma_multiple_is_single(k);
        lemma_multiple_is_single(k + 1);
        lemma_exact(x, 255);
        lemma_exact(y, 255);
        lemma_rounded_monotone(a * one, (x * 255) as int, 255);
        lemma_rounded_monotone((y * 255) as int, b * one, 255);
    }
}

/// The chroma of a colour is zero for grays alone.
proof fn lemma_spread(hi: int, lo: int)
    requires
        hi > lo,
    ensures
        difference(hi, lo) > 0,
        difference(lo, hi) == -difference(hi, lo),
        ratio(difference(hi, lo), difference(hi, lo)) == ONE,
        ratio(difference(lo, hi), difference(hi, lo)) == -ONE,
        difference(hi, hi) == 0,
        ratio(0, difference(hi, lo)) == 0,
{
    reveal_with_fuel(is_single, 20);
    lemma_exact(1, 1);
    lemma_rounded_monotone(1, hi - lo, 1);
    lemma_exact(0, 1);
    let d = difference(hi, lo) as nat;
    lemma_exact(ONE as nat, d);
    lemma_exact(0, d);
    assert(d * ONE == ONE * d) by (nonlinear_arith);
    assert(-(d as int) * ONE == -(ONE * d)) by (nonlinear_arith);
    assert(0 * d == 0) by (nonlinear_arith);
    assert(ONE * d > 0) by (nonlinear_arith)
        requires
            d > 0,
    ;
}

/// Whole turns of 60 degrees need no rounding.
proof fn lemma_corner(n: int)
    requires
        -1 <= n <= 6,
    ensures
        rounded(n * ONE, 1) == n * ONE,
        rounded(60 * (n * ONE), 1) == 60 * (n * ONE),
{
    let m = if n < 0 {
        (-n) as nat
    } else {
        n as nat
    };
    lemma_multiple_is_single(128 * m);
    lemma_multiple_is_single(256 * (128 * m));
    lemma_multiple_is_single(256 * (256 * (128 * m)));
    assert(256 * (256 * (256 * (128 * m))) == m * (ONE as nat));
    lemma_multiple_is_single(7680 * m);
    lemma_multiple_is_single(256 * (7680 * m));
    lemma_multiple_is_single(256 * (256 * (7680 * m)));
    assert(256 * (256 * (256 * (7680 * m))) == 60 * (m * (ONE as nat)));
    lemma_exact(m * (ONE as nat), 1);
    lemma_exact(60 * (m * (ONE as nat)), 1);
}

/// The corners of the colour wheel: red lies at 0 degrees, yellow at 60, green at 120,
/// cyan at 180, blue at 240 and magenta at 300, at every brightness and saturation.
pub proof fn law_pure_colors_have_their_angle(r: u8, g: u8, b: u8)
    ensures
        g == b && b < r ==> hue(r, g, b) == 0,
        r == g && b < r ==> hue(r, g, b) == 60 * ONE,
        r == b && b < g ==> hue(r, g, b) == 120 * ONE,
        g == b && r < g ==> hue(r, g, b) == 180 * ONE,
        r == g && r < b ==> hue(r, g, b) == 240 * ONE,
        r == b && g < r ==> hue(r, g, b) == 300 * ONE,
        r == g && g == b ==> hue(r, g, b) == 0 && saturation(r, g, b) == 0,
{
    law_channels_keep_their_order(r, g);
    law_channels_keep_their_order(g, r);
    law_channels_keep_their_order(g, b);
    law_channels_keep_their_order(b, g);
    law_channels_keep_their_order(r, b);
    law_channels_keep_their_order(b, r);
    let (rf, gf, bf) = (channel(r), channel(g), channel(b));
    lemma_corner(0);
    lemma_corner(1);
    lemma_corner(-1);
    lemma_corner(2);
    lemma_corner(3);
    lemma_corner(4);
    lemma_corner(5);
    if r == g && g == b {
        reveal_with_fuel(is_single, 2);
        lemma_exact(0, 1);
        if rf > 0 {
            lemma_exact(0, rf as nat);
        }
    } else if g == b && b < r {
        lemma_spread(rf, bf);
        lemma_spread(bf, bf - 1);
    } else if r == g && b < r {
        lemma_spread(rf, bf);
    } else if r == b && b < g {
        lemma_spread(gf, bf);
        lemma_spread(bf, bf - 1);
    } else if g == b && r < g {
        lemma_spread(gf, rf);
    } else if r == g && r < b {
        lemma_spread(bf, rf);
        lemma_spread(rf, rf - 1);
    } else if r == b && g < r {
        lemma_spread(rf, gf);
    }
}

/// The slope of a sector keeps the order of the channel that changes.
proof fn lemma_slope_monotone(a: int, b: int, a2: int, b2: int, d: int)
    requires
        a - b <= a2 - b2,
        d > 0,
    ensures
        ratio(difference(a, b), d) <= ratio(difference(a2, b2), d),
{
    lemma_rounded_monotone(a - b, a2 - b2, 1);
    let (x, y) = (difference(a, b), difference(a2, b2));
    assert(x * ONE <= y * ONE) by (nonlinear_arith)
        requires
            x <= y,
    ;
    lemma_rounded_monotone(x * ONE, y * ONE, d);
}

/// Between the corners the angle turns steadily: with the brightest and the darkest
/// channel fixed it grows from red over yellow to green, and so on around the wheel, as
/// the third channel changes.
pub proof fn law_hue_turns_steadily(r: u8, g: u8, b: u8, other: u8)
    ensures
        b <= g <= other <= r && b < r ==> hue(r, g, b) <= hue(r, other, b),
        b <= other <= r < g ==> hue(r, g, b) <= hue(other, g, b),
        r <= b <= other <= g && r < g ==> hue(r, g, b) <= hue(r, g, other),
        r <= other <= g < b ==> hue(r, g, b) <= hue(r, other, b),
        g <= r <= other < b ==> hue(r, g, b) <= hue(other, g, b),
        g <= other <= b <= r && g < r && hue(r, g, b) != 0 && hue(r, g, other) != 0 ==> hue(
            r,
            g,
            b,
        ) <= hue(r, g, other),
{
    let (rf, gf, bf, of) = (channel(r), channel(g), channel(b), channel(other));
    law_channels_keep_their_order(r, g);
    law_channels_keep_their_order(g, r);
    law_channels_keep_their_order(g, b);
    law_channels_keep_their_order(b, g);
    law_channels_keep_their_order(r, b);
    law_channels_keep_their_order(b, r);
    law_channels_keep_their_order(other, r);
    law_channels_keep_their_order(r, other);
    law_channels_keep_their_order(other, g);
    law_channels_keep_their_order(g, other);
    law_channels_keep_their_order(other, b);
    law_channels_keep_their_order(b, other);
    law_hue_is_an_angle(r, g, b);
    if b <= g <= other <= r && b < r {
        lemma_spread(rf, bf);
        let d = difference(rf, bf);
        lemma_slope_monotone(bf, bf, gf, bf, d);
        lemma_slope_monotone(gf, bf, of, bf, d);
        lemma_sector(0, ratio(difference(bf, bf), d), ratio(difference(gf, bf), d));
        lemma_sector(0, ratio(difference(gf, bf), d), ratio(difference(of, bf), d));
        lemma_spread(bf, bf - 1);
        lemma_corner(0);
    }
    if b <= other <= r < g {
        lemma_spread(gf, bf);
        let d = difference(gf, bf);
        lemma_slope_monotone(bf, gf, bf, rf, d);
        lemma_slope_monotone(bf, rf, bf, of, d);
        lemma_sector(2, ratio(difference(bf, rf), d), ratio(difference(bf, of), d));
        lemma_sector(2, ratio(difference(bf, gf), d), ratio(difference(bf, rf), d));
        lemma_corner(1);
    }
    if r <= b <= other <= g && r < g {
        lemma_spread(gf, rf);
        let d = difference(gf, rf);
        lemma_slope_monotone(rf, rf, bf, rf, d);
        lemma_slope_monotone(bf, rf, of, rf, d);
        lemma_sector(2, ratio(difference(bf, rf), d), ratio(difference(of, rf), d));
        lemma_sector(2, ratio(difference(rf, rf), d), ratio(difference(bf, rf), d));
        lemma_spread(rf, rf - 1);
        lemma_corner(2);
    }
    if r <= other <= g < b {
        lemma_spread(bf, rf);
        let d = difference(bf, rf);
        lemma_slope_monotone(rf, bf, rf, gf, d);
        lemma_slope_monotone(rf, gf, rf, of, d);
        lemma_sector(4, ratio(difference(rf, gf), d), ratio(difference(rf, of), d));
        lemma_sector(4, ratio(difference(rf, bf), d), ratio(difference(rf, gf), d));
        lemma_corner(3);
    }
    if g <= r <= other < b {
        lemma_spread(bf, gf);
        let d = difference(bf, gf);
        lemma_slope_monotone(gf, gf, rf, gf, d);
        lemma_slope_monotone(rf, gf, of, gf, d);
        lemma_sector(4, ratio(difference(rf, gf), d), ratio(difference(of, gf), d));
        lemma_sector(4, ratio(difference(gf, gf), d), ratio(difference(rf, gf), d));
        lemma_spread(gf, gf - 1);
        lemma_corner(4);
    }
    if g <= other <= b <= r && g < r {
        lemma_spread(rf, gf);
        let d = difference(rf, gf);
        lemma_slope_monotone(gf, bf, gf, of, d);
        lemma_slope_monotone(gf, of, gf, gf, d);
        lemma_sector(0, ratio(difference(gf, bf), d), ratio(difference(gf, of), d));
        lemma_sector(0, ratio(difference(gf, of), d), ratio(difference(gf, gf), d));
        lemma_spread(gf, gf - 1);
        lemma_corner(0);
        lemma_rounded_monotone(
            raw_hue(r, g, b) + 360 * ONE,
            raw_hue(r, g, other) + 360 * ONE,
            1,
        );
    }
}

/// The angle within a sector keeps the order of the slopes.
proof fn lemma_sector(n: int, p: int, q: int)
    requires
        p <= q,
    ensures
        rounded(60 * rounded(p + n * ONE, 1), 1) <= rounded(60 * rounded(q + n * ONE, 1), 1),
        rounded(60 * p, 1) <= rounded(60 * q, 1),
{
    lemma_rounded_monotone(p + n * ONE, q + n * ONE, 1);
    lemma_rounded_monotone(60 * rounded(p + n * ONE, 1), 60 * rounded(q + n * ONE, 1), 1);
    lemma_rounded_monotone(60 * p, 60 * q, 1);
}

/// The colour wheel is divided among the pieces: going around it from red come Z, L, O,
/// S, I, J and T, and then Z again, each over its range of whole degrees.
pub proof fn law_pieces_divide_the_wheel(degrees: int)
    requires
        0 <= degrees <= 360,
    ensures
        hue_color(degrees) == CellColor::Z <==> degrees < 16 || degrees >= 345,
        hue_color(degrees) == CellColor::L <==> 16 <= degrees < 46,
        hue_color(degrees) == CellColor::O <==> 46 <= degrees < 76,
        hue_color(degrees) == CellColor::S <==> 76 <= degrees < 151,
        hue_color(degrees) == CellColor::I <==> 151 <= degrees < 196,
        hue_color(degrees) == CellColor::J <==> 196 <= degrees < 266,
        hue_color(degrees) == CellColor::T <==> 266 <= degrees < 345,
        hue_color(degrees).is_piece(),
{
}

/// A pixel that is too dark or too dim is empty, a gray one is garbage if it is bright,
/// and every other is the piece whose range its hue falls into.
pub proof fn law_pixels_are_told_apart(r: u8, g: u8, b: u8)
    ensures
        (r + g + b) / 3 < 30 ==> classified(r, g, b) == CellColor::Empty,
        (r + g + b) / 3 >= 30 && value(r, g, b) >= GHOST_VALUE ==> {
            &&& saturation(r, g, b) < GRAY_SATURATION ==> classified(r, g, b) == if (r + g + b) / 3
                > 80 {
                CellColor::Garbage
            } else {
                CellColor::Empty
            }
            &&& saturation(r, g, b) >= GRAY_SATURATION ==> classified(r, g, b) == hue_color(
                hue(r, g, b) / (ONE as int),
            )
        },
{
    reveal(classified);
    law_hue_is_an_angle(r, g, b);
}

/// The value of a colour is its brightest channel, and its saturation lies between none
/// for a gray and all for a colour that lacks a channel.
pub proof fn law_saturation_is_relative(r: u8, g: u8, b: u8)
    ensures
        value(r, g, b) >= channel(r),
        value(r, g, b) >= channel(g),
        value(r, g, b) >= channel(b),
        value(r, g, b) == channel(r) || value(r, g, b) == channel(g) || value(r, g, b) == channel(
            b,
        ),
        0 <= saturation(r, g, b) <= ONE,
        (r == 0 || g == 0 || b == 0) && (r > 0 || g > 0 || b > 0) ==> saturation(r, g, b) == ONE,
        r == g && g == b ==> saturation(r, g, b) == 0,
{
    law_channels_keep_their_order(r, 0);
    law_channels_keep_their_order(g, 0);
    law_channels_keep_their_order(b, 0);
    law_channels_keep_their_order(0, r);
    law_channels_keep_their_order(0, g);
    law_channels_keep_their_order(0, b);
    law_pure_colors_have_their_angle(r, g, b);
    let max = value(r, g, b);
    let min = smaller(smaller(channel(r), channel(g)), channel(b));
    let d = chroma(r, g, b);
    reveal_with_fuel(is_single, 20);
    lemma_exact(0, 1);
    lemma_rounded_monotone(0, max - min, 1);
    lemma_rounded_monotone(max - min, max, 1);
    if max > 0 {
        lemma_channel_is_single(r);
        lemma_channel_is_single(g);
        lemma_channel_is_single(b);
        lemma_exact(max as nat, 1);
        lemma_exact(ONE as nat, max as nat);
        lemma_exact(0, max as nat);
        let one = ONE as int;
        assert(0 <= d * one <= one * max) by (nonlinear_arith)
            requires
                0 <= d <= max,
                one > 0,
        ;
        assert(0 * max == 0) by (nonlinear_arith);
        assert(max * one == one * max) by (nonlinear_arith);
        lemma_rounded_monotone(0, d * one, max);
        lemma_rounded_monotone(d * one, one * max, max);
    }
}

proof fn lemma_channel_is_single(c: u8)
    ensures
        is_single(channel(c) as nat),
        channel(c) >= 0,
{
    crate::single::law_rounding_gives_a_single((c * ONE) as nat, 255);
}

/// Grays are garbage from a level of 90 on, and empty below.
pub proof fn law_grays_are_garbage_or_empty(c: u8)
    ensures
        classified(c, c, c) == if c >= 90 {
            CellColor::Garbage
        } else {
            CellColor::Empty
        },
{
    reveal(classified);
    law_pure_colors_have_their_angle(c, c, c);
    let one = ONE as int;
    if c >= 90 {
        lemma_multiple_is_single(2937500);
        lemma_exact(256 * 2937500, 255);
        lemma_rounded_monotone(256int * 2937500 * 255, c * one, 255);
    } else {
        lemma_multiple_is_single(2929688);
        lemma_exact(256 * 2929688, 255);
        lemma_rounded_monotone(c * one, 256int * 2929688 * 255, 255);
    }
}

/// The limits of the classifier are 0.35 for the value and 0.22 for the saturation, and the
/// inspection tools point out values from 0.15 on, all in single precision.
pub proof fn law_limits_are_single_precision()
    ensures
        GHOST_VALUE == rounded(35 * ONE, 100),
        GRAY_SATURATION == rounded(22 * ONE, 100),
        GHOST_NOTE_VALUE == rounded(15 * ONE, 100),
{
    reveal_with_fuel(nearest, 9);
}

} // verus!
