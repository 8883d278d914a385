//! What the calibration tools have in common.
use crate::color::CellColor;
use crate::vision::{count_votes, leader, tally};
use vstd::prelude::*;

verus! {

/// The letter that stands for a colour in a printed grid.
pub open spec fn label(c: CellColor) -> Seq<char> {
    match c {
        CellColor::Empty => "."@,
        CellColor::I => "I"@,
        CellColor::O => "O"@,
        CellColor::T => "T"@,
        CellColor::S => "S"@,
        CellColor::Z => "Z"@,
        CellColor::J => "J"@,
        CellColor::L => "L"@,
        CellColor::Garbage => "G"@,
    }
}

/// The letter that stands for a colour in a printed grid.
pub fn cell_label(c: CellColor) -> (text: &'static str)
    ensures
        text@ == label(c),
{
    match c {
        CellColor::Empty => ".",
        CellColor::I => "I",
        CellColor::O => "O",
        CellColor::T => "T",
        CellColor::S => "S",
        CellColor::Z => "Z",
        CellColor::J => "J",
        CellColor::L => "L",
        CellColor::Garbage => "G",
    }
}

/// A cell of a printed grid.
#[derive(Debug, Clone, Copy, PartialEq, Eq, Structural)]
pub enum GridMark {
    /// The colour that the samples agree on.
    Color(CellColor),
    /// Fewer than three samples agree.
    Uncertain,
}

/// The text of a cell of a printed grid.
pub open spec fn mark_text(mark: GridMark) -> Seq<char> {
    match mark {
        GridMark::Color(c) => label(c),
        GridMark::Uncertain => "*"@,
    }
}

impl GridMark {
    /// The text of a cell of a printed grid.
    pub fn text(&self) -> (text: &'static str)
        ensures
            text@ == mark_text(*self),
    {
        match self {
            GridMark::Color(c) => cell_label(*c),
            GridMark::Uncertain => "*",
        }
    }
}

/// The mark that samples earn: the leading colour if at least three samples
/// agree on it, uncertain if fewer do, empty if no sample is filled.
pub open spec fn mark_of(samples: Seq<CellColor>) -> GridMark {
    let c = leader(samples);
    if c != CellColor::Empty && tally(samples, c.spec_index()) < 3 {
        GridMark::Uncertain
    } else {
        GridMark::Color(c)
    }
}

/// The mark that samples earn.
pub fn mark(samples: &Vec<CellColor>) -> (m: GridMark)
    requires
        samples@.len() <= 255,
    ensures
        m == mark_of(samples@),
{
    let (color, count, _) = count_votes(samples);
    if color != CellColor::Empty && count < 3 {
        GridMark::Uncertain
    } else {
        GridMark::Color(color)
    }
}

/// Whether a pixel would be pointed out as part of the ghost overlay: too dim to
/// count, but not black.
pub open spec fn in_ghost_range(v: int) -> bool {
    crate::color::GHOST_NOTE_VALUE <= v < crate::color::GHOST_VALUE
}

// ---- edges ----

/// A jump in brightness between neighbouring pixels of a line.
#[derive(Debug, Clone, Copy, PartialEq, Eq)]
pub struct Edge {
    /// The position of the second pixel.
    pub pos: u32,
    pub from: u16,
    pub to: u16,
    pub diff: u16,
    /// Red, green and blue of the second pixel.
    pub rgb: (u8, u8, u8),
}

/// The distance between two brightnesses.
pub open spec fn jump(a: int, b: int) -> int {
    if a <= b {
        b - a
    } else {
        a - b
    }
}

/// The distance between two brightnesses.
pub fn distance(a: u16, b: u16) -> (d: u16)
    ensures
        d == jump(a as int, b as int),
{
    if a <= b {
        b - a
    } else {
        a - b
    }
}

/// The first position from `lo` to `hi` at which a property holds.
pub open spec fn first_index(lo: int, hi: int, p: spec_fn(int) -> bool) -> Option<int>
    decreases hi - lo,
{
    if lo >= hi {
        None
    } else if p(lo) {
        Some(lo)
    } else {
        first_index(lo + 1, hi, p)
    }
}

/// The last position from `lo` to `hi` at which a property holds.
pub open spec fn last_index(lo: int, hi: int, p: spec_fn(int) -> bool) -> Option<int>
    decreases hi - lo,
{
    if lo >= hi {
        None
    } else if p(hi - 1) {
        Some(hi - 1)
    } else {
        last_index(lo, hi - 1, p)
    }
}

/// Looking one position further.
pub proof fn lemma_first_index_extends(lo: int, hi: int, p: spec_fn(int) -> bool)
    requires
        lo <= hi,
    ensures
        first_index(lo, hi + 1, p) == if first_index(lo, hi, p) is Some {
            first_index(lo, hi, p)
        } else if p(hi) {
            Some(hi)
        } else {
            None
        },
    decreases hi - lo,
{
    if lo < hi {
        if !p(lo) {
            lemma_first_index_extends(lo + 1, hi, p);
        }
    } else {
        assert(first_index(lo + 1, hi + 1, p) is None);
    }
}

/// A first position is one at which the property holds, and none before it has.
pub proof fn lemma_first_index(lo: int, hi: int, p: spec_fn(int) -> bool)
    ensures
        match first_index(lo, hi, p) {
            Some(k) => lo <= k < hi && p(k) && forall|j: int| lo <= j < k ==> !#[trigger] p(j),
            None => forall|j: int| lo <= j < hi ==> !#[trigger] p(j),
        },
    decreases hi - lo,
{
    if lo < hi && !p(lo) {
        lemma_first_index(lo + 1, hi, p);
    }
}

/// A last position is one at which the property holds, and none after it has.
pub proof fn lemma_last_index(lo: int, hi: int, p: spec_fn(int) -> bool)
    ensures
        match last_index(lo, hi, p) {
            Some(k) => lo <= k < hi && p(k) && forall|j: int| k < j < hi ==> !#[trigger] p(j),
            None => forall|j: int| lo <= j < hi ==> !#[trigger] p(j),
        },
    decreases hi - lo,
{
    if lo < hi && !p(hi - 1) {
        lemma_last_index(lo, hi - 1, p);
    }
}

/// A grid shows a colour only where at least three samples agree on it, and then it is
/// what the vote elects; where fewer agree on the leading colour the cell is marked as
/// uncertain, and where no sample is filled it is empty.
pub proof fn law_marks_go_by_three_samples(samples: Seq<CellColor>)
    ensures
        mark_of(samples) matches GridMark::Color(c) ==> c != CellColor::Empty ==> {
            &&& tally(samples, c.spec_index()) >= 3
            &&& crate::vision::elected(samples) == c
        },
        mark_of(samples) == GridMark::Uncertain <==> {
            &&& leader(samples) != CellColor::Empty
            &&& tally(samples, leader(samples).spec_index()) < 3
        },
        (exists|i: int| 1 <= i < 9 && #[trigger] tally(samples, i) >= 3) ==> mark_of(samples)
            == GridMark::Color(leader(samples)),
        mark_of(samples) == GridMark::Color(CellColor::Empty) <==> leader(samples)
            == CellColor::Empty,
{
    if exists|i: int| 1 <= i < 9 && #[trigger] tally(samples, i) >= 3 {
        let i = choose|i: int| 1 <= i < 9 && #[trigger] tally(samples, i) >= 3;
        crate::vision::law_agreeing_samples_fill_a_cell(samples, i);
    }
}

/// A pixel that is pointed out as part of the ghost overlay is one that counts as
/// empty, though it is not black.
pub proof fn law_noted_pixels_count_as_empty(r: u8, g: u8, b: u8)
    requires
        in_ghost_range(crate::color::value(r, g, b)),
    ensures
        crate::color::classified(r, g, b) == CellColor::Empty,
        crate::color::value(r, g, b) > 0,
{
    crate::color::law_ghost_pixels_are_empty(r, g, b);
}

/// Uncertain cells are marked by a character that no colour has.
pub proof fn law_marks_are_readable(c: CellColor, d: CellColor)
    ensures
        mark_text(GridMark::Color(c)) == label(c),
        mark_text(GridMark::Uncertain) != label(c),
        c != d ==> label(c) != label(d),
{
    reveal_strlit("I");
    reveal_strlit("O");
    reveal_strlit("T");
    reveal_strlit("S");
    reveal_strlit("Z");
    reveal_strlit("J");
    reveal_strlit("L");
    reveal_strlit("G");
    reveal_strlit(".");
    reveal_strlit("*");
    assert("I"@[0] == 'I' && "O"@[0] == 'O' && "T"@[0] == 'T' && "S"@[0] == 'S');
    assert("Z"@[0] == 'Z' && "J"@[0] == 'J' && "L"@[0] == 'L' && "G"@[0] == 'G');
    assert("."@[0] == '.' && "*"@[0] == '*');
}

/// The distance between two brightnesses is the same both ways, and adding it to the
/// smaller gives the larger.
pub proof fn law_jump_is_a_distance(a: int, b: int)
    ensures
        jump(a, b) == jump(b, a),
        jump(a, b) >= 0,
        a + jump(a, b) == b || b + jump(a, b) == a,
{
}

/// Samples that all agree are marked with their colour.
pub proof fn law_unanimous_mark(samples: Seq<CellColor>, c: CellColor)
    requires
        samples.len() >= 3,
        forall|k: int| 0 <= k < samples.len() ==> #[trigger] samples[k] == c,
    ensures
        mark_of(samples) == GridMark::Color(c),
        leader(samples) == c,
        tally(samples, c.spec_index()) == samples.len(),
{
    crate::vision::lemma_all_votes(samples, c);
    crate::vision::law_unanimous_vote_wins(samples, c);
    if c == CellColor::Empty {
        assert(leader(samples) == CellColor::Empty) by {
            if leader(samples) != CellColor::Empty {
                crate::vision::lemma_no_votes(samples, leader(samples).spec_index());
                crate::color::law_index_round_trip(leader(samples), 0);
            }
        }
    }
}

} // verus!
