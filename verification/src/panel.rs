//! What the control panel shows, and what its buttons do.
use crate::ai::OverlayPlacement;
use crate::bot::{BotState, BotView};
use crate::color::CellColor;
use crate::overlay::{piece_tint, tint};
use vstd::prelude::*;

verus! {

/// The name of a piece on the panel.
pub open spec fn panel_name(c: CellColor) -> Seq<char> {
    match c {
        CellColor::I => "I"@,
        CellColor::O => "O"@,
        CellColor::T => "T"@,
        CellColor::S => "S"@,
        CellColor::Z => "Z"@,
        CellColor::J => "J"@,
        CellColor::L => "L"@,
        _ => "?"@,
    }
}

/// The name of a piece on the panel; a question mark for anything else.
pub fn cell_color_name(c: CellColor) -> (name: &'static str)
    ensures
        name@ == panel_name(c),
{
    match c {
        CellColor::I => "I",
        CellColor::O => "O",
        CellColor::T => "T",
        CellColor::S => "S",
        CellColor::Z => "Z",
        CellColor::J => "J",
        CellColor::L => "L",
        _ => "?",
    }
}

/// The colour of a piece on the panel: the tint that its ghost has.
pub fn piece_panel_color(piece: CellColor) -> (rgb: (u8, u8, u8))
    ensures
        rgb == tint(piece),
{
    piece_tint(piece)
}

// ---- numbers as text ----

/// A decimal digit.
pub open spec fn digit(d: nat) -> char {
    (d + 48) as char
}

/// A number in decimal notation.
pub open spec fn decimal(n: nat) -> Seq<char>
    decreases n,
{
    if n < 10 {
        seq![digit(n)]
    } else {
        decimal(n / 10).push(digit(n % 10))
    }
}

fn digit_text(d: u8) -> (text: &'static str)
    requires
        d < 10,
    ensures
        text@ == seq![digit(d as nat)],
{
    proof {
        reveal_strlit("0");
        reveal_strlit("1");
        reveal_strlit("2");
        reveal_strlit("3");
        reveal_strlit("4");
        reveal_strlit("5");
        reveal_strlit("6");
        reveal_strlit("7");
        reveal_strlit("8");
        reveal_strlit("9");
    }
    let text = match d {
        0 => "0",
        1 => "1",
        2 => "2",
        3 => "3",
        4 => "4",
        5 => "5",
        6 => "6",
        7 => "7",
        8 => "8",
        _ => "9",
    };
    assert(text@ =~= seq![digit(d as nat)]);
    text
}

/// A number in decimal notation.
pub fn decimal_text(n: u8) -> (text: String)
    ensures
        text@ == decimal(n as nat),
    decreases n,
{
    if n < 10 {
        digit_text(n).to_owned()
    } else {
        let mut text = decimal_text(n / 10);
        text.append(digit_text(n % 10));
        assert(text@ =~= decimal(n as nat));
        text
    }
}

// ---- what the panel shows ----

/// The colour of the status line.
pub open spec fn status_tint(enabled: bool, paused: bool) -> (u8, u8, u8) {
    if !enabled {
        (180, 60, 60)
    } else if paused {
        (200, 180, 50)
    } else {
        (60, 180, 60)
    }
}

/// The colour of the confidence line.
pub open spec fn confidence_tint(pct: u8) -> (u8, u8, u8) {
    if pct >= 80 {
        (60, 180, 60)
    } else if pct >= 60 {
        (220, 180, 50)
    } else {
        (220, 60, 60)
    }
}

/// The text of the confidence line.
pub open spec fn confidence_note(pct: u8) -> Seq<char> {
    decimal(pct as nat) + if pct >= 80 {
        "% OK"@
    } else if pct >= 60 {
        "% LOW"@
    } else {
        "% BAD — CHECK CALIBRATION"@
    }
}

/// A coloured line of text.
#[derive(Debug)]
pub struct Line {
    pub color: (u8, u8, u8),
    pub text: String,
}

#[verifier::ext_equal]
pub struct LineView {
    pub color: (u8, u8, u8),
    pub text: Seq<char>,
}

impl View for Line {
    type V = LineView;

    open spec fn view(&self) -> LineView {
        LineView { color: self.color, text: self.text@ }
    }
}

/// The line that names the piece of a placement.
pub open spec fn piece_line(placement: OverlayPlacement) -> LineView {
    LineView { color: tint(placement.piece_color), text: panel_name(placement.piece_color) }
}

/// What the panel shows.
#[derive(Debug)]
pub struct Panel {
    pub status: Line,
    /// How far the last frame can be trusted.
    pub confidence: Option<Line>,
    /// The piece to place directly.
    pub direct: Option<Line>,
    /// The piece to place after holding.
    pub hold: Option<Line>,
    /// Whether a suggestion is being waited for.
    pub thinking: bool,
    /// The label of the start and stop button.
    pub toggle_label: &'static str,
    /// The label of the pause button, if there is one.
    pub pause_label: Option<&'static str>,
}

/// The optional line of a view.
pub open spec fn line_view(line: Option<Line>) -> Option<LineView> {
    match line {
        Some(l) => Some(l@),
        None => None,
    }
}

/// Whether a panel shows the state of the bot.
pub open spec fn shows(panel: Panel, bot: BotView) -> bool {
    let running = bot.enabled && !bot.paused;
    &&& panel.status@ == (LineView {
        color: status_tint(bot.enabled, bot.paused),
        text: bot.status,
    })
    &&& line_view(panel.confidence) == if running {
        Some(
            LineView {
                color: confidence_tint(bot.confidence),
                text: confidence_note(bot.confidence),
            },
        )
    } else {
        None
    }
    &&& match bot.suggestion {
        Some(suggestion) => {
            &&& line_view(panel.direct) == Some(piece_line(suggestion.direct))
            &&& line_view(panel.hold) == match suggestion.hold_option {
                Some(hold) => Some(piece_line(hold)),
                None => None,
            }
            &&& !panel.thinking
        },
        None => panel.direct is None && panel.hold is None && panel.thinking == running,
    }
    &&& panel.toggle_label@ == if bot.enabled {
        "Stop (F9)"@
    } else {
        "Start (F9)"@
    }
    &&& match panel.pause_label {
        Some(label) => bot.enabled && label@ == if bot.paused {
            "Resume (F10)"@
        } else {
            "Pause (F10)"@
        },
        None => !bot.enabled,
    }
}

fn placement_line(placement: &OverlayPlacement) -> (line: Line)
    ensures
        line@ == piece_line(*placement),
{
    Line {
        color: piece_panel_color(placement.piece_color),
        text: cell_color_name(placement.piece_color).to_owned(),
    }
}

fn confidence_line(pct: u8) -> (line: Line)
    ensures
        line@ == (LineView { color: confidence_tint(pct), text: confidence_note(pct) }),
{
    let mut text = decimal_text(pct);
    if pct >= 80 {
        text.append("% OK");
        Line { color: (60, 180, 60), text }
    } else if pct >= 60 {
        text.append("% LOW");
        Line { color: (220, 180, 50), text }
    } else {
        text.append("% BAD — CHECK CALIBRATION");
        Line { color: (220, 60, 60), text }
    }
}

/// Lays the panel out for the current state of the bot.
pub fn panel(bot: &BotState) -> (panel: Panel)
    ensures
        shows(panel, bot@),
{
    let running = bot.enabled && !bot.paused;
    let color = if !bot.enabled {
        (180, 60, 60)
    } else if bot.paused {
        (200, 180, 50)
    } else {
        (60, 180, 60)
    };
    let confidence = if running {
        Some(confidence_line(bot.vision_confidence_pct))
    } else {
        None
    };
    let (direct, hold, thinking) = match &bot.current_suggestion {
        Some(suggestion) => {
            let hold = match &suggestion.hold_option {
                Some(hold) => Some(placement_line(hold)),
                None => None,
            };
            (Some(placement_line(&suggestion.direct)), hold, false)
        },
        None => (None, None, running),
    };
    Panel {
        status: Line { color, text: bot.status_text.clone() },
        confidence,
        direct,
        hold,
        thinking,
        toggle_label: if bot.enabled { "Stop (F9)" } else { "Start (F9)" },
        pause_label: if bot.enabled {
            Some(if bot.paused { "Resume (F10)" } else { "Pause (F10)" })
        } else {
            None
        },
    }
}

// ---- what the buttons do ----

/// The start and stop button: stopping also ends a pause and clears the overlay.
pub fn click_toggle(bot: &mut BotState)
    ensures
        final(bot)@ == if old(bot)@.enabled {
            BotView {
                enabled: false,
                paused: false,
                suggestion: None,
                status: "Stopped"@,
                ..old(bot)@
            }
        } else {
            BotView { enabled: true, status: "Running"@, ..old(bot)@ }
        },
{
    if bot.enabled {
        bot.enabled = false;
        bot.paused = false;
        bot.current_suggestion = None;
        bot.set_status("Stopped");
    } else {
        bot.enabled = true;
        bot.set_status("Running");
    }
}

/// The pause button.
pub fn click_pause(bot: &mut BotState)
    ensures
        final(bot)@ == (BotView {
            paused: !old(bot)@.paused,
            status: if old(bot)@.paused {
                "Running"@
            } else {
                "Paused"@
            },
            ..old(bot)@
        }),
{
    if bot.paused {
        bot.paused = false;
        bot.set_status("Running");
    } else {
        bot.paused = true;
        bot.set_status("Paused");
    }
}

// ---- what the panel tells ----

/// The number that decimal digits stand for.
pub open spec fn digits_value(text: Seq<char>) -> int
    decreases text.len(),
{
    if text.len() == 0 {
        0
    } else {
        10 * digits_value(text.drop_last()) + (text.last() as int - '0' as int)
    }
}

/// The decimal notation of a number reads back as that number: it consists of digits
/// and has no leading zero.
pub proof fn law_decimal_reads_back(n: nat)
    ensures
        digits_value(decimal(n)) == n,
        decimal(n).len() >= 1,
        n > 0 ==> decimal(n)[0] != '0',
        forall|i: int| 0 <= i < decimal(n).len() ==> '0' <= #[trigger] decimal(n)[i] <= '9',
    decreases n,
{
    reveal_with_fuel(digits_value, 2);
    if n < 10 {
        assert(seq![digit(n)].drop_last() =~= Seq::<char>::empty());
    } else {
        law_decimal_reads_back(n / 10);
        assert(decimal(n).drop_last() =~= decimal(n / 10));
        assert(decimal(n).last() == digit(n % 10));
    }
}

/// The panel names the piece of each placement that the overlay shows, in the colour of
/// its ghost, and shows that it is thinking if and only if the bot is running without
/// a suggestion.
pub proof fn law_panel_follows_the_suggestion(panel: Panel, bot: BotView)
    requires
        shows(panel, bot),
    ensures
        panel.direct is Some <==> bot.suggestion is Some,
        panel.hold is Some <==> (bot.suggestion matches Some(s) && s.hold_option is Some),
        bot.suggestion matches Some(s) ==> {
            &&& panel.direct matches Some(line) && line.color == tint(s.direct.piece_color)
                && line.text@ == panel_name(s.direct.piece_color)
            &&& s.hold_option matches Some(hold) ==> (panel.hold matches Some(line) && line.color
                == tint(hold.piece_color) && line.text@ == panel_name(hold.piece_color))
        },
        panel.thinking <==> bot.enabled && !bot.paused && bot.suggestion is None,
{
    assert(line_view(panel.direct) is Some <==> panel.direct is Some);
    assert(line_view(panel.hold) is Some <==> panel.hold is Some);
}

/// The status line is what the bot says, the confidence is shown while the bot runs,
/// the buttons offer what they would do, and there is no pause button while the bot is
/// stopped.
pub proof fn law_panel_follows_the_bot(panel: Panel, bot: BotView)
    requires
        shows(panel, bot),
    ensures
        panel.status.text@ == bot.status,
        panel.confidence is Some <==> bot.enabled && !bot.paused,
        panel.confidence matches Some(line) ==> {
            let shown = decimal(bot.confidence as nat);
            &&& line.text@.len() > shown.len()
            &&& line.text@.take(shown.len() as int) == shown
            &&& line.text@[shown.len() as int] == '%'
        },
        panel.pause_label is Some <==> bot.enabled,
        panel.toggle_label@ == (if bot.enabled {
            "Stop (F9)"@
        } else {
            "Start (F9)"@
        }),
        panel.pause_label matches Some(label) ==> label@ == (if bot.paused {
            "Resume (F10)"@
        } else {
            "Pause (F10)"@
        }),
{
    reveal_strlit("% OK");
    reveal_strlit("% LOW");
    reveal_strlit("% BAD — CHECK CALIBRATION");
    assert(line_view(panel.confidence) is Some <==> panel.confidence is Some);
    if let Some(line) = panel.confidence {
        assert(line.text@ == confidence_note(bot.confidence));
        assert(line.text@.take(decimal(bot.confidence as nat).len() as int) =~= decimal(
            bot.confidence as nat,
        ));
    }
}

/// The colours of the status and of the confidence grade them: stopped, paused and
/// running look different, and so do a confidence of at least 80 percent, one of at
/// least 60 and one below.
pub proof fn law_colors_grade_the_state(a: u8, b: u8)
    ensures
        status_tint(false, false) == status_tint(false, true),
        status_tint(false, false) != status_tint(true, false),
        status_tint(false, false) != status_tint(true, true),
        status_tint(true, false) != status_tint(true, true),
        (a >= 80) == (b >= 80) && (a >= 60) == (b >= 60) <==> confidence_tint(a)
            == confidence_tint(b),
        a >= 80 ==> confidence_tint(a) == status_tint(true, false),
{
}

/// Pieces are named by one letter, the same on the panel, in logs and in printed grids,
/// and no two have the same.
pub proof fn law_pieces_have_one_name(a: CellColor, b: CellColor)
    requires
        a.is_piece(),
    ensures
        panel_name(a) == crate::ai::color_letter(a),
        panel_name(a) == crate::inspect::label(a),
        panel_name(a).len() == 1,
        a != b ==> panel_name(a) != panel_name(b),
        a != b ==> crate::ai::color_letter(a) != crate::ai::color_letter(b),
        a != b ==> crate::inspect::label(a) != crate::inspect::label(b),
{
    reveal_strlit("I");
    reveal_strlit("O");
    reveal_strlit("T");
    reveal_strlit("S");
    reveal_strlit("Z");
    reveal_strlit("J");
    reveal_strlit("L");
    reveal_strlit("?");
    reveal_strlit("_");
    reveal_strlit(".");
    reveal_strlit("G");
    assert("I"@[0] == 'I' && "O"@[0] == 'O' && "T"@[0] == 'T' && "S"@[0] == 'S');
    assert("Z"@[0] == 'Z' && "J"@[0] == 'J' && "L"@[0] == 'L' && "?"@[0] == '?');
    assert("_"@[0] == '_' && "."@[0] == '.' && "G"@[0] == 'G');
}

/// The confidence line gives the percentage and what to make of it: fine from 80 percent on,
/// low from 60 on, and a reason to check the calibration below.
pub proof fn law_confidence_is_judged(pct: u8)
    ensures
        pct >= 80 ==> confidence_note(pct) == decimal(pct as nat) + "% OK"@,
        60 <= pct < 80 ==> confidence_note(pct) == decimal(pct as nat) + "% LOW"@,
        pct < 60 ==> confidence_note(pct) == decimal(pct as nat) + "% BAD — CHECK CALIBRATION"@,
{
}

} // verus!
