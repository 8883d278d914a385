use tetris_bot::ai::{AiSuggestion, OverlayPlacement};
use tetris_bot::bot::BotState;
use tetris_bot::color::CellColor;
use tetris_bot::panel::{
    cell_color_name, click_pause, click_toggle, decimal_text, panel, piece_panel_color,
};

fn placement(piece_color: CellColor) -> OverlayPlacement {
    OverlayPlacement { cells: [(0, 0); 4], piece_color }
}

#[test]
fn names_and_colours_of_pieces() {
    assert_eq!(cell_color_name(CellColor::I), "I");
    assert_eq!(cell_color_name(CellColor::L), "L");
    assert_eq!(cell_color_name(CellColor::Empty), "?");
    assert_eq!(cell_color_name(CellColor::Garbage), "?");
    assert_eq!(piece_panel_color(CellColor::T), (160, 0, 220));
    assert_eq!(piece_panel_color(CellColor::Garbage), (180, 180, 180));
}

#[test]
fn numbers_in_decimal_notation() {
    for n in 0..=255u8 {
        assert_eq!(decimal_text(n), n.to_string());
    }
}

#[test]
fn a_stopped_panel() {
    let p = panel(&BotState::new());
    assert_eq!(p.status.text, "Stopped");
    assert_eq!(p.status.color, (180, 60, 60));
    assert!(p.confidence.is_none() && p.direct.is_none() && p.hold.is_none());
    assert!(!p.thinking);
    assert_eq!(p.toggle_label, "Start (F9)");
    assert_eq!(p.pause_label, None);
}

#[test]
fn a_running_panel() {
    let mut bot = BotState::new();
    click_toggle(&mut bot);
    let p = panel(&bot);
    assert_eq!(p.status.text, "Running");
    assert_eq!(p.status.color, (60, 180, 60));
    assert!(p.thinking);
    assert_eq!(p.toggle_label, "Stop (F9)");
    assert_eq!(p.pause_label, Some("Pause (F10)"));
    bot.current_suggestion = Some(AiSuggestion {
        direct: placement(CellColor::Z),
        hold_option: Some(placement(CellColor::J)),
    });
    let p = panel(&bot);
    assert!(!p.thinking);
    let direct = p.direct.unwrap();
    assert_eq!((direct.text.as_str(), direct.color), ("Z", (220, 0, 0)));
    let hold = p.hold.unwrap();
    assert_eq!((hold.text.as_str(), hold.color), ("J", (0, 0, 220)));
}

#[test]
fn a_paused_panel() {
    let mut bot = BotState::new();
    click_toggle(&mut bot);
    click_pause(&mut bot);
    let p = panel(&bot);
    assert_eq!(p.status.text, "Paused");
    assert_eq!(p.status.color, (200, 180, 50));
    assert!(p.confidence.is_none() && !p.thinking);
    assert_eq!(p.pause_label, Some("Resume (F10)"));
}

#[test]
fn the_confidence_line() {
    let mut bot = BotState::new();
    bot.enabled = true;
    for (pct, text, color) in [
        (100, "100% OK", (60, 180, 60)),
        (80, "80% OK", (60, 180, 60)),
        (79, "79% LOW", (220, 180, 50)),
        (60, "60% LOW", (220, 180, 50)),
        (59, "59% BAD — CHECK CALIBRATION", (220, 60, 60)),
        (0, "0% BAD — CHECK CALIBRATION", (220, 60, 60)),
    ] {
        bot.vision_confidence_pct = pct;
        let line = panel(&bot).confidence.unwrap();
        assert_eq!((line.text.as_str(), line.color), (text, color));
    }
}

#[test]
fn the_buttons() {
    let mut bot = BotState::new();
    click_toggle(&mut bot);
    assert!(bot.enabled);
    assert_eq!(bot.status_text, "Running");
    click_pause(&mut bot);
    assert!(bot.paused);
    assert_eq!(bot.status_text, "Paused");
    click_pause(&mut bot);
    assert!(!bot.paused);
    assert_eq!(bot.status_text, "Running");
    click_pause(&mut bot);
    bot.current_suggestion =
        Some(AiSuggestion { direct: placement(CellColor::Z), hold_option: None });
    click_toggle(&mut bot);
    assert!(!bot.enabled && !bot.paused && bot.current_suggestion.is_none());
    assert_eq!(bot.status_text, "Stopped");
}
