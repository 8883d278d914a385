use tetris_bot::ai::{
    are_rows_in_range, capped, color_to_piece, hold_queue, movement_mode, piece_name,
    piece_to_color, placement_from_move, playstyle, queue_pieces, search_step, weight_changes,
    EngineSettings, MovementMode, Piece, Playstyle, PollOutcome, SearchAction, SearchEvent,
    MAX_NEXT_PIECES,
};
use tetris_bot::color::CellColor;
use tetris_bot::config::AiConfig;

const PIECES: [(Piece, CellColor, &str); 7] = [
    (Piece::I, CellColor::I, "I"),
    (Piece::O, CellColor::O, "O"),
    (Piece::T, CellColor::T, "T"),
    (Piece::S, CellColor::S, "S"),
    (Piece::Z, CellColor::Z, "Z"),
    (Piece::J, CellColor::J, "J"),
    (Piece::L, CellColor::L, "L"),
];

#[test]
fn pieces_and_colours_correspond() {
    for (piece, color, name) in PIECES {
        assert_eq!(color_to_piece(color), Some(piece));
        assert_eq!(piece_to_color(piece), color);
        assert_eq!(piece_name(color), Some(name));
    }
    assert_eq!(color_to_piece(CellColor::Empty), None);
    assert_eq!(color_to_piece(CellColor::Garbage), None);
    assert_eq!(piece_name(CellColor::Empty), Some("_"));
    assert_eq!(piece_name(CellColor::Garbage), Some("G"));
}

#[test]
fn queues_leave_out_what_is_no_piece() {
    let colors = vec![CellColor::T, CellColor::Garbage, CellColor::Empty, CellColor::I];
    assert_eq!(queue_pieces(&colors), vec![Piece::T, Piece::I]);
    assert_eq!(queue_pieces(&vec![]), vec![]);
}

#[test]
fn queues_are_capped() {
    let all: Vec<Piece> = PIECES.iter().map(|p| p.0).collect();
    assert_eq!(MAX_NEXT_PIECES, 5);
    assert_eq!(capped(&all, 0, 5), all[..5].to_vec());
    assert_eq!(capped(&all, 3, 5), all[3..].to_vec());
    assert_eq!(capped(&all, 7, 5), vec![]);
    assert_eq!(capped(&all, 0, 0), vec![]);
}

#[test]
fn holding_puts_the_current_piece_in_front() {
    let all: Vec<Piece> = PIECES.iter().map(|p| p.0).collect();
    assert_eq!(
        hold_queue(Piece::L, &all),
        vec![Piece::L, Piece::I, Piece::O, Piece::T, Piece::S]
    );
    assert_eq!(hold_queue(Piece::L, &vec![]), vec![Piece::L]);
}

#[test]
fn movement_modes_by_name() {
    assert_eq!(movement_mode(&"zero_g".to_string()), MovementMode::ZeroG);
    assert_eq!(movement_mode(&"twenty_g".to_string()), MovementMode::TwentyG);
    assert_eq!(movement_mode(&"hard_drop_only".to_string()), MovementMode::HardDropOnly);
    assert_eq!(movement_mode(&"Zero_G".to_string()), MovementMode::HardDropOnly);
    assert_eq!(movement_mode(&String::new()), MovementMode::HardDropOnly);
}

#[test]
fn playstyles_by_name() {
    assert_eq!(playstyle(&"aggressive".to_string()), Playstyle::Aggressive);
    assert_eq!(playstyle(&"tspin".to_string()), Playstyle::TSpin);
    assert_eq!(playstyle(&"defensive".to_string()), Playstyle::Defensive);
    assert_eq!(playstyle(&"balanced".to_string()), Playstyle::Balanced);
    assert_eq!(playstyle(&"anything".to_string()), Playstyle::Balanced);
}

#[test]
fn weights_of_the_playstyles() {
    let w = weight_changes(Playstyle::Balanced);
    assert!(w.back_to_back.is_none() && w.clear4.is_none() && w.combo_garbage.is_none());
    assert!(w.tspin1.is_none() && w.tspin2.is_none() && w.tspin3.is_none() && w.tslot.is_none());
    assert!(w.wasted_t.is_none() && w.height.is_none() && w.cavity_cells.is_none());
    assert!(w.overhang_cells.is_none() && w.top_half.is_none());

    let w = weight_changes(Playstyle::Aggressive);
    assert_eq!((w.back_to_back, w.clear4, w.combo_garbage), (Some(80), Some(500), Some(30)));
    assert!(w.tspin2.is_none() && w.height.is_none());

    let w = weight_changes(Playstyle::TSpin);
    assert_eq!(w.back_to_back, Some(100));
    assert_eq!((w.tspin1, w.tspin2, w.tspin3), (Some(200), Some(600), Some(900)));
    assert_eq!(w.tslot, Some([20, 200, 300, 500]));
    assert_eq!(w.wasted_t, Some(-250));
    assert!(w.clear4.is_none());

    let w = weight_changes(Playstyle::Defensive);
    assert_eq!((w.height, w.cavity_cells), (Some(-60), Some(-250)));
    assert_eq!((w.overhang_cells, w.top_half), (Some(-50), Some(-200)));
    assert!(w.back_to_back.is_none());
}

#[test]
fn settings_from_a_configuration() {
    let settings = EngineSettings::new(&AiConfig {
        playstyle: "aggressive".to_string(),
        max_nodes: 1000,
        min_nodes: 10,
        movement_mode: "zero_g".to_string(),
    });
    assert_eq!(settings.options.max_nodes, 1000);
    assert_eq!(settings.options.min_nodes, 10);
    assert!(!settings.options.use_hold);
    assert!(settings.options.speculate);
    assert_eq!(settings.options.mode, MovementMode::ZeroG);
    assert_eq!(settings.weights.clear4, Some(500));
}

#[test]
fn moves_are_turned_upside_down() {
    let placement = placement_from_move([(0, 0), (1, 0), (2, 0), (2, 19)], Piece::J);
    assert_eq!(placement.cells, [(0, 19), (1, 19), (2, 19), (2, 0)]);
    assert_eq!(placement.piece_color, CellColor::J);
    // Rows above the visible board get negative numbers.
    let high = placement_from_move([(0, 20), (0, 21), (0, 22), (0, -1)], Piece::I);
    assert_eq!(high.cells, [(0, -1), (0, -2), (0, -3), (0, 20)]);
}

#[test]
fn rows_out_of_range_are_recognised() {
    assert!(are_rows_in_range(&[(0, 0), (0, 1), (0, i32::MAX), (0, -5)]));
    assert!(are_rows_in_range(&[(0, i32::MIN + 20); 4]));
    assert!(!are_rows_in_range(&[(0, 0), (0, 0), (0, 0), (0, i32::MIN + 19)]));
}

#[test]
fn a_search_is_polled_until_it_ends() {
    assert!(matches!(search_step(SearchEvent::Ready(false)), SearchAction::Poll));
    assert!(matches!(search_step(SearchEvent::Ready(true)), SearchAction::Finish(None)));
    assert!(matches!(
        search_step(SearchEvent::Polled(PollOutcome::Waiting)),
        SearchAction::Sleep(5)
    ));
    assert!(matches!(
        search_step(SearchEvent::Polled(PollOutcome::Dead)),
        SearchAction::Finish(None)
    ));
    assert!(matches!(search_step(SearchEvent::Panicked), SearchAction::Finish(None)));
    match search_step(SearchEvent::Polled(PollOutcome::Moved([(4, 1); 4], Piece::O))) {
        SearchAction::Finish(Some(placement)) => {
            assert_eq!(placement.cells, [(4, 18); 4]);
            assert_eq!(placement.piece_color, CellColor::O);
        }
        other => panic!("unexpected {other:?}"),
    }
}
