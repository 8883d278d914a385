use tetris_bot::ai::{AiSuggestion, OverlayPlacement};
use tetris_bot::bot::{
    key_just_pressed, BotLoop, BotState, LoopAction, LoopEvent, LoopPhase, MOVE_TIMEOUT,
};
use tetris_bot::color::CellColor;
use tetris_bot::vision::GameState;

const FRAME: u64 = 16_000_000;

fn placement(col: i32, color: CellColor) -> OverlayPlacement {
    OverlayPlacement { cells: [(col, 19); 4], piece_color: color }
}

fn suggestion(col: i32) -> AiSuggestion {
    AiSuggestion { direct: placement(col, CellColor::T), hold_option: None }
}

fn state(piece: Option<CellColor>, is_active: bool) -> GameState {
    GameState {
        board: [[CellColor::Empty; 10]; 20],
        current_piece: piece,
        hold_piece: None,
        next_queue: vec![],
        is_active,
        incoming_garbage: 0,
    }
}

fn shown(bot: &BotState) -> Option<i32> {
    bot.current_suggestion.map(|s| s.direct.cells[0].0)
}

/// A loop that has just been started by the hotkey.
fn started() -> (BotLoop, BotState) {
    let mut bot = BotState::new();
    let mut main = BotLoop::new(60);
    assert!(matches!(main.step(&mut bot, LoopEvent::Key(true)), LoopAction::ResetEngine));
    assert!(matches!(main.step(&mut bot, LoopEvent::Done), LoopAction::PollPauseKey));
    assert!(matches!(main.step(&mut bot, LoopEvent::Key(false)), LoopAction::DrainPrefetch));
    (main, bot)
}

/// Goes from the drained placements to the reading of a fresh frame.
fn to_reading(
    main: &mut BotLoop,
    bot: &mut BotState,
    list: Vec<(CellColor, OverlayPlacement)>,
    answer: Option<AiSuggestion>,
    now: u64,
) {
    let mut action = main.step(bot, LoopEvent::Prefetched(list));
    if matches!(action, LoopAction::PollMove) {
        action = main.step(bot, LoopEvent::Polled(answer, now));
    }
    assert!(matches!(action, LoopAction::Capture));
    assert!(matches!(main.step(bot, LoopEvent::FreshFrame), LoopAction::ReadFrame));
}

/// Ends the frame and goes on to the prepared placements of the next one.
fn next_frame(main: &mut BotLoop, bot: &mut BotState) {
    if main.phase == LoopPhase::FrameTime {
        assert!(matches!(main.step(bot, LoopEvent::Elapsed(FRAME)), LoopAction::PollToggleKey));
    } else {
        assert!(matches!(main.step(bot, LoopEvent::Done), LoopAction::PollToggleKey));
    }
    assert!(matches!(main.step(bot, LoopEvent::Key(false)), LoopAction::PollPauseKey));
    assert!(matches!(main.step(bot, LoopEvent::Key(false)), LoopAction::DrainPrefetch));
}

#[test]
fn the_bot_starts_stopped() {
    let bot = BotState::new();
    assert!(!bot.enabled && !bot.paused);
    assert_eq!(bot.status_text, "Stopped");
    assert!(bot.current_suggestion.is_none());
    assert_eq!(bot.vision_confidence_pct, 100);
}

#[test]
fn the_status_can_be_set() {
    let mut bot = BotState::new();
    bot.set_status("Capture init failed: no display");
    assert_eq!(bot.status_text, "Capture init failed: no display");
    assert!(!bot.enabled);
}

#[test]
fn the_lowest_bit_tells_of_a_key_press() {
    assert!(key_just_pressed(1));
    assert!(key_just_pressed(-32767));
    assert!(!key_just_pressed(0));
    assert!(!key_just_pressed(-32768));
    assert!(key_just_pressed(-1));
    assert!(!key_just_pressed(2));
}

#[test]
fn the_frame_time_comes_from_whole_milliseconds() {
    assert_eq!(BotLoop::new(60).frame_time, 16_000_000);
    assert_eq!(BotLoop::new(1).frame_time, 1_000_000_000);
    assert_eq!(BotLoop::new(144).frame_time, 6_000_000);
    assert_eq!(BotLoop::new(1001).frame_time, 0);
}

#[test]
fn the_toggle_key_starts_and_stops() {
    let (mut main, mut bot) = started();
    assert!(bot.enabled && !bot.paused);
    assert_eq!(bot.status_text, "Running");
    to_reading(&mut main, &mut bot, vec![(CellColor::S, placement(7, CellColor::S))], None, 0);
    main.step(&mut bot, LoopEvent::Read(state(Some(CellColor::T), true), 100, true));
    main.step(&mut bot, LoopEvent::Submitted(1));
    main.step(&mut bot, LoopEvent::Elapsed(FRAME));
    bot.current_suggestion = Some(suggestion(3));
    assert!(matches!(main.step(&mut bot, LoopEvent::Key(true)), LoopAction::PollPauseKey));
    assert!(!bot.enabled);
    assert_eq!(bot.status_text, "Stopped");
    assert_eq!(shown(&bot), None);
    assert!(main.locked_piece.is_none() && main.prefetch_cache.is_empty());
    // The request is still waiting, as it was; only starting again forgets it.
    assert!(main.waiting_for_move);
    assert!(matches!(
        main.step(&mut bot, LoopEvent::Key(false)),
        LoopAction::Sleep(50_000_000)
    ));
    assert!(matches!(main.step(&mut bot, LoopEvent::Done), LoopAction::PollToggleKey));
    assert!(matches!(main.step(&mut bot, LoopEvent::Key(true)), LoopAction::ResetEngine));
    assert!(!main.waiting_for_move);
}

#[test]
fn the_pause_key_counts_only_while_enabled() {
    let mut bot = BotState::new();
    let mut main = BotLoop::new(60);
    main.step(&mut bot, LoopEvent::Key(false));
    assert!(matches!(main.step(&mut bot, LoopEvent::Key(true)), LoopAction::Sleep(50_000_000)));
    assert!(!bot.paused);
    assert_eq!(bot.status_text, "Stopped");

    let (mut main, mut bot) = started();
    main.step(&mut bot, LoopEvent::Prefetched(vec![]));
    main.step(&mut bot, LoopEvent::NoFrame);
    main.step(&mut bot, LoopEvent::Done);
    main.step(&mut bot, LoopEvent::Key(false));
    assert!(matches!(main.step(&mut bot, LoopEvent::Key(true)), LoopAction::Sleep(50_000_000)));
    assert!(bot.enabled && bot.paused);
    assert_eq!(bot.status_text, "Paused");
    main.step(&mut bot, LoopEvent::Done);
    main.step(&mut bot, LoopEvent::Key(false));
    assert!(matches!(main.step(&mut bot, LoopEvent::Key(true)), LoopAction::DrainPrefetch));
    assert!(!bot.paused);
    assert_eq!(bot.status_text, "Running");
}

#[test]
fn a_new_piece_is_requested_once() {
    let (mut main, mut bot) = started();
    to_reading(&mut main, &mut bot, vec![], None, 0);
    let action = main.step(&mut bot, LoopEvent::Read(state(Some(CellColor::T), true), 87, true));
    assert!(matches!(action, LoopAction::Submit(s) if s.current_piece == Some(CellColor::T)));
    assert_eq!(bot.vision_confidence_pct, 87);
    assert!(matches!(main.step(&mut bot, LoopEvent::Submitted(10)), LoopAction::MeasureFrame));
    for k in 0..20 {
        next_frame(&mut main, &mut bot);
        to_reading(&mut main, &mut bot, vec![], None, 20 + k);
        let action = main.step(&mut bot, LoopEvent::Read(state(Some(CellColor::T), true), 90, true));
        assert!(matches!(action, LoopAction::MeasureFrame));
    }
    // The answer arrives; the piece is still the same one.
    next_frame(&mut main, &mut bot);
    to_reading(&mut main, &mut bot, vec![], Some(suggestion(4)), 60);
    assert_eq!(shown(&bot), Some(4));
    for _ in 0..20 {
        let action = main.step(&mut bot, LoopEvent::Read(state(Some(CellColor::T), true), 90, true));
        assert!(matches!(action, LoopAction::MeasureFrame));
        assert_eq!(shown(&bot), Some(4));
        next_frame(&mut main, &mut bot);
        to_reading(&mut main, &mut bot, vec![], None, 70);
    }
    // Another piece is requested again.
    let action = main.step(&mut bot, LoopEvent::Read(state(Some(CellColor::O), true), 90, true));
    assert!(matches!(action, LoopAction::Submit(_)));
    assert_eq!(main.locked_piece, Some(CellColor::O));
}

#[test]
fn a_piece_that_comes_back_is_requested_again() {
    let (mut main, mut bot) = started();
    to_reading(&mut main, &mut bot, vec![], None, 0);
    main.step(&mut bot, LoopEvent::Read(state(Some(CellColor::T), true), 100, true));
    main.step(&mut bot, LoopEvent::Submitted(10));
    next_frame(&mut main, &mut bot);
    to_reading(&mut main, &mut bot, vec![], Some(suggestion(4)), 60);
    let action = main.step(&mut bot, LoopEvent::Read(state(None, true), 100, true));
    assert!(matches!(action, LoopAction::Sleep(100_000_000)));
    assert!(main.locked_piece.is_none());
    next_frame(&mut main, &mut bot);
    to_reading(&mut main, &mut bot, vec![], None, 90);
    let action = main.step(&mut bot, LoopEvent::Read(state(Some(CellColor::T), true), 100, true));
    assert!(matches!(action, LoopAction::Submit(_)));
}

#[test]
fn a_piece_without_an_active_game_is_ignored() {
    let (mut main, mut bot) = started();
    to_reading(&mut main, &mut bot, vec![], None, 0);
    let action = main.step(&mut bot, LoopEvent::Read(state(Some(CellColor::T), false), 42, true));
    assert!(matches!(action, LoopAction::Sleep(100_000_000)));
    assert_eq!(bot.vision_confidence_pct, 42);
}

#[test]
fn prepared_placements_are_shown_at_once() {
    let (mut main, mut bot) = started();
    let list = vec![
        (CellColor::S, placement(1, CellColor::S)),
        (CellColor::T, placement(2, CellColor::T)),
        (CellColor::S, placement(3, CellColor::S)),
    ];
    to_reading(&mut main, &mut bot, list, None, 0);
    assert_eq!(main.prefetch_cache.len(), 2);
    let action = main.step(&mut bot, LoopEvent::Read(state(Some(CellColor::S), true), 100, true));
    assert!(matches!(action, LoopAction::Submit(_)));
    assert_eq!(shown(&bot), Some(3));
    assert!(bot.current_suggestion.unwrap().hold_option.is_none());
    // Used up, the others stay.
    assert_eq!(main.prefetch_cache.len(), 1);
    assert!(main.prefetch_cache.contains_key(&CellColor::T.index()));
}

#[test]
fn a_piece_that_was_not_prepared_keeps_the_old_ghost() {
    let (mut main, mut bot) = started();
    bot.current_suggestion = Some(suggestion(6));
    to_reading(&mut main, &mut bot, vec![(CellColor::S, placement(1, CellColor::S))], None, 0);
    main.step(&mut bot, LoopEvent::Read(state(Some(CellColor::T), true), 100, true));
    assert_eq!(shown(&bot), Some(6));
}

/// A game state with the given queue and number of cells in the colour of the piece.
fn game(piece: CellColor, queue: &[CellColor], cells: usize) -> GameState {
    let mut game = state(Some(piece), true);
    game.next_queue = queue.to_vec();
    for k in 0..cells {
        game.board[19 - k / 10][k % 10] = piece;
    }
    game
}

/// Reads a trusted state, and tells whether it leads to a request.
fn is_requested(main: &mut BotLoop, bot: &mut BotState, game: GameState) -> bool {
    let mut action = main.step(bot, LoopEvent::Read(game, 100, true));
    if matches!(action, LoopAction::ResetEngine) {
        action = main.step(bot, LoopEvent::Done);
    }
    if matches!(action, LoopAction::Submit(_)) {
        main.step(bot, LoopEvent::Submitted(1));
        true
    } else {
        assert!(matches!(action, LoopAction::MeasureFrame));
        false
    }
}

#[test]
fn two_spawns_of_one_colour_are_requested_twice() {
    let (mut main, mut bot) = started();
    to_reading(&mut main, &mut bot, vec![], None, 0);
    let first = [CellColor::T, CellColor::I, CellColor::O];
    let second = [CellColor::I, CellColor::O, CellColor::S];
    assert!(is_requested(&mut main, &mut bot, game(CellColor::T, &first, 4)));
    for k in 0..5 {
        next_frame(&mut main, &mut bot);
        let answer = if k == 2 { Some(suggestion(4)) } else { None };
        to_reading(&mut main, &mut bot, vec![], answer, 10);
        assert!(!is_requested(&mut main, &mut bot, game(CellColor::T, &first, 4)));
    }
    next_frame(&mut main, &mut bot);
    to_reading(&mut main, &mut bot, vec![], None, 10);
    assert!(is_requested(&mut main, &mut bot, game(CellColor::T, &second, 8)));
    next_frame(&mut main, &mut bot);
    to_reading(&mut main, &mut bot, vec![], None, 10);
    assert!(!is_requested(&mut main, &mut bot, game(CellColor::T, &second, 8)));
}

#[test]
fn where_the_queue_cannot_tell_the_board_does() {
    for queue in [&[][..], &[CellColor::T, CellColor::T]] {
        let (mut main, mut bot) = started();
        // A piece that comes into view cell by cell is one piece.
        for (cells, expected) in [(5, true), (6, false), (8, false), (9, true), (3, true)] {
            to_reading(&mut main, &mut bot, vec![], Some(suggestion(4)), 10);
            assert_eq!(
                is_requested(&mut main, &mut bot, game(CellColor::T, queue, cells)),
                expected,
                "{cells} cells"
            );
            next_frame(&mut main, &mut bot);
        }
    }
}

/// A falling T over so many rows of garbage with a hole, and a queue of these slots.
fn raised_game(queue: &[CellColor], rows: usize) -> GameState {
    let mut game = state(Some(CellColor::T), true);
    game.next_queue = queue.to_vec();
    game.board[1][4] = CellColor::T;
    game.board[2][3..6].fill(CellColor::T);
    game.board[19 - rows][0..2].fill(CellColor::L);
    for row in 20 - rows..20 {
        game.board[row][0..9].fill(CellColor::Garbage);
    }
    game
}

#[test]
fn rising_garbage_is_no_spawn() {
    for queue in [&[][..], &[CellColor::T, CellColor::T], &[CellColor::T, CellColor::I]] {
        let (mut main, mut bot) = started();
        to_reading(&mut main, &mut bot, vec![], None, 0);
        assert!(is_requested(&mut main, &mut bot, raised_game(queue, 0)));
        for rows in [1, 3, 3, 9] {
            next_frame(&mut main, &mut bot);
            to_reading(&mut main, &mut bot, vec![], Some(suggestion(4)), 10);
            assert!(!is_requested(&mut main, &mut bot, raised_game(queue, rows)), "{rows} rows");
            assert_eq!(shown(&bot), Some(4));
        }
    }
}

#[test]
fn an_unreadable_slot_is_no_spawn() {
    let full = [CellColor::I, CellColor::O, CellColor::S, CellColor::Z, CellColor::J];
    let (mut main, mut bot) = started();
    to_reading(&mut main, &mut bot, vec![], None, 0);
    assert!(is_requested(&mut main, &mut bot, game(CellColor::T, &full, 4)));
    // The engine is still at work.
    next_frame(&mut main, &mut bot);
    to_reading(&mut main, &mut bot, vec![], None, 10);
    assert!(!is_requested(&mut main, &mut bot, game(CellColor::T, &full[..4], 4)));
    assert!(main.waiting_for_move);
    for gaps in [&full[1..], &full[..], &full[2..4], &[], &full[..]] {
        next_frame(&mut main, &mut bot);
        to_reading(&mut main, &mut bot, vec![], Some(suggestion(4)), 10);
        assert!(!is_requested(&mut main, &mut bot, game(CellColor::T, gaps, 4)));
        assert_eq!(shown(&bot), Some(4));
        assert_eq!(main.locked_queue, full);
    }
    // The next T is requested once its queue has been read in full.
    let drawn = [CellColor::O, CellColor::S, CellColor::Z, CellColor::J, CellColor::L];
    for (queue, expected) in [(&drawn[..4], false), (&drawn[..], true), (&drawn[..], false)] {
        next_frame(&mut main, &mut bot);
        to_reading(&mut main, &mut bot, vec![], None, 10);
        assert_eq!(is_requested(&mut main, &mut bot, game(CellColor::T, queue, 8)), expected);
    }
}

#[test]
fn a_gap_at_the_request_does_not_hide_a_draw() {
    let full = [CellColor::T, CellColor::O, CellColor::S];
    let drawn = [CellColor::O, CellColor::S, CellColor::J];
    for gap in [&full[..2], &full[1..], &[]] {
        let (mut main, mut bot) = started();
        to_reading(&mut main, &mut bot, vec![], None, 0);
        assert!(is_requested(&mut main, &mut bot, game(CellColor::T, gap, 4)));
        assert_eq!(main.locked_queue, gap);
        for (queue, expected) in [(&full, false), (&full, false), (&drawn, true), (&drawn, false)] {
            next_frame(&mut main, &mut bot);
            to_reading(&mut main, &mut bot, vec![], Some(suggestion(4)), 10);
            assert_eq!(is_requested(&mut main, &mut bot, game(CellColor::T, queue, 4)), expected);
            assert_eq!(main.locked_queue, queue);
        }
    }
}

#[test]
fn a_misread_slot_is_no_draw() {
    let (mut main, mut bot) = started();
    let queue = [CellColor::I, CellColor::O, CellColor::S];
    to_reading(&mut main, &mut bot, vec![], None, 0);
    assert!(is_requested(&mut main, &mut bot, game(CellColor::T, &queue, 4)));
    next_frame(&mut main, &mut bot);
    to_reading(&mut main, &mut bot, vec![], Some(suggestion(4)), 10);
    let misread = [CellColor::I, CellColor::O, CellColor::Z];
    assert!(!is_requested(&mut main, &mut bot, game(CellColor::T, &misread, 4)));
    assert_eq!(main.locked_queue, queue);
}

#[test]
fn a_piece_that_spawns_during_a_wait_supersedes_the_request() {
    let (mut main, mut bot) = started();
    to_reading(&mut main, &mut bot, vec![], None, 0);
    main.step(&mut bot, LoopEvent::Read(state(Some(CellColor::T), true), 100, true));
    main.step(&mut bot, LoopEvent::Submitted(10));
    next_frame(&mut main, &mut bot);
    to_reading(&mut main, &mut bot, vec![(CellColor::O, placement(8, CellColor::O))], None, 20);
    let action = main.step(&mut bot, LoopEvent::Read(state(Some(CellColor::O), true), 100, true));
    assert!(matches!(action, LoopAction::ResetEngine));
    // The prepared placement is on the overlay already.
    assert_eq!(shown(&bot), Some(8));
    let action = main.step(&mut bot, LoopEvent::Done);
    assert!(matches!(action, LoopAction::Submit(s) if s.current_piece == Some(CellColor::O)));
    assert_eq!(bot.status_text, "Running");
    assert!(matches!(main.step(&mut bot, LoopEvent::Submitted(30)), LoopAction::MeasureFrame));
    assert_eq!(main.locked_piece, Some(CellColor::O));
    assert_eq!(main.waiting_since, Some(30));
    // A piece that is gone by the time of the answer has been requested too.
    next_frame(&mut main, &mut bot);
    to_reading(&mut main, &mut bot, vec![], None, 40);
    assert!(is_requested(&mut main, &mut bot, state(Some(CellColor::S), true)));
    next_frame(&mut main, &mut bot);
    to_reading(&mut main, &mut bot, vec![], Some(suggestion(5)), 50);
    assert!(!is_requested(&mut main, &mut bot, state(Some(CellColor::S), true)));
    assert_eq!(shown(&bot), Some(5));
}

#[test]
fn an_answer_is_given_up_on_after_five_seconds() {
    assert_eq!(MOVE_TIMEOUT, 5_000_000_000);
    let (mut main, mut bot) = started();
    to_reading(&mut main, &mut bot, vec![], None, 0);
    main.step(&mut bot, LoopEvent::Read(state(Some(CellColor::T), true), 100, true));
    main.step(&mut bot, LoopEvent::Submitted(1_000));
    next_frame(&mut main, &mut bot);
    to_reading(&mut main, &mut bot, vec![], None, 5_000_001_000);
    assert!(main.waiting_for_move);
    main.step(&mut bot, LoopEvent::Read(state(Some(CellColor::T), true), 100, true));
    next_frame(&mut main, &mut bot);
    to_reading(&mut main, &mut bot, vec![], None, 5_000_001_001);
    assert!(!main.waiting_for_move && main.waiting_since.is_none());
    // The same piece is not requested again, another one is.
    let action = main.step(&mut bot, LoopEvent::Read(state(Some(CellColor::T), true), 100, true));
    assert!(matches!(action, LoopAction::MeasureFrame));
    next_frame(&mut main, &mut bot);
    to_reading(&mut main, &mut bot, vec![], None, 5_100_000_000);
    let action = main.step(&mut bot, LoopEvent::Read(state(Some(CellColor::O), true), 100, true));
    assert!(matches!(action, LoopAction::Submit(_)));
}

#[test]
fn a_frame_that_cannot_be_trusted_clears_the_ghost() {
    let (mut main, mut bot) = started();
    bot.current_suggestion = Some(suggestion(6));
    to_reading(&mut main, &mut bot, vec![], None, 0);
    let action = main.step(&mut bot, LoopEvent::Read(state(Some(CellColor::T), true), 30, false));
    assert!(matches!(action, LoopAction::Sleep(50_000_000)));
    assert_eq!(shown(&bot), None);
    assert_eq!(bot.vision_confidence_pct, 30);
    assert!(main.locked_piece.is_none());
}

#[test]
fn unchanged_frames_are_skipped() {
    let (mut main, mut bot) = started();
    main.step(&mut bot, LoopEvent::Prefetched(vec![]));
    assert!(matches!(main.step(&mut bot, LoopEvent::RepeatedFrame), LoopAction::CheckDirty));
    assert!(matches!(main.step(&mut bot, LoopEvent::Dirty(false)), LoopAction::MeasureFrame));
    assert!(matches!(
        main.step(&mut bot, LoopEvent::Elapsed(6_000_000)),
        LoopAction::Sleep(10_000_000)
    ));
    next_frame(&mut main, &mut bot);
    main.step(&mut bot, LoopEvent::Prefetched(vec![]));
    main.step(&mut bot, LoopEvent::RepeatedFrame);
    assert!(matches!(main.step(&mut bot, LoopEvent::Dirty(true)), LoopAction::ReadFrame));
}

#[test]
fn failures_pause_the_loop() {
    let (mut main, mut bot) = started();
    main.step(&mut bot, LoopEvent::Prefetched(vec![]));
    assert!(matches!(main.step(&mut bot, LoopEvent::NoFrame), LoopAction::Sleep(16_000_000)));
    next_frame(&mut main, &mut bot);
    to_reading(&mut main, &mut bot, vec![], None, 0);
    assert!(matches!(main.step(&mut bot, LoopEvent::ReadFailed), LoopAction::Sleep(50_000_000)));
    assert_eq!(main.phase, LoopPhase::Sleeping);
}

#[test]
fn late_frames_are_not_followed_by_a_pause() {
    let (mut main, mut bot) = started();
    main.step(&mut bot, LoopEvent::Prefetched(vec![]));
    main.step(&mut bot, LoopEvent::RepeatedFrame);
    main.step(&mut bot, LoopEvent::Dirty(false));
    assert!(matches!(main.step(&mut bot, LoopEvent::Elapsed(FRAME)), LoopAction::PollToggleKey));
}
