use tetris_bot::ai::{OverlayPlacement, Piece};
use tetris_bot::color::CellColor;
use tetris_bot::vision::GameState;
use tetris_bot::worker::{Action, AiWorker, Event, Job};

fn state(current: Option<CellColor>, hold: Option<CellColor>, next: &[CellColor]) -> GameState {
    let mut board = [[CellColor::Empty; 10]; 20];
    for col in 3..7 {
        board[0][col] = CellColor::I;
    }
    board[19] = [CellColor::Garbage; 10];
    board[19][4] = CellColor::Empty;
    GameState {
        board,
        current_piece: current,
        hold_piece: hold,
        next_queue: next.to_vec(),
        is_active: true,
        incoming_garbage: 3,
    }
}

fn placement(col: i32, color: CellColor) -> OverlayPlacement {
    OverlayPlacement { cells: [(col, 19), (col, 18), (col, 17), (col, 16)], piece_color: color }
}

fn job(action: Action) -> Job {
    match action {
        Action::Compute(job) => job,
        other => panic!("expected a search, got {other:?}"),
    }
}

/// A worker that has been given a state and looked for newer ones in vain.
fn asked(request: GameState) -> (AiWorker, Action) {
    let (worker, action) = AiWorker::start();
    assert!(matches!(action, Action::Receive));
    let (worker, action) = worker.step(Event::Request(request), false);
    assert!(matches!(action, Action::TryReceive));
    worker.step(Event::NoRequest, false)
}

const QUEUE: [CellColor; 6] = [
    CellColor::T,
    CellColor::O,
    CellColor::S,
    CellColor::Z,
    CellColor::J,
    CellColor::L,
];

#[test]
fn answers_with_both_placements() {
    let (worker, action) = asked(state(Some(CellColor::I), Some(CellColor::L), &QUEUE));
    let direct = job(action);
    assert_eq!(direct.piece, Piece::I);
    assert_eq!(direct.queue, vec![Piece::T, Piece::O, Piece::S, Piece::Z, Piece::J]);
    assert_eq!(direct.garbage, 3);
    // The falling piece is not part of the field.
    assert!(direct.field[19].iter().all(|&c| !c));
    assert_eq!(direct.field[0].iter().filter(|&&c| c).count(), 9);

    let (worker, action) = worker.step(Event::Computed(Some(placement(1, CellColor::I))), false);
    let held = job(action);
    assert_eq!(held.piece, Piece::L);
    assert_eq!(held.queue, vec![Piece::I, Piece::T, Piece::O, Piece::S, Piece::Z]);
    assert_eq!(held.field, direct.field);

    let (_, action) = worker.step(Event::Computed(Some(placement(2, CellColor::L))), false);
    match action {
        Action::SendSuggestion(suggestion) => {
            assert_eq!(suggestion.direct.cells[0], (1, 19));
            assert_eq!(suggestion.hold_option.unwrap().cells[0], (2, 19));
            assert_eq!(suggestion.hold_option.unwrap().piece_color, CellColor::L);
        }
        other => panic!("unexpected {other:?}"),
    }
}

#[test]
fn answers_without_a_hold_piece() {
    let (worker, _) = asked(state(Some(CellColor::I), None, &QUEUE));
    let (_, action) = worker.step(Event::Computed(Some(placement(1, CellColor::I))), false);
    assert!(matches!(action, Action::SendSuggestion(s) if s.hold_option.is_none()));
    // Garbage in the hold box is no piece either.
    let (worker, _) = asked(state(Some(CellColor::I), Some(CellColor::Garbage), &QUEUE));
    let (_, action) = worker.step(Event::Computed(Some(placement(1, CellColor::I))), false);
    assert!(matches!(action, Action::SendSuggestion(s) if s.hold_option.is_none()));
}

#[test]
fn a_failed_hold_search_does_not_spoil_the_answer() {
    let (worker, _) = asked(state(Some(CellColor::I), Some(CellColor::L), &QUEUE));
    let (worker, _) = worker.step(Event::Computed(Some(placement(1, CellColor::I))), false);
    let (_, action) = worker.step(Event::Computed(None), false);
    assert!(matches!(action, Action::SendSuggestion(s) if s.hold_option.is_none()));
}

#[test]
fn without_a_placement_there_is_no_answer() {
    let (worker, _) = asked(state(Some(CellColor::I), Some(CellColor::L), &QUEUE));
    let (_, action) = worker.step(Event::Computed(None), false);
    assert!(matches!(action, Action::Receive));
}

#[test]
fn without_a_current_piece_nothing_is_searched() {
    let (_, action) = asked(state(None, Some(CellColor::L), &QUEUE));
    assert!(matches!(action, Action::Receive));
    let (_, action) = asked(state(Some(CellColor::Garbage), None, &QUEUE));
    assert!(matches!(action, Action::Receive));
}

#[test]
fn only_the_latest_request_is_answered() {
    let (worker, _) = AiWorker::start();
    let (worker, _) = worker.step(Event::Request(state(Some(CellColor::T), None, &[])), false);
    let (worker, _) = worker.step(Event::Request(state(Some(CellColor::O), None, &[])), false);
    let (worker, _) = worker.step(Event::Request(state(Some(CellColor::Z), None, &[])), false);
    let (_, action) = worker.step(Event::NoRequest, false);
    assert_eq!(job(action).piece, Piece::Z);
}

#[test]
fn three_pieces_are_prepared() {
    let (worker, _) = asked(state(Some(CellColor::I), None, &QUEUE));
    let (worker, _) = worker.step(Event::Computed(Some(placement(0, CellColor::I))), false);
    let (mut worker, mut action) = worker.step(Event::Sent, false);
    let expected = [
        (Piece::T, vec![Piece::O, Piece::S, Piece::Z, Piece::J, Piece::L]),
        (Piece::O, vec![Piece::S, Piece::Z, Piece::J, Piece::L]),
        (Piece::S, vec![Piece::Z, Piece::J, Piece::L]),
    ];
    for (i, (piece, queue)) in expected.into_iter().enumerate() {
        assert!(matches!(action, Action::TryReceive));
        let (w, a) = worker.step(Event::NoRequest, false);
        let search = job(a);
        assert_eq!((search.piece, search.queue), (piece, queue));
        let (w, a) = w.step(Event::Computed(Some(placement(i as i32, QUEUE[i]))), false);
        assert!(matches!(a, Action::TryReceive));
        let (w, a) = w.step(Event::NoRequest, false);
        match a {
            Action::SendPrefetch(color, p) => {
                assert_eq!(color, QUEUE[i]);
                assert_eq!(p.cells[0].0, i as i32);
            }
            other => panic!("unexpected {other:?}"),
        }
        let (w, a) = w.step(Event::Sent, false);
        worker = w;
        action = a;
    }
    assert!(matches!(action, Action::Receive));
    let (_, action) = worker.step(Event::Disconnected, false);
    assert!(matches!(action, Action::Exit));
}

#[test]
fn short_queues_end_the_preparation_early() {
    let (worker, _) = asked(state(Some(CellColor::I), None, &[CellColor::T]));
    let (worker, _) = worker.step(Event::Computed(Some(placement(0, CellColor::I))), false);
    let (worker, action) = worker.step(Event::Sent, false);
    assert!(matches!(action, Action::TryReceive));
    let (worker, action) = worker.step(Event::NoRequest, false);
    assert!(job(action).queue.is_empty());
    let (_, action) = worker.step(Event::Computed(None), false);
    assert!(matches!(action, Action::Receive));

    let (worker, _) = asked(state(Some(CellColor::I), None, &[]));
    let (worker, _) = worker.step(Event::Computed(Some(placement(0, CellColor::I))), false);
    let (_, action) = worker.step(Event::Sent, false);
    assert!(matches!(action, Action::Receive));
}

#[test]
fn a_request_interrupts_the_preparation() {
    let (worker, _) = asked(state(Some(CellColor::I), None, &QUEUE));
    let (worker, _) = worker.step(Event::Computed(Some(placement(0, CellColor::I))), false);
    let (worker, action) = worker.step(Event::Sent, false);
    assert!(matches!(action, Action::TryReceive));
    let (worker, action) = worker.step(Event::Request(state(Some(CellColor::T), None, &[])), false);
    assert!(matches!(action, Action::TryReceive));
    let (_, action) = worker.step(Event::NoRequest, false);
    assert_eq!(job(action).piece, Piece::T);
}

#[test]
fn a_request_during_a_search_drops_what_the_search_finds() {
    let (worker, _) = asked(state(Some(CellColor::I), None, &QUEUE));
    let (worker, _) = worker.step(Event::Computed(Some(placement(0, CellColor::I))), false);
    let (worker, _) = worker.step(Event::Sent, false);
    let (worker, action) = worker.step(Event::NoRequest, false);
    assert_eq!(job(action).piece, Piece::T);
    let (worker, action) = worker.step(Event::Computed(Some(placement(4, CellColor::T))), false);
    assert!(matches!(action, Action::TryReceive));
    let (worker, action) = worker.step(Event::Request(state(Some(CellColor::O), None, &[])), false);
    assert!(matches!(action, Action::TryReceive));
    let (worker, action) = worker.step(Event::NoRequest, false);
    assert_eq!(job(action).piece, Piece::O);
    let (_, action) = worker.step(Event::Computed(Some(placement(7, CellColor::O))), false);
    assert!(matches!(action, Action::SendSuggestion(s) if s.direct.cells[0].0 == 7));
}

#[test]
fn only_the_preparation_can_be_interrupted() {
    let (worker, action) = asked(state(Some(CellColor::I), Some(CellColor::L), &QUEUE));
    assert!(!job(action).interruptible);
    let (worker, action) = worker.step(Event::Computed(Some(placement(0, CellColor::I))), false);
    assert!(!job(action).interruptible);
    let (worker, _) = worker.step(Event::Computed(None), false);
    let (worker, _) = worker.step(Event::Sent, false);
    let (worker, action) = worker.step(Event::NoRequest, false);
    assert!(job(action).interruptible);
    // A request ends the search itself.
    let (worker, action) = worker.step(Event::Request(state(Some(CellColor::O), None, &[])), false);
    assert!(matches!(action, Action::TryReceive));
    let (_, action) = worker.step(Event::NoRequest, false);
    assert_eq!(job(action).piece, Piece::O);
}

#[test]
fn a_cancelled_worker_stops() {
    let (worker, _) = AiWorker::start();
    let (worker, _) = worker.step(Event::Request(state(Some(CellColor::T), None, &[])), false);
    let (_, action) = worker.step(Event::NoRequest, true);
    assert!(matches!(action, Action::Exit));

    let (worker, _) = asked(state(Some(CellColor::I), None, &QUEUE));
    let (_, action) = worker.step(Event::Computed(Some(placement(0, CellColor::I))), true);
    assert!(matches!(action, Action::Exit));

    let (worker, _) = asked(state(Some(CellColor::I), Some(CellColor::L), &QUEUE));
    let (worker, _) = worker.step(Event::Computed(Some(placement(0, CellColor::I))), false);
    let (_, action) = worker.step(Event::Computed(None), true);
    assert!(matches!(action, Action::Exit));
}

#[test]
fn cancelling_the_preparation_ends_it() {
    let (worker, _) = asked(state(Some(CellColor::I), None, &QUEUE));
    let (worker, _) = worker.step(Event::Computed(Some(placement(0, CellColor::I))), false);
    let (_, action) = worker.step(Event::Sent, true);
    assert!(matches!(action, Action::Receive));
}

#[test]
fn a_closed_channel_stops_the_worker() {
    let (worker, _) = AiWorker::start();
    let (_, action) = worker.step(Event::Disconnected, false);
    assert!(matches!(action, Action::Exit));
}
