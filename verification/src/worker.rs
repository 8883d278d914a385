//! The background worker: it answers each request with the best placements for
//! the current piece and then, until the next request comes in, prepares
//! placements for the pieces that follow.
//!
//! The worker is a state machine. Whoever runs it performs the action that it
//! asks for and hands back what came of it, together with the state of the
//! cancel flag at that moment.
use crate::ai::{
    capped, color_of, color_to_piece, front, hold_queue, piece_of, piece_to_color, pieces_of,
    queue_after_hold, queue_pieces, AiSuggestion, OverlayPlacement, Piece, MAX_NEXT_PIECES,
};
use crate::color::CellColor;
use crate::field::{build_field_from_vision, locked};
use crate::vision::{GameState, StateView};
use vstd::prelude::*;

verus! {

/// For how many of the next pieces placements are prepared.
pub const PREFETCH_PIECES: usize = 3;

/// The rows of a field.
pub open spec fn field_rows(field: [[bool; 10]; 40]) -> Seq<Seq<bool>> {
    Seq::new(40, |row: int| field@[row]@)
}

/// The rows of the locked field of a game state.
pub open spec fn locked_rows(state: StateView) -> Seq<Seq<bool>> {
    Seq::new(
        40,
        |row: int| Seq::new(10, |col: int| locked(state.board, state.current_piece, row, col)),
    )
}

/// A search that the engine is to carry out: the best placement of a piece on a
/// field, given the pieces that follow.
#[derive(Debug)]
pub struct Job {
    pub field: [[bool; 10]; 40],
    pub piece: Piece,
    pub queue: Vec<Piece>,
    pub garbage: u32,
    /// Whether a request that comes in ends the search.
    pub interruptible: bool,
}

#[verifier::ext_equal]
pub struct JobView {
    pub field: Seq<Seq<bool>>,
    pub piece: Piece,
    pub queue: Seq<Piece>,
    pub garbage: u32,
    pub interruptible: bool,
}

impl View for Job {
    type V = JobView;

    open spec fn view(&self) -> JobView {
        JobView {
            field: field_rows(self.field),
            piece: self.piece,
            queue: self.queue@,
            garbage: self.garbage,
            interruptible: self.interruptible,
        }
    }
}

/// A request in the terms of the engine.
#[derive(Debug)]
pub struct Turn {
    pub field: [[bool; 10]; 40],
    pub current: Piece,
    pub hold: Option<Piece>,
    pub next: Vec<Piece>,
    pub garbage: u32,
}

#[verifier::ext_equal]
pub struct TurnView {
    pub field: Seq<Seq<bool>>,
    pub current: Piece,
    pub hold: Option<Piece>,
    pub next: Seq<Piece>,
    pub garbage: u32,
}

impl View for Turn {
    type V = TurnView;

    open spec fn view(&self) -> TurnView {
        TurnView {
            field: field_rows(self.field),
            current: self.current,
            hold: self.hold,
            next: self.next@,
            garbage: self.garbage,
        }
    }
}

/// The piece of a colour that may be absent.
pub open spec fn piece_if_any(color: Option<CellColor>) -> Option<Piece> {
    match color {
        Some(c) => piece_of(c),
        None => None,
    }
}

/// A game state in the terms of the engine; nothing if it has no current piece.
pub open spec fn turn_of(state: StateView) -> Option<TurnView> {
    match piece_if_any(state.current_piece) {
        Some(current) => Some(
            TurnView {
                field: locked_rows(state),
                current,
                hold: piece_if_any(state.hold_piece),
                next: pieces_of(state.next_queue),
                garbage: state.incoming_garbage,
            },
        ),
        None => None,
    }
}

impl TurnView {
    /// The search for the current piece.
    pub open spec fn direct_job(self) -> JobView {
        JobView {
            field: self.field,
            piece: self.current,
            queue: front(self.next, MAX_NEXT_PIECES as int),
            garbage: self.garbage,
            interruptible: false,
        }
    }

    /// The search for the piece that comes out of the hold box.
    pub open spec fn hold_job(self, hold: Piece) -> JobView {
        JobView {
            field: self.field,
            piece: hold,
            queue: queue_after_hold(self.current, self.next),
            garbage: self.garbage,
            interruptible: false,
        }
    }

    /// The search for a piece of the next queue, on the field as it is now.
    pub open spec fn prefetch_job(self, i: int) -> JobView {
        JobView {
            field: self.field,
            piece: self.next[i],
            queue: front(self.next.skip(i + 1), MAX_NEXT_PIECES as int),
            garbage: self.garbage,
            interruptible: true,
        }
    }

    /// Whether a placement is prepared for the `i`-th next piece.
    pub open spec fn prefetches(self, i: int) -> bool {
        0 <= i < self.next.len() && i < PREFETCH_PIECES
    }
}

/// What the worker is waiting for.
#[derive(Debug)]
pub enum Phase {
    /// A request.
    Waiting,
    /// A newer request than the one it has.
    Draining(GameState),
    /// The placement of the current piece.
    Direct(Turn),
    /// The placement of the piece from the hold box, having that of the current
    /// piece.
    Hold(Turn, OverlayPlacement),
    /// The delivery of the suggestion.
    Suggested(Turn),
    /// A request that interrupts the preparation of the `i`-th next piece.
    Polling(Turn, usize),
    /// The placement of the `i`-th next piece, or a request that ends the search
    /// for it.
    Prefetching(Turn, usize),
    /// A request that comes before the delivery of the placement of the `i`-th
    /// next piece, having that placement.
    Found(Turn, usize, OverlayPlacement),
    /// The delivery of the placement of the `i`-th next piece.
    Prefetched(Turn, usize),
    /// Nothing: the worker has stopped.
    Stopped,
}

pub enum PhaseView {
    Waiting,
    Draining(StateView),
    Direct(TurnView),
    Hold(TurnView, OverlayPlacement),
    Suggested(TurnView),
    Polling(TurnView, int),
    Prefetching(TurnView, int),
    Found(TurnView, int, OverlayPlacement),
    Prefetched(TurnView, int),
    Stopped,
}

impl View for Phase {
    type V = PhaseView;

    open spec fn view(&self) -> PhaseView {
        match *self {
            Phase::Waiting => PhaseView::Waiting,
            Phase::Draining(state) => PhaseView::Draining(state@),
            Phase::Direct(turn) => PhaseView::Direct(turn@),
            Phase::Hold(turn, direct) => PhaseView::Hold(turn@, direct),
            Phase::Suggested(turn) => PhaseView::Suggested(turn@),
            Phase::Polling(turn, i) => PhaseView::Polling(turn@, i as int),
            Phase::Prefetching(turn, i) => PhaseView::Prefetching(turn@, i as int),
            Phase::Found(turn, i, placement) => PhaseView::Found(turn@, i as int, placement),
            Phase::Prefetched(turn, i) => PhaseView::Prefetched(turn@, i as int),
            Phase::Stopped => PhaseView::Stopped,
        }
    }
}

/// What came of an action.
#[derive(Debug)]
pub enum Event {
    /// A request was received.
    Request(GameState),
    /// There was no request to receive.
    NoRequest,
    /// No request will ever come.
    Disconnected,
    /// A search ended.
    Computed(Option<OverlayPlacement>),
    /// A result was delivered.
    Sent,
}

pub enum EventView {
    Request(StateView),
    NoRequest,
    Disconnected,
    Computed(Option<OverlayPlacement>),
    Sent,
}

impl View for Event {
    type V = EventView;

    open spec fn view(&self) -> EventView {
        match *self {
            Event::Request(state) => EventView::Request(state@),
            Event::NoRequest => EventView::NoRequest,
            Event::Disconnected => EventView::Disconnected,
            Event::Computed(placement) => EventView::Computed(placement),
            Event::Sent => EventView::Sent,
        }
    }
}

/// What the worker asks for.
#[derive(Debug)]
pub enum Action {
    /// Wait for a request.
    Receive,
    /// Receive a request if there is one.
    TryReceive,
    /// Carry out a search.
    Compute(Job),
    /// Deliver a suggestion.
    SendSuggestion(AiSuggestion),
    /// Deliver the placement of a next piece, under its colour.
    SendPrefetch(CellColor, OverlayPlacement),
    /// Stop.
    Exit,
}

pub enum ActionView {
    Receive,
    TryReceive,
    Compute(JobView),
    SendSuggestion(AiSuggestion),
    SendPrefetch(CellColor, OverlayPlacement),
    Exit,
}

impl View for Action {
    type V = ActionView;

    open spec fn view(&self) -> ActionView {
        match *self {
            Action::Receive => ActionView::Receive,
            Action::TryReceive => ActionView::TryReceive,
            Action::Compute(job) => ActionView::Compute(job@),
            Action::SendSuggestion(suggestion) => ActionView::SendSuggestion(suggestion),
            Action::SendPrefetch(color, placement) => ActionView::SendPrefetch(color, placement),
            Action::Exit => ActionView::Exit,
        }
    }
}

// ---- the transitions ----

/// Going back to wait for a request.
pub open spec fn rest() -> (PhaseView, ActionView) {
    (PhaseView::Waiting, ActionView::Receive)
}

/// Stopping for good.
pub open spec fn stop() -> (PhaseView, ActionView) {
    (PhaseView::Stopped, ActionView::Exit)
}

/// Looking for a newer request than the given one.
pub open spec fn drain(state: StateView) -> (PhaseView, ActionView) {
    (PhaseView::Draining(state), ActionView::TryReceive)
}

/// Delivering a suggestion.
pub open spec fn suggest(
    turn: TurnView,
    direct: OverlayPlacement,
    hold_option: Option<OverlayPlacement>,
) -> (PhaseView, ActionView) {
    (
        PhaseView::Suggested(turn),
        ActionView::SendSuggestion(AiSuggestion { direct, hold_option }),
    )
}

/// Turning to the `i`-th next piece: the worker first looks for a new request.
/// It goes back to rest once enough pieces are prepared, or if it is cancelled.
pub open spec fn prefetch(turn: TurnView, i: int, cancelled: bool) -> (PhaseView, ActionView) {
    if turn.prefetches(i) && !cancelled {
        (PhaseView::Polling(turn, i), ActionView::TryReceive)
    } else {
        rest()
    }
}

/// The next phase and the next action.
pub open spec fn next(phase: PhaseView, event: EventView, cancelled: bool) -> (
    PhaseView,
    ActionView,
) {
    match (phase, event) {
        (PhaseView::Waiting, EventView::Request(state)) => drain(state),
        (PhaseView::Waiting, EventView::Disconnected) => stop(),
        (PhaseView::Draining(_), EventView::Request(newer)) => drain(newer),
        (PhaseView::Draining(state), EventView::NoRequest) => if cancelled {
            stop()
        } else {
            match turn_of(state) {
                Some(turn) => (PhaseView::Direct(turn), ActionView::Compute(turn.direct_job())),
                None => rest(),
            }
        },
        (PhaseView::Direct(turn), EventView::Computed(placement)) => if cancelled {
            stop()
        } else {
            match (placement, turn.hold) {
                (Some(direct), Some(hold)) => (
                    PhaseView::Hold(turn, direct),
                    ActionView::Compute(turn.hold_job(hold)),
                ),
                (Some(direct), None) => suggest(turn, direct, None),
                (None, _) => rest(),
            }
        },
        (PhaseView::Hold(turn, direct), EventView::Computed(placement)) => if placement is None
            && cancelled {
            stop()
        } else {
            suggest(turn, direct, placement)
        },
        (PhaseView::Suggested(turn), EventView::Sent) => prefetch(turn, 0, cancelled),
        (PhaseView::Polling(_, _), EventView::Request(state)) => drain(state),
        (PhaseView::Polling(turn, i), EventView::NoRequest) => (
            PhaseView::Prefetching(turn, i),
            ActionView::Compute(turn.prefetch_job(i)),
        ),
        (PhaseView::Prefetching(_, _), EventView::Request(state)) => drain(state),
        (PhaseView::Prefetching(turn, i), EventView::Computed(placement)) => match placement {
            Some(p) => (PhaseView::Found(turn, i, p), ActionView::TryReceive),
            None => prefetch(turn, i + 1, cancelled),
        },
        (PhaseView::Found(_, _, _), EventView::Request(state)) => drain(state),
        (PhaseView::Found(turn, i, p), EventView::NoRequest) => (
            PhaseView::Prefetched(turn, i),
            ActionView::SendPrefetch(color_of(turn.next[i]), p),
        ),
        (PhaseView::Prefetched(turn, i), EventView::Sent) => prefetch(turn, i + 1, cancelled),
        _ => stop(),
    }
}

/// Whether an event answers what a phase is waiting for.
pub open spec fn answers(phase: PhaseView, event: EventView) -> bool {
    match phase {
        PhaseView::Waiting => event is Request || event is Disconnected,
        PhaseView::Draining(_) => event is Request || event is NoRequest,
        PhaseView::Direct(_) => event is Computed,
        PhaseView::Hold(_, _) => event is Computed,
        PhaseView::Suggested(_) => event is Sent,
        PhaseView::Polling(_, _) => event is Request || event is NoRequest,
        PhaseView::Prefetching(_, _) => event is Request || event is Computed,
        PhaseView::Found(_, _, _) => event is Request || event is NoRequest,
        PhaseView::Prefetched(_, _) => event is Sent,
        PhaseView::Stopped => false,
    }
}

/// What holds of every phase that the worker reaches: the piece it prepares is
/// one of the first in the queue.
pub open spec fn sound(phase: PhaseView) -> bool {
    match phase {
        PhaseView::Polling(turn, i) => turn.prefetches(i),
        PhaseView::Prefetching(turn, i) => turn.prefetches(i),
        PhaseView::Found(turn, i, _) => turn.prefetches(i),
        PhaseView::Prefetched(turn, i) => turn.prefetches(i),
        _ => true,
    }
}

// ---- the worker ----

/// The background worker.
#[derive(Debug)]
pub struct AiWorker {
    phase: Phase,
}

fn prepare(state: &GameState) -> (turn: Option<Turn>)
    ensures
        match turn {
            Some(t) => turn_of(state@) == Some(t@),
            None => turn_of(state@) is None,
        },
{
    let current = match state.current_piece {
        Some(color) => match color_to_piece(color) {
            Some(piece) => piece,
            None => {
                return None;
            },
        },
        None => {
            return None;
        },
    };
    let hold = match state.hold_piece {
        Some(color) => color_to_piece(color),
        None => None,
    };
    let field = build_field_from_vision(&state.board, state.current_piece);
    proof {
        let rows = field_rows(field);
        let goal = locked_rows(state@);
        assert forall|row: int| 0 <= row < 40 implies rows[row] == goal[row] by {
            assert forall|col: int| 0 <= col < 10 implies rows[row][col] == goal[row][col] by {
                assert(field@[row]@[col] == locked(state.board, state.current_piece, row, col));
            }
            assert(rows[row] =~= goal[row]);
        }
        assert(rows =~= goal);
    }
    Some(
        Turn {
            field,
            current,
            hold,
            next: queue_pieces(&state.next_queue),
            garbage: state.incoming_garbage,
        },
    )
}

impl AiWorker {
    /// What the worker is waiting for.
    pub closed spec fn phase(self) -> PhaseView {
        self.phase@
    }

    #[verifier::type_invariant]
    spec fn is_sound(self) -> bool {
        sound(self.phase@)
    }

    fn at(phase: Phase, action: Action) -> (out: (AiWorker, Action))
        requires
            sound(phase@),
        ensures
            out.0.phase() == phase@,
            out.1 == action,
    {
        (AiWorker { phase }, action)
    }

    fn turn_to(turn: Turn, i: usize, cancelled: bool) -> (out: (AiWorker, Action))
        ensures
            (out.0.phase(), out.1@) == prefetch(turn@, i as int, cancelled),
    {
        if i < turn.next.len() && i < PREFETCH_PIECES && !cancelled {
            Self::at(Phase::Polling(turn, i), Action::TryReceive)
        } else {
            Self::at(Phase::Waiting, Action::Receive)
        }
    }

    /// A worker that has just started, and its first action.
    pub fn start() -> (out: (AiWorker, Action))
        ensures
            (out.0.phase(), out.1@) == rest(),
    {
        Self::at(Phase::Waiting, Action::Receive)
    }

    /// Takes what came of the last action and says what to do next.
    pub fn step(self, event: Event, cancelled: bool) -> (out: (AiWorker, Action))
        requires
            answers(self.phase(), event@),
        ensures
            (out.0.phase(), out.1@) == next(self.phase(), event@, cancelled),
    {
        proof {
            use_type_invariant(&self);
        }
        let AiWorker { phase } = self;
        match (phase, event) {
            (Phase::Waiting, Event::Request(state)) => Self::at(
                Phase::Draining(state),
                Action::TryReceive,
            ),
            (Phase::Draining(_), Event::Request(newer)) => Self::at(
                Phase::Draining(newer),
                Action::TryReceive,
            ),
            (Phase::Draining(state), Event::NoRequest) => {
                if cancelled {
                    return Self::at(Phase::Stopped, Action::Exit);
                }
                match prepare(&state) {
                    Some(turn) => {
                        let queue = capped(&turn.next, 0, MAX_NEXT_PIECES);
                        assert(turn.next@.skip(0) =~= turn.next@);
                        let job = Job {
                            field: turn.field,
                            piece: turn.current,
                            queue,
                            garbage: turn.garbage,
                            interruptible: false,
                        };
                        Self::at(Phase::Direct(turn), Action::Compute(job))
                    },
                    None => Self::at(Phase::Waiting, Action::Receive),
                }
            },
            (Phase::Direct(turn), Event::Computed(placement)) => {
                if cancelled {
                    return Self::at(Phase::Stopped, Action::Exit);
                }
                match placement {
                    Some(direct) => match turn.hold {
                        Some(hold) => {
                            let queue = hold_queue(turn.current, &turn.next);
                            let job = Job {
                                field: turn.field,
                                piece: hold,
                                queue,
                                garbage: turn.garbage,
                                interruptible: false,
                            };
                            Self::at(Phase::Hold(turn, direct), Action::Compute(job))
                        },
                        None => Self::at(
                            Phase::Suggested(turn),
                            Action::SendSuggestion(AiSuggestion { direct, hold_option: None }),
                        ),
                    },
                    None => Self::at(Phase::Waiting, Action::Receive),
                }
            },
            (Phase::Hold(turn, direct), Event::Computed(placement)) => {
                if placement.is_none() && cancelled {
                    return Self::at(Phase::Stopped, Action::Exit);
                }
                Self::at(
                    Phase::Suggested(turn),
                    Action::SendSuggestion(AiSuggestion { direct, hold_option: placement }),
                )
            },
            (Phase::Suggested(turn), Event::Sent) => Self::turn_to(turn, 0, cancelled),
            (Phase::Polling(_, _), Event::Request(state)) => Self::at(
                Phase::Draining(state),
                Action::TryReceive,
            ),
            (Phase::Polling(turn, i), Event::NoRequest) => {
                let queue = capped(&turn.next, i + 1, MAX_NEXT_PIECES);
                let job = Job {
                    field: turn.field,
                    piece: turn.next[i],
                    queue,
                    garbage: turn.garbage,
                    interruptible: true,
                };
                Self::at(Phase::Prefetching(turn, i), Action::Compute(job))
            },
            (Phase::Prefetching(_, _), Event::Request(state)) => Self::at(
                Phase::Draining(state),
                Action::TryReceive,
            ),
            (Phase::Prefetching(turn, i), Event::Computed(placement)) => match placement {
                Some(p) => Self::at(Phase::Found(turn, i, p), Action::TryReceive),
                None => Self::turn_to(turn, i + 1, cancelled),
            },
            (Phase::Found(_, _, _), Event::Request(state)) => Self::at(
                Phase::Draining(state),
                Action::TryReceive,
            ),
            (Phase::Found(turn, i, p), Event::NoRequest) => {
                let color = piece_to_color(turn.next[i]);
                Self::at(Phase::Prefetched(turn, i), Action::SendPrefetch(color, p))
            },
            (Phase::Prefetched(turn, i), Event::Sent) => Self::turn_to(turn, i + 1, cancelled),
            _ => Self::at(Phase::Stopped, Action::Exit),
        }
    }
}

// ---- what the worker guarantees ----

/// Whatever happens, the worker prepares none but the first pieces of the
/// queue.
pub proof fn law_worker_stays_sound(phase: PhaseView, event: EventView, cancelled: bool)
    requires
        sound(phase),
    ensures
        sound(next(phase, event, cancelled).0),
{
}

/// The engine is never told about more pieces than it has room for.
pub proof fn law_queue_fits_the_engine(phase: PhaseView, event: EventView, cancelled: bool)
    requires
        sound(phase),
    ensures
        next(phase, event, cancelled).1 matches ActionView::Compute(job) ==> job.queue.len()
            <= MAX_NEXT_PIECES,
{
}

/// The phase and action after a request and `n` newer ones.
pub open spec fn after_requests(newer: Seq<StateView>, n: int, first: StateView) -> (
    PhaseView,
    ActionView,
)
    decreases n,
{
    if n <= 0 {
        drain(first)
    } else {
        next(after_requests(newer, n - 1, first).0, EventView::Request(newer[n - 1]), false)
    }
}

/// Of several requests that have piled up only the latest is answered.
pub proof fn law_latest_request_wins(first: StateView, newer: Seq<StateView>, n: int)
    requires
        0 <= n <= newer.len(),
    ensures
        after_requests(newer, n, first) == drain(
            if n == 0 {
                first
            } else {
                newer[n - 1]
            },
        ),
        n > 0 ==> next(after_requests(newer, n, first).0, EventView::NoRequest, false) == (match turn_of(
            newer[n - 1],
        ) {
            Some(turn) => (PhaseView::Direct(turn), ActionView::Compute(turn.direct_job())),
            None => rest(),
        }),
    decreases n,
{
    if n > 0 {
        law_latest_request_wins(first, newer, n - 1);
    }
}

/// A request that comes in while placements are being prepared ends the
/// preparation, be it before a search, during one or right after it, and is what
/// the worker turns to next. What a search has found by then is not delivered.
pub proof fn law_request_interrupts_preparation(
    turn: TurnView,
    i: int,
    found: OverlayPlacement,
    state: StateView,
    cancelled: bool,
)
    ensures
        next(PhaseView::Polling(turn, i), EventView::Request(state), cancelled) == next(
            PhaseView::Waiting,
            EventView::Request(state),
            cancelled,
        ),
        next(PhaseView::Prefetching(turn, i), EventView::Request(state), cancelled) == next(
            PhaseView::Waiting,
            EventView::Request(state),
            cancelled,
        ),
        turn.prefetch_job(i).interruptible,
        ({
            let (phase, action) = next(
                PhaseView::Prefetching(turn, i),
                EventView::Computed(Some(found)),
                cancelled,
            );
            &&& action == ActionView::TryReceive
            &&& next(phase, EventView::Request(state), cancelled) == next(
                PhaseView::Waiting,
                EventView::Request(state),
                cancelled,
            )
        }),
{
}

/// The answer to a request that comes in during the preparation is the next
/// thing that is delivered.
pub proof fn law_interrupting_request_is_answered_next(
    old_turn: TurnView,
    i: int,
    found: OverlayPlacement,
    state: StateView,
    turn: TurnView,
    direct: OverlayPlacement,
    held: Option<OverlayPlacement>,
)
    requires
        turn_of(state) == Some(turn),
    ensures
        ({
            let (p1, a1) = next(
                PhaseView::Prefetching(old_turn, i),
                EventView::Computed(Some(found)),
                false,
            );
            let (p2, a2) = next(p1, EventView::Request(state), false);
            let interrupted = next(
                PhaseView::Prefetching(old_turn, i),
                EventView::Request(state),
                false,
            );
            let (p3, a3) = next(p2, EventView::NoRequest, false);
            let (p4, a4) = next(p3, EventView::Computed(Some(direct)), false);
            let (p5, a5) = next(p4, EventView::Computed(held), false);
            &&& a1 == ActionView::TryReceive
            &&& a2 == ActionView::TryReceive
            &&& interrupted == (p2, a2)
            &&& a3 == ActionView::Compute(turn.direct_job())
            &&& match turn.hold {
                Some(hold) => {
                    &&& a4 == ActionView::Compute(turn.hold_job(hold))
                    &&& a5 == ActionView::SendSuggestion(
                        AiSuggestion { direct, hold_option: held },
                    )
                },
                None => a4 == ActionView::SendSuggestion(
                    AiSuggestion { direct, hold_option: None },
                ),
            }
        }),
{
}

/// A request with a current piece is answered by the placements that the
/// searches find: one for the current piece, and one for the hold piece if there
/// is a hold piece.
pub proof fn law_answer_reports_both_searches(
    state: StateView,
    turn: TurnView,
    direct: OverlayPlacement,
    held: Option<OverlayPlacement>,
)
    requires
        turn_of(state) == Some(turn),
    ensures
        ({
            let (p1, a1) = next(PhaseView::Draining(state), EventView::NoRequest, false);
            let (p2, a2) = next(p1, EventView::Computed(Some(direct)), false);
            let (p3, a3) = next(p2, EventView::Computed(held), false);
            &&& a1 == ActionView::Compute(turn.direct_job())
            &&& match turn.hold {
                Some(hold) => {
                    &&& a2 == ActionView::Compute(turn.hold_job(hold))
                    &&& a3 == ActionView::SendSuggestion(
                        AiSuggestion { direct, hold_option: held },
                    )
                },
                None => a2 == ActionView::SendSuggestion(
                    AiSuggestion { direct, hold_option: None },
                ),
            }
        }),
{
}

/// A worker that is cancelled before a search or by the time the search for the
/// current piece ends stops without an answer.
pub proof fn law_cancelled_worker_stops(
    state: StateView,
    turn: TurnView,
    found: Option<OverlayPlacement>,
)
    ensures
        next(PhaseView::Draining(state), EventView::NoRequest, true) == stop(),
        next(PhaseView::Direct(turn), EventView::Computed(found), true) == stop(),
{
}

/// Undisturbed, the worker prepares the next pieces one after the other: it
/// searches for the `i`-th, delivers what the search finds under the colour of
/// that piece, and turns to the piece after it.
pub proof fn law_preparation_follows_the_queue(turn: TurnView, i: int, placement: OverlayPlacement)
    requires
        turn.prefetches(i),
    ensures
        ({
            let (p1, a1) = prefetch(turn, i, false);
            let (p2, a2) = next(p1, EventView::NoRequest, false);
            let (p3, a3) = next(p2, EventView::Computed(Some(placement)), false);
            let (p4, a4) = next(p3, EventView::NoRequest, false);
            &&& a1 == ActionView::TryReceive
            &&& a2 == ActionView::Compute(turn.prefetch_job(i))
            &&& a3 == ActionView::TryReceive
            &&& a4 == ActionView::SendPrefetch(color_of(turn.next[i]), placement)
            &&& next(p4, EventView::Sent, false) == prefetch(turn, i + 1, false)
            &&& next(p2, EventView::Computed(None), false) == prefetch(turn, i + 1, false)
        }),
{
}

/// The preparation starts with the piece that comes next, as soon as the
/// suggestion is delivered, and covers at most three pieces.
pub proof fn law_preparation_starts_after_the_answer(turn: TurnView)
    ensures
        next(PhaseView::Suggested(turn), EventView::Sent, false) == prefetch(turn, 0, false),
        prefetch(turn, PREFETCH_PIECES as int, false) == rest(),
        prefetch(turn, turn.next.len() as int, false) == rest(),
{
}

/// Whether a phase deals with a request: the latest one, or the turn that has been
/// made of it.
pub open spec fn handles(phase: PhaseView, state: StateView) -> bool {
    match phase {
        PhaseView::Draining(latest) => latest == state,
        PhaseView::Direct(turn) => turn_of(state) == Some(turn),
        PhaseView::Hold(turn, _) => turn_of(state) == Some(turn),
        PhaseView::Suggested(turn) => turn_of(state) == Some(turn),
        PhaseView::Polling(turn, _) => turn_of(state) == Some(turn),
        PhaseView::Prefetching(turn, _) => turn_of(state) == Some(turn),
        PhaseView::Found(turn, _, _) => turn_of(state) == Some(turn),
        PhaseView::Prefetched(turn, _) => turn_of(state) == Some(turn),
        PhaseView::Waiting => false,
        PhaseView::Stopped => false,
    }
}

/// The worker deals with a request until the next one comes in or it has nothing
/// left to do.
pub proof fn law_request_is_dealt_with(
    phase: PhaseView,
    event: EventView,
    cancelled: bool,
    state: StateView,
)
    requires
        answers(phase, event),
    ensures
        event == EventView::Request(state) ==> handles(next(phase, event, cancelled).0, state),
        handles(phase, state) && !(event is Request) ==> {
            ||| handles(next(phase, event, cancelled).0, state)
            ||| next(phase, event, cancelled) == (PhaseView::Waiting, ActionView::Receive)
            ||| next(phase, event, cancelled) == (PhaseView::Stopped, ActionView::Exit)
        },
{
}

/// Every search that the worker asks for while it deals with a request, be it for
/// the current piece, the hold piece or a next piece, is on the locked field of that
/// request and with its incoming garbage.
pub proof fn law_searches_are_on_the_requested_field(
    phase: PhaseView,
    event: EventView,
    cancelled: bool,
    state: StateView,
    row: int,
    col: int,
)
    requires
        answers(phase, event),
        handles(phase, state),
        !(event is Request),
        0 <= row < 40,
        0 <= col < 10,
    ensures
        next(phase, event, cancelled).1 matches ActionView::Compute(job) ==> {
            &&& job.field.len() == 40
            &&& job.field[row].len() == 10
            &&& job.field[row][col] == locked(state.board, state.current_piece, row, col)
            &&& job.garbage == state.incoming_garbage
        },
{
}

/// The search for the current piece is for its very piece, with the first pieces of
/// the next queue in order, and cannot be interrupted.
pub proof fn law_direct_search_is_for_the_current_piece(
    state: StateView,
    color: CellColor,
    current: Piece,
    k: int,
)
    requires
        state.current_piece == Some(color),
        piece_of(color) == Some(current),
    ensures
        next(PhaseView::Draining(state), EventView::NoRequest, false).1 matches ActionView::Compute(
            job,
        ) && {
            &&& job.piece == current
            &&& !job.interruptible
            &&& job.queue.len() == if pieces_of(state.next_queue).len() < 5 {
                pieces_of(state.next_queue).len()
            } else {
                5
            }
            &&& 0 <= k < job.queue.len() ==> job.queue[k] == pieces_of(state.next_queue)[k]
        },
{
}

/// A request without a current piece is dropped.
pub proof fn law_request_without_a_piece_is_dropped(state: StateView)
    requires
        state.current_piece matches Some(color) ==> !color.is_piece(),
    ensures
        next(PhaseView::Draining(state), EventView::NoRequest, false) == (
            PhaseView::Waiting,
            ActionView::Receive,
        ),
{
}

/// The search for the hold piece follows that for the current piece. It is for the
/// piece in the hold box, and the current piece comes right after it, followed by
/// the first pieces of the next queue.
pub proof fn law_hold_search_is_for_the_hold_piece(
    state: StateView,
    phase: PhaseView,
    color: CellColor,
    current: Piece,
    held: CellColor,
    hold: Piece,
    direct: OverlayPlacement,
    k: int,
)
    requires
        phase is Direct,
        handles(phase, state),
        state.current_piece == Some(color),
        piece_of(color) == Some(current),
        state.hold_piece == Some(held),
        piece_of(held) == Some(hold),
    ensures
        next(phase, EventView::Computed(Some(direct)), false).1 matches ActionView::Compute(job) && {
            &&& job.piece == hold
            &&& !job.interruptible
            &&& job.queue.len() == if pieces_of(state.next_queue).len() < 4 {
                pieces_of(state.next_queue).len() + 1
            } else {
                5
            }
            &&& job.queue[0] == current
            &&& 1 <= k < job.queue.len() ==> job.queue[k] == pieces_of(state.next_queue)[k - 1]
        },
{
}

/// The search that prepares the `i`-th next piece is for that piece, with the
/// pieces that follow it in the next queue, and a request may interrupt it.
pub proof fn law_prepared_search_is_for_the_next_piece(
    state: StateView,
    turn: TurnView,
    i: int,
    k: int,
)
    requires
        turn_of(state) == Some(turn),
        turn.prefetches(i),
    ensures
        next(PhaseView::Polling(turn, i), EventView::NoRequest, false).1 matches ActionView::Compute(
            job,
        ) && {
            let next_pieces = pieces_of(state.next_queue);
            &&& i < next_pieces.len()
            &&& job.piece == next_pieces[i]
            &&& job.interruptible
            &&& job.queue.len() == if next_pieces.len() - i - 1 < 5 {
                next_pieces.len() - i - 1
            } else {
                5
            }
            &&& 0 <= k < job.queue.len() ==> job.queue[k] == next_pieces[i + 1 + k]
        },
{
}

/// Of the next queue the first three pieces are prepared, or all of a shorter one.
pub proof fn law_first_three_pieces_are_prepared(state: StateView, turn: TurnView, i: int)
    requires
        turn_of(state) == Some(turn),
    ensures
        turn.prefetches(i) <==> 0 <= i < 3 && i < pieces_of(state.next_queue).len(),
{
}

/// What is found for the current piece and the hold piece is delivered as it is, and
/// a request with an empty hold box gets no placement for the hold piece.
pub proof fn law_found_placements_are_delivered(
    state: StateView,
    phase: PhaseView,
    direct: OverlayPlacement,
    held: Option<OverlayPlacement>,
)
    requires
        phase is Direct,
        handles(phase, state),
    ensures
        ({
            let (p1, a1) = next(phase, EventView::Computed(Some(direct)), false);
            let (p2, a2) = next(p1, EventView::Computed(held), false);
            match state.hold_piece {
                Some(c) => if c.is_piece() {
                    a1 is Compute && a2 == ActionView::SendSuggestion(
                        AiSuggestion { direct, hold_option: held },
                    )
                } else {
                    a1 == ActionView::SendSuggestion(AiSuggestion { direct, hold_option: None })
                },
                None => a1 == ActionView::SendSuggestion(
                    AiSuggestion { direct, hold_option: None },
                ),
            }
        }),
        next(phase, EventView::Computed(None), false) == (PhaseView::Waiting, ActionView::Receive),
{
}

/// A prepared placement is delivered as it was found, under the colour of the piece
/// it was prepared for.
pub proof fn law_prepared_placement_is_delivered(
    state: StateView,
    turn: TurnView,
    i: int,
    found: OverlayPlacement,
    cancelled: bool,
)
    requires
        turn_of(state) == Some(turn),
        turn.prefetches(i),
    ensures
        ({
            let (p1, a1) = next(
                PhaseView::Prefetching(turn, i),
                EventView::Computed(Some(found)),
                cancelled,
            );
            next(p1, EventView::NoRequest, cancelled).1 matches ActionView::SendPrefetch(
                color,
                placement,
            ) && {
                &&& placement == found
                &&& piece_of(color) == Some(pieces_of(state.next_queue)[i])
            }
        }),
{
    crate::ai::law_pieces_match_colors(turn.next[i], CellColor::Empty);
}

/// A worker that is cancelled gives up where it stands: it stops when the search for the hold
/// piece has found nothing, delivers what that search has found, and prepares no further
/// piece. One whose requests have ended stops.
pub proof fn law_cancelled_worker_prepares_nothing(
    turn: TurnView,
    i: int,
    direct: OverlayPlacement,
    held: OverlayPlacement,
    cancelled: bool,
)
    ensures
        next(PhaseView::Hold(turn, direct), EventView::Computed(None), true) == (
            PhaseView::Stopped,
            ActionView::Exit,
        ),
        next(PhaseView::Hold(turn, direct), EventView::Computed(Some(held)), cancelled).1
            == ActionView::SendSuggestion(AiSuggestion { direct, hold_option: Some(held) }),
        next(PhaseView::Hold(turn, direct), EventView::Computed(None), false).1
            == ActionView::SendSuggestion(AiSuggestion { direct, hold_option: None }),
        next(PhaseView::Suggested(turn), EventView::Sent, true) == (
            PhaseView::Waiting,
            ActionView::Receive,
        ),
        next(PhaseView::Prefetched(turn, i), EventView::Sent, true) == (
            PhaseView::Waiting,
            ActionView::Receive,
        ),
        next(PhaseView::Prefetching(turn, i), EventView::Computed(None), true) == (
            PhaseView::Waiting,
            ActionView::Receive,
        ),
        next(PhaseView::Waiting, EventView::Disconnected, cancelled) == (
            PhaseView::Stopped,
            ActionView::Exit,
        ),
{
}

/// A request is received, then newer ones are looked for, and the first search follows.
pub proof fn law_request_leads_to_a_search(state: StateView, color: CellColor, cancelled: bool)
    requires
        state.current_piece == Some(color),
        color.is_piece(),
    ensures
        ({
            let (p1, a1) = next(PhaseView::Waiting, EventView::Request(state), cancelled);
            let (p2, a2) = next(p1, EventView::NoRequest, false);
            &&& a1 == ActionView::TryReceive
            &&& handles(p1, state)
            &&& a2 is Compute
            &&& p2 is Direct
            &&& handles(p2, state)
        }),
{
}

} // verus!
