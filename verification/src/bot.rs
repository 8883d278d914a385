//! The main loop: capture a frame, read it, ask for placements, show them.
//!
//! The loop is a state machine over the state that it shares with the overlay
//! and the control panel. Whoever runs it performs the action that it asks for
//! and hands back what came of it.
use crate::ai::{AiSuggestion, OverlayPlacement};
use crate::color::CellColor;
use crate::component::{cell_at, scan_cell};
use crate::vision::{count_piece_cells, piece_cells, GameState, StateView};
use std::collections::HashMap;
use vstd::prelude::*;

verus! {

broadcast use vstd::std_specs::hash::group_hash_axioms;

// ---- the shared state ----

/// The state that the main loop shares with the overlay and the control panel.
#[derive(Debug)]
pub struct BotState {
    pub enabled: bool,
    pub paused: bool,
    pub status_text: String,
    /// The placements that the overlay shows.
    pub current_suggestion: Option<AiSuggestion>,
    /// How far the last frame can be trusted, in percent.
    pub vision_confidence_pct: u8,
}

/// The contents of the shared state.
#[verifier::ext_equal]
pub struct BotView {
    pub enabled: bool,
    pub paused: bool,
    pub status: Seq<char>,
    pub suggestion: Option<AiSuggestion>,
    pub confidence: u8,
}

impl View for BotState {
    type V = BotView;

    open spec fn view(&self) -> BotView {
        BotView {
            enabled: self.enabled,
            paused: self.paused,
            status: self.status_text@,
            suggestion: self.current_suggestion,
            confidence: self.vision_confidence_pct,
        }
    }
}

impl BotState {
    /// The state at startup: stopped, nothing to show.
    pub fn new() -> (state: Self)
        ensures
            state@ == (BotView {
                enabled: false,
                paused: false,
                status: "Stopped"@,
                suggestion: None,
                confidence: 100,
            }),
    {
        BotState {
            enabled: false,
            paused: false,
            status_text: "Stopped".to_owned(),
            current_suggestion: None,
            vision_confidence_pct: 100,
        }
    }

    /// Sets the status line.
    pub fn set_status(&mut self, s: &str)
        ensures
            final(self)@ == (BotView { status: s@, ..old(self)@ }),
    {
        self.status_text = s.to_owned();
    }
}

// ---- small decisions ----

/// Whether a key was pressed since it was last asked for, given the state that
/// the system reports for it: the lowest bit says so.
pub fn key_just_pressed(state: i16) -> (pressed: bool)
    ensures
        pressed == (state as int % 2 == 1),
{
    assert((state & 1i16 != 0) == (state % 2 == 1)) by (bit_vector);
    (state & 1) != 0
}

/// The time that a frame is meant to take, in nanoseconds.
pub open spec fn frame_time(fps: int) -> int {
    1000int / fps * 1_000_000
}

// ---- the loop ----

/// How long to wait for a suggestion, in nanoseconds.
pub const MOVE_TIMEOUT: u64 = 5_000_000_000;

pub const SLEEP_IDLE: u64 = 50_000_000;

pub const SLEEP_NO_FRAME: u64 = 16_000_000;

pub const SLEEP_BAD_READ: u64 = 50_000_000;

pub const SLEEP_NO_PIECE: u64 = 100_000_000;

/// What the loop is waiting for.
#[derive(Debug, Clone, Copy, PartialEq, Eq, Structural)]
pub enum LoopPhase {
    /// The state of the start and stop key.
    ToggleKey,
    /// The engine's restart.
    Restart,
    /// The state of the pause key.
    PauseKey,
    /// Prepared placements.
    Prefetched,
    /// The suggestion for the current piece.
    Suggestion,
    /// A frame.
    Frame,
    /// The check whether a repeated frame has changed after all.
    DirtyCheck,
    /// The game state on a frame.
    Reading,
    /// The engine's restart, to make way for a new request.
    Superseding,
    /// The delivery of a request.
    Submitting,
    /// The time that the frame has taken.
    FrameTime,
    /// The end of a pause.
    Sleeping,
}

/// What came of an action. Times are in nanoseconds on a clock that never goes
/// back.
#[derive(Debug)]
pub enum LoopEvent {
    /// Whether the key was pressed.
    Key(bool),
    /// The action is done.
    Done,
    /// The placements that have been prepared, oldest first.
    Prefetched(Vec<(CellColor, OverlayPlacement)>),
    /// The suggestion if there is one, and the time.
    Polled(Option<AiSuggestion>, u64),
    /// No frame could be captured.
    NoFrame,
    /// A fresh frame was captured.
    FreshFrame,
    /// The last frame was brought again.
    RepeatedFrame,
    /// Whether the frame has changed.
    Dirty(bool),
    /// The frame could not be read.
    ReadFailed,
    /// The game state on the frame, how far it can be trusted in percent, and
    /// whether that is enough.
    Read(GameState, u8, bool),
    /// The request was delivered at this time.
    Submitted(u64),
    /// The time that the frame has taken.
    Elapsed(u64),
}

pub enum LoopEventView {
    Key(bool),
    Done,
    Prefetched(Seq<(CellColor, OverlayPlacement)>),
    Polled(Option<AiSuggestion>, u64),
    NoFrame,
    FreshFrame,
    RepeatedFrame,
    Dirty(bool),
    ReadFailed,
    Read(StateView, u8, bool),
    Submitted(u64),
    Elapsed(u64),
}

impl View for LoopEvent {
    type V = LoopEventView;

    open spec fn view(&self) -> LoopEventView {
        match *self {
            LoopEvent::Key(pressed) => LoopEventView::Key(pressed),
            LoopEvent::Done => LoopEventView::Done,
            LoopEvent::Prefetched(list) => LoopEventView::Prefetched(list@),
            LoopEvent::Polled(suggestion, now) => LoopEventView::Polled(suggestion, now),
            LoopEvent::NoFrame => LoopEventView::NoFrame,
            LoopEvent::FreshFrame => LoopEventView::FreshFrame,
            LoopEvent::RepeatedFrame => LoopEventView::RepeatedFrame,
            LoopEvent::Dirty(dirty) => LoopEventView::Dirty(dirty),
            LoopEvent::ReadFailed => LoopEventView::ReadFailed,
            LoopEvent::Read(state, pct, trusted) => LoopEventView::Read(state@, pct, trusted),
            LoopEvent::Submitted(now) => LoopEventView::Submitted(now),
            LoopEvent::Elapsed(time) => LoopEventView::Elapsed(time),
        }
    }
}

/// What the loop asks for.
#[derive(Debug)]
pub enum LoopAction {
    /// Start a new frame and ask for the state of the start and stop key.
    PollToggleKey,
    /// Ask for the state of the pause key.
    PollPauseKey,
    /// Restart the engine.
    ResetEngine,
    /// Collect the prepared placements.
    DrainPrefetch,
    /// Ask for the suggestion.
    PollMove,
    /// Capture a frame.
    Capture,
    /// Check whether the frame has changed.
    CheckDirty,
    /// Read the game state off the frame.
    ReadFrame,
    /// Request placements for a game state.
    Submit(GameState),
    /// Measure the time since the frame was started.
    MeasureFrame,
    /// Pause for this long.
    Sleep(u64),
}

pub enum LoopActionView {
    PollToggleKey,
    PollPauseKey,
    ResetEngine,
    DrainPrefetch,
    PollMove,
    Capture,
    CheckDirty,
    ReadFrame,
    Submit(StateView),
    MeasureFrame,
    Sleep(u64),
}

impl View for LoopAction {
    type V = LoopActionView;

    open spec fn view(&self) -> LoopActionView {
        match *self {
            LoopAction::PollToggleKey => LoopActionView::PollToggleKey,
            LoopAction::PollPauseKey => LoopActionView::PollPauseKey,
            LoopAction::ResetEngine => LoopActionView::ResetEngine,
            LoopAction::DrainPrefetch => LoopActionView::DrainPrefetch,
            LoopAction::PollMove => LoopActionView::PollMove,
            LoopAction::Capture => LoopActionView::Capture,
            LoopAction::CheckDirty => LoopActionView::CheckDirty,
            LoopAction::ReadFrame => LoopActionView::ReadFrame,
            LoopAction::Submit(state) => LoopActionView::Submit(state@),
            LoopAction::MeasureFrame => LoopActionView::MeasureFrame,
            LoopAction::Sleep(time) => LoopActionView::Sleep(time),
        }
    }
}

/// What the loop remembers.
#[verifier::ext_equal]
pub struct LoopView {
    pub phase: LoopPhase,
    /// Whether a request has not been answered yet.
    pub waiting: bool,
    /// When that request was made.
    pub since: Option<u64>,
    /// The piece that placements were last requested for.
    pub locked: Option<CellColor>,
    /// The fullest reading of the next queue since that request.
    pub queue: Seq<CellColor>,
    /// How many cells of the board belonged to a piece at that request.
    pub pieces: int,
    /// The request that is to be made once the engine has restarted.
    pub pending: Option<StateView>,
    /// The prepared placements, by the position of their piece's colour.
    pub cache: Map<u8, OverlayPlacement>,
    /// The time that a frame is meant to take.
    pub frame_time: u64,
}

/// The loop, the shared state and the next action.
pub type Outcome = (LoopView, BotView, LoopActionView);

/// The key of a colour in the cache.
pub open spec fn cache_key(c: CellColor) -> u8 {
    c.spec_index() as u8
}

/// The cache after prepared placements have been added; later ones replace
/// earlier ones of the same colour.
pub open spec fn cached(
    cache: Map<u8, OverlayPlacement>,
    list: Seq<(CellColor, OverlayPlacement)>,
) -> Map<u8, OverlayPlacement>
    decreases list.len(),
{
    if list.len() == 0 {
        cache
    } else {
        cached(cache, list.drop_last()).insert(cache_key(list.last().0), list.last().1)
    }
}

/// The loop forgets everything it knows of the current game.
pub open spec fn forget(v: LoopView) -> LoopView {
    LoopView { locked: None, cache: Map::empty(), ..v }
}

/// The start and stop key was pressed.
pub open spec fn toggled(v: LoopView, b: BotView) -> Outcome {
    if b.enabled {
        (
            LoopView { phase: LoopPhase::PauseKey, ..forget(v) },
            BotView { enabled: false, suggestion: None, status: "Stopped"@, ..b },
            LoopActionView::PollPauseKey,
        )
    } else {
        (
            LoopView { phase: LoopPhase::Restart, waiting: false, ..forget(v) },
            BotView { enabled: true, paused: false, suggestion: None, ..b },
            LoopActionView::ResetEngine,
        )
    }
}

/// The shared state after the pause key was asked for; it only counts while the
/// bot is enabled.
pub open spec fn pause_toggled(b: BotView, pressed: bool) -> BotView {
    if pressed && b.enabled {
        BotView { paused: !b.paused, status: if b.paused { "Running"@ } else { "Paused"@ }, ..b }
    } else {
        b
    }
}

/// Pausing the loop; it starts over afterwards.
pub open spec fn sleep(v: LoopView, b: BotView, time: u64) -> Outcome {
    (LoopView { phase: LoopPhase::Sleeping, ..v }, b, LoopActionView::Sleep(time))
}

/// Ending the frame.
pub open spec fn end_frame(v: LoopView, b: BotView) -> Outcome {
    (LoopView { phase: LoopPhase::FrameTime, ..v }, b, LoopActionView::MeasureFrame)
}

/// Capturing a frame.
pub open spec fn capture(v: LoopView, b: BotView) -> Outcome {
    (LoopView { phase: LoopPhase::Frame, ..v }, b, LoopActionView::Capture)
}

/// Starting a new frame.
pub open spec fn new_frame(v: LoopView, b: BotView) -> Outcome {
    (LoopView { phase: LoopPhase::ToggleKey, ..v }, b, LoopActionView::PollToggleKey)
}

/// Reading the frame.
pub open spec fn read(v: LoopView, b: BotView) -> Outcome {
    (LoopView { phase: LoopPhase::Reading, ..v }, b, LoopActionView::ReadFrame)
}

/// Whether a request has been waiting for too long.
pub open spec fn timed_out(since: Option<u64>, now: u64) -> bool {
    since matches Some(then) && now - then > MOVE_TIMEOUT
}

/// The engine was asked for the suggestion: it is shown if there is one, and
/// given up on if it takes too long.
pub open spec fn polled(v: LoopView, b: BotView, answer: Option<AiSuggestion>, now: u64) -> Outcome {
    if answer is Some {
        capture(
            LoopView { waiting: false, since: None, ..v },
            BotView { suggestion: answer, ..b },
        )
    } else if timed_out(v.since, now) {
        capture(LoopView { waiting: false, since: None, ..v }, b)
    } else {
        capture(v, b)
    }
}

/// The suggestion to show at once for a new piece: the prepared placement if
/// there is one, else what is shown already.
pub open spec fn instant_suggestion(v: LoopView, b: BotView, piece: CellColor) -> Option<AiSuggestion> {
    if v.cache.contains_key(cache_key(piece)) {
        Some(AiSuggestion { direct: v.cache[cache_key(piece)], hold_option: None })
    } else {
        b.suggestion
    }
}

/// Whether a piece has been drawn from a queue between two readings of it: all
/// slots have moved up by one, and a new piece has come in at the end.
pub open spec fn is_drawn(before: Seq<CellColor>, now: Seq<CellColor>) -> bool {
    &&& before.len() > 0
    &&& now.len() == before.len()
    &&& now.drop_last() == before.skip(1)
    &&& now != before
}

/// Whether all slots of a queue show the same piece, so that the queue looks no
/// different once a piece has been drawn from it.
pub open spec fn is_uniform(queue: Seq<CellColor>) -> bool {
    forall|i: int, j: int| 0 <= i < queue.len() && 0 <= j < queue.len() ==> queue[i] == queue[j]
}

/// Whether the number of piece cells on a board has changed by more than one
/// moving piece can bring into view or take out of it.
pub open spec fn has_settled(before: int, now: int) -> bool {
    now - before >= 4 || before - now >= 4
}

/// Whether a game state shows that a piece has been drawn since the last request.
/// Where the queue cannot tell, the number of piece cells on the board does.
pub open spec fn draw_is_seen(v: LoopView, state: StateView) -> bool {
    ||| is_drawn(v.queue, state.next_queue)
    ||| {
        &&& v.queue == state.next_queue
        &&& is_uniform(v.queue)
        &&& has_settled(v.pieces, piece_cells(state.board, 200))
    }
}

/// Whether the piece on a game state has spawned since the last request: it has
/// another colour, or a piece has been drawn.
pub open spec fn is_spawn(v: LoopView, state: StateView, piece: CellColor) -> bool {
    v.locked != Some(piece) || draw_is_seen(v, state)
}

/// The fuller of two readings of a queue, the first if both have as many slots.
pub open spec fn fuller(before: Seq<CellColor>, now: Seq<CellColor>) -> Seq<CellColor> {
    if now.len() > before.len() {
        now
    } else {
        before
    }
}

/// The loop once it has taken a spawned piece for the current one.
pub open spec fn lock_on(v: LoopView, state: StateView, piece: CellColor) -> LoopView {
    LoopView {
        locked: Some(piece),
        queue: state.next_queue,
        pieces: piece_cells(state.board, 200),
        cache: v.cache.remove(cache_key(piece)),
        ..v
    }
}

/// A piece has spawned: placements are requested for it. If a request is still
/// waiting, the engine is restarted first, so that no answer to that one is taken
/// for an answer to the new one.
pub open spec fn spawned(v: LoopView, b: BotView, state: StateView, piece: CellColor) -> Outcome {
    let b = BotView { suggestion: instant_suggestion(v, b, piece), ..b };
    let v = lock_on(v, state, piece);
    if v.waiting {
        (
            LoopView { phase: LoopPhase::Superseding, pending: Some(state), ..v },
            b,
            LoopActionView::ResetEngine,
        )
    } else {
        (LoopView { phase: LoopPhase::Submitting, ..v }, b, LoopActionView::Submit(state))
    }
}

/// A game state was read. Without an active piece the loop waits for one; a
/// state that cannot be trusted clears the suggestion; a spawned piece is looked up
/// in the cache and placements are requested for it; of a piece that is still the
/// same the loop only takes note of a fuller queue.
pub open spec fn read_done(v: LoopView, b: BotView, state: StateView, pct: u8, trusted: bool) -> Outcome {
    let b = BotView { confidence: pct, ..b };
    match state.current_piece {
        Some(piece) => if !state.is_active {
            sleep(LoopView { locked: None, ..v }, b, SLEEP_NO_PIECE)
        } else if !trusted {
            sleep(LoopView { locked: None, ..v }, BotView { suggestion: None, ..b }, SLEEP_BAD_READ)
        } else if is_spawn(v, state, piece) {
            spawned(v, b, state, piece)
        } else {
            end_frame(LoopView { queue: fuller(v.queue, state.next_queue), ..v }, b)
        },
        None => sleep(LoopView { locked: None, ..v }, b, SLEEP_NO_PIECE),
    }
}

/// The next state of the loop, the shared state and the next action.
pub open spec fn next(v: LoopView, b: BotView, event: LoopEventView) -> Outcome {
    match (v.phase, event) {
        (LoopPhase::ToggleKey, LoopEventView::Key(pressed)) => if pressed {
            toggled(v, b)
        } else {
            (LoopView { phase: LoopPhase::PauseKey, ..v }, b, LoopActionView::PollPauseKey)
        },
        (LoopPhase::Restart, LoopEventView::Done) => (
            LoopView { phase: LoopPhase::PauseKey, ..v },
            BotView { status: "Running"@, ..b },
            LoopActionView::PollPauseKey,
        ),
        (LoopPhase::PauseKey, LoopEventView::Key(pressed)) => {
            let b = pause_toggled(b, pressed);
            if b.enabled && !b.paused {
                (LoopView { phase: LoopPhase::Prefetched, ..v }, b, LoopActionView::DrainPrefetch)
            } else {
                sleep(v, b, SLEEP_IDLE)
            }
        },
        (LoopPhase::Prefetched, LoopEventView::Prefetched(list)) => {
            let v = LoopView { cache: cached(v.cache, list), ..v };
            if v.waiting {
                (LoopView { phase: LoopPhase::Suggestion, ..v }, b, LoopActionView::PollMove)
            } else {
                capture(v, b)
            }
        },
        (LoopPhase::Suggestion, LoopEventView::Polled(answer, now)) => polled(v, b, answer, now),
        (LoopPhase::Frame, LoopEventView::NoFrame) => sleep(v, b, SLEEP_NO_FRAME),
        (LoopPhase::Frame, LoopEventView::FreshFrame) => read(v, b),
        (LoopPhase::Frame, LoopEventView::RepeatedFrame) => (
            LoopView { phase: LoopPhase::DirtyCheck, ..v },
            b,
            LoopActionView::CheckDirty,
        ),
        (LoopPhase::DirtyCheck, LoopEventView::Dirty(dirty)) => if dirty {
            read(v, b)
        } else {
            end_frame(v, b)
        },
        (LoopPhase::Reading, LoopEventView::ReadFailed) => sleep(v, b, SLEEP_BAD_READ),
        (LoopPhase::Reading, LoopEventView::Read(state, pct, trusted)) => read_done(
            v,
            b,
            state,
            pct,
            trusted,
        ),
        (LoopPhase::Superseding, LoopEventView::Done) => match v.pending {
            Some(state) => (
                LoopView { phase: LoopPhase::Submitting, pending: None, ..v },
                b,
                LoopActionView::Submit(state),
            ),
            None => new_frame(v, b),
        },
        (LoopPhase::Submitting, LoopEventView::Submitted(now)) => end_frame(
            LoopView { waiting: true, since: Some(now), ..v },
            b,
        ),
        (LoopPhase::FrameTime, LoopEventView::Elapsed(time)) => if time < v.frame_time {
            sleep(v, b, (v.frame_time - time) as u64)
        } else {
            new_frame(v, b)
        },
        _ => new_frame(v, b),
    }
}

/// Whether an event answers what a phase is waiting for.
pub open spec fn answers(phase: LoopPhase, event: LoopEventView) -> bool {
    match phase {
        LoopPhase::ToggleKey => event is Key,
        LoopPhase::Restart => event is Done,
        LoopPhase::PauseKey => event is Key,
        LoopPhase::Prefetched => event is Prefetched,
        LoopPhase::Suggestion => event is Polled,
        LoopPhase::Frame => event is NoFrame || event is FreshFrame || event is RepeatedFrame,
        LoopPhase::DirtyCheck => event is Dirty,
        LoopPhase::Reading => event is ReadFailed || event is Read,
        LoopPhase::Superseding => event is Done,
        LoopPhase::Submitting => event is Submitted,
        LoopPhase::FrameTime => event is Elapsed,
        LoopPhase::Sleeping => event is Done,
    }
}

/// The main loop.
#[derive(Debug)]
pub struct BotLoop {
    pub phase: LoopPhase,
    pub waiting_for_move: bool,
    pub waiting_since: Option<u64>,
    pub locked_piece: Option<CellColor>,
    pub locked_queue: Vec<CellColor>,
    pub locked_pieces: u32,
    pub pending: Option<GameState>,
    pub prefetch_cache: HashMap<u8, OverlayPlacement>,
    pub frame_time: u64,
}

impl View for BotLoop {
    type V = LoopView;

    open spec fn view(&self) -> LoopView {
        LoopView {
            phase: self.phase,
            waiting: self.waiting_for_move,
            since: self.waiting_since,
            locked: self.locked_piece,
            queue: self.locked_queue@,
            pieces: self.locked_pieces as int,
            pending: match self.pending {
                Some(state) => Some(state@),
                None => None,
            },
            cache: self.prefetch_cache@,
            frame_time: self.frame_time,
        }
    }
}

impl BotLoop {
    /// The loop at startup, for the given number of frames per second.
    pub fn new(target_fps: u32) -> (bot_loop: Self)
        requires
            target_fps != 0,
        ensures
            bot_loop@ == (LoopView {
                phase: LoopPhase::ToggleKey,
                waiting: false,
                since: None,
                locked: None,
                queue: Seq::empty(),
                pieces: 0,
                pending: None,
                cache: Map::empty(),
                frame_time: frame_time(target_fps as int) as u64,
            }),
            bot_loop.frame_time == frame_time(target_fps as int),
    {
        let millis = 1000 / target_fps as u64;
        assert(millis <= 1000) by (nonlinear_arith)
            requires
                millis == 1000u64 / target_fps as u64,
                target_fps >= 1,
        ;
        BotLoop {
            phase: LoopPhase::ToggleKey,
            waiting_for_move: false,
            waiting_since: None,
            locked_piece: None,
            locked_queue: Vec::new(),
            locked_pieces: 0,
            pending: None,
            prefetch_cache: HashMap::new(),
            frame_time: millis * 1_000_000,
        }
    }

    fn pause_for(&mut self, time: u64) -> (action: LoopAction)
        ensures
            final(self)@ == (LoopView { phase: LoopPhase::Sleeping, ..old(self)@ }),
            action == LoopAction::Sleep(time),
    {
        self.phase = LoopPhase::Sleeping;
        LoopAction::Sleep(time)
    }

    fn remember(&mut self, list: &Vec<(CellColor, OverlayPlacement)>)
        ensures
            final(self)@ == (LoopView { cache: cached(old(self)@.cache, list@), ..old(self)@ }),
    {
        let ghost start = self@;
        for i in 0..list.len()
            invariant
                self@ == (LoopView { cache: cached(start.cache, list@.take(i as int)), ..start }),
        {
            let (color, placement) = list[i];
            assert(list@.take(i + 1).drop_last() =~= list@.take(i as int));
            self.prefetch_cache.insert(color.index(), placement);
        }
        assert(list@.take(list@.len() as int) =~= list@);
    }

    fn sees_spawn(&self, state: &GameState, piece: CellColor) -> (spawn: bool)
        ensures
            spawn == is_spawn(self@, state@, piece),
    {
        match self.locked_piece {
            Some(locked) => {
                if locked != piece {
                    return true;
                }
            },
            None => {
                return true;
            },
        }
        if sees_draw(&self.locked_queue, &state.next_queue) {
            return true;
        }
        if !same_queue(&self.locked_queue, &state.next_queue) || !all_alike(&self.locked_queue) {
            return false;
        }
        let before = self.locked_pieces as i64;
        let now = count_piece_cells(&state.board) as i64;
        now - before >= 4 || before - now >= 4
    }

    fn finish_read(&mut self, bot: &mut BotState, state: GameState, pct: u8, trusted: bool) -> (action:
        LoopAction)
        ensures
            (final(self)@, final(bot)@, action@) == read_done(
                old(self)@,
                old(bot)@,
                state@,
                pct,
                trusted,
            ),
    {
        bot.vision_confidence_pct = pct;
        match state.current_piece {
            Some(piece) => {
                if !state.is_active {
                    self.locked_piece = None;
                    return self.pause_for(SLEEP_NO_PIECE);
                }
                if !trusted {
                    bot.current_suggestion = None;
                    self.locked_piece = None;
                    return self.pause_for(SLEEP_BAD_READ);
                }
                if self.sees_spawn(&state, piece) {
                    match self.prefetch_cache.remove(&piece.index()) {
                        Some(placement) => {
                            bot.current_suggestion = Some(
                                AiSuggestion { direct: placement, hold_option: None },
                            );
                        },
                        None => {},
                    }
                    assert(self@.cache =~= old(self)@.cache.remove(cache_key(piece)));
                    self.locked_piece = Some(piece);
                    self.locked_queue = copied(&state.next_queue);
                    self.locked_pieces = count_piece_cells(&state.board);
                    if self.waiting_for_move {
                        self.pending = Some(state);
                        self.phase = LoopPhase::Superseding;
                        LoopAction::ResetEngine
                    } else {
                        self.phase = LoopPhase::Submitting;
                        LoopAction::Submit(state)
                    }
                } else {
                    if state.next_queue.len() > self.locked_queue.len() {
                        self.locked_queue = copied(&state.next_queue);
                    }
                    self.phase = LoopPhase::FrameTime;
                    LoopAction::MeasureFrame
                }
            },
            None => {
                self.locked_piece = None;
                self.pause_for(SLEEP_NO_PIECE)
            },
        }
    }

    /// Takes what came of the last action and says what to do next.
    pub fn step(&mut self, bot: &mut BotState, event: LoopEvent) -> (action: LoopAction)
        requires
            answers(old(self)@.phase, event@),
        ensures
            (final(self)@, final(bot)@, action@) == next(old(self)@, old(bot)@, event@),
    {
        match (self.phase, event) {
            (LoopPhase::ToggleKey, LoopEvent::Key(pressed)) => {
                self.phase = LoopPhase::PauseKey;
                if pressed {
                    self.locked_piece = None;
                    self.prefetch_cache.clear();
                    bot.current_suggestion = None;
                    if bot.enabled {
                        bot.enabled = false;
                        bot.set_status("Stopped");
                    } else {
                        bot.enabled = true;
                        bot.paused = false;
                        self.waiting_for_move = false;
                        self.phase = LoopPhase::Restart;
                        return LoopAction::ResetEngine;
                    }
                }
                LoopAction::PollPauseKey
            },
            (LoopPhase::Restart, LoopEvent::Done) => {
                bot.set_status("Running");
                self.phase = LoopPhase::PauseKey;
                LoopAction::PollPauseKey
            },
            (LoopPhase::PauseKey, LoopEvent::Key(pressed)) => {
                if pressed && bot.enabled {
                    if bot.paused {
                        bot.paused = false;
                        bot.set_status("Running");
                    } else {
                        bot.paused = true;
                        bot.set_status("Paused");
                    }
                }
                if !bot.enabled || bot.paused {
                    return self.pause_for(SLEEP_IDLE);
                }
                self.phase = LoopPhase::Prefetched;
                LoopAction::DrainPrefetch
            },
            (LoopPhase::Prefetched, LoopEvent::Prefetched(list)) => {
                self.remember(&list);
                if self.waiting_for_move {
                    self.phase = LoopPhase::Suggestion;
                    LoopAction::PollMove
                } else {
                    self.phase = LoopPhase::Frame;
                    LoopAction::Capture
                }
            },
            (LoopPhase::Suggestion, LoopEvent::Polled(answer, now)) => {
                match answer {
                    Some(suggestion) => {
                        self.waiting_for_move = false;
                        self.waiting_since = None;
                        bot.current_suggestion = Some(suggestion);
                    },
                    None => {
                        if let Some(then) = self.waiting_since {
                            if now > then && now - then > MOVE_TIMEOUT {
                                self.waiting_for_move = false;
                                self.waiting_since = None;
                            }
                        }
                    },
                }
                self.phase = LoopPhase::Frame;
                LoopAction::Capture
            },
            (LoopPhase::Frame, LoopEvent::NoFrame) => self.pause_for(SLEEP_NO_FRAME),
            (LoopPhase::Frame, LoopEvent::FreshFrame) => {
                self.phase = LoopPhase::Reading;
                LoopAction::ReadFrame
            },
            (LoopPhase::Frame, LoopEvent::RepeatedFrame) => {
                self.phase = LoopPhase::DirtyCheck;
                LoopAction::CheckDirty
            },
            (LoopPhase::DirtyCheck, LoopEvent::Dirty(dirty)) => {
                if dirty {
                    self.phase = LoopPhase::Reading;
                    LoopAction::ReadFrame
                } else {
                    self.phase = LoopPhase::FrameTime;
                    LoopAction::MeasureFrame
                }
            },
            (LoopPhase::Reading, LoopEvent::ReadFailed) => self.pause_for(SLEEP_BAD_READ),
            (LoopPhase::Reading, LoopEvent::Read(state, pct, trusted)) => {
                self.finish_read(bot, state, pct, trusted)
            },
            (LoopPhase::Superseding, LoopEvent::Done) => {
                match self.pending.take() {
                    Some(state) => {
                        self.phase = LoopPhase::Submitting;
                        LoopAction::Submit(state)
                    },
                    None => {
                        self.phase = LoopPhase::ToggleKey;
                        LoopAction::PollToggleKey
                    },
                }
            },
            (LoopPhase::Submitting, LoopEvent::Submitted(now)) => {
                self.waiting_for_move = true;
                self.waiting_since = Some(now);
                self.phase = LoopPhase::FrameTime;
                LoopAction::MeasureFrame
            },
            (LoopPhase::FrameTime, LoopEvent::Elapsed(time)) => {
                if time < self.frame_time {
                    let rest = self.frame_time - time;
                    return self.pause_for(rest);
                }
                self.phase = LoopPhase::ToggleKey;
                LoopAction::PollToggleKey
            },
            _ => {
                self.phase = LoopPhase::ToggleKey;
                LoopAction::PollToggleKey
            },
        }
    }
}

fn copied(queue: &Vec<CellColor>) -> (copy: Vec<CellColor>)
    ensures
        copy@ == queue@,
{
    let mut copy: Vec<CellColor> = Vec::new();
    for i in 0..queue.len()
        invariant
            copy@ == queue@.take(i as int),
    {
        copy.push(queue[i]);
        assert(queue@.take(i as int).push(queue@[i as int]) =~= queue@.take(i + 1));
    }
    assert(copy@ =~= queue@);
    copy
}

fn same_queue(a: &Vec<CellColor>, b: &Vec<CellColor>) -> (same: bool)
    ensures
        same == (a@ == b@),
{
    if a.len() != b.len() {
        return false;
    }
    for i in 0..a.len()
        invariant
            a@.len() == b@.len(),
            forall|j: int| 0 <= j < i ==> a@[j] == b@[j],
    {
        if a[i] != b[i] {
            assert(a@[i as int] != b@[i as int]);
            return false;
        }
    }
    assert(a@ =~= b@);
    true
}

fn sees_draw(before: &Vec<CellColor>, now: &Vec<CellColor>) -> (drawn: bool)
    ensures
        drawn == is_drawn(before@, now@),
{
    if before.len() == 0 || now.len() != before.len() || same_queue(before, now) {
        return false;
    }
    for i in 1..before.len()
        invariant
            before@.len() > 0,
            now@.len() == before@.len(),
            forall|j: int| 1 <= j < i ==> now@[j - 1] == #[trigger] before@[j],
    {
        if now[i - 1] != before[i] {
            assert(now@.drop_last()[i - 1] != before@.skip(1)[i - 1]);
            return false;
        }
    }
    assert(now@.drop_last() =~= before@.skip(1)) by {
        assert forall|k: int| 0 <= k < now@.len() - 1 implies now@[k] == before@.skip(1)[k] by {
            assert(before@[k + 1] == before@.skip(1)[k]);
        }
    }
    true
}

fn all_alike(queue: &Vec<CellColor>) -> (alike: bool)
    ensures
        alike == is_uniform(queue@),
{
    for i in 0..queue.len()
        invariant
            forall|j: int| 0 <= j < i ==> #[trigger] queue@[j] == queue@[0],
    {
        if queue[i] != queue[0] {
            assert(queue@[i as int] != queue@[0]);
            return false;
        }
    }
    true
}

// ---- what the loop guarantees ----

/// Whether an event leaves the piece `p` the current one: the bot is not started
/// or stopped, and any state that is read shows `p` on an active, trusted board
/// and no draw.
pub open spec fn keeps_piece(v: LoopView, event: LoopEventView, p: CellColor) -> bool {
    &&& !is_toggle(v, event)
    &&& event matches LoopEventView::Read(state, _, trusted) ==> {
        &&& state.is_active && trusted
        &&& state.current_piece == Some(p)
        &&& !draw_is_seen(v, state)
    }
}

/// Whether an event starts or stops the bot.
pub open spec fn is_toggle(v: LoopView, event: LoopEventView) -> bool {
    v.phase == LoopPhase::ToggleKey && event == LoopEventView::Key(true)
}

/// Whether the loop has requested placements for `p` and has no request to make.
pub open spec fn is_locked_on(v: LoopView, p: CellColor) -> bool {
    v.locked == Some(p) && v.pending is None
}

/// The loop and the shared state after an event.
#[verifier::opaque]
pub open spec fn after_event(v: LoopView, b: BotView, event: LoopEventView) -> (LoopView, BotView) {
    (next(v, b, event).0, next(v, b, event).1)
}

/// Whether an event leads to the delivery of a request.
#[verifier::opaque]
pub open spec fn makes_request(v: LoopView, b: BotView, event: LoopEventView) -> bool {
    next(v, b, event).2 is Submit
}

/// Whether the loop takes in a game state with an event.
pub open spec fn reads(v: LoopView, event: LoopEventView) -> bool {
    v.phase == LoopPhase::Reading && event is Read
}

/// The next queue of the game state that comes with an event.
pub open spec fn read_queue(event: LoopEventView) -> Seq<CellColor>
    recommends
        event is Read,
{
    event->Read_0.next_queue
}

/// A single step that leaves the piece the current one makes no request, and the
/// loop remembers the last one as it was, but for a fuller queue.
proof fn lemma_step_keeps_piece(v: LoopView, b: BotView, event: LoopEventView, p: CellColor)
    requires
        is_locked_on(v, p),
        keeps_piece(v, event, p),
    ensures
        is_locked_on(after_event(v, b, event).0, p),
        after_event(v, b, event).0.queue == if reads(v, event) {
            fuller(v.queue, read_queue(event))
        } else {
            v.queue
        },
        after_event(v, b, event).0.pieces == v.pieces,
        !makes_request(v, b, event),
{
    reveal(after_event);
    reveal(makes_request);
}

/// The loop after the first `n` of the given events, each with the shared state
/// that the loop met it in.
pub open spec fn loop_after(v: LoopView, inputs: Seq<(BotView, LoopEventView)>, n: int) -> LoopView
    decreases n,
{
    if n <= 0 {
        v
    } else {
        after_event(loop_after(v, inputs, n - 1), inputs[n - 1].0, inputs[n - 1].1).0
    }
}

/// Whether the first `n` of the given events leave the piece `p` the current one.
pub open spec fn keep_piece(
    v: LoopView,
    inputs: Seq<(BotView, LoopEventView)>,
    p: CellColor,
    n: int,
) -> bool {
    &&& 0 <= n <= inputs.len()
    &&& forall|k: int|
        0 <= k < n ==> #[trigger] keeps_piece(loop_after(v, inputs, k), inputs[k].1, p)
}

/// Placements are requested once per piece: after the request for a piece no
/// other is made for as long as that piece stays the current one and no draw is
/// seen, whatever frames come in and however the shared state changes meanwhile.
pub proof fn law_one_request_per_piece(
    v: LoopView,
    inputs: Seq<(BotView, LoopEventView)>,
    p: CellColor,
    n: int,
)
    requires
        is_locked_on(v, p),
        keep_piece(v, inputs, p, n),
    ensures
        is_locked_on(loop_after(v, inputs, n), p),
        loop_after(v, inputs, n).pieces == v.pieces,
        forall|k: int|
            0 <= k < n ==> !#[trigger] makes_request(
                loop_after(v, inputs, k),
                inputs[k].0,
                inputs[k].1,
            ),
    decreases n,
{
    if n > 0 {
        law_one_request_per_piece(v, inputs, p, n - 1);
        assert(keeps_piece(loop_after(v, inputs, n - 1), inputs[n - 1].1, p));
        lemma_step_keeps_piece(
            loop_after(v, inputs, n - 1),
            inputs[n - 1].0,
            inputs[n - 1].1,
            p,
        );
    }
}

/// Between requests the loop keeps the fullest reading of the next queue, so that
/// slots which were missing when the request was made do not hide a later draw: no
/// reading since has more slots than what is kept, and what is kept has been read,
/// at the request or since.
pub proof fn law_fullest_queue_is_kept(
    v: LoopView,
    inputs: Seq<(BotView, LoopEventView)>,
    p: CellColor,
    n: int,
)
    requires
        is_locked_on(v, p),
        keep_piece(v, inputs, p, n),
    ensures
        ({
            let queue = loop_after(v, inputs, n).queue;
            &&& v.queue.len() <= queue.len()
            &&& forall|k: int|
                0 <= k < n && #[trigger] reads(loop_after(v, inputs, k), inputs[k].1) ==> read_queue(
                    inputs[k].1,
                ).len() <= queue.len()
            &&& queue == v.queue || exists|k: int|
                0 <= k < n && #[trigger] reads(loop_after(v, inputs, k), inputs[k].1) && queue
                    == read_queue(inputs[k].1)
        }),
    decreases n,
{
    if n > 0 {
        law_fullest_queue_is_kept(v, inputs, p, n - 1);
        law_one_request_per_piece(v, inputs, p, n - 1);
        let before = loop_after(v, inputs, n - 1);
        let event = inputs[n - 1].1;
        assert(keeps_piece(before, event, p));
        lemma_step_keeps_piece(before, inputs[n - 1].0, event, p);
        if loop_after(v, inputs, n).queue != before.queue {
            assert(reads(before, event));
        } else if before.queue != v.queue {
            let k = choose|k: int|
                0 <= k < n - 1 && #[trigger] reads(loop_after(v, inputs, k), inputs[k].1)
                    && before.queue == read_queue(inputs[k].1);
            assert(reads(loop_after(v, inputs, k), inputs[k].1));
        }
    }
}

/// Whether a game state may be read off a frame on which the piece `p` is still
/// falling: the queue is as it was or another number of its slots can be read, and
/// where the queue cannot tell, no more cells have come into view or gone out of it
/// than a moving piece explains.
pub open spec fn is_same_turn(v: LoopView, state: StateView, p: CellColor) -> bool {
    &&& state.is_active
    &&& state.current_piece == Some(p)
    &&& state.next_queue == v.queue || state.next_queue.len() != v.queue.len()
    &&& is_uniform(v.queue) ==> !has_settled(v.pieces, piece_cells(state.board, 200))
}

/// Whether an event belongs to the turn of the piece `p`: it does not start or stop
/// the bot, and any state that is read is trusted and of that turn.
pub open spec fn is_of_turn(v: LoopView, event: LoopEventView, p: CellColor) -> bool {
    &&& !is_toggle(v, event)
    &&& event matches LoopEventView::Read(state, _, trusted) ==> trusted && is_same_turn(v, state, p)
}

/// Whether the first `n` of the given events belong to the turn of the piece `p`.
pub open spec fn are_of_turn(
    v: LoopView,
    inputs: Seq<(BotView, LoopEventView)>,
    p: CellColor,
    n: int,
) -> bool {
    &&& 0 <= n <= inputs.len()
    &&& forall|k: int|
        0 <= k < n ==> #[trigger] is_of_turn(loop_after(v, inputs, k), inputs[k].1, p)
}

/// However a piece falls, and however often slots of the queue cannot be read, the
/// frames of its turn show no draw and lead to no other request.
pub proof fn law_turn_is_requested_once(
    v: LoopView,
    inputs: Seq<(BotView, LoopEventView)>,
    p: CellColor,
    n: int,
)
    requires
        is_locked_on(v, p),
        are_of_turn(v, inputs, p, n),
    ensures
        keep_piece(v, inputs, p, n),
        is_locked_on(loop_after(v, inputs, n), p),
        loop_after(v, inputs, n).pieces == v.pieces,
        forall|k: int|
            0 <= k < n ==> !#[trigger] makes_request(
                loop_after(v, inputs, k),
                inputs[k].0,
                inputs[k].1,
            ),
    decreases n,
{
    if n > 0 {
        law_turn_is_requested_once(v, inputs, p, n - 1);
        let before = loop_after(v, inputs, n - 1);
        assert(is_of_turn(before, inputs[n - 1].1, p));
        assert(keeps_piece(before, inputs[n - 1].1, p));
        lemma_step_keeps_piece(before, inputs[n - 1].0, inputs[n - 1].1, p);
    }
}

/// Whether reading a game state leads to a request for it: at once, or, where an
/// earlier request is still waiting, right after the engine's restart.
pub open spec fn leads_to_request(v: LoopView, b: BotView, state: StateView, pct: u8) -> bool {
    let out = next(v, b, LoopEventView::Read(state, pct, true));
    if v.waiting {
        &&& out.2 == LoopActionView::ResetEngine
        &&& next(out.0, out.1, LoopEventView::Done).2 == LoopActionView::Submit(state)
        &&& next(out.0, out.1, LoopEventView::Done).0.pending is None
    } else {
        out.2 == LoopActionView::Submit(state)
    }
}

/// A spawned piece leads to a request as soon as it is read, also while an earlier
/// request is waiting, and its prepared placement is used up.
pub proof fn law_new_piece_is_requested(
    v: LoopView,
    b: BotView,
    state: StateView,
    p: CellColor,
    pct: u8,
)
    requires
        v.phase == LoopPhase::Reading,
        state.is_active,
        state.current_piece == Some(p),
        is_spawn(v, state, p),
    ensures
        leads_to_request(v, b, state, pct),
        next(v, b, LoopEventView::Read(state, pct, true)).0 == (LoopView {
            phase: if v.waiting {
                LoopPhase::Superseding
            } else {
                LoopPhase::Submitting
            },
            pending: if v.waiting {
                Some(state)
            } else {
                v.pending
            },
            ..lock_on(v, state, p)
        }),
        !lock_on(v, state, p).cache.contains_key(cache_key(p)),
{
}

/// Two spawns in a row of one colour give two requests: once the request for the
/// first is made, none follows during its turn, and the second piece is requested
/// as soon as it is seen that a piece has been drawn from the queue, as it was read
/// most fully since, or, where the queue cannot tell, that a piece has settled on
/// the board.
pub proof fn law_each_spawn_is_requested(
    v: LoopView,
    b: BotView,
    first: StateView,
    p: CellColor,
    pct: u8,
    inputs: Seq<(BotView, LoopEventView)>,
    n: int,
    later: BotView,
    second: StateView,
)
    requires
        v.phase == LoopPhase::Reading,
        !v.waiting,
        v.pending is None,
        first.is_active,
        first.current_piece == Some(p),
        is_spawn(v, first, p),
        are_of_turn(next(v, b, LoopEventView::Read(first, pct, true)).0, inputs, p, n),
        loop_after(next(v, b, LoopEventView::Read(first, pct, true)).0, inputs, n).phase
            == LoopPhase::Reading,
        second.is_active,
        second.current_piece == Some(p),
        ({
            let queue = loop_after(
                next(v, b, LoopEventView::Read(first, pct, true)).0,
                inputs,
                n,
            ).queue;
            ||| is_drawn(queue, second.next_queue)
            ||| {
                &&& second.next_queue == queue
                &&& is_uniform(queue)
                &&& has_settled(piece_cells(first.board, 200), piece_cells(second.board, 200))
            }
        }),
    ensures
        ({
            let asked = next(v, b, LoopEventView::Read(first, pct, true));
            &&& asked.2 == LoopActionView::Submit(first)
            &&& forall|k: int|
                0 <= k < n ==> !#[trigger] makes_request(
                    loop_after(asked.0, inputs, k),
                    inputs[k].0,
                    inputs[k].1,
                )
            &&& leads_to_request(loop_after(asked.0, inputs, n), later, second, pct)
        }),
{
    let asked = next(v, b, LoopEventView::Read(first, pct, true)).0;
    law_new_piece_is_requested(v, b, first, p, pct);
    law_turn_is_requested_once(asked, inputs, p, n);
    law_new_piece_is_requested(loop_after(asked, inputs, n), later, second, p, pct);
}

/// Drawing a piece from a queue that has been read in full is noticed, unless all
/// slots show the same piece before and after.
pub proof fn law_drawn_queue_is_noticed(queue: Seq<CellColor>, last: CellColor)
    requires
        queue.len() > 0,
    ensures
        is_drawn(queue, queue.skip(1).push(last)) || (queue.skip(1).push(last) == queue
            && is_uniform(queue)),
{
    let now = queue.skip(1).push(last);
    assert(now.drop_last() =~= queue.skip(1));
    if now == queue {
        assert forall|i: int| 0 <= i < queue.len() implies #[trigger] queue[i] == queue[0] by {
            lemma_slots_repeat(queue, last, i);
        }
    }
}

proof fn lemma_slots_repeat(queue: Seq<CellColor>, last: CellColor, i: int)
    requires
        queue.skip(1).push(last) == queue,
        0 <= i < queue.len(),
    ensures
        queue[i] == queue[0],
    decreases i,
{
    if i > 0 {
        lemma_slots_repeat(queue, last, i - 1);
        assert(queue.skip(1).push(last)[i - 1] == queue[i]);
    }
}

/// A reading of the queue with slots missing is no spawn, and what was read of the
/// queue before is not forgotten over it.
pub proof fn law_missing_slots_are_no_spawn(v: LoopView, state: StateView, p: CellColor)
    requires
        v.locked == Some(p),
        state.next_queue.len() < v.queue.len(),
    ensures
        !is_spawn(v, state, p),
        fuller(v.queue, state.next_queue) == v.queue,
{
}

/// A reading that shows slots which were missing before is no spawn either, and
/// replaces the earlier one.
pub proof fn law_found_slots_are_no_spawn(v: LoopView, state: StateView, p: CellColor)
    requires
        v.locked == Some(p),
        state.next_queue.len() > v.queue.len(),
    ensures
        !is_spawn(v, state, p),
        fuller(v.queue, state.next_queue) == state.next_queue,
{
}

/// However a piece moves, it does not look newly spawned: with the queue as it
/// was, or with another number of its slots read, and with at most the other three
/// of its cells coming into view or going out of it, no spawn is seen.
pub proof fn law_moving_piece_is_no_spawn(
    v: LoopView,
    state: StateView,
    p: CellColor,
    shown_before: int,
    shown_now: int,
)
    requires
        v.locked == Some(p),
        v.queue == state.next_queue || v.queue.len() != state.next_queue.len(),
        1 <= shown_before <= 4,
        1 <= shown_now <= 4,
        piece_cells(state.board, 200) - v.pieces == shown_now - shown_before,
    ensures
        !is_spawn(v, state, p),
{
}

/// Whether a board is another one raised by `rows` rows of garbage: all cells have
/// moved up, no piece is lost at the top, and none comes in at the bottom.
pub open spec fn is_raised(
    before: [[CellColor; 10]; 20],
    now: [[CellColor; 10]; 20],
    rows: int,
) -> bool {
    &&& 0 <= rows <= 20
    &&& forall|i: int|
        0 <= i < 10 * rows ==> !(#[trigger] cell_at(before, scan_cell(i))).is_piece()
    &&& forall|i: int|
        0 <= i < 200 - 10 * rows ==> #[trigger] cell_at(now, scan_cell(i)) == cell_at(
            before,
            scan_cell(i + 10 * rows),
        )
    &&& forall|i: int|
        200 - 10 * rows <= i < 200 ==> !(#[trigger] cell_at(now, scan_cell(i))).is_piece()
}

/// Garbage that rises under a piece is no spawn, with the queue as it was or with
/// another number of its slots read: not where it lifts what lies on the board, and
/// not where it fills cells that held no piece.
pub proof fn law_rising_garbage_is_no_spawn(
    v: LoopView,
    before: [[CellColor; 10]; 20],
    state: StateView,
    p: CellColor,
    rows: int,
)
    requires
        v.locked == Some(p),
        v.pieces == piece_cells(before, 200),
        v.queue == state.next_queue || v.queue.len() != state.next_queue.len(),
        is_raised(before, state.board, rows) || forall|i: int|
            0 <= i < 200 ==> ((#[trigger] cell_at(state.board, scan_cell(i))).is_piece() <==> cell_at(
                before,
                scan_cell(i),
            ).is_piece()),
    ensures
        !is_spawn(v, state, p),
{
    if is_raised(before, state.board, rows) {
        lemma_no_pieces(before, 0, 10 * rows);
        lemma_raised_pieces(before, state.board, rows, 200 - 10 * rows);
        lemma_no_pieces(state.board, 200 - 10 * rows, 200);
    } else {
        lemma_same_pieces(before, state.board, 200);
    }
}

/// Cells without a piece add nothing.
proof fn lemma_no_pieces(board: [[CellColor; 10]; 20], lo: int, hi: int)
    requires
        0 <= lo <= hi,
        forall|i: int| lo <= i < hi ==> !(#[trigger] cell_at(board, scan_cell(i))).is_piece(),
    ensures
        piece_cells(board, hi) == piece_cells(board, lo),
    decreases hi,
{
    if lo < hi {
        assert(!cell_at(board, scan_cell(hi - 1)).is_piece());
        lemma_no_pieces(board, lo, hi - 1);
    }
}

/// The pieces of a raised board are those of the board below its top rows.
proof fn lemma_raised_pieces(
    before: [[CellColor; 10]; 20],
    now: [[CellColor; 10]; 20],
    rows: int,
    n: int,
)
    requires
        is_raised(before, now, rows),
        0 <= n <= 200 - 10 * rows,
    ensures
        piece_cells(now, n) == piece_cells(before, n + 10 * rows) - piece_cells(before, 10 * rows),
    decreases n,
{
    if n > 0 {
        lemma_raised_pieces(before, now, rows, n - 1);
        assert(cell_at(now, scan_cell(n - 1)) == cell_at(before, scan_cell(n - 1 + 10 * rows)));
    }
}

/// Boards with their pieces in the same cells have equally many piece cells.
proof fn lemma_same_pieces(before: [[CellColor; 10]; 20], now: [[CellColor; 10]; 20], n: int)
    requires
        0 <= n <= 200,
        forall|i: int|
            0 <= i < 200 ==> ((#[trigger] cell_at(now, scan_cell(i))).is_piece() <==> cell_at(
                before,
                scan_cell(i),
            ).is_piece()),
    ensures
        piece_cells(now, n) == piece_cells(before, n),
    decreases n,
{
    if n > 0 {
        lemma_same_pieces(before, now, n - 1);
        assert(cell_at(now, scan_cell(n - 1)).is_piece() <==> cell_at(
            before,
            scan_cell(n - 1),
        ).is_piece());
    }
}

/// A prepared placement is shown in the very step in which its piece appears.
pub proof fn law_prepared_placement_is_instant(
    v: LoopView,
    b: BotView,
    state: StateView,
    p: CellColor,
    pct: u8,
)
    requires
        v.phase == LoopPhase::Reading,
        state.is_active,
        state.current_piece == Some(p),
        is_spawn(v, state, p),
        v.cache.contains_key(cache_key(p)),
    ensures
        next(v, b, LoopEventView::Read(state, pct, true)).1.suggestion == Some(
            AiSuggestion { direct: v.cache[cache_key(p)], hold_option: None },
        ),
{
}

/// What the overlay shows stays fixed while a piece is the current one: only an
/// answer of the engine replaces it.
pub proof fn law_suggestion_is_stable(v: LoopView, b: BotView, event: LoopEventView, p: CellColor)
    requires
        v.locked == Some(p),
        keeps_piece(v, event, p),
        answers(v.phase, event),
        !(event matches LoopEventView::Polled(Some(_), _)),
    ensures
        next(v, b, event).1.suggestion == b.suggestion,
{
}

/// Starting and stopping both leave nothing of an earlier game behind.
pub proof fn law_toggle_clears(v: LoopView, b: BotView)
    requires
        v.phase == LoopPhase::ToggleKey,
    ensures
        ({
            let out = next(v, b, LoopEventView::Key(true));
            &&& out.1.enabled == !b.enabled
            &&& out.1.suggestion is None
            &&& out.0.locked is None
            &&& out.0.cache == Map::<u8, OverlayPlacement>::empty()
            &&& out.1.enabled ==> !out.1.paused && !out.0.waiting
        }),
{
}

/// A frame that cannot be trusted leaves nothing on the overlay and requests
/// nothing.
pub proof fn law_untrusted_frame_shows_nothing(
    v: LoopView,
    b: BotView,
    state: StateView,
    pct: u8,
)
    requires
        v.phase == LoopPhase::Reading,
        state.is_active,
        state.current_piece is Some,
    ensures
        next(v, b, LoopEventView::Read(state, pct, false)).1.suggestion is None,
        next(v, b, LoopEventView::Read(state, pct, false)).0.locked is None,
        next(v, b, LoopEventView::Read(state, pct, false)).2 is Sleep,
{
}

/// While the bot is stopped or paused it captures nothing.
pub proof fn law_idle_loop_captures_nothing(v: LoopView, b: BotView, pressed: bool)
    requires
        v.phase == LoopPhase::PauseKey,
        !pause_toggled(b, pressed).enabled || pause_toggled(b, pressed).paused,
    ensures
        next(v, b, LoopEventView::Key(pressed)).2 == LoopActionView::Sleep(SLEEP_IDLE),
        next(v, b, LoopEventView::Key(pressed)).0.phase == LoopPhase::Sleeping,
{
}

/// The loop and the shared state after the first `n` of the given events, with
/// nobody else changing the shared state.
pub open spec fn run(v: LoopView, b: BotView, events: Seq<LoopEventView>, n: int) -> (
    LoopView,
    BotView,
)
    decreases n,
{
    if n <= 0 {
        (v, b)
    } else {
        let before = run(v, b, events, n - 1);
        after_event(before.0, before.1, events[n - 1])
    }
}

/// Whether the engine has answered for the piece `p` and nothing is under way.
pub open spec fn is_answered(v: LoopView, p: CellColor) -> bool {
    &&& is_locked_on(v, p)
    &&& !v.waiting
    &&& v.phase != LoopPhase::Suggestion
    &&& v.phase != LoopPhase::Submitting
}

/// A single step that leaves the piece the current one changes nothing on the
/// overlay once the engine has answered.
proof fn lemma_step_keeps_answer(v: LoopView, b: BotView, event: LoopEventView, p: CellColor)
    requires
        is_answered(v, p),
        keeps_piece(v, event, p),
        answers(v.phase, event),
    ensures
        is_answered(after_event(v, b, event).0, p),
        after_event(v, b, event).1.suggestion == b.suggestion,
{
    reveal(after_event);
}

/// Once the engine has answered for a piece, what the overlay shows stays the
/// same for as long as that piece is the current one, however many frames come
/// in.
pub proof fn law_answer_stays_fixed(
    v: LoopView,
    b: BotView,
    events: Seq<LoopEventView>,
    p: CellColor,
    n: int,
)
    requires
        is_answered(v, p),
        0 <= n <= events.len(),
        forall|k: int|
            0 <= k < n ==> keeps_piece(run(v, b, events, k).0, #[trigger] events[k], p) && answers(
                run(v, b, events, k).0.phase,
                events[k],
            ),
    ensures
        run(v, b, events, n).1.suggestion == b.suggestion,
        is_answered(run(v, b, events, n).0, p),
    decreases n,
{
    if n > 0 {
        law_answer_stays_fixed(v, b, events, p, n - 1);
        let before = run(v, b, events, n - 1);
        assert(keeps_piece(before.0, events[n - 1], p));
        lemma_step_keeps_answer(before.0, before.1, events[n - 1], p);
    }
}

/// Once the engine has answered for a piece, what the overlay shows stays the
/// same for the rest of its turn, however the piece falls and however often slots
/// of the queue cannot be read.
pub proof fn law_turn_keeps_the_answer(
    v: LoopView,
    b: BotView,
    events: Seq<LoopEventView>,
    p: CellColor,
    n: int,
)
    requires
        is_answered(v, p),
        0 <= n <= events.len(),
        forall|k: int|
            0 <= k < n ==> {
                &&& is_of_turn(run(v, b, events, k).0, #[trigger] events[k], p)
                &&& answers(run(v, b, events, k).0.phase, events[k])
            },
    ensures
        run(v, b, events, n).1.suggestion == b.suggestion,
        is_answered(run(v, b, events, n).0, p),
        run(v, b, events, n).0.pieces == v.pieces,
    decreases n,
{
    if n > 0 {
        law_turn_keeps_the_answer(v, b, events, p, n - 1);
        let before = run(v, b, events, n - 1);
        assert(is_of_turn(before.0, events[n - 1], p));
        assert(keeps_piece(before.0, events[n - 1], p));
        lemma_step_keeps_piece(before.0, before.1, events[n - 1], p);
        lemma_step_keeps_answer(before.0, before.1, events[n - 1], p);
    }
}

/// Whether the loop knows since when it has been waiting.
pub open spec fn timed(v: LoopView) -> bool {
    v.waiting ==> v.since is Some
}

/// The loop always knows since when it has been waiting.
pub proof fn law_waiting_is_timed(v: LoopView, b: BotView, event: LoopEventView)
    requires
        timed(v),
    ensures
        timed(next(v, b, event).0),
{
}

/// The loop gives up on an answer that takes longer than five seconds, and not
/// before.
pub proof fn law_wait_is_bounded(v: LoopView, b: BotView, then: u64, now: u64)
    requires
        v.phase == LoopPhase::Suggestion,
        v.waiting,
        v.since == Some(then),
    ensures
        next(v, b, LoopEventView::Polled(None, now)).0.waiting == (now - then <= MOVE_TIMEOUT),
        next(v, b, LoopEventView::Polled(None, now)).1 == b,
{
}

/// A repeated frame on which nothing has changed is not read.
pub proof fn law_unchanged_frame_is_skipped(v: LoopView, b: BotView)
    requires
        v.phase == LoopPhase::Frame,
    ensures
        ({
            let checked = next(v, b, LoopEventView::RepeatedFrame);
            let out = next(checked.0, checked.1, LoopEventView::Dirty(false));
            &&& checked.2 == LoopActionView::CheckDirty
            &&& out.2 == LoopActionView::MeasureFrame
            &&& out.0 == (LoopView { phase: LoopPhase::FrameTime, ..v })
            &&& out.1 == b
        }),
{
}

/// Of several placements prepared for one colour the latest is kept, and the
/// placements of other colours are left alone.
pub proof fn law_latest_preparation_is_kept(
    cache: Map<u8, OverlayPlacement>,
    list: Seq<(CellColor, OverlayPlacement)>,
    color: CellColor,
    placement: OverlayPlacement,
    other: CellColor,
)
    requires
        other != color,
    ensures
        ({
            let old_cache = cached(cache, list);
            let new_cache = cached(cache, list.push((color, placement)));
            let key = cache_key(other);
            &&& new_cache.contains_key(cache_key(color))
            &&& new_cache[cache_key(color)] == placement
            &&& new_cache.contains_key(key) == old_cache.contains_key(key)
            &&& old_cache.contains_key(key) ==> new_cache[key] == old_cache[key]
        }),
{
    assert(list.push((color, placement)).drop_last() =~= list);
    crate::color::law_index_round_trip(color, 0);
    crate::color::law_index_round_trip(other, 0);
}

/// An answer of the engine is shown as it is, with both of its placements, and ends
/// the wait; nothing else of the shared state changes.
pub proof fn law_answer_is_shown_as_it_is(v: LoopView, b: BotView, s: AiSuggestion, now: u64)
    requires
        v.phase == LoopPhase::Suggestion,
    ensures
        ({
            let out = next(v, b, LoopEventView::Polled(Some(s), now));
            &&& out.1.suggestion == Some(s)
            &&& !out.0.waiting
            &&& out.0.since is None
            &&& out.0.locked == v.locked
            &&& out.0.queue == v.queue
            &&& out.0.cache == v.cache
            &&& out.1.enabled == b.enabled
            &&& out.1.paused == b.paused
            &&& out.1.status == b.status
            &&& out.1.confidence == b.confidence
            &&& out.2 == LoopActionView::Capture
        }),
{
}

/// Whatever the engine answers for a piece, the overlay shows it, with both of its
/// placements, for the rest of that piece's turn, however many frames follow.
pub proof fn law_turn_shows_the_answer(
    v: LoopView,
    b: BotView,
    s: AiSuggestion,
    now: u64,
    events: Seq<LoopEventView>,
    p: CellColor,
    n: int,
)
    requires
        v.phase == LoopPhase::Suggestion,
        is_locked_on(v, p),
        0 <= n <= events.len(),
        ({
            let (v1, b1, _) = next(v, b, LoopEventView::Polled(Some(s), now));
            forall|k: int|
                0 <= k < n ==> {
                    &&& is_of_turn(run(v1, b1, events, k).0, #[trigger] events[k], p)
                    &&& answers(run(v1, b1, events, k).0.phase, events[k])
                }
        }),
    ensures
        ({
            let (v1, b1, _) = next(v, b, LoopEventView::Polled(Some(s), now));
            run(v1, b1, events, n).1.suggestion == Some(s)
        }),
{
    let (v1, b1, _) = next(v, b, LoopEventView::Polled(Some(s), now));
    law_turn_keeps_the_answer(v1, b1, events, p, n);
}

/// A running frame goes through its stages in order: the keys, the prepared
/// placements, the answer if one is awaited, the capture, the check of a repeated
/// frame and the reading.
pub proof fn law_frame_runs_through_its_stages(
    v: LoopView,
    b: BotView,
    list: Seq<(CellColor, OverlayPlacement)>,
    now: u64,
)
    requires
        v.phase == LoopPhase::ToggleKey,
        b.enabled,
        !b.paused,
    ensures
        ({
            let (v1, b1, a1) = next(v, b, LoopEventView::Key(false));
            let (v2, b2, a2) = next(v1, b1, LoopEventView::Key(false));
            let (v3, b3, a3) = next(v2, b2, LoopEventView::Prefetched(list));
            let (v4, b4, a4) = if v.waiting {
                next(v3, b3, LoopEventView::Polled(None, now))
            } else {
                (v3, b3, a3)
            };
            let fresh = next(v4, b4, LoopEventView::FreshFrame);
            let (v5, b5, a5) = next(v4, b4, LoopEventView::RepeatedFrame);
            let changed = next(v5, b5, LoopEventView::Dirty(true));
            &&& a1 == LoopActionView::PollPauseKey
            &&& a2 == LoopActionView::DrainPrefetch
            &&& v.waiting ==> a3 == LoopActionView::PollMove
            &&& a4 == LoopActionView::Capture
            &&& a5 == LoopActionView::CheckDirty
            &&& fresh.2 == LoopActionView::ReadFrame
            &&& changed.2 == LoopActionView::ReadFrame
            &&& fresh.0.phase == LoopPhase::Reading
            &&& changed.0.phase == LoopPhase::Reading
            &&& fresh.1 == b
            &&& changed.1 == b
            &&& fresh.0.locked == v.locked
            &&& fresh.0.queue == v.queue
            &&& fresh.0.pieces == v.pieces
            &&& changed.0.locked == v.locked
            &&& changed.0.queue == v.queue
            &&& changed.0.pieces == v.pieces
        }),
{
}

/// A delivered request is awaited from the moment of its delivery.
pub proof fn law_delivered_request_is_awaited(v: LoopView, b: BotView, now: u64)
    requires
        v.phase == LoopPhase::Submitting,
    ensures
        ({
            let out = next(v, b, LoopEventView::Submitted(now));
            &&& out.0.waiting
            &&& out.0.since == Some(now)
            &&& out.0.locked == v.locked
            &&& out.0.queue == v.queue
            &&& out.0.pieces == v.pieces
            &&& out.0.cache == v.cache
            &&& out.1 == b
            &&& out.2 == LoopActionView::MeasureFrame
        }),
{
}

/// A frame takes the time that it is meant to take: what is left of it is slept
/// through, and a frame that took longer is followed by the next at once.
pub proof fn law_frames_keep_their_pace(v: LoopView, b: BotView, time: u64)
    requires
        v.phase == LoopPhase::FrameTime,
    ensures
        ({
            let out = next(v, b, LoopEventView::Elapsed(time));
            let woken = next(out.0, out.1, LoopEventView::Done);
            &&& out.1 == b
            &&& time < v.frame_time ==> {
                &&& out.2 matches LoopActionView::Sleep(rest) && time + rest == v.frame_time
                &&& woken.2 == LoopActionView::PollToggleKey
                &&& woken.1 == b
            }
            &&& time >= v.frame_time ==> out.2 == LoopActionView::PollToggleKey
        }),
{
}

/// Only the keys start, stop, pause or resume the bot, and the frame time never
/// changes.
pub proof fn law_only_keys_switch_the_bot(v: LoopView, b: BotView, event: LoopEventView)
    ensures
        next(v, b, event).0.frame_time == v.frame_time,
        event != LoopEventView::Key(true) ==> next(v, b, event).1.enabled == b.enabled && next(
            v,
            b,
            event,
        ).1.paused == b.paused,
{
}

/// The pause key pauses a running bot and resumes a paused one; what the overlay
/// has to show is kept meanwhile. A stopped bot ignores it.
pub proof fn law_pause_key_toggles(v: LoopView, b: BotView)
    requires
        v.phase == LoopPhase::PauseKey,
    ensures
        ({
            let out = next(v, b, LoopEventView::Key(true));
            &&& b.enabled ==> out.1.paused == !b.paused
            &&& b.enabled && !b.paused ==> out.1.status == "Paused"@ && out.2 is Sleep
            &&& b.enabled && b.paused ==> out.1.status == "Running"@ && out.2
                == LoopActionView::DrainPrefetch
            &&& !b.enabled ==> out.1 == b && out.2 is Sleep
            &&& out.1.enabled == b.enabled
            &&& out.1.suggestion == b.suggestion
            &&& out.0 == (LoopView { phase: out.0.phase, ..v })
        }),
{
}

/// The status line says whether the bot is running: starting it restarts the engine
/// and then shows it as running, stopping it shows it as stopped.
pub proof fn law_status_follows_the_key(v: LoopView, b: BotView)
    requires
        v.phase == LoopPhase::ToggleKey,
    ensures
        ({
            let out = next(v, b, LoopEventView::Key(true));
            let ready = next(out.0, out.1, LoopEventView::Done);
            &&& b.enabled ==> out.1.status == "Stopped"@ && out.2 == LoopActionView::PollPauseKey
            &&& !b.enabled ==> {
                &&& out.2 == LoopActionView::ResetEngine
                &&& ready.1.status == "Running"@
                &&& ready.1.enabled
                &&& ready.2 == LoopActionView::PollPauseKey
            }
        }),
{
}

/// Every reading reports how far it can be trusted. One without an active piece
/// leaves the overlay as it is, requests nothing, and makes whatever piece comes
/// next count as spawned.
pub proof fn law_reading_without_a_piece_waits(
    v: LoopView,
    b: BotView,
    state: StateView,
    pct: u8,
    trusted: bool,
    later: BotView,
    second: StateView,
    p: CellColor,
)
    requires
        v.phase == LoopPhase::Reading,
    ensures
        ({
            let out = next(v, b, LoopEventView::Read(state, pct, trusted));
            &&& out.1.confidence == pct
            &&& !state.is_active || state.current_piece is None ==> {
                &&& out.1.suggestion == b.suggestion
                &&& out.2 == LoopActionView::Sleep(SLEEP_NO_PIECE)
                &&& out.0.waiting == v.waiting
                &&& out.0.cache == v.cache
                &&& second.is_active && second.current_piece == Some(p) && !v.waiting
                    ==> next(
                    LoopView { phase: LoopPhase::Reading, ..out.0 },
                    later,
                    LoopEventView::Read(second, pct, true),
                ).2 == LoopActionView::Submit(second)
            }
        }),
{
}

/// While a request is under way a newly spawned piece restarts the engine, and it
/// is the game state of that piece which is requested then.
pub proof fn law_superseding_request_is_the_new_one(
    v: LoopView,
    b: BotView,
    state: StateView,
    p: CellColor,
    pct: u8,
    later: BotView,
)
    requires
        v.phase == LoopPhase::Reading,
        v.waiting,
        state.is_active,
        state.current_piece == Some(p),
        v.locked != Some(p),
    ensures
        ({
            let (v1, b1, a1) = next(v, b, LoopEventView::Read(state, pct, true));
            let (v2, b2, a2) = next(v1, later, LoopEventView::Done);
            &&& a1 == LoopActionView::ResetEngine
            &&& a2 == LoopActionView::Submit(state)
            &&& v2.pending is None
            &&& v2.locked == Some(p)
            &&& v2.queue == state.next_queue
            &&& b2 == later
        }),
{
}

/// What cannot be read or captured changes nothing but the time of the next
/// attempt.
pub proof fn law_failed_frame_changes_nothing(v: LoopView, b: BotView)
    ensures
        v.phase == LoopPhase::Frame ==> next(v, b, LoopEventView::NoFrame) == (
            LoopView { phase: LoopPhase::Sleeping, ..v },
            b,
            LoopActionView::Sleep(SLEEP_NO_FRAME),
        ),
        v.phase == LoopPhase::Reading ==> next(v, b, LoopEventView::ReadFailed) == (
            LoopView { phase: LoopPhase::Sleeping, ..v },
            b,
            LoopActionView::Sleep(SLEEP_BAD_READ),
        ),
{
}

/// A prepared placement is used up by the piece it was prepared for, and by no
/// other.
pub proof fn law_prepared_placement_is_used_once(
    v: LoopView,
    b: BotView,
    state: StateView,
    p: CellColor,
    pct: u8,
    other: CellColor,
)
    requires
        v.phase == LoopPhase::Reading,
        state.is_active,
        state.current_piece == Some(p),
        v.locked != Some(p),
        other != p,
    ensures
        ({
            let out = next(v, b, LoopEventView::Read(state, pct, true));
            &&& !out.0.cache.contains_key(cache_key(p))
            &&& out.0.cache.contains_key(cache_key(other)) == v.cache.contains_key(cache_key(other))
            &&& v.cache.contains_key(cache_key(other)) ==> out.0.cache[cache_key(other)]
                == v.cache[cache_key(other)]
            &&& !v.cache.contains_key(cache_key(p)) ==> out.1.suggestion == b.suggestion
        }),
{
    crate::color::law_index_round_trip(p, 0);
    crate::color::law_index_round_trip(other, 0);
}

/// A frame is meant to take as long as the rate allows, to the millisecond.
pub proof fn law_frame_time_fits_the_rate(fps: int)
    requires
        fps > 0,
    ensures
        0 <= frame_time(fps),
        frame_time(fps) * fps <= 1_000_000_000 < (frame_time(fps) + 1_000_000) * fps,
{
    let q = 1000int / fps;
    assert(q * fps <= 1000 < (q + 1) * fps) by (nonlinear_arith)
        requires
            q == 1000int / fps,
            fps > 0,
    ;
    assert(frame_time(fps) * fps == 1_000_000 * (q * fps)) by (nonlinear_arith)
        requires
            frame_time(fps) == q * 1_000_000,
    ;
    assert((frame_time(fps) + 1_000_000) * fps == 1_000_000 * ((q + 1) * fps)) by (nonlinear_arith)
        requires
            frame_time(fps) == q * 1_000_000,
    ;
}

/// A draw is seen only where a piece has really been drawn: the first slot is gone, the
/// others have moved up unchanged, and one has come in at the end. A misread slot is no
/// draw.
pub proof fn law_misread_slot_is_no_draw(before: Seq<CellColor>, now: Seq<CellColor>)
    requires
        is_drawn(before, now),
    ensures
        now.len() == before.len(),
        before.len() > 0,
        now != before,
        now == before.skip(1).push(now.last()),
{
    assert(now =~= before.skip(1).push(now.last()));
}

/// Where all slots of the queue look alike, a piece that has settled on the board gives the
/// next one away: four more or four fewer piece cells than at the request are a spawn.
pub proof fn law_settled_piece_is_noticed(v: LoopView, state: StateView, p: CellColor)
    requires
        v.queue == state.next_queue,
        forall|i: int, j: int|
            0 <= i < v.queue.len() && 0 <= j < v.queue.len() ==> #[trigger] v.queue[i]
                == #[trigger] v.queue[j],
        piece_cells(state.board, 200) >= v.pieces + 4 || piece_cells(state.board, 200) + 4
            <= v.pieces,
    ensures
        is_spawn(v, state, p),
{
}

/// With a request the loop remembers whose it was: the piece, the next queue and the number
/// of piece cells of the game state that is requested, which is the one that was read.
pub proof fn law_request_is_remembered(
    v: LoopView,
    b: BotView,
    state: StateView,
    p: CellColor,
    pct: u8,
)
    requires
        v.phase == LoopPhase::Reading,
        state.is_active,
        state.current_piece == Some(p),
        v.locked != Some(p) || is_drawn(v.queue, state.next_queue),
    ensures
        ({
            let out = next(v, b, LoopEventView::Read(state, pct, true));
            &&& out.0.locked == Some(p)
            &&& out.0.queue == state.next_queue
            &&& out.0.pieces == piece_cells(state.board, 200)
            &&& out.0.waiting == v.waiting
            &&& out.1.enabled == b.enabled && out.1.paused == b.paused && out.1.status == b.status
            &&& !v.waiting ==> out.2 == LoopActionView::Submit(state)
            &&& v.waiting ==> out.2 == LoopActionView::ResetEngine && out.0.pending == Some(state)
        }),
{
}

/// Prepared placements are taken in one after the other, and none leaves the cache as it is.
pub proof fn law_preparations_are_collected(
    v: LoopView,
    b: BotView,
    list: Seq<(CellColor, OverlayPlacement)>,
)
    requires
        v.phase == LoopPhase::Prefetched,
    ensures
        next(v, b, LoopEventView::Prefetched(list)).0.cache == cached(v.cache, list),
        next(v, b, LoopEventView::Prefetched(list)).1 == b,
        cached(v.cache, Seq::empty()) == v.cache,
{
}

/// The loop pauses for 50 milliseconds while it is idle or cannot read a frame, for 16 while
/// it gets none, and for 100 while there is no piece; it waits five seconds for an answer.
pub proof fn law_pauses_have_their_length(v: LoopView, b: BotView, state: StateView, pct: u8)
    ensures
        v.phase == LoopPhase::PauseKey && !b.enabled ==> next(v, b, LoopEventView::Key(false)).2
            == LoopActionView::Sleep(50_000_000),
        v.phase == LoopPhase::Frame ==> next(v, b, LoopEventView::NoFrame).2 == LoopActionView::Sleep(
            16_000_000,
        ),
        v.phase == LoopPhase::Reading ==> next(v, b, LoopEventView::ReadFailed).2
            == LoopActionView::Sleep(50_000_000),
        v.phase == LoopPhase::Reading && state.current_piece is None ==> next(
            v,
            b,
            LoopEventView::Read(state, pct, true),
        ).2 == LoopActionView::Sleep(100_000_000),
        v.phase == LoopPhase::Reading && state.current_piece is Some && state.is_active ==> next(
            v,
            b,
            LoopEventView::Read(state, pct, false),
        ).2 == LoopActionView::Sleep(50_000_000),
        forall|then: u64, now: u64|
            #[trigger] timed_out(Some(then), now) <==> now > then + 5_000_000_000,
{
}

/// Whether an event brings a game state with an active piece that is trusted and counts as
/// spawned.
pub open spec fn is_spawn_reading(v: LoopView, event: LoopEventView) -> bool {
    &&& v.phase == LoopPhase::Reading
    &&& event matches LoopEventView::Read(state, _, trusted) && trusted && state.is_active && (
    state.current_piece matches Some(p) && is_spawn(v, state, p))
}

/// Prepared placements are kept from frame to frame: only starting or stopping the bot, new
/// preparations and a spawned piece change them.
pub proof fn law_preparations_are_kept(v: LoopView, b: BotView, event: LoopEventView)
    requires
        !is_toggle(v, event),
        !(v.phase == LoopPhase::Prefetched && event is Prefetched),
        !is_spawn_reading(v, event),
    ensures
        next(v, b, event).0.cache == v.cache,
{
}

/// A wait for an answer begins with the delivery of a request and ends with the answer, with
/// the limit on the time of the wait or with a start of the bot, and with nothing else.
pub proof fn law_wait_lasts_until_the_answer(v: LoopView, b: BotView, event: LoopEventView)
    requires
        !is_toggle(v, event),
        !(v.phase == LoopPhase::Suggestion && event is Polled),
        !(v.phase == LoopPhase::Submitting && event is Submitted),
    ensures
        next(v, b, event).0.waiting == v.waiting,
        next(v, b, event).0.since == v.since,
{
}

/// What the overlay shows changes only with a start or stop of the bot, an answer, a spawned
/// piece or a frame that cannot be trusted.
pub proof fn law_overlay_changes_for_a_reason(v: LoopView, b: BotView, event: LoopEventView)
    requires
        !is_toggle(v, event),
        !(v.phase == LoopPhase::Suggestion && (event matches LoopEventView::Polled(Some(_), _))),
        !is_spawn_reading(v, event),
        !(v.phase == LoopPhase::Reading && (event matches LoopEventView::Read(state, _, trusted)
            && !trusted && state.is_active && state.current_piece is Some)),
    ensures
        next(v, b, event).1.suggestion == b.suggestion,
{
}

/// The current piece, its queue and the count of its board are only forgotten or replaced by
/// a start or stop of the bot or by a reading.
pub proof fn law_piece_is_remembered(v: LoopView, b: BotView, event: LoopEventView)
    requires
        !is_toggle(v, event),
        !(v.phase == LoopPhase::Reading && event is Read),
    ensures
        next(v, b, event).0.locked == v.locked,
        next(v, b, event).0.queue == v.queue,
        next(v, b, event).0.pieces == v.pieces,
{
}

/// A request is made for a spawned piece, at once or after the engine has restarted for it,
/// and at no other time.
pub proof fn law_requests_are_for_spawned_pieces(v: LoopView, b: BotView, event: LoopEventView)
    ensures
        next(v, b, event).2 matches LoopActionView::Submit(state) ==> {
            ||| is_spawn_reading(v, event) && event->Read_0 == state
            ||| v.phase == LoopPhase::Superseding && v.pending == Some(state)
        },
        next(v, b, event).0.pending is Some && v.pending is None ==> is_spawn_reading(v, event)
            && next(v, b, event).0.pending == Some(event->Read_0),
{
}

/// A frame that cannot be trusted only clears the overlay and forgets the piece: the wait for
/// an answer and the prepared placements go on, and the confidence is reported.
pub proof fn law_untrusted_frame_keeps_the_rest(
    v: LoopView,
    b: BotView,
    state: StateView,
    pct: u8,
)
    requires
        v.phase == LoopPhase::Reading,
    ensures
        ({
            let out = next(v, b, LoopEventView::Read(state, pct, false));
            &&& out.0.waiting == v.waiting
            &&& out.0.since == v.since
            &&& out.0.cache == v.cache
            &&& out.0.locked is None
            &&& out.1.confidence == pct
            &&& out.1.status == b.status
        }),
{
}

/// The status line changes with the keys only, apart from the end of a restart, and the
/// confidence with a reading only.
pub proof fn law_status_changes_for_a_reason(v: LoopView, b: BotView, event: LoopEventView)
    ensures
        event != LoopEventView::Key(true) && v.phase != LoopPhase::Restart ==> next(
            v,
            b,
            event,
        ).1.status == b.status,
        !(v.phase == LoopPhase::Reading && event is Read) ==> next(v, b, event).1.confidence
            == b.confidence,
{
}

} // verus!
