//! Pieces, placements and the settings of the search engine.
use crate::color::CellColor;
use crate::config::AiConfig;
use vstd::prelude::*;

verus! {

/// How many of the next pieces the engine is told about. Its internal queues
/// are of limited capacity.
pub const MAX_NEXT_PIECES: usize = 5;

/// The seven pieces.
#[derive(Debug, Clone, Copy, PartialEq, Eq, Hash, Structural)]
pub enum Piece {
    I,
    O,
    T,
    L,
    J,
    S,
    Z,
}

/// A recommended placement.
#[derive(Debug, Clone, Copy)]
pub struct OverlayPlacement {
    /// The four cells as column and row; row 0 is the top row.
    pub cells: [(i32, i32); 4],
    /// The colour of the placed piece.
    pub piece_color: CellColor,
}

/// Both recommendations for the current piece.
#[derive(Debug, Clone, Copy)]
pub struct AiSuggestion {
    /// Where to place the current piece.
    pub direct: OverlayPlacement,
    /// Where to place the other piece after holding first, if that is an option.
    pub hold_option: Option<OverlayPlacement>,
}

// ---- names and colours of pieces ----

/// The letter that stands for a colour in logs.
pub open spec fn color_letter(color: CellColor) -> Seq<char> {
    match color {
        CellColor::I => "I"@,
        CellColor::O => "O"@,
        CellColor::T => "T"@,
        CellColor::S => "S"@,
        CellColor::Z => "Z"@,
        CellColor::J => "J"@,
        CellColor::L => "L"@,
        CellColor::Empty => "_"@,
        CellColor::Garbage => "G"@,
    }
}

/// The letter that stands for a colour in logs. Every colour has one.
pub fn piece_name(color: CellColor) -> (name: Option<&'static str>)
    ensures
        name matches Some(letter) && letter@ == color_letter(color),
{
    match color {
        CellColor::I => Some("I"),
        CellColor::O => Some("O"),
        CellColor::T => Some("T"),
        CellColor::S => Some("S"),
        CellColor::Z => Some("Z"),
        CellColor::J => Some("J"),
        CellColor::L => Some("L"),
        CellColor::Empty => Some("_"),
        CellColor::Garbage => Some("G"),
    }
}

/// The piece of a colour.
pub open spec fn piece_of(color: CellColor) -> Option<Piece> {
    match color {
        CellColor::I => Some(Piece::I),
        CellColor::O => Some(Piece::O),
        CellColor::T => Some(Piece::T),
        CellColor::S => Some(Piece::S),
        CellColor::Z => Some(Piece::Z),
        CellColor::J => Some(Piece::J),
        CellColor::L => Some(Piece::L),
        CellColor::Empty => None,
        CellColor::Garbage => None,
    }
}

/// The colour of a piece.
pub open spec fn color_of(piece: Piece) -> CellColor {
    match piece {
        Piece::I => CellColor::I,
        Piece::O => CellColor::O,
        Piece::T => CellColor::T,
        Piece::S => CellColor::S,
        Piece::Z => CellColor::Z,
        Piece::J => CellColor::J,
        Piece::L => CellColor::L,
    }
}

/// The piece of a colour; empty and garbage cells belong to none.
pub fn color_to_piece(color: CellColor) -> (piece: Option<Piece>)
    ensures
        piece == piece_of(color),
{
    match color {
        CellColor::I => Some(Piece::I),
        CellColor::O => Some(Piece::O),
        CellColor::T => Some(Piece::T),
        CellColor::S => Some(Piece::S),
        CellColor::Z => Some(Piece::Z),
        CellColor::J => Some(Piece::J),
        CellColor::L => Some(Piece::L),
        _ => None,
    }
}

/// The colour of a piece.
pub fn piece_to_color(piece: Piece) -> (color: CellColor)
    ensures
        color == color_of(piece),
{
    match piece {
        Piece::I => CellColor::I,
        Piece::O => CellColor::O,
        Piece::T => CellColor::T,
        Piece::S => CellColor::S,
        Piece::Z => CellColor::Z,
        Piece::J => CellColor::J,
        Piece::L => CellColor::L,
    }
}

/// Pieces and piece colours correspond one to one.
pub proof fn law_pieces_match_colors(piece: Piece, color: CellColor)
    ensures
        piece_of(color_of(piece)) == Some(piece),
        piece_of(color) is Some <==> color.is_piece(),
        piece_of(color) matches Some(p) ==> color_of(p) == color,
        color_of(piece) == CellColor::I <==> piece == Piece::I,
        color_of(piece) == CellColor::O <==> piece == Piece::O,
        color_of(piece) == CellColor::T <==> piece == Piece::T,
        color_of(piece) == CellColor::S <==> piece == Piece::S,
        color_of(piece) == CellColor::Z <==> piece == Piece::Z,
        color_of(piece) == CellColor::J <==> piece == Piece::J,
        color_of(piece) == CellColor::L <==> piece == Piece::L,
{
}

/// The pieces among the colours of a queue, in order.
pub open spec fn pieces_of(colors: Seq<CellColor>) -> Seq<Piece>
    decreases colors.len(),
{
    if colors.len() == 0 {
        Seq::empty()
    } else {
        match piece_of(colors.last()) {
            Some(piece) => pieces_of(colors.drop_last()).push(piece),
            None => pieces_of(colors.drop_last()),
        }
    }
}

/// The pieces among the colours of a queue, in order.
pub fn queue_pieces(colors: &Vec<CellColor>) -> (pieces: Vec<Piece>)
    ensures
        pieces@ == pieces_of(colors@),
{
    let mut pieces: Vec<Piece> = Vec::new();
    for i in 0..colors.len()
        invariant
            pieces@ == pieces_of(colors@.take(i as int)),
    {
        assert(colors@.take(i + 1).drop_last() =~= colors@.take(i as int));
        if let Some(piece) = color_to_piece(colors[i]) {
            pieces.push(piece);
        }
    }
    assert(colors@.take(colors@.len() as int) =~= colors@);
    pieces
}

// ---- queues ----

/// At most `n` elements from the front.
pub open spec fn front(pieces: Seq<Piece>, n: int) -> Seq<Piece> {
    if pieces.len() <= n {
        pieces
    } else {
        pieces.take(n)
    }
}

/// At most `n` pieces from position `from` on.
pub fn capped(pieces: &Vec<Piece>, from: usize, n: usize) -> (out: Vec<Piece>)
    requires
        from <= pieces@.len(),
    ensures
        out@ == front(pieces@.skip(from as int), n as int),
{
    let mut out: Vec<Piece> = Vec::new();
    let mut i = from;
    while i < pieces.len() && out.len() < n
        invariant
            from <= i <= pieces@.len(),
            out@.len() == i - from,
            out@.len() <= n,
            out@ =~= pieces@.subrange(from as int, i as int),
        decreases pieces@.len() - i,
    {
        out.push(pieces[i]);
        i += 1;
    }
    assert(out@ =~= front(pieces@.skip(from as int), n as int));
    out
}

/// The queue after holding: the current piece comes back later, here at once,
/// and the rest of the queue follows as far as there is room.
pub open spec fn queue_after_hold(current: Piece, next: Seq<Piece>) -> Seq<Piece> {
    seq![current] + front(next, MAX_NEXT_PIECES - 1)
}

/// The queue after holding.
pub fn hold_queue(current: Piece, next: &Vec<Piece>) -> (queue: Vec<Piece>)
    ensures
        queue@ == queue_after_hold(current, next@),
        queue@.len() <= MAX_NEXT_PIECES,
{
    let mut queue: Vec<Piece> = Vec::new();
    queue.push(current);
    let mut rest = capped(next, 0, MAX_NEXT_PIECES - 1);
    assert(next@.skip(0) =~= next@);
    queue.append(&mut rest);
    assert(queue@ =~= queue_after_hold(current, next@));
    queue
}

// ---- engine settings ----

/// How pieces may move.
#[derive(Debug, Clone, Copy, PartialEq, Eq, Structural)]
pub enum MovementMode {
    ZeroG,
    TwentyG,
    HardDropOnly,
}

/// How the engine values positions.
#[derive(Debug, Clone, Copy, PartialEq, Eq, Structural)]
pub enum Playstyle {
    Balanced,
    Aggressive,
    TSpin,
    Defensive,
}

/// The search options.
#[derive(Debug, Clone, Copy, PartialEq, Eq, Structural)]
pub struct EngineOptions {
    pub max_nodes: u32,
    pub min_nodes: u32,
    /// Whether the engine may hold by itself; holding is searched separately.
    pub use_hold: bool,
    pub speculate: bool,
    pub mode: MovementMode,
}

/// The evaluation weights that a playstyle changes; the others keep the
/// engine's defaults.
#[derive(Debug, Clone, Copy)]
pub struct WeightChanges {
    pub back_to_back: Option<i32>,
    pub clear4: Option<i32>,
    pub combo_garbage: Option<i32>,
    pub tspin1: Option<i32>,
    pub tspin2: Option<i32>,
    pub tspin3: Option<i32>,
    pub tslot: Option<[i32; 4]>,
    pub wasted_t: Option<i32>,
    pub height: Option<i32>,
    pub cavity_cells: Option<i32>,
    pub overhang_cells: Option<i32>,
    pub top_half: Option<i32>,
}

/// The mode that a setting names; any other text means hard drops only.
pub open spec fn mode_named(name: Seq<char>) -> MovementMode {
    if name == "zero_g"@ {
        MovementMode::ZeroG
    } else if name == "twenty_g"@ {
        MovementMode::TwentyG
    } else {
        MovementMode::HardDropOnly
    }
}

/// The playstyle that a setting names; any other text means balanced play.
pub open spec fn style_named(name: Seq<char>) -> Playstyle {
    if name == "aggressive"@ {
        Playstyle::Aggressive
    } else if name == "tspin"@ {
        Playstyle::TSpin
    } else if name == "defensive"@ {
        Playstyle::Defensive
    } else {
        Playstyle::Balanced
    }
}

/// No changes to the engine's default weights.
pub open spec fn default_weights() -> WeightChanges {
    WeightChanges {
        back_to_back: None,
        clear4: None,
        combo_garbage: None,
        tspin1: None,
        tspin2: None,
        tspin3: None,
        tslot: None,
        wasted_t: None,
        height: None,
        cavity_cells: None,
        overhang_cells: None,
        top_half: None,
    }
}

/// Whether the changes are those of a playstyle.
pub open spec fn are_weights_of(style: Playstyle, w: WeightChanges) -> bool {
    match style {
        Playstyle::Balanced => w == default_weights(),
        Playstyle::Aggressive => w == (WeightChanges {
            back_to_back: Some(80),
            clear4: Some(500),
            combo_garbage: Some(30),
            ..default_weights()
        }),
        Playstyle::TSpin => {
            &&& w.tslot matches Some(slots) && slots@ == seq![20i32, 200, 300, 500]
            &&& w == (WeightChanges {
                back_to_back: Some(100),
                tspin1: Some(200),
                tspin2: Some(600),
                tspin3: Some(900),
                tslot: w.tslot,
                wasted_t: Some((-250) as i32),
                ..default_weights()
            })
        },
        Playstyle::Defensive => w == (WeightChanges {
            height: Some((-60) as i32),
            cavity_cells: Some((-250) as i32),
            overhang_cells: Some((-50) as i32),
            top_half: Some((-200) as i32),
            ..default_weights()
        }),
    }
}

/// The mode that a setting names.
pub fn movement_mode(name: &String) -> (mode: MovementMode)
    ensures
        mode == mode_named(name@),
{
    if *name == "zero_g".to_owned() {
        MovementMode::ZeroG
    } else if *name == "twenty_g".to_owned() {
        MovementMode::TwentyG
    } else {
        MovementMode::HardDropOnly
    }
}

/// The playstyle that a setting names.
pub fn playstyle(name: &String) -> (style: Playstyle)
    ensures
        style == style_named(name@),
{
    if *name == "aggressive".to_owned() {
        Playstyle::Aggressive
    } else if *name == "tspin".to_owned() {
        Playstyle::TSpin
    } else if *name == "defensive".to_owned() {
        Playstyle::Defensive
    } else {
        Playstyle::Balanced
    }
}

/// The weights that a playstyle changes.
pub fn weight_changes(style: Playstyle) -> (w: WeightChanges)
    ensures
        are_weights_of(style, w),
{
    let mut w = WeightChanges {
        back_to_back: None,
        clear4: None,
        combo_garbage: None,
        tspin1: None,
        tspin2: None,
        tspin3: None,
        tslot: None,
        wasted_t: None,
        height: None,
        cavity_cells: None,
        overhang_cells: None,
        top_half: None,
    };
    match style {
        Playstyle::Balanced => {},
        Playstyle::Aggressive => {
            w.back_to_back = Some(80);
            w.clear4 = Some(500);
            w.combo_garbage = Some(30);
        },
        Playstyle::TSpin => {
            let slots: [i32; 4] = [20, 200, 300, 500];
            assert(slots@ =~= seq![20i32, 200, 300, 500]);
            w.back_to_back = Some(100);
            w.tspin1 = Some(200);
            w.tspin2 = Some(600);
            w.tspin3 = Some(900);
            w.tslot = Some(slots);
            w.wasted_t = Some(-250);
        },
        Playstyle::Defensive => {
            w.height = Some(-60);
            w.cavity_cells = Some(-250);
            w.overhang_cells = Some(-50);
            w.top_half = Some(-200);
        },
    }
    w
}

/// What the engine is started with.
#[derive(Debug, Clone, Copy)]
pub struct EngineSettings {
    pub options: EngineOptions,
    pub weights: WeightChanges,
}

impl EngineSettings {
    /// The settings that a configuration asks for.
    pub fn new(cfg: &AiConfig) -> (settings: Self)
        ensures
            settings.options == (EngineOptions {
                max_nodes: cfg.max_nodes,
                min_nodes: cfg.min_nodes,
                use_hold: false,
                speculate: true,
                mode: mode_named(cfg.movement_mode@),
            }),
            are_weights_of(style_named(cfg.playstyle@), settings.weights),
    {
        EngineSettings {
            options: EngineOptions {
                max_nodes: cfg.max_nodes,
                min_nodes: cfg.min_nodes,
                use_hold: false,
                speculate: true,
                mode: movement_mode(&cfg.movement_mode),
            },
            weights: weight_changes(playstyle(&cfg.playstyle)),
        }
    }
}

// ---- one search ----

/// What polling the engine brought.
#[derive(Debug, Clone, Copy)]
pub enum PollOutcome {
    /// A move: the four cells as column and row, counted from the bottom, and
    /// the placed piece.
    Moved([(i32, i32); 4], Piece),
    /// The engine is still searching.
    Waiting,
    /// The engine found no valid move.
    Dead,
}

/// What happens to a search.
#[derive(Debug, Clone, Copy)]
pub enum SearchEvent {
    /// The search may be polled; tells whether it has been cancelled or
    /// interrupted.
    Ready(bool),
    /// The engine was polled.
    Polled(PollOutcome),
    /// The engine panicked.
    Panicked,
}

/// What to do next for a search.
#[derive(Debug, Clone, Copy)]
pub enum SearchAction {
    /// Poll the engine.
    Poll,
    /// Wait for the given number of milliseconds.
    Sleep(u64),
    /// The search is over.
    Finish(Option<OverlayPlacement>),
}

/// Whether a placement is that of a move of the engine: the same columns, and
/// the rows counted from the top.
pub open spec fn is_placement_of(
    placement: OverlayPlacement,
    cells: [(i32, i32); 4],
    piece: Piece,
) -> bool {
    &&& placement.piece_color == color_of(piece)
    &&& forall|k: int|
        0 <= k < 4 ==> (#[trigger] placement.cells@[k]).0 == cells@[k].0 && placement.cells@[k].1 == 19
            - cells@[k].1
}

/// Whether the rows of a move can be counted from the top.
pub open spec fn rows_in_range(cells: [(i32, i32); 4]) -> bool {
    forall|k: int| 0 <= k < 4 ==> (#[trigger] cells@[k]).1 >= i32::MIN + 20
}

/// Whether the rows of a move can be counted from the top.
pub fn are_rows_in_range(cells: &[(i32, i32); 4]) -> (ok: bool)
    ensures
        ok == rows_in_range(*cells),
{
    for k in 0..4usize
        invariant
            forall|j: int| 0 <= j < k ==> (#[trigger] cells@[j]).1 >= i32::MIN + 20,
    {
        if cells[k].1 < i32::MIN + 20 {
            assert(cells@[k as int].1 < i32::MIN + 20);
            return false;
        }
    }
    true
}

/// The placement of a move of the engine, with rows counted from the top.
pub fn placement_from_move(cells: [(i32, i32); 4], piece: Piece) -> (placement: OverlayPlacement)
    requires
        rows_in_range(cells),
    ensures
        is_placement_of(placement, cells, piece),
{
    let mut flipped = cells;
    for k in 0..4usize
        invariant
            rows_in_range(cells),
            forall|j: int|
                0 <= j < k ==> (#[trigger] flipped@[j]).0 == cells@[j].0 && flipped@[j].1 == 19
                    - cells@[j].1,
    {
        let (col, row) = cells[k];
        assert(cells@[k as int].1 >= i32::MIN + 20);
        flipped[k] = (col, 19 - row);
    }
    OverlayPlacement { cells: flipped, piece_color: piece_to_color(piece) }
}

/// One step of a search. It ends without a placement if it is cancelled, if
/// there is no valid move or if the engine panics.
pub fn search_step(event: SearchEvent) -> (action: SearchAction)
    requires
        event matches SearchEvent::Polled(PollOutcome::Moved(cells, _)) ==> rows_in_range(cells),
    ensures
        match event {
            SearchEvent::Ready(true) => action == SearchAction::Finish(None),
            SearchEvent::Ready(false) => action == SearchAction::Poll,
            SearchEvent::Polled(PollOutcome::Moved(cells, piece)) => action matches SearchAction::Finish(
                Some(placement),
            ) && is_placement_of(placement, cells, piece),
            SearchEvent::Polled(PollOutcome::Waiting) => action == SearchAction::Sleep(5),
            SearchEvent::Polled(PollOutcome::Dead) => action == SearchAction::Finish(None),
            SearchEvent::Panicked => action == SearchAction::Finish(None),
        },
{
    match event {
        SearchEvent::Ready(cancelled) => if cancelled {
            SearchAction::Finish(None)
        } else {
            SearchAction::Poll
        },
        SearchEvent::Polled(outcome) => match outcome {
            PollOutcome::Moved(cells, piece) => SearchAction::Finish(
                Some(placement_from_move(cells, piece)),
            ),
            PollOutcome::Waiting => SearchAction::Sleep(5),
            PollOutcome::Dead => SearchAction::Finish(None),
        },
        SearchEvent::Panicked => SearchAction::Finish(None),
    }
}

// ---- what holds of pieces, queues and placements ----

/// The pieces of a queue are those of its colours, one for one and in order, where
/// all of them are pieces; a colour that is none is left out and changes nothing
/// else.
pub proof fn law_queue_pieces_keep_their_order(colors: Seq<CellColor>, k: int)
    requires
        forall|i: int| 0 <= i < colors.len() ==> (#[trigger] colors[i]).is_piece(),
    ensures
        pieces_of(colors).len() == colors.len(),
        0 <= k < colors.len() ==> color_of(pieces_of(colors)[k]) == colors[k],
    decreases colors.len(),
{
    if colors.len() > 0 {
        let init = colors.drop_last();
        assert forall|i: int| 0 <= i < init.len() implies (#[trigger] init[i]).is_piece() by {
            assert(init[i] == colors[i]);
        }
        assert(colors.last() == colors[colors.len() - 1]);
        law_queue_pieces_keep_their_order(init, k);
        if 0 <= k < init.len() {
            assert(init[k] == colors[k]);
        }
    }
}

/// The pieces of two queues in a row are those of the first and then those of the
/// second.
pub proof fn law_queue_pieces_are_concatenated(a: Seq<CellColor>, b: Seq<CellColor>)
    ensures
        pieces_of(a + b) == pieces_of(a) + pieces_of(b),
        pieces_of(seq![CellColor::Empty]) == Seq::<Piece>::empty(),
        pieces_of(seq![CellColor::Garbage]) == Seq::<Piece>::empty(),
    decreases b.len(),
{
    reveal_with_fuel(pieces_of, 2);
    assert(seq![CellColor::Empty].last() == CellColor::Empty);
    assert(seq![CellColor::Garbage].last() == CellColor::Garbage);
    if b.len() == 0 {
        assert(a + b =~= a);
        assert(pieces_of(a) + pieces_of(b) =~= pieces_of(a));
    } else {
        law_queue_pieces_are_concatenated(a, b.drop_last());
        assert((a + b).drop_last() =~= a + b.drop_last());
        assert((a + b).last() == b.last());
        assert(pieces_of(a + b) =~= pieces_of(a) + pieces_of(b));
    }
}

/// The front of a queue is as much of it as there is room for, in order.
pub proof fn law_front_keeps_the_order(pieces: Seq<Piece>, n: int, k: int)
    requires
        0 <= n,
    ensures
        front(pieces, n).len() == if pieces.len() < n {
            pieces.len() as int
        } else {
            n
        },
        0 <= k < front(pieces, n).len() ==> front(pieces, n)[k] == pieces[k],
{
}

/// After holding, the current piece comes first, and the rest of the queue follows
/// in order, as far as the engine has room for it.
pub proof fn law_held_piece_makes_room(current: Piece, next: Seq<Piece>, k: int)
    ensures
        queue_after_hold(current, next)[0] == current,
        queue_after_hold(current, next).len() <= 5,
        queue_after_hold(current, next).len() == 5 || queue_after_hold(current, next).len()
            == next.len() + 1,
        1 <= k < queue_after_hold(current, next).len() ==> queue_after_hold(current, next)[k]
            == next[k - 1],
{
}

/// A move and its placement lie in the same columns, rows are turned upside down
/// without changing their distances, the floor is the lowest row of the board, and
/// the placement has the colour of the piece.
pub proof fn law_placement_mirrors_the_move(
    placement: OverlayPlacement,
    cells: [(i32, i32); 4],
    piece: Piece,
    j: int,
    k: int,
)
    requires
        is_placement_of(placement, cells, piece),
        0 <= j < 4,
        0 <= k < 4,
    ensures
        placement.cells@[k].0 == cells@[k].0,
        placement.cells@[k].1 + cells@[k].1 == 19,
        placement.cells@[j].1 - placement.cells@[k].1 == cells@[k].1 - cells@[j].1,
        cells@[k].1 == 0 ==> placement.cells@[k].1 == 19,
        piece_of(placement.piece_color) == Some(piece),
{
}

/// The settings name the three modes and the four playstyles, and any other text
/// means the default.
pub proof fn law_settings_are_recognised(name: Seq<char>)
    ensures
        mode_named("zero_g"@) == MovementMode::ZeroG,
        mode_named("twenty_g"@) == MovementMode::TwentyG,
        name != "zero_g"@ && name != "twenty_g"@ ==> mode_named(name) == MovementMode::HardDropOnly,
        style_named("aggressive"@) == Playstyle::Aggressive,
        style_named("tspin"@) == Playstyle::TSpin,
        style_named("defensive"@) == Playstyle::Defensive,
        name != "aggressive"@ && name != "tspin"@ && name != "defensive"@ ==> style_named(name)
            == Playstyle::Balanced,
{
    reveal_strlit("zero_g");
    reveal_strlit("twenty_g");
    reveal_strlit("aggressive");
    reveal_strlit("tspin");
    reveal_strlit("defensive");
    assert("zero_g"@.len() != "twenty_g"@.len());
    assert("aggressive"@.len() != "tspin"@.len());
    assert("aggressive"@.len() != "defensive"@.len());
    assert("tspin"@.len() != "defensive"@.len());
}

/// Balanced play leaves the engine's weights alone, and every other playstyle changes what it
/// is named after: aggressive play values attacks, T-spin play values T-spins and dislikes a
/// wasted T, and defensive play dislikes height and holes. Each leaves the weights of the
/// others alone.
pub proof fn law_playstyles_weigh_what_they_are_named_after(style: Playstyle, w: WeightChanges)
    requires
        are_weights_of(style, w),
    ensures
        style == Playstyle::Balanced ==> w == default_weights(),
        w.clear4 is Some <==> style == Playstyle::Aggressive,
        w.combo_garbage is Some <==> style == Playstyle::Aggressive,
        w.back_to_back is Some <==> style == Playstyle::Aggressive || style == Playstyle::TSpin,
        w.tspin1 is Some <==> style == Playstyle::TSpin,
        w.tspin2 is Some <==> style == Playstyle::TSpin,
        w.tspin3 is Some <==> style == Playstyle::TSpin,
        w.tslot is Some <==> style == Playstyle::TSpin,
        w.wasted_t is Some <==> style == Playstyle::TSpin,
        w.height is Some <==> style == Playstyle::Defensive,
        w.cavity_cells is Some <==> style == Playstyle::Defensive,
        w.overhang_cells is Some <==> style == Playstyle::Defensive,
        w.top_half is Some <==> style == Playstyle::Defensive,
        w.clear4 matches Some(x) ==> x > 0,
        w.tspin1 matches Some(x) ==> x > 0,
        w.tspin2 matches Some(x) ==> w.tspin1 matches Some(y) && x > y,
        w.tspin3 matches Some(x) ==> w.tspin2 matches Some(y) && x > y,
        w.wasted_t matches Some(x) ==> x < 0,
        w.height matches Some(x) ==> x < 0,
        w.cavity_cells matches Some(x) ==> x < 0,
        w.overhang_cells matches Some(x) ==> x < 0,
        w.top_half matches Some(x) ==> x < 0,
{
}

} // verus!
