//! The locked field: what remains of a board once the falling piece is taken
//! off it.
use crate::color::CellColor;
use crate::component::{
    above, below, cell_at, closed_under_steps, colored, component, connected, fill,
    law_component_is_connected_group, left_of, lemma_colored_finite, lemma_connected_transitive,
    lemma_fill_members, lemma_fill_split, lemma_fill_without_group, lemma_unvisited_finite,
    neighbors, on_board, right_of, scan_cell, unvisited,
};
use vstd::prelude::*;

verus! {

proof fn lemma_smaller(
    todo: Set<(usize, usize)>,
    left: Set<(usize, usize)>,
    cell: (usize, usize),
)
    requires
        todo.finite(),
        todo.contains(cell),
        left.subset_of(todo.remove(cell)),
    ensures
        left.finite(),
        left.len() < todo.len(),
{
    vstd::set_lib::lemma_len_subset(left, todo.remove(cell));
}

proof fn lemma_empty_fill(todo: Set<(usize, usize)>)
    ensures
        fill(todo, Seq::empty()) == Seq::<(usize, usize)>::empty(),
        todo.difference(Seq::<(usize, usize)>::empty().to_set()) == todo,
{
    assert(todo.difference(Seq::<(usize, usize)>::empty().to_set()) =~= todo);
}

/// Filling from all neighbours of a cell is filling from each in turn, every
/// time with what the earlier ones have left.
proof fn lemma_fill_four(t1: Set<(usize, usize)>, cell: (usize, usize))
    requires
        t1.finite(),
    ensures
        ({
            let f1 = fill(t1, above(cell));
            let t2 = t1.difference(f1.to_set());
            let f2 = fill(t2, below(cell));
            let t3 = t2.difference(f2.to_set());
            let f3 = fill(t3, left_of(cell));
            let t4 = t3.difference(f3.to_set());
            let f4 = fill(t4, right_of(cell));
            fill(t1, neighbors(cell)) == f1 + f2 + f3 + f4
        }),
{
    let f1 = fill(t1, above(cell));
    let t2 = t1.difference(f1.to_set());
    let f2 = fill(t2, below(cell));
    let t3 = t2.difference(f2.to_set());
    let f3 = fill(t3, left_of(cell));
    let t4 = t3.difference(f3.to_set());
    let f4 = fill(t4, right_of(cell));
    vstd::set_lib::lemma_len_subset(t2, t1);
    vstd::set_lib::lemma_len_subset(t3, t2);
    lemma_fill_split(t1, right_of(cell) + left_of(cell) + below(cell), above(cell));
    lemma_fill_split(t2, right_of(cell) + left_of(cell), below(cell));
    lemma_fill_split(t3, right_of(cell), left_of(cell));
    assert(f1 + (f2 + (f3 + f4)) =~= f1 + f2 + f3 + f4);
}

proof fn lemma_in_concat(
    a: Seq<(usize, usize)>,
    b: Seq<(usize, usize)>,
)
    ensures
        forall|x: (usize, usize)| #[trigger] (a + b).contains(x) <==> a.contains(x) || b.contains(x),
{
    assert forall|x: (usize, usize)| #[trigger] (a + b).contains(x) <==> a.contains(x) || b.contains(x) by {
        if a.contains(x) {
            assert((a + b)[a.index_of(x)] == x);
        }
        if b.contains(x) {
            assert((a + b)[a.len() + b.index_of(x)] == x);
        }
        if (a + b).contains(x) {
            let k = (a + b).index_of(x);
            if k < a.len() {
                assert(a[k] == x);
            } else {
                assert(b[k - a.len()] == x);
            }
        }
    }
}

/// A fill from a cell that is not waiting finds nothing.
proof fn lemma_fill_miss(todo: Set<(usize, usize)>, cell: (usize, usize))
    requires
        !todo.contains(cell),
    ensures
        fill(todo, seq![cell]) == Seq::<(usize, usize)>::empty(),
        todo.difference(fill(todo, seq![cell]).to_set()) == todo,
{
    assert(seq![cell].last() == cell);
    assert(seq![cell].drop_last() =~= Seq::<(usize, usize)>::empty());
    lemma_empty_fill(todo);
}

/// A fill from a waiting cell lists the cell and then fills from what lies
/// above, below, left and right of it.
proof fn lemma_fill_hit(todo: Set<(usize, usize)>, cell: (usize, usize))
    requires
        todo.finite(),
        todo.contains(cell),
    ensures
        ({
            let t1 = todo.remove(cell);
            let f1 = fill(t1, above(cell));
            let t2 = t1.difference(f1.to_set());
            let f2 = fill(t2, below(cell));
            let t3 = t2.difference(f2.to_set());
            let f3 = fill(t3, left_of(cell));
            let t4 = t3.difference(f3.to_set());
            let f4 = fill(t4, right_of(cell));
            let whole = fill(todo, seq![cell]);
            &&& whole == seq![cell] + f1 + f2 + f3 + f4
            &&& todo.difference(whole.to_set()) == t4.difference(f4.to_set())
            &&& forall|x: (usize, usize)| #[trigger]
                whole.contains(x) <==> (x == cell || f1.contains(x) || f2.contains(x) || f3.contains(
                    x,
                ) || f4.contains(x))
        }),
{
    let t1 = todo.remove(cell);
    let f1 = fill(t1, above(cell));
    let t2 = t1.difference(f1.to_set());
    let f2 = fill(t2, below(cell));
    let t3 = t2.difference(f2.to_set());
    let f3 = fill(t3, left_of(cell));
    let t4 = t3.difference(f3.to_set());
    let f4 = fill(t4, right_of(cell));
    let whole = fill(todo, seq![cell]);
    lemma_fill_four(t1, cell);
    assert(seq![cell].last() == cell);
    assert(seq![cell].drop_last() + neighbors(cell) =~= neighbors(cell));
    assert(whole =~= seq![cell] + f1 + f2 + f3 + f4);
    lemma_in_concat(seq![cell] + f1 + f2 + f3, f4);
    lemma_in_concat(seq![cell] + f1 + f2, f3);
    lemma_in_concat(seq![cell] + f1, f2);
    lemma_in_concat(seq![cell], f1);
    assert forall|x: (usize, usize)| #[trigger]
        whole.contains(x) <==> (x == cell || f1.contains(x) || f2.contains(x) || f3.contains(x)
            || f4.contains(x)) by {
        assert(seq![cell][0] == cell);
        assert(seq![cell].contains(x) <==> x == cell);
        assert((seq![cell] + f1).contains(x) <==> x == cell || f1.contains(x));
        assert((seq![cell] + f1 + f2).contains(x) <==> x == cell || f1.contains(x) || f2.contains(x));
        assert((seq![cell] + f1 + f2 + f3).contains(x) <==> x == cell || f1.contains(x) || f2.contains(
            x,
        ) || f3.contains(x));
    }
    assert(todo.difference(whole.to_set()) =~= t4.difference(f4.to_set())) by {
        assert forall|x: (usize, usize)|
            todo.difference(whole.to_set()).contains(x) <==> t4.difference(f4.to_set()).contains(
                x,
            ) by {
            assert(whole.contains(x) <==> (x == cell || f1.contains(x) || f2.contains(x)
                || f3.contains(x) || f4.contains(x)));
        }
    }
}

/// Marks the unvisited cells of `color` that can be reached from a cell and
/// appends them to `component` in depth-first order: the cell, then what lies
/// above, below, left and right of it.
#[verifier::spinoff_prover]
#[verifier::rlimit(30)]
pub fn flood_fill(
    board: &[[CellColor; 10]; 20],
    row: usize,
    col: usize,
    color: CellColor,
    visited: &mut [[bool; 10]; 20],
    component: &mut Vec<(usize, usize)>,
)
    ensures
        final(component)@ == old(component)@ + fill(
            unvisited(*board, color, *old(visited)),
            seq![(row, col)],
        ),
        forall|r: int, c: int|
            0 <= r < 20 && 0 <= c < 10 ==> (#[trigger] final(visited)@[r]@[c] <==> (
            old(visited)@[r]@[c] || fill(
                unvisited(*board, color, *old(visited)),
                seq![(row, col)],
            ).contains((r as usize, c as usize)))),
        unvisited(*board, color, *final(visited)) == unvisited(
            *board,
            color,
            *old(visited),
        ).difference(fill(unvisited(*board, color, *old(visited)), seq![(row, col)]).to_set()),
    decreases unvisited(*board, color, *old(visited)).len(),
{
    let ghost todo = unvisited(*board, color, *visited);
    let ghost cell = (row, col);
    proof {
        lemma_unvisited_finite(*board, color, *visited);
    }
    if row >= 20 || col >= 10 || visited[row][col] || board[row][col] != color {
        proof {
            lemma_fill_miss(todo, cell);
        }
        return;
    }
    proof {
        assert(todo.contains(cell));
        lemma_fill_hit(todo, cell);
    }
    visited[row][col] = true;
    component.push((row, col));

    let ghost t1 = unvisited(*board, color, *visited);
    proof {
        assert(t1 =~= todo.remove(cell));
        lemma_smaller(todo, t1, cell);
        lemma_empty_fill(t1);
    }
    if row > 0 {
        flood_fill(board, row - 1, col, color, visited, component);
    }
    let ghost f1 = fill(t1, above(cell));
    let ghost t2 = unvisited(*board, color, *visited);
    proof {
        assert(t2 == t1.difference(f1.to_set()));
        assert(component@ =~= old(component)@ + (seq![cell] + f1));
        lemma_smaller(todo, t2, cell);
        lemma_empty_fill(t2);
    }
    if row < 19 {
        flood_fill(board, row + 1, col, color, visited, component);
    }
    let ghost f2 = fill(t2, below(cell));
    let ghost t3 = unvisited(*board, color, *visited);
    proof {
        assert(t3 == t2.difference(f2.to_set()));
        assert(component@ =~= old(component)@ + (seq![cell] + f1 + f2));
        lemma_smaller(todo, t3, cell);
        lemma_empty_fill(t3);
    }
    if col > 0 {
        flood_fill(board, row, col - 1, color, visited, component);
    }
    let ghost f3 = fill(t3, left_of(cell));
    let ghost t4 = unvisited(*board, color, *visited);
    proof {
        assert(t4 == t3.difference(f3.to_set()));
        assert(component@ =~= old(component)@ + (seq![cell] + f1 + f2 + f3));
        lemma_smaller(todo, t4, cell);
        lemma_empty_fill(t4);
    }
    if col < 9 {
        flood_fill(board, row, col + 1, color, visited, component);
    }
    let ghost f4 = fill(t4, right_of(cell));
    proof {
        assert(component@ =~= old(component)@ + (seq![cell] + f1 + f2 + f3 + f4));
    }
}

/// The first `n` of the given cells in scan order, from position `i` on.
pub open spec fn topmost(cells: Seq<(usize, usize)>, i: int, n: nat) -> Seq<(usize, usize)>
    decreases 200 - i,
{
    if i >= 200 || n == 0 {
        Seq::empty()
    } else if cells.contains(scan_cell(i)) {
        seq![scan_cell(i)] + topmost(cells, i + 1, (n - 1) as nat)
    } else {
        topmost(cells, i + 1, n)
    }
}

/// The four cells of a group that make up the falling piece: the group itself
/// if it has four cells, else its four topmost.
pub open spec fn piece_cells(group: Seq<(usize, usize)>) -> Seq<(usize, usize)> {
    if group.len() == 4 {
        group
    } else {
        topmost(group, 0, 4)
    }
}

/// Whether a group of at least four equally coloured cells holds the `i`-th
/// cell of the board.
pub open spec fn starts_piece(board: [[CellColor; 10]; 20], color: CellColor, i: int) -> bool {
    cell_at(board, scan_cell(i)) == color && component(board, color, scan_cell(i)).len() >= 4
}

/// The falling piece among the cells from position `i` on: it is part of the
/// first group that is large enough.
pub open spec fn falling_from(board: [[CellColor; 10]; 20], color: CellColor, i: int) -> Seq<
    (usize, usize),
>
    decreases 200 - i,
{
    if i >= 200 {
        Seq::empty()
    } else if starts_piece(board, color, i) {
        piece_cells(component(board, color, scan_cell(i)))
    } else {
        falling_from(board, color, i + 1)
    }
}

/// The cells of the falling piece; none if no piece is named or no group of its
/// colour is large enough.
pub open spec fn falling_cells(
    board: [[CellColor; 10]; 20],
    current_piece: Option<CellColor>,
) -> Seq<(usize, usize)> {
    match current_piece {
        Some(color) => if color.is_piece() {
            falling_from(board, color, 0)
        } else {
            Seq::empty()
        },
        None => Seq::empty(),
    }
}

fn has_cell(cells: &Vec<(usize, usize)>, cell: (usize, usize)) -> (found: bool)
    ensures
        found == cells@.contains(cell),
{
    for i in 0..cells.len()
        invariant
            forall|j: int| 0 <= j < i ==> cells@[j] != cell,
    {
        let (row, col) = cells[i];
        if row == cell.0 && col == cell.1 {
            assert(cells@[i as int] == cell);
            return true;
        }
    }
    false
}

fn four_topmost(cells: &Vec<(usize, usize)>) -> (top: Vec<(usize, usize)>)
    ensures
        top@ == topmost(cells@, 0, 4),
{
    let mut top: Vec<(usize, usize)> = Vec::new();
    for i in 0..200usize
        invariant
            top@.len() <= 4,
            top@ + topmost(cells@, i as int, (4 - top@.len()) as nat) == topmost(cells@, 0, 4),
    {
        let cell = (i / 10, i % 10);
        assert(cell == scan_cell(i as int));
        let ghost before = top@;
        if top.len() < 4 && has_cell(cells, cell) {
            top.push(cell);
            assert(before + (seq![cell] + topmost(cells@, i + 1, (3 - before.len()) as nat)) =~= top@
                + topmost(cells@, i + 1, (4 - top@.len()) as nat));
        }
    }
    assert(top@ + topmost(cells@, 200, (4 - top@.len()) as nat) =~= top@);
    top
}

/// Whether a cell is marked as visited.
spec fn marked(visited: [[bool; 10]; 20], cell: (usize, usize)) -> bool {
    on_board(cell) && visited@[cell.0 as int]@[cell.1 as int]
}

spec fn marked_set(visited: [[bool; 10]; 20]) -> Set<(usize, usize)> {
    Set::new(|cell: (usize, usize)| marked(visited, cell))
}

/// What the search keeps while it scans: the marked cells form whole groups,
/// all of them too small to be the falling piece.
spec fn scanned(
    board: [[CellColor; 10]; 20],
    color: CellColor,
    visited: [[bool; 10]; 20],
) -> bool {
    &&& closed_under_steps(colored(board, color), marked_set(visited))
    &&& forall|cell: (usize, usize)| #[trigger]
        marked(visited, cell) ==> component(board, color, cell).len() < 4
}

/// A fill that starts outside of the marked groups finds the whole component.
proof fn lemma_fill_unmarked(
    board: [[CellColor; 10]; 20],
    color: CellColor,
    visited: [[bool; 10]; 20],
    cell: (usize, usize),
)
    requires
        scanned(board, color, visited),
        !marked(visited, cell),
    ensures
        fill(unvisited(board, color, visited), seq![cell]) == component(board, color, cell),
{
    let cells = colored(board, color);
    lemma_colored_finite(board, color);
    assert(unvisited(board, color, visited) =~= cells.difference(marked_set(visited)));
    lemma_fill_without_group(cells, cells, marked_set(visited), seq![cell]);
}

/// A cell is connected to itself and to its neighbours of the same colour.
proof fn lemma_connected_step(cells: Set<(usize, usize)>, x: (usize, usize), y: (usize, usize))
    requires
        cells.contains(x),
        cells.contains(y),
        neighbors(x).contains(y),
    ensures
        connected(cells, x, y),
{
    let path = seq![x, y];
    assert(crate::component::is_path(cells, path));
    assert(path.first() == x && path.last() == y);
}

/// Neighbourhood goes both ways.
proof fn lemma_neighbors_symmetric(x: (usize, usize), y: (usize, usize))
    requires
        on_board(x),
        on_board(y),
        neighbors(x).contains(y),
    ensures
        neighbors(y).contains(x),
{
    let n = neighbors(y);
    let k = neighbors(x).index_of(y);
    assert(neighbors(x)[k] == y);
    if y.0 == x.0 && y.1 == x.1 + 1 {
        assert(n[right_of(y).len() as int] == x);
    } else if y.0 == x.0 && y.1 + 1 == x.1 {
        assert(n[0] == x);
    } else if y.0 == x.0 + 1 {
        assert(n[n.len() - 1] == x);
    } else {
        assert(n[(right_of(y).len() + left_of(y).len()) as int] == x);
    }
}

/// Marking a whole component that is too small keeps the state of the search.
proof fn lemma_mark_component(
    board: [[CellColor; 10]; 20],
    color: CellColor,
    before: [[bool; 10]; 20],
    after: [[bool; 10]; 20],
    cell: (usize, usize),
)
    requires
        scanned(board, color, before),
        component(board, color, cell).len() < 4,
        forall|x: (usize, usize)|
            on_board(x) ==> (#[trigger] marked(after, x) <==> marked(before, x) || component(
                board,
                color,
                cell,
            ).contains(x)),
    ensures
        scanned(board, color, after),
{
    let cells = colored(board, color);
    let group = component(board, color, cell);
    lemma_colored_finite(board, color);
    lemma_fill_members(cells, seq![cell]);
    assert forall|x: (usize, usize)| #[trigger] marked(after, x) implies component(board, color, x).len()
        < 4 by {
        if !marked(before, x) {
            law_component_is_connected_group(board, color, cell, x);
            let sub = component(board, color, x);
            lemma_fill_members(cells, seq![x]);
            assert forall|y: (usize, usize)| sub.contains(y) implies group.contains(y) by {
                law_component_is_connected_group(board, color, x, y);
                lemma_connected_transitive(cells, cell, x, y);
                law_component_is_connected_group(board, color, cell, y);
            }
            sub.unique_seq_to_set();
            group.unique_seq_to_set();
            vstd::seq_lib::seq_to_set_is_finite(group);
            vstd::set_lib::lemma_len_subset(sub.to_set(), group.to_set());
        }
    }
    assert forall|x: (usize, usize), y: (usize, usize)|
        cells.contains(x) && cells.contains(y) && #[trigger] neighbors(x).contains(y) implies (
    marked_set(after).contains(x) <==> marked_set(after).contains(y)) by {
        assert(marked_set(before).contains(x) <==> marked_set(before).contains(y));
        assert(marked_set(after).contains(x) <==> marked(after, x));
        assert(marked_set(after).contains(y) <==> marked(after, y));
        if group.contains(x) {
            law_component_is_connected_group(board, color, cell, x);
            lemma_connected_step(cells, x, y);
            lemma_connected_transitive(cells, cell, x, y);
            law_component_is_connected_group(board, color, cell, y);
        }
        if group.contains(y) {
            lemma_neighbors_symmetric(x, y);
            law_component_is_connected_group(board, color, cell, y);
            lemma_connected_step(cells, y, x);
            lemma_connected_transitive(cells, cell, y, x);
            law_component_is_connected_group(board, color, cell, x);
        }
    }
}

/// Finds the cells of the falling piece: the first group, scanning from the top
/// left, of at least four connected cells of its colour. A larger group is the
/// piece merged with locked cells, of which the four topmost are taken.
pub fn find_falling_piece_cells(
    board: &[[CellColor; 10]; 20],
    current_piece: Option<CellColor>,
) -> (cells: Vec<(usize, usize)>)
    ensures
        cells@ == falling_cells(*board, current_piece),
{
    let color = match current_piece {
        Some(c) => {
            if c != CellColor::Empty && c != CellColor::Garbage {
                c
            } else {
                return Vec::new();
            }
        },
        None => {
            return Vec::new();
        },
    };

    let mut visited = [[false; 10]; 20];
    let ghost start = falling_from(*board, color, 0);

    for i in 0..200usize
        invariant
            current_piece == Some(color),
            color.is_piece(),
            start == falling_from(*board, color, 0),
            scanned(*board, color, visited),
            falling_from(*board, color, i as int) == start,
    {
        let row = i / 10;
        let col = i % 10;
        let ghost cell = (row, col);
        assert(cell == scan_cell(i as int));
        assert(marked(visited, cell) == visited@[row as int]@[col as int]);
        if board[row][col] == color && !visited[row][col] {
            let ghost before = visited;
            let mut group: Vec<(usize, usize)> = Vec::new();
            flood_fill(board, row, col, color, &mut visited, &mut group);
            proof {
                lemma_fill_unmarked(*board, color, before, cell);
                assert(group@ =~= component(*board, color, cell));
            }
            if group.len() == 4 {
                return group;
            }
            if group.len() > 4 {
                return four_topmost(&group);
            }
            proof {
                assert forall|x: (usize, usize)| on_board(x) implies (#[trigger] marked(visited, x)
                    <==> marked(before, x) || component(*board, color, cell).contains(x)) by {
                    assert(visited@[x.0 as int]@[x.1 as int] <==> (
                    before@[x.0 as int]@[x.1 as int] || component(*board, color, cell).contains(x)));
                }
                lemma_mark_component(*board, color, before, visited, cell);
            }
        }
    }
    Vec::new()
}

/// Whether a cell of the locked field is filled. Rows of the field count from
/// the bottom, rows of the board from the top; only the lower half of the field
/// is visible on the board.
pub open spec fn locked(
    board: [[CellColor; 10]; 20],
    current_piece: Option<CellColor>,
    row: int,
    col: int,
) -> bool {
    &&& 0 <= row < 20
    &&& cell_at(board, ((19 - row) as usize, col as usize)) != CellColor::Empty
    &&& !falling_cells(board, current_piece).contains(((19 - row) as usize, col as usize))
}

/// Builds the locked field from the cells read off the screen: every filled
/// cell that does not belong to the falling piece.
pub fn build_field_from_vision(
    board: &[[CellColor; 10]; 20],
    current_piece: Option<CellColor>,
) -> (field: [[bool; 10]; 40])
    ensures
        forall|row: int, col: int|
            0 <= row < 40 && 0 <= col < 10 ==> #[trigger] field@[row]@[col] == locked(
                *board,
                current_piece,
                row,
                col,
            ),
{
    let falling = find_falling_piece_cells(board, current_piece);
    let mut field = [[false; 10]; 40];
    for i in 0..200usize
        invariant
            falling@ == falling_cells(*board, current_piece),
            forall|row: int, col: int|
                0 <= row < 40 && 0 <= col < 10 ==> #[trigger] field@[row]@[col] == (10 * (19 - row)
                    + col < i && locked(*board, current_piece, row, col)),
    {
        let vision_row = i / 10;
        let col = i % 10;
        if board[vision_row][col] != CellColor::Empty && !has_cell(&falling, (vision_row, col)) {
            field[19 - vision_row][col] = true;
        }
    }
    field
}

/// The position of a cell in scan order.
pub open spec fn scan_position(cell: (usize, usize)) -> int {
    10 * cell.0 + cell.1
}

/// Cells of a group from position `i` on, in strictly increasing scan order.
pub open spec fn scan_sorted(list: Seq<(usize, usize)>, cells: Seq<(usize, usize)>, i: int) -> bool {
    &&& forall|k: int|
        0 <= k < list.len() ==> cells.contains(#[trigger] list[k]) && on_board(list[k]) && i
            <= scan_position(list[k])
    &&& forall|j: int, k: int|
        0 <= j < k < list.len() ==> scan_position(#[trigger] list[j]) < scan_position(
            #[trigger] list[k],
        )
}

/// A counted prefix: scanning from position `i` on meets at least as many of
/// the given cells as lie there.
proof fn lemma_topmost_length(cells: Seq<(usize, usize)>, rest: Set<(usize, usize)>, i: int, n: nat)
    requires
        0 <= i <= 200,
        rest.finite(),
        forall|x: (usize, usize)| #[trigger]
            rest.contains(x) ==> cells.contains(x) && on_board(x) && i <= scan_position(x),
    ensures
        topmost(cells, i, n).len() <= n,
        topmost(cells, i, n).len() >= n || topmost(cells, i, n).len() >= rest.len(),
    decreases 200 - i,
{
    if i == 200 {
        assert(rest =~= Set::empty()) by {
            assert forall|x: (usize, usize)| !rest.contains(x) by {
                assert(scan_position(x) < 200 || !on_board(x));
            }
        }
    } else if n > 0 {
        let x = scan_cell(i);
        let left = rest.remove(x);
        assert forall|y: (usize, usize)| #[trigger] left.contains(y) implies cells.contains(y)
            && on_board(y) && i + 1 <= scan_position(y) by {
            assert(rest.contains(y));
            if scan_position(y) == i {
                assert(y == x);
            }
        }
        if cells.contains(x) {
            lemma_topmost_length(cells, left, i + 1, (n - 1) as nat);
        } else {
            assert(left =~= rest);
            lemma_topmost_length(cells, left, i + 1, n);
        }
    }
}

/// The topmost cells are cells of the group, in strictly increasing scan order.
proof fn lemma_topmost_members(cells: Seq<(usize, usize)>, i: int, n: nat)
    requires
        0 <= i,
    ensures
        scan_sorted(topmost(cells, i, n), cells, i),
    decreases 200 - i,
{
    if i < 200 && n > 0 {
        if cells.contains(scan_cell(i)) {
            let tail = topmost(cells, i + 1, (n - 1) as nat);
            lemma_topmost_members(cells, i + 1, (n - 1) as nat);
            let whole = topmost(cells, i, n);
            assert forall|k: int| 0 <= k < whole.len() implies cells.contains(#[trigger] whole[k])
                && on_board(whole[k]) && i <= scan_position(whole[k]) by {
                if k > 0 {
                    assert(whole[k] == tail[k - 1]);
                }
            }
            assert forall|j: int, k: int| 0 <= j < k < whole.len() implies scan_position(
                #[trigger] whole[j],
            ) < scan_position(#[trigger] whole[k]) by {
                assert(whole[k] == tail[k - 1]);
                if j > 0 {
                    assert(whole[j] == tail[j - 1]);
                }
            }
        } else {
            lemma_topmost_members(cells, i + 1, n);
        }
    }
}

proof fn lemma_piece_cells(board: [[CellColor; 10]; 20], color: CellColor, cell: (usize, usize))
    requires
        component(board, color, cell).len() >= 4,
    ensures
        ({
            let cells = piece_cells(component(board, color, cell));
            &&& cells.len() == 4
            &&& cells.no_duplicates()
            &&& forall|k: int| 0 <= k < 4 ==> colored(board, color).contains(#[trigger] cells[k])
        }),
{
    let group = component(board, color, cell);
    lemma_fill_members(colored(board, color), seq![cell]);
    assert forall|k: int| 0 <= k < group.len() implies colored(board, color).contains(
        #[trigger] group[k],
    ) by {
        assert(group.contains(group[k]));
    }
    if group.len() > 4 {
        group.unique_seq_to_set();
        vstd::seq_lib::seq_to_set_is_finite(group);
        lemma_topmost_length(group, group.to_set(), 0, 4);
        lemma_topmost_members(group, 0, 4);
    }
}

proof fn lemma_falling_from(board: [[CellColor; 10]; 20], color: CellColor, i: int)
    ensures
        ({
            let cells = falling_from(board, color, i);
            &&& cells.len() == 0 || cells.len() == 4
            &&& cells.no_duplicates()
            &&& forall|k: int|
                0 <= k < cells.len() ==> colored(board, color).contains(#[trigger] cells[k])
        }),
    decreases 200 - i,
{
    if i < 200 {
        if starts_piece(board, color, i) {
            lemma_piece_cells(board, color, scan_cell(i));
        } else {
            lemma_falling_from(board, color, i + 1);
        }
    }
}

/// The falling piece is a tetromino or absent: it has four distinct cells of the
/// current piece's colour, or none.
pub proof fn law_falling_piece_is_a_tetromino(
    board: [[CellColor; 10]; 20],
    current_piece: Option<CellColor>,
)
    ensures
        ({
            let cells = falling_cells(board, current_piece);
            &&& cells.len() == 0 || cells.len() == 4
            &&& cells.no_duplicates()
            &&& forall|k: int|
                0 <= k < cells.len() ==> on_board(#[trigger] cells[k]) && current_piece == Some(
                    cell_at(board, cells[k]),
                )
        }),
{
    if let Some(color) = current_piece {
        if color.is_piece() {
            lemma_falling_from(board, color, 0);
        }
    }
}

/// Garbage and cells of other colours than the current piece's always stay in
/// the locked field.
pub proof fn law_other_colors_stay_locked(
    board: [[CellColor; 10]; 20],
    current_piece: Option<CellColor>,
    row: int,
    col: int,
)
    requires
        0 <= row < 20,
        0 <= col < 10,
        cell_at(board, ((19 - row) as usize, col as usize)) != CellColor::Empty,
        current_piece != Some(cell_at(board, ((19 - row) as usize, col as usize))),
    ensures
        locked(board, current_piece, row, col),
{
    law_falling_piece_is_a_tetromino(board, current_piece);
    let cells = falling_cells(board, current_piece);
    let cell = ((19 - row) as usize, col as usize);
    if cells.contains(cell) {
        let k = cells.index_of(cell);
        assert(cells[k] == cell);
    }
}

/// Cells of a group that are not among its topmost come after all that are.
proof fn lemma_topmost_before(
    cells: Seq<(usize, usize)>,
    i: int,
    n: nat,
    k: int,
    other: (usize, usize),
)
    requires
        0 <= i,
        i <= scan_position(other),
        on_board(other),
        cells.contains(other),
        !topmost(cells, i, n).contains(other),
        0 <= k < topmost(cells, i, n).len(),
    ensures
        scan_position(topmost(cells, i, n)[k]) < scan_position(other),
    decreases 200 - i,
{
    let whole = topmost(cells, i, n);
    if cells.contains(scan_cell(i)) {
        let tail = topmost(cells, i + 1, (n - 1) as nat);
        assert(whole[0] == scan_cell(i));
        assert(scan_position(other) == i ==> other == scan_cell(i));
        if k > 0 {
            assert(whole[k] == tail[k - 1]);
            if tail.contains(other) {
                let j = tail.index_of(other);
                assert(whole[j + 1] == other);
            }
            lemma_topmost_before(cells, i + 1, (n - 1) as nat, k - 1, other);
        }
    } else {
        assert(scan_position(other) == i ==> other == scan_cell(i));
        lemma_topmost_before(cells, i + 1, n, k, other);
    }
}

/// Of a group of more than four cells, the four that lie topmost are taken for
/// the falling piece: every other cell of the group comes after them in scan
/// order.
pub proof fn law_falling_piece_lies_on_top(
    board: [[CellColor; 10]; 20],
    color: CellColor,
    cell: (usize, usize),
    k: int,
    other: (usize, usize),
)
    requires
        component(board, color, cell).len() > 4,
        0 <= k < 4,
        component(board, color, cell).contains(other),
        !piece_cells(component(board, color, cell)).contains(other),
    ensures
        scan_position(piece_cells(component(board, color, cell))[k]) < scan_position(other),
{
    let group = component(board, color, cell);
    lemma_fill_members(colored(board, color), seq![cell]);
    lemma_piece_cells(board, color, cell);
    assert(colored(board, color).contains(other));
    lemma_topmost_before(group, 0, 4, k, other);
}

/// The falling piece belongs to the first group of its colour, in scan order,
/// that has at least four cells.
pub proof fn law_falling_piece_comes_first(
    board: [[CellColor; 10]; 20],
    color: CellColor,
    i: int,
)
    requires
        color.is_piece(),
        0 <= i < 200,
        starts_piece(board, color, i),
        forall|j: int| 0 <= j < i ==> !#[trigger] starts_piece(board, color, j),
    ensures
        falling_cells(board, Some(color)) == piece_cells(component(board, color, scan_cell(i))),
{
    lemma_falling_from_first(board, color, 0, i);
}

proof fn lemma_falling_from_first(board: [[CellColor; 10]; 20], color: CellColor, k: int, i: int)
    requires
        0 <= k <= i < 200,
        starts_piece(board, color, i),
        forall|j: int| k <= j < i ==> !#[trigger] starts_piece(board, color, j),
    ensures
        falling_from(board, color, k) == piece_cells(component(board, color, scan_cell(i))),
    decreases i - k,
{
    if k < i {
        assert(!starts_piece(board, color, k));
        lemma_falling_from_first(board, color, k + 1, i);
    }
}

/// Without a group of at least four cells of its colour, nothing is taken for
/// the falling piece and every filled cell stays locked.
pub proof fn law_debris_stays_locked(board: [[CellColor; 10]; 20], color: CellColor)
    requires
        forall|j: int| 0 <= j < 200 ==> !#[trigger] starts_piece(board, color, j),
    ensures
        falling_cells(board, Some(color)) == Seq::<(usize, usize)>::empty(),
        forall|row: int, col: int|
            0 <= row < 20 && 0 <= col < 10 ==> (#[trigger] locked(board, Some(color), row, col)
                <==> cell_at(board, ((19 - row) as usize, col as usize)) != CellColor::Empty),
{
    lemma_falling_from_none(board, color, 0);
}

proof fn lemma_falling_from_none(board: [[CellColor; 10]; 20], color: CellColor, k: int)
    requires
        0 <= k,
        forall|j: int| k <= j < 200 ==> !#[trigger] starts_piece(board, color, j),
    ensures
        falling_from(board, color, k) == Seq::<(usize, usize)>::empty(),
    decreases 200 - k,
{
    if k < 200 {
        assert(!starts_piece(board, color, k));
        lemma_falling_from_none(board, color, k + 1);
    }
}

/// Only the cells of the falling piece are left out of the locked field: a cell is
/// filled if and only if it is visible, the board shows something there and it is
/// not one of the at most four falling cells, be it of the current piece's colour or
/// not.
pub proof fn law_only_the_falling_piece_is_left_out(
    board: [[CellColor; 10]; 20],
    current_piece: Option<CellColor>,
    row: int,
    col: int,
)
    requires
        0 <= row < 40,
        0 <= col < 10,
    ensures
        row >= 20 ==> !locked(board, current_piece, row, col),
        row < 20 ==> (locked(board, current_piece, row, col) <==> board@[19 - row]@[col]
            != CellColor::Empty && !falling_cells(board, current_piece).contains(
            ((19 - row) as usize, col as usize),
        )),
        falling_cells(board, current_piece).len() <= 4,
{
    law_falling_piece_is_a_tetromino(board, current_piece);
}

/// The filled cells of a board, by row from the top and column.
pub open spec fn filled_set(board: [[CellColor; 10]; 20]) -> Set<(usize, usize)> {
    Set::new(
        |cell: (usize, usize)|
            cell.0 < 20 && cell.1 < 10 && board@[cell.0 as int]@[cell.1 as int]
                != CellColor::Empty,
    )
}

/// The filled cells of a locked field, by row from the top of the board and column.
pub open spec fn locked_set(
    board: [[CellColor; 10]; 20],
    current_piece: Option<CellColor>,
) -> Set<(usize, usize)> {
    Set::new(
        |cell: (usize, usize)|
            cell.0 < 20 && cell.1 < 10 && locked(
                board,
                current_piece,
                19 - cell.0,
                cell.1 as int,
            ),
    )
}

/// Taking the falling piece off the board takes off as many cells as it has, and no
/// more: what is filled on the board and not in the field is exactly the falling
/// piece.
pub proof fn law_locked_cells_are_counted(
    board: [[CellColor; 10]; 20],
    current_piece: Option<CellColor>,
)
    ensures
        filled_set(board).finite(),
        locked_set(board, current_piece).finite(),
        locked_set(board, current_piece).subset_of(filled_set(board)),
        filled_set(board).difference(locked_set(board, current_piece)) == falling_cells(
            board,
            current_piece,
        ).to_set(),
        locked_set(board, current_piece).len() == filled_set(board).len() - falling_cells(
            board,
            current_piece,
        ).len(),
{
    let filled = filled_set(board);
    let kept = locked_set(board, current_piece);
    let falling = falling_cells(board, current_piece);
    law_falling_piece_is_a_tetromino(board, current_piece);
    let all = Seq::new(200, |i: int| scan_cell(i));
    vstd::seq_lib::seq_to_set_is_finite(all);
    assert forall|cell: (usize, usize)| filled.contains(cell) implies all.to_set().contains(cell) by {
        let i = 10 * cell.0 + cell.1;
        assert(i / 10 == cell.0 && i % 10 == cell.1);
        assert(all[i as int] == cell);
    }
    vstd::set_lib::lemma_set_subset_finite(all.to_set(), filled);
    vstd::set_lib::lemma_set_subset_finite(filled, kept);
    assert forall|cell: (usize, usize)| falling.contains(cell) implies filled.contains(cell) by {
        let k = falling.index_of(cell);
        assert(falling[k] == cell);
        if let Some(color) = current_piece {
            assert(color.is_piece());
        }
    }
    assert forall|cell: (usize, usize)|
        filled.difference(kept).contains(cell) <==> falling.to_set().contains(cell) by {
        if filled.contains(cell) {
            assert(((19 - (19 - cell.0)) as usize, cell.1) == cell);
        }
    }
    assert(filled.difference(kept) =~= falling.to_set());
    falling.unique_seq_to_set();
    assert(kept =~= filled.difference(falling.to_set()));
    vstd::set_lib::lemma_len_difference(filled, falling.to_set());
    vstd::seq_lib::seq_to_set_is_finite(falling);
    assert(filled =~= kept.union(falling.to_set()));
    assert(kept.disjoint(falling.to_set()));
    vstd::set_lib::lemma_set_disjoint_lens(kept, falling.to_set());
}

/// Whether the falling piece comes from the group at the `i`-th cell, the first that
/// is large enough.
proof fn lemma_falling_group(board: [[CellColor; 10]; 20], color: CellColor, k: int) -> (i: int)
    requires
        0 <= k,
        falling_from(board, color, k).len() > 0,
    ensures
        k <= i < 200,
        starts_piece(board, color, i),
        falling_from(board, color, k) == piece_cells(component(board, color, scan_cell(i))),
        forall|j: int| k <= j < i ==> !#[trigger] starts_piece(board, color, j),
    decreases 200 - k,
{
    if starts_piece(board, color, k) {
        k
    } else {
        lemma_falling_group(board, color, k + 1)
    }
}

/// Every cell of a falling piece belongs to the group it was taken from.
proof fn lemma_piece_cells_in_group(
    board: [[CellColor; 10]; 20],
    color: CellColor,
    cell: (usize, usize),
    k: int,
)
    requires
        component(board, color, cell).len() >= 4,
        0 <= k < piece_cells(component(board, color, cell)).len(),
    ensures
        connected(
            colored(board, color),
            cell,
            piece_cells(component(board, color, cell))[k],
        ),
{
    let group = component(board, color, cell);
    let taken = piece_cells(group);
    lemma_topmost_members(group, 0, 4);
    assert(group.contains(taken[k]));
    law_component_is_connected_group(board, color, cell, taken[k]);
}

/// Walks can be taken backwards.
proof fn lemma_connected_symmetric(
    cells: Set<(usize, usize)>,
    a: (usize, usize),
    b: (usize, usize),
)
    requires
        connected(cells, a, b),
        forall|x: (usize, usize)| cells.contains(x) ==> on_board(x),
    ensures
        connected(cells, b, a),
{
    let path = choose|path: Seq<(usize, usize)>|
        crate::component::is_path(cells, path) && path.first() == a && #[trigger] path.last() == b;
    let back = path.reverse();
    assert forall|i: int| 0 <= i < back.len() implies cells.contains(#[trigger] back[i]) by {
        assert(back[i] == path[path.len() - 1 - i]);
    }
    assert forall|i: int| 0 <= i && i + 1 < back.len() implies neighbors(#[trigger] back[i]).contains(
        back[i + 1],
    ) by {
        let j = path.len() - 2 - i;
        assert(back[i] == path[j + 1] && back[i + 1] == path[j]);
        assert(neighbors(path[j]).contains(path[j + 1]));
        lemma_neighbors_symmetric(path[j], path[j + 1]);
    }
    assert(back.first() == b && back.last() == a);
    assert(crate::component::is_path(cells, back));
}

/// The falling piece is part of one group: from each of its cells a walk over cells
/// of its colour leads to each of the others. What lies apart from it, though of the
/// same colour, is not falling.
pub proof fn law_falling_piece_is_one_group(
    board: [[CellColor; 10]; 20],
    color: CellColor,
    j: int,
    k: int,
)
    requires
        0 <= j < falling_cells(board, Some(color)).len(),
        0 <= k < falling_cells(board, Some(color)).len(),
    ensures
        connected(
            colored(board, color),
            falling_cells(board, Some(color))[j],
            falling_cells(board, Some(color))[k],
        ),
{
    let cells = colored(board, color);
    let i = lemma_falling_group(board, color, 0);
    let falling = falling_cells(board, Some(color));
    lemma_piece_cells_in_group(board, color, scan_cell(i), j);
    lemma_piece_cells_in_group(board, color, scan_cell(i), k);
    lemma_connected_symmetric(cells, scan_cell(i), falling[j]);
    lemma_connected_transitive(cells, falling[j], scan_cell(i), falling[k]);
}

/// A locked piece stays locked: a cell that no walk over cells of its colour connects
/// to the falling piece is filled in the field, whatever its colour and however large
/// its group.
pub proof fn law_separate_pieces_stay_locked(
    board: [[CellColor; 10]; 20],
    color: CellColor,
    row: int,
    col: int,
)
    requires
        0 <= row < 20,
        0 <= col < 10,
        board@[19 - row]@[col] != CellColor::Empty,
        forall|k: int|
            0 <= k < falling_cells(board, Some(color)).len() ==> !connected(
                colored(board, color),
                #[trigger] falling_cells(board, Some(color))[k],
                ((19 - row) as usize, col as usize),
            ),
    ensures
        locked(board, Some(color), row, col),
{
    let falling = falling_cells(board, Some(color));
    let cell = ((19 - row) as usize, col as usize);
    if falling.contains(cell) {
        let k = falling.index_of(cell);
        law_falling_piece_is_one_group(board, color, k, k);
    }
}

/// Within its group the falling piece lies on top: every other cell that is connected
/// to it comes after all of its cells, counted row by row from the top.
pub proof fn law_rest_of_the_group_lies_below(
    board: [[CellColor; 10]; 20],
    color: CellColor,
    j: int,
    k: int,
    other: (usize, usize),
)
    requires
        0 <= j < falling_cells(board, Some(color)).len(),
        0 <= k < falling_cells(board, Some(color)).len(),
        connected(colored(board, color), falling_cells(board, Some(color))[j], other),
        !falling_cells(board, Some(color)).contains(other),
    ensures
        10 * falling_cells(board, Some(color))[k].0 + falling_cells(board, Some(color))[k].1 < 10
            * other.0 + other.1,
{
    let cells = colored(board, color);
    let i = lemma_falling_group(board, color, 0);
    let group = component(board, color, scan_cell(i));
    let falling = falling_cells(board, Some(color));
    lemma_piece_cells_in_group(board, color, scan_cell(i), j);
    lemma_connected_transitive(cells, scan_cell(i), falling[j], other);
    law_component_is_connected_group(board, color, scan_cell(i), other);
    if group.len() > 4 {
        lemma_piece_cells(board, color, scan_cell(i));
        law_falling_piece_lies_on_top(board, color, scan_cell(i), k, other);
    }
}

/// A group is counted in full: four different cells that are connected to a cell make
/// its component at least as large.
proof fn lemma_large_group(
    board: [[CellColor; 10]; 20],
    color: CellColor,
    four: Seq<(usize, usize)>,
    cell: (usize, usize),
)
    requires
        four.len() == 4,
        four.no_duplicates(),
        forall|k: int| 0 <= k < 4 ==> connected(colored(board, color), cell, #[trigger] four[k]),
    ensures
        component(board, color, cell).len() >= 4,
{
    let group = component(board, color, cell);
    assert forall|x: (usize, usize)| four.to_set().contains(x) implies group.to_set().contains(x) by {
        let k = four.index_of(x);
        assert(connected(colored(board, color), cell, four[k]));
        law_component_is_connected_group(board, color, cell, x);
    }
    law_component_is_connected_group(board, color, cell, cell);
    four.unique_seq_to_set();
    group.unique_seq_to_set();
    vstd::seq_lib::seq_to_set_is_finite(group);
    vstd::set_lib::lemma_len_subset(four.to_set(), group.to_set());
}

/// Every cell of a connected group of four starts a piece.
proof fn lemma_group_starts_piece(
    board: [[CellColor; 10]; 20],
    color: CellColor,
    four: Seq<(usize, usize)>,
    m: int,
)
    requires
        four.len() == 4,
        four.no_duplicates(),
        forall|k: int| 0 <= k < 4 ==> connected(colored(board, color), four[0], #[trigger] four[k]),
        0 <= m < 4,
    ensures
        starts_piece(board, color, scan_position(four[m])),
        0 <= scan_position(four[m]) < 200,
{
    let cells = colored(board, color);
    assert(connected(cells, four[0], four[m]));
    lemma_connected_symmetric(cells, four[0], four[m]);
    let path = choose|path: Seq<(usize, usize)>|
        crate::component::is_path(cells, path) && path.first() == four[m] && #[trigger] path.last()
            == four[0];
    assert(cells.contains(path[0]));
    assert forall|k: int| 0 <= k < 4 implies connected(cells, four[m], #[trigger] four[k]) by {
        lemma_connected_transitive(cells, four[m], four[0], four[k]);
    }
    lemma_large_group(board, color, four, four[m]);
    assert(scan_cell(scan_position(four[m])) == four[m]);
}

/// The cell at which the falling piece is found belongs to it.
proof fn lemma_first_cell_is_falling(board: [[CellColor; 10]; 20], color: CellColor, i: int)
    requires
        color.is_piece(),
        0 <= i < 200,
        starts_piece(board, color, i),
        falling_cells(board, Some(color)) == piece_cells(component(board, color, scan_cell(i))),
        forall|j: int| 0 <= j < i ==> !#[trigger] starts_piece(board, color, j),
    ensures
        falling_cells(board, Some(color)).contains(scan_cell(i)),
{
    let cells = colored(board, color);
    let falling = falling_cells(board, Some(color));
    let head = scan_cell(i);
    let group = component(board, color, head);
    let path = seq![head];
    assert(crate::component::is_path(cells, path) && path.first() == head && path.last() == head);
    law_component_is_connected_group(board, color, head, head);
    law_falling_piece_is_a_tetromino(board, Some(color));
    lemma_piece_cells(board, color, head);
    if !falling.contains(head) {
        law_falling_piece_lies_on_top(board, color, head, 0, head);
        assert forall|k: int| 0 <= k < 4 implies connected(cells, falling[0], #[trigger] falling[k]) by {
            law_falling_piece_is_one_group(board, color, 0, k);
        }
        lemma_group_starts_piece(board, color, falling, 0);
    }
}

/// A piece on the board is found: where four different cells of the current piece's
/// colour are connected, there is a falling piece, and it does not begin after any of
/// them, counted row by row from the top.
pub proof fn law_piece_on_the_board_is_found(
    board: [[CellColor; 10]; 20],
    color: CellColor,
    four: Seq<(usize, usize)>,
    k: int,
)
    requires
        color.is_piece(),
        four.len() == 4,
        four.no_duplicates(),
        forall|k: int| 0 <= k < 4 ==> connected(colored(board, color), four[0], #[trigger] four[k]),
        0 <= k < 4,
    ensures
        falling_cells(board, Some(color)).len() == 4,
        exists|first: int|
            0 <= first < 4 && scan_position(#[trigger] falling_cells(board, Some(color))[first])
                <= scan_position(four[k]),
{
    let falling = falling_cells(board, Some(color));
    lemma_group_starts_piece(board, color, four, k);
    lemma_falling_from_nonempty(board, color, 0, scan_position(four[k]));
    law_falling_piece_is_a_tetromino(board, Some(color));
    let i = lemma_falling_group(board, color, 0);
    lemma_first_cell_is_falling(board, color, i);
    let first = falling.index_of(scan_cell(i));
    assert(falling[first] == scan_cell(i));
    assert(scan_position(falling[first]) == i);
}

proof fn lemma_falling_from_nonempty(board: [[CellColor; 10]; 20], color: CellColor, k: int, i: int)
    requires
        0 <= k <= i < 200,
        starts_piece(board, color, i),
    ensures
        falling_from(board, color, k).len() > 0,
    decreases i - k,
{
    if starts_piece(board, color, k) {
        lemma_piece_cells(board, color, scan_cell(k));
    } else {
        lemma_falling_from_nonempty(board, color, k + 1, i);
    }
}

} // verus!
