//! Connected groups of equally coloured cells on the board.
use crate::color::CellColor;
use vstd::prelude::*;

verus! {

/// The colour of a cell.
pub open spec fn cell_at(board: [[CellColor; 10]; 20], cell: (usize, usize)) -> CellColor {
    board@[cell.0 as int]@[cell.1 as int]
}

/// Whether a cell lies on the board.
pub open spec fn on_board(cell: (usize, usize)) -> bool {
    cell.0 < 20 && cell.1 < 10
}

/// The cells of one colour that are not marked as visited.
pub open spec fn unvisited(
    board: [[CellColor; 10]; 20],
    color: CellColor,
    visited: [[bool; 10]; 20],
) -> Set<(usize, usize)> {
    Set::new(
        |cell: (usize, usize)|
            on_board(cell) && cell_at(board, cell) == color && !visited@[cell.0 as int]@[cell.1 as int],
    )
}

/// The cells of one colour.
pub open spec fn colored(board: [[CellColor; 10]; 20], color: CellColor) -> Set<(usize, usize)> {
    Set::new(|cell: (usize, usize)| on_board(cell) && cell_at(board, cell) == color)
}

/// The `i`-th cell of the board, row by row from the top left.
pub open spec fn scan_cell(i: int) -> (usize, usize) {
    ((i / 10) as usize, (i % 10) as usize)
}

/// The orthogonal neighbours of a cell: right, left, below, above.
pub open spec fn neighbors(cell: (usize, usize)) -> Seq<(usize, usize)> {
    right_of(cell) + left_of(cell) + below(cell) + above(cell)
}

pub open spec fn right_of(cell: (usize, usize)) -> Seq<(usize, usize)> {
    if cell.1 < 9 {
        seq![(cell.0, (cell.1 + 1) as usize)]
    } else {
        seq![]
    }
}

pub open spec fn left_of(cell: (usize, usize)) -> Seq<(usize, usize)> {
    if cell.1 > 0 {
        seq![(cell.0, (cell.1 - 1) as usize)]
    } else {
        seq![]
    }
}

pub open spec fn below(cell: (usize, usize)) -> Seq<(usize, usize)> {
    if cell.0 < 19 {
        seq![((cell.0 + 1) as usize, cell.1)]
    } else {
        seq![]
    }
}

pub open spec fn above(cell: (usize, usize)) -> Seq<(usize, usize)> {
    if cell.0 > 0 {
        seq![((cell.0 - 1) as usize, cell.1)]
    } else {
        seq![]
    }
}

/// Depth-first order: the cells of `todo` that are found from the cells waiting
/// on `stack`, the last of which is taken first.
pub open spec fn fill(todo: Set<(usize, usize)>, stack: Seq<(usize, usize)>) -> Seq<(usize, usize)>
    decreases todo.len(), stack.len(),
{
    if !todo.finite() || stack.len() == 0 {
        Seq::empty()
    } else if todo.contains(stack.last()) {
        seq![stack.last()] + fill(
            todo.remove(stack.last()),
            stack.drop_last() + neighbors(stack.last()),
        )
    } else {
        fill(todo, stack.drop_last())
    }
}

/// The group of equally coloured cells that a cell belongs to, in depth-first
/// order.
pub open spec fn component(
    board: [[CellColor; 10]; 20],
    color: CellColor,
    cell: (usize, usize),
) -> Seq<(usize, usize)> {
    fill(colored(board, color), seq![cell])
}

/// A walk through `cells` from neighbour to neighbour.
pub open spec fn is_path(cells: Set<(usize, usize)>, path: Seq<(usize, usize)>) -> bool {
    &&& path.len() > 0
    &&& forall|i: int| 0 <= i < path.len() ==> cells.contains(#[trigger] path[i])
    &&& forall|i: int|
        0 <= i && i + 1 < path.len() ==> neighbors(#[trigger] path[i]).contains(path[i + 1])
}

/// Whether a walk through `cells` leads from `a` to `b`.
pub open spec fn connected(cells: Set<(usize, usize)>, a: (usize, usize), b: (usize, usize)) -> bool {
    exists|path: Seq<(usize, usize)>|
        is_path(cells, path) && path.first() == a && #[trigger] path.last() == b
}

// ---- facts about the depth-first order ----

/// A fill lists cells of `todo` only, and none of them twice.
pub proof fn lemma_fill_members(todo: Set<(usize, usize)>, stack: Seq<(usize, usize)>)
    ensures
        forall|x: (usize, usize)| fill(todo, stack).contains(x) ==> todo.contains(x),
        fill(todo, stack).no_duplicates(),
    decreases todo.len(), stack.len(),
{
    if todo.finite() && stack.len() > 0 {
        let c = stack.last();
        if todo.contains(c) {
            let rest = fill(todo.remove(c), stack.drop_last() + neighbors(c));
            lemma_fill_members(todo.remove(c), stack.drop_last() + neighbors(c));
            let whole = seq![c] + rest;
            assert forall|x: (usize, usize)| whole.contains(x) implies todo.contains(x) by {
                let k = whole.index_of(x);
                if k > 0 {
                    assert(rest[k - 1] == x);
                    assert(rest.contains(x));
                }
            }
            assert(whole.no_duplicates()) by {
                assert forall|i: int, j: int|
                    0 <= i < whole.len() && 0 <= j < whole.len() && i != j implies whole[i]
                    != whole[j] by {
                    if i == 0 {
                        assert(rest.contains(whole[j])) by {
                            assert(rest[j - 1] == whole[j]);
                        }
                    } else if j == 0 {
                        assert(rest.contains(whole[i])) by {
                            assert(rest[i - 1] == whole[i]);
                        }
                    } else {
                        assert(rest[i - 1] == whole[i] && rest[j - 1] == whole[j]);
                    }
                }
            }
        } else {
            lemma_fill_members(todo, stack.drop_last());
        }
    }
}

/// Filling from two stacks at once is filling from the upper one first and from
/// the lower one with what is left.
pub proof fn lemma_fill_split(
    todo: Set<(usize, usize)>,
    lower: Seq<(usize, usize)>,
    upper: Seq<(usize, usize)>,
)
    requires
        todo.finite(),
    ensures
        fill(todo, lower + upper) == fill(todo, upper) + fill(
            todo.difference(fill(todo, upper).to_set()),
            lower,
        ),
    decreases todo.len(), upper.len(),
{
    if upper.len() == 0 {
        assert(lower + upper =~= lower);
        assert(fill(todo, upper) =~= Seq::<(usize, usize)>::empty());
        assert(todo.difference(fill(todo, upper).to_set()) =~= todo);
    } else {
        let c = upper.last();
        let both = lower + upper;
        assert(both.last() == c);
        assert(both.drop_last() =~= lower + upper.drop_last());
        if todo.contains(c) {
            let next = upper.drop_last() + neighbors(c);
            assert(both.drop_last() + neighbors(c) =~= lower + next);
            lemma_fill_split(todo.remove(c), lower, next);
            let tail = fill(todo.remove(c), next);
            let found = seq![c] + tail;
            assert(fill(todo, upper) == found);
            assert(todo.difference(found.to_set()) =~= todo.remove(c).difference(tail.to_set())) by {
                assert forall|x: (usize, usize)| found.contains(x) <==> (x == c || tail.contains(x)) by {
                    if tail.contains(x) {
                        let k = tail.index_of(x);
                        assert(found[k + 1] == x);
                    }
                    assert(found[0] == c);
                    if found.contains(x) && x != c {
                        let k = found.index_of(x);
                        assert(tail[k - 1] == x);
                    }
                }
            }
            assert(fill(todo, both) =~= found + fill(todo.difference(found.to_set()), lower));
        } else {
            lemma_fill_split(todo, lower, upper.drop_last());
        }
    }
}

/// A walk through some cells is a walk through more cells.
proof fn lemma_connected_subset(
    small: Set<(usize, usize)>,
    cells: Set<(usize, usize)>,
    a: (usize, usize),
    b: (usize, usize),
)
    requires
        connected(small, a, b),
        small.subset_of(cells),
    ensures
        connected(cells, a, b),
{
    let path = choose|path: Seq<(usize, usize)>|
        is_path(small, path) && path.first() == a && #[trigger] path.last() == b;
    assert(is_path(cells, path));
}

/// A step to a neighbour and a walk from there make a walk.
proof fn lemma_step_then_walk(
    cells: Set<(usize, usize)>,
    c: (usize, usize),
    a: (usize, usize),
    b: (usize, usize),
)
    requires
        cells.contains(c),
        neighbors(c).contains(a),
        connected(cells, a, b),
    ensures
        connected(cells, c, b),
{
    let path = choose|path: Seq<(usize, usize)>|
        is_path(cells, path) && path.first() == a && #[trigger] path.last() == b;
    let longer = seq![c] + path;
    assert forall|i: int| 0 <= i && i + 1 < longer.len() implies neighbors(
        #[trigger] longer[i],
    ).contains(longer[i + 1]) by {
        if i > 0 {
            assert(longer[i] == path[i - 1]);
            assert(longer[i + 1] == path[i - 1 + 1]);
        }
    }
    assert forall|i: int| 0 <= i < longer.len() implies cells.contains(#[trigger] longer[i]) by {
        if i > 0 {
            assert(longer[i] == path[i - 1]);
        }
    }
    assert(is_path(cells, longer));
    assert(longer.first() == c && longer.last() == b);
}

/// Every cell that a fill lists can be walked to from a cell of the stack.
proof fn lemma_fill_sound(todo: Set<(usize, usize)>, stack: Seq<(usize, usize)>, b: (usize, usize))
    requires
        fill(todo, stack).contains(b),
    ensures
        exists|a: (usize, usize)| stack.contains(a) && connected(todo, a, b),
    decreases todo.len(), stack.len(),
{
    if todo.finite() && stack.len() > 0 {
        let c = stack.last();
        let lower = stack.drop_last();
        assert(stack[stack.len() - 1] == c);
        if todo.contains(c) {
            if b == c {
                let path = seq![c];
                assert(is_path(todo, path) && path.first() == c && path.last() == b);
                assert(stack.contains(c) && connected(todo, c, b));
            } else {
                let small = todo.remove(c);
                let next = lower + neighbors(c);
                let k = fill(todo, stack).index_of(b);
                assert(fill(small, next)[k - 1] == b);
                lemma_fill_sound(small, next, b);
                let a = choose|a: (usize, usize)| next.contains(a) && connected(small, a, b);
                lemma_connected_subset(small, todo, a, b);
                let j = next.index_of(a);
                if j < lower.len() {
                    assert(stack[j] == a);
                    assert(stack.contains(a) && connected(todo, a, b));
                } else {
                    assert(neighbors(c)[j - lower.len()] == a);
                    lemma_step_then_walk(todo, c, a, b);
                    assert(stack.contains(c) && connected(todo, c, b));
                }
            }
        } else {
            lemma_fill_sound(todo, lower, b);
            let a = choose|a: (usize, usize)| lower.contains(a) && connected(todo, a, b);
            let j = lower.index_of(a);
            assert(stack[j] == a);
            assert(stack.contains(a) && connected(todo, a, b));
        }
    }
}

/// The part of a walk after its last visit to `c`.
proof fn lemma_last_visit(path: Seq<(usize, usize)>, c: (usize, usize)) -> (k: int)
    requires
        path.contains(c),
    ensures
        0 <= k < path.len(),
        path[k] == c,
        forall|i: int| k < i < path.len() ==> path[i] != c,
    decreases path.len(),
{
    if path.last() == c {
        path.len() - 1
    } else {
        let j = path.index_of(c);
        assert(path.drop_last()[j] == c);
        let k = lemma_last_visit(path.drop_last(), c);
        assert forall|i: int| k < i < path.len() implies path[i] != c by {
            if i < path.len() - 1 {
                assert(path[i] == path.drop_last()[i]);
            }
        }
        k
    }
}

/// After its last visit to `c`, a walk goes on from a neighbour of `c` and
/// avoids `c`.
proof fn lemma_walk_after(
    todo: Set<(usize, usize)>,
    path: Seq<(usize, usize)>,
    c: (usize, usize),
) -> (rest: Seq<(usize, usize)>)
    requires
        is_path(todo, path),
        path.contains(c),
        path.last() != c,
    ensures
        is_path(todo.remove(c), rest),
        neighbors(c).contains(rest.first()),
        rest.last() == path.last(),
{
    let k = lemma_last_visit(path, c);
    let rest = path.subrange(k + 1, path.len() as int);
    assert(neighbors(path[k]).contains(path[k + 1]));
    assert forall|i: int| 0 <= i && i + 1 < rest.len() implies neighbors(
        #[trigger] rest[i],
    ).contains(rest[i + 1]) by {
        assert(rest[i] == path[k + 1 + i]);
        assert(rest[i + 1] == path[k + 1 + i + 1]);
    }
    assert forall|i: int| 0 <= i < rest.len() implies todo.remove(c).contains(
        #[trigger] rest[i],
    ) by {
        assert(rest[i] == path[k + 1 + i]);
    }
    rest
}

/// A walk that never meets `c` is a walk through the other cells.
proof fn lemma_walk_around(
    todo: Set<(usize, usize)>,
    path: Seq<(usize, usize)>,
    c: (usize, usize),
)
    requires
        is_path(todo, path),
        !path.contains(c),
    ensures
        is_path(todo.remove(c), path),
        path.first() != c,
{
    assert forall|i: int| 0 <= i < path.len() implies todo.remove(c).contains(
        #[trigger] path[i],
    ) by {
        assert(path.contains(path[i]));
    }
    assert(path.contains(path[0]));
}

/// A fill lists every cell that can be walked to from a cell of the stack.
proof fn lemma_fill_complete(
    todo: Set<(usize, usize)>,
    stack: Seq<(usize, usize)>,
    path: Seq<(usize, usize)>,
)
    requires
        todo.finite(),
        is_path(todo, path),
        stack.contains(path.first()),
    ensures
        fill(todo, stack).contains(path.last()),
    decreases todo.len(), stack.len(),
{
    let c = stack.last();
    let lower = stack.drop_last();
    let s = path.first();
    let b = path.last();
    let j = stack.index_of(s);
    assert(stack[j] == s);
    if todo.contains(c) {
        let next = lower + neighbors(c);
        let tail = fill(todo.remove(c), next);
        let whole = fill(todo, stack);
        assert(whole == seq![c] + tail);
        if b == c {
            assert(whole[0] == b);
        } else {
            if path.contains(c) {
                let rest = lemma_walk_after(todo, path, c);
                let k = neighbors(c).index_of(rest.first());
                assert(next[lower.len() + k] == rest.first());
                lemma_fill_complete(todo.remove(c), next, rest);
            } else {
                lemma_walk_around(todo, path, c);
                assert(next[j] == s);
                lemma_fill_complete(todo.remove(c), next, path);
            }
            let k = tail.index_of(b);
            assert(whole[k + 1] == b);
        }
    } else {
        assert(todo.contains(path[0]));
        assert(lower[j] == s);
        lemma_fill_complete(todo, lower, path);
    }
}

/// Cells of one colour are finitely many.
pub proof fn lemma_colored_finite(board: [[CellColor; 10]; 20], color: CellColor)
    ensures
        colored(board, color).finite(),
{
    let all = Seq::new(200, |i: int| scan_cell(i));
    vstd::seq_lib::seq_to_set_is_finite(all);
    assert forall|cell: (usize, usize)| colored(board, color).contains(cell) implies all.to_set().contains(
        cell,
    ) by {
        let i = 10 * cell.0 + cell.1;
        assert(i / 10 == cell.0 && i % 10 == cell.1);
        assert(all[i as int] == cell);
    }
    vstd::set_lib::lemma_set_subset_finite(all.to_set(), colored(board, color));
}

/// Cells of one colour that are still unvisited are finitely many.
pub proof fn lemma_unvisited_finite(
    board: [[CellColor; 10]; 20],
    color: CellColor,
    visited: [[bool; 10]; 20],
)
    ensures
        unvisited(board, color, visited).finite(),
{
    lemma_colored_finite(board, color);
    vstd::set_lib::lemma_set_subset_finite(
        colored(board, color),
        unvisited(board, color, visited),
    );
}

/// A fill from a cell lists exactly the cells of `todo` that can be reached from it
/// by orthogonal steps over cells of `todo`, each once.
pub proof fn law_fill_is_connected_group(
    todo: Set<(usize, usize)>,
    cell: (usize, usize),
    other: (usize, usize),
)
    requires
        todo.finite(),
    ensures
        fill(todo, seq![cell]).contains(other) <==> connected(todo, cell, other),
        fill(todo, seq![cell]).no_duplicates(),
{
    lemma_fill_members(todo, seq![cell]);
    if fill(todo, seq![cell]).contains(other) {
        lemma_fill_sound(todo, seq![cell], other);
        let a = choose|a: (usize, usize)| seq![cell].contains(a) && connected(todo, a, other);
        assert(a == cell);
    }
    if connected(todo, cell, other) {
        let path = choose|path: Seq<(usize, usize)>|
            is_path(todo, path) && path.first() == cell && #[trigger] path.last() == other;
        assert(seq![cell][0] == cell);
        lemma_fill_complete(todo, seq![cell], path);
    }
}

/// The component of a cell is exactly the set of equally coloured cells that
/// can be reached from it by orthogonal steps over cells of that colour, each
/// listed once.
pub proof fn law_component_is_connected_group(
    board: [[CellColor; 10]; 20],
    color: CellColor,
    cell: (usize, usize),
    other: (usize, usize),
)
    ensures
        component(board, color, cell).contains(other) <==> connected(
            colored(board, color),
            cell,
            other,
        ),
        component(board, color, cell).no_duplicates(),
{
    lemma_colored_finite(board, color);
    law_fill_is_connected_group(colored(board, color), cell, other);
}

/// Walks can be joined.
pub proof fn lemma_connected_transitive(
    cells: Set<(usize, usize)>,
    a: (usize, usize),
    b: (usize, usize),
    c: (usize, usize),
)
    requires
        connected(cells, a, b),
        connected(cells, b, c),
    ensures
        connected(cells, a, c),
{
    let p = choose|path: Seq<(usize, usize)>|
        is_path(cells, path) && path.first() == a && #[trigger] path.last() == b;
    let q = choose|path: Seq<(usize, usize)>|
        is_path(cells, path) && path.first() == b && #[trigger] path.last() == c;
    let joined = p + q.drop_first();
    assert forall|i: int| 0 <= i && i + 1 < joined.len() implies neighbors(
        #[trigger] joined[i],
    ).contains(joined[i + 1]) by {
        if i + 1 < p.len() {
            assert(joined[i] == p[i] && joined[i + 1] == p[i + 1]);
        } else {
            let j = i + 1 - p.len();
            assert(joined[i + 1] == q[j + 1]);
            assert(joined[i] == q[j]);
        }
    }
    assert forall|i: int| 0 <= i < joined.len() implies cells.contains(#[trigger] joined[i]) by {
        if i < p.len() {
            assert(joined[i] == p[i]);
        } else {
            assert(joined[i] == q[i - p.len() + 1]);
        }
    }
    assert(is_path(cells, joined));
    assert(joined.first() == a);
    assert(joined.last() == c);
}

/// A set of cells that no step over `cells` leaves or enters.
pub open spec fn closed_under_steps(cells: Set<(usize, usize)>, group: Set<(usize, usize)>) -> bool {
    forall|x: (usize, usize), y: (usize, usize)|
        cells.contains(x) && cells.contains(y) && #[trigger] neighbors(x).contains(y) ==> (
        group.contains(x) <==> group.contains(y))
}

/// Leaving out a closed group of cells does not change a fill that starts
/// outside of it.
pub proof fn lemma_fill_without_group(
    cells: Set<(usize, usize)>,
    todo: Set<(usize, usize)>,
    group: Set<(usize, usize)>,
    stack: Seq<(usize, usize)>,
)
    requires
        cells.finite(),
        todo.subset_of(cells),
        closed_under_steps(cells, group),
        forall|i: int|
            0 <= i < stack.len() && cells.contains(#[trigger] stack[i]) ==> !group.contains(stack[i]),
    ensures
        fill(todo.difference(group), stack) == fill(todo, stack),
    decreases todo.len(), stack.len(),
{
    vstd::set_lib::lemma_set_subset_finite(cells, todo);
    let left = todo.difference(group);
    if stack.len() > 0 {
        let c = stack.last();
        assert(stack[stack.len() - 1] == c);
        if todo.contains(c) {
            assert(left.contains(c));
            let next = stack.drop_last() + neighbors(c);
            assert forall|i: int|
                0 <= i < next.len() && cells.contains(#[trigger] next[i]) implies !group.contains(
                next[i],
            ) by {
                if i < stack.drop_last().len() {
                    assert(next[i] == stack[i]);
                } else {
                    assert(neighbors(c)[i - stack.drop_last().len()] == next[i]);
                    assert(neighbors(c).contains(next[i]));
                }
            }
            lemma_fill_without_group(cells, todo.remove(c), group, next);
            assert(left.remove(c) =~= todo.remove(c).difference(group));
        } else {
            lemma_fill_without_group(cells, todo, group, stack.drop_last());
        }
    }
}

/// The neighbours of a cell are the cells of the board one step up, down, left or
/// right of it.
pub proof fn law_neighbors_are_one_step_away(a: (usize, usize), b: (usize, usize))
    requires
        on_board(a),
    ensures
        neighbors(a).contains(b) <==> {
            &&& b.0 < 20 && b.1 < 10
            &&& {
                ||| b.0 == a.0 && (b.1 == a.1 + 1 || b.1 + 1 == a.1)
                ||| b.1 == a.1 && (b.0 == a.0 + 1 || b.0 + 1 == a.0)
            }
        },
{
    let n = neighbors(a);
    let (r, l, d) = (right_of(a).len() as int, left_of(a).len() as int, below(a).len() as int);
    if b.0 == a.0 && b.1 == a.1 + 1 && b.1 < 10 {
        assert(n[0] == b);
    } else if b.0 == a.0 && b.1 + 1 == a.1 {
        assert(n[r] == b);
    } else if b.1 == a.1 && b.0 == a.0 + 1 && b.0 < 20 {
        assert(n[r + l] == b);
    } else if b.1 == a.1 && b.0 + 1 == a.0 {
        assert(n[r + l + d] == b);
    }
    if n.contains(b) {
        let k = n.index_of(b);
        assert(n[k] == b);
    }
}

/// The cells of a colour are the cells of the board that show it.
pub proof fn law_colored_cells_show_their_color(
    board: [[CellColor; 10]; 20],
    color: CellColor,
    cell: (usize, usize),
)
    ensures
        colored(board, color).contains(cell) <==> cell.0 < 20 && cell.1 < 10
            && board@[cell.0 as int]@[cell.1 as int] == color,
{
}

/// Scanning meets every cell of the board once, row by row from the top left.
pub proof fn law_scan_meets_every_cell(i: int, cell: (usize, usize))
    ensures
        0 <= i < 200 ==> on_board(scan_cell(i)) && 10 * scan_cell(i).0 + scan_cell(i).1 == i,
        cell.0 < 20 && cell.1 < 10 ==> scan_cell(10 * cell.0 + cell.1) == cell,
{
}

} // verus!
