use tetris_bot::color::CellColor;
use tetris_bot::field::{build_field_from_vision, find_falling_piece_cells, flood_fill};

fn color_of(c: char) -> CellColor {
    match c {
        'I' => CellColor::I,
        'O' => CellColor::O,
        'T' => CellColor::T,
        'S' => CellColor::S,
        'Z' => CellColor::Z,
        'J' => CellColor::J,
        'L' => CellColor::L,
        'G' => CellColor::Garbage,
        _ => CellColor::Empty,
    }
}

/// A board with the given rows, numbered from the top.
fn board(rows: &[(usize, &str)]) -> [[CellColor; 10]; 20] {
    let mut cells = [[CellColor::Empty; 10]; 20];
    for (row, text) in rows {
        for (col, c) in text.chars().enumerate() {
            cells[*row][col] = color_of(c);
        }
    }
    cells
}

fn filled(field: &[[bool; 10]; 40]) -> usize {
    field.iter().flatten().filter(|&&c| c).count()
}

#[test]
fn flood_fill_goes_up_down_left_right() {
    let b = board(&[(4, "..T......."), (5, ".TTT......"), (6, "..T.......")]);
    let mut visited = [[false; 10]; 20];
    let mut cells = Vec::new();
    flood_fill(&b, 5, 2, CellColor::T, &mut visited, &mut cells);
    assert_eq!(cells, vec![(5, 2), (4, 2), (6, 2), (5, 1), (5, 3)]);
    assert!(visited[4][2] && visited[5][1] && visited[5][2] && visited[5][3] && visited[6][2]);
    assert_eq!(visited.iter().flatten().filter(|&&v| v).count(), 5);
}

#[test]
fn flood_fill_keeps_what_was_found_before() {
    let b = board(&[(0, "II........")]);
    let mut visited = [[false; 10]; 20];
    let mut cells = vec![(7, 7)];
    flood_fill(&b, 0, 0, CellColor::I, &mut visited, &mut cells);
    assert_eq!(cells, vec![(7, 7), (0, 0), (0, 1)]);
    // A visited cell, a cell of another colour and a cell off the board add nothing.
    flood_fill(&b, 0, 1, CellColor::I, &mut visited, &mut cells);
    flood_fill(&b, 3, 3, CellColor::I, &mut visited, &mut cells);
    flood_fill(&b, 20, 0, CellColor::I, &mut visited, &mut cells);
    flood_fill(&b, 0, 10, CellColor::I, &mut visited, &mut cells);
    assert_eq!(cells.len(), 3);
}

#[test]
fn flood_fill_covers_a_whole_board() {
    let b = [[CellColor::Garbage; 10]; 20];
    let mut visited = [[false; 10]; 20];
    let mut cells = Vec::new();
    flood_fill(&b, 10, 5, CellColor::Garbage, &mut visited, &mut cells);
    assert_eq!(cells.len(), 200);
    cells.sort();
    cells.dedup();
    assert_eq!(cells.len(), 200);
}

#[test]
fn a_group_is_reached_around_corners_but_not_across_gaps() {
    let b = board(&[(10, "SSSS......"), (11, "...S......"), (12, "SS.S......"), (13, ".S.S......")]);
    let mut visited = [[false; 10]; 20];
    let mut cells = Vec::new();
    flood_fill(&b, 10, 0, CellColor::S, &mut visited, &mut cells);
    cells.sort();
    assert_eq!(cells, vec![(10, 0), (10, 1), (10, 2), (10, 3), (11, 3), (12, 3), (13, 3)]);
}

#[test]
fn the_falling_piece_is_the_first_group_of_four() {
    let b = board(&[(1, "....TTT..."), (2, ".....T...."), (18, "TTT......."), (19, ".T........")]);
    assert_eq!(
        find_falling_piece_cells(&b, Some(CellColor::T)),
        vec![(1, 4), (1, 5), (2, 5), (1, 6)]
    );
}

#[test]
fn smaller_groups_are_debris() {
    let b = board(&[(2, "T........."), (5, "TTT......."), (9, "...TTT...."), (10, "....T.....")]);
    assert_eq!(
        find_falling_piece_cells(&b, Some(CellColor::T)),
        vec![(9, 3), (9, 4), (10, 4), (9, 5)]
    );
    let only_debris = board(&[(2, "T........."), (5, "TTT.......")]);
    assert!(find_falling_piece_cells(&only_debris, Some(CellColor::T)).is_empty());
    assert_eq!(filled(&build_field_from_vision(&only_debris, Some(CellColor::T))), 4);
}

#[test]
fn of_a_merged_group_the_topmost_cells_are_taken() {
    let b = board(&[(16, "....TTT..."), (17, ".....T...."), (18, ".....TT..."), (19, "..TTTTT...")]);
    assert_eq!(
        find_falling_piece_cells(&b, Some(CellColor::T)),
        vec![(16, 4), (16, 5), (16, 6), (17, 5)]
    );
}

#[test]
fn without_a_piece_nothing_falls() {
    let b = board(&[(0, "GGGG......"), (1, "IIII......")]);
    assert!(find_falling_piece_cells(&b, None).is_empty());
    assert!(find_falling_piece_cells(&b, Some(CellColor::Garbage)).is_empty());
    assert!(find_falling_piece_cells(&b, Some(CellColor::Empty)).is_empty());
    assert!(find_falling_piece_cells(&b, Some(CellColor::Z)).is_empty());
    assert_eq!(find_falling_piece_cells(&b, Some(CellColor::I)).len(), 4);
}

#[test]
fn the_field_counts_rows_from_the_bottom() {
    let b = board(&[(0, "...IIII..."), (18, "G........L"), (19, "GGGGGGGGG.")]);
    let field = build_field_from_vision(&b, Some(CellColor::I));
    assert_eq!(filled(&field), 11);
    for col in 0..9 {
        assert!(field[0][col]);
    }
    assert!(!field[0][9]);
    assert!(field[1][0] && field[1][9]);
    assert!(!field[19][3]);
}

#[test]
fn other_colours_stay_locked() {
    let b = board(&[(0, "...OO....."), (1, "...OO....."), (19, "OOSSGGTTLL")]);
    let field = build_field_from_vision(&b, Some(CellColor::O));
    assert!(field[0].iter().all(|&c| c));
    assert_eq!(filled(&field), 10);
    // Without a current piece everything is locked.
    assert_eq!(filled(&build_field_from_vision(&b, None)), 14);
}

#[test]
fn the_upper_half_of_the_field_is_empty() {
    let b = [[CellColor::Garbage; 10]; 20];
    let field = build_field_from_vision(&b, None);
    for (row, cells) in field.iter().enumerate() {
        assert!(cells.iter().all(|&c| c == (row < 20)));
    }
}
