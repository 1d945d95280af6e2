use ishido::board::{Board, Direction, MoveError};
use ishido::stone::{Color, Stone, Symbol};

fn all_colors() -> [Color; 6] {
    [
        Color::Blue,
        Color::Green,
        Color::Orange,
        Color::Pink,
        Color::Red,
        Color::White,
    ]
}

fn all_symbols() -> [Symbol; 6] {
    [
        Symbol::And,
        Symbol::Carrot,
        Symbol::Equals,
        Symbol::Hash,
        Symbol::Line,
        Symbol::Star,
    ]
}

fn stone(color: Color, symbol: Symbol) -> Stone {
    Stone { color, symbol }
}

/// Two copies of every color-symbol combination: the standard 72-stone
/// supply before shuffling.
fn standard_pool() -> Vec<Stone> {
    let mut pool = Vec::with_capacity(72);
    for &color in all_colors().iter() {
        for &symbol in all_symbols().iter() {
            pool.push(stone(color, symbol));
            pool.push(stone(color, symbol));
        }
    }
    pool
}

fn remove_one(pool: &mut Vec<Stone>, s: Stone) {
    let i = pool.iter().position(|&p| p == s).expect("stone not in pool");
    pool.remove(i);
}

/// The standard 72 stones arranged so that `front` comes first (scanned
/// for starters) and `back` comes last (`back`'s final entry is the first
/// stone drawn).
fn arranged_supply(front: &[Stone], back: &[Stone]) -> Vec<Stone> {
    let mut pool = standard_pool();
    for &s in front.iter().chain(back.iter()) {
        remove_one(&mut pool, s);
    }
    let mut supply = Vec::with_capacity(72);
    supply.extend_from_slice(front);
    supply.append(&mut pool);
    supply.extend_from_slice(back);
    assert_eq!(supply.len(), 72);
    supply
}

/// Six starters with pairwise distinct colors and symbols, one per anchor
/// in seeding order.
fn diagonal_starters() -> [Stone; 6] {
    [
        stone(Color::Blue, Symbol::And),
        stone(Color::Green, Symbol::Carrot),
        stone(Color::Orange, Symbol::Equals),
        stone(Color::Pink, Symbol::Hash),
        stone(Color::Red, Symbol::Line),
        stone(Color::White, Symbol::Star),
    ]
}

fn anchors() -> [(usize, usize); 6] {
    [(0, 0), (11, 0), (0, 7), (11, 7), (5, 3), (6, 4)]
}

fn occupied_cells(b: &Board) -> usize {
    b.cells.iter().filter(|c| c.is_some()).count()
}

fn move_to(b: &mut Board, x: usize, y: usize) {
    for _ in 0..12 {
        b.move_cursor(Direction::Left);
    }
    for _ in 0..8 {
        b.move_cursor(Direction::Up);
    }
    for _ in 0..x {
        b.move_cursor(Direction::Right);
    }
    for _ in 0..y {
        b.move_cursor(Direction::Down);
    }
    assert_eq!((b.cursor_x, b.cursor_y), (x, y));
}

/// A deterministic board: diagonal starters on the anchors, the given
/// stones at the back of the supply so they are drawn first.
fn board_with_draws(draws: &[Stone]) -> Board {
    let mut back: Vec<Stone> = draws.to_vec();
    back.reverse();
    Board::new_with_supply(arranged_supply(&diagonal_starters(), &back))
}

#[test]
fn supply_plus_occupied_is_72_after_init() {
    let b = Board::new();
    assert_eq!(b.stones.len() + occupied_cells(&b), 72);
    assert_eq!(b.stones.len(), 66);
    assert_eq!(occupied_cells(&b), 6);
}

#[test]
fn starters_have_distinct_colors_and_symbols() {
    let b = Board::new();
    let starters: Vec<Stone> = anchors()
        .iter()
        .map(|&(x, y)| b.cell_at(x, y).expect("anchor not seeded"))
        .collect();
    for i in 0..6 {
        for j in 0..6 {
            if i != j {
                assert!(starters[i].color != starters[j].color);
                assert!(starters[i].symbol != starters[j].symbol);
            }
        }
    }
}

#[test]
fn only_anchors_are_occupied_after_init() {
    let b = Board::new();
    for y in 0..8 {
        for x in 0..12 {
            let expect_some = anchors().contains(&(x, y));
            assert_eq!(b.cell_at(x, y).is_some(), expect_some, "cell ({x}, {y})");
        }
    }
}

#[test]
fn shuffle_loses_no_stone() {
    let b = Board::new();
    for &color in all_colors().iter() {
        for &symbol in all_symbols().iter() {
            let s = stone(color, symbol);
            let in_supply = b.stones.iter().filter(|&&t| t == s).count();
            let on_board = b.cells.iter().filter(|&&c| c == Some(s)).count();
            assert_eq!(in_supply + on_board, 2, "{s:?}");
        }
    }
}

#[test]
fn seeding_takes_first_qualifying_stones_in_anchor_order() {
    let starters = diagonal_starters();
    let b = Board::new_with_supply(arranged_supply(&starters, &[]));
    for (i, &(x, y)) in anchors().iter().enumerate() {
        assert_eq!(b.cell_at(x, y), Some(starters[i]));
    }
    assert_eq!(b.score, 0);
    assert_eq!(b.multiplier_exp, 0);
    assert!(!b.game_over);
    assert_eq!((b.cursor_x, b.cursor_y), (0, 0));
}

#[test]
fn seeding_skips_stones_with_a_used_color_or_symbol() {
    // The second stone repeats the first starter's color, the third its
    // symbol: both must stay in the supply, and the next anchors take the
    // stones after them.
    let front = [
        stone(Color::Blue, Symbol::And),
        stone(Color::Blue, Symbol::Carrot),
        stone(Color::Green, Symbol::And),
        stone(Color::Green, Symbol::Carrot),
        stone(Color::Orange, Symbol::Equals),
        stone(Color::Pink, Symbol::Hash),
        stone(Color::Red, Symbol::Line),
        stone(Color::White, Symbol::Star),
    ];
    let b = Board::new_with_supply(arranged_supply(&front, &[]));
    assert_eq!(b.cell_at(0, 0), Some(stone(Color::Blue, Symbol::And)));
    assert_eq!(b.cell_at(11, 0), Some(stone(Color::Green, Symbol::Carrot)));
    assert_eq!(b.cell_at(0, 7), Some(stone(Color::Orange, Symbol::Equals)));
    assert_eq!(b.cell_at(11, 7), Some(stone(Color::Pink, Symbol::Hash)));
    assert_eq!(b.cell_at(5, 3), Some(stone(Color::Red, Symbol::Line)));
    assert_eq!(b.cell_at(6, 4), Some(stone(Color::White, Symbol::Star)));
    // The two skipped stones are still in the supply.
    assert_eq!(b.stones[0], stone(Color::Blue, Symbol::Carrot));
    assert_eq!(b.stones[1], stone(Color::Green, Symbol::And));
}

#[test]
fn isolated_empty_cell_is_invalid_move() {
    // Scenario: a cell with no occupied neighbor can never take a stone.
    let mut b = board_with_draws(&[stone(Color::Blue, Symbol::Carrot)]);
    move_to(&mut b, 2, 2);
    let supply_before = b.stones.clone();
    let score_before = b.score;
    assert_eq!(b.place_stone(), Err(MoveError::InvalidMove));
    assert_eq!(b.stones, supply_before);
    assert_eq!(b.score, score_before);
    assert_eq!(b.cell_at(2, 2), None);
}

#[test]
fn single_neighbor_sharing_nothing_is_invalid_move() {
    // Scenario: next to the (Blue, And) starter alone, a stone sharing
    // neither attribute is rejected and the draw is rolled back.
    let mut b = board_with_draws(&[stone(Color::Green, Symbol::Equals)]);
    move_to(&mut b, 1, 0);
    let supply_before = b.stones.clone();
    assert_eq!(b.place_stone(), Err(MoveError::InvalidMove));
    assert_eq!(b.stones, supply_before);
    assert_eq!(b.stones.len(), 66);
    assert_eq!(b.cell_at(1, 0), None);
    assert_eq!(b.score, 0);
    assert_eq!(b.multiplier_exp, 0);
}

#[test]
fn single_neighbor_sharing_color_scores_one() {
    // Scenario: next to the (Blue, And) starter alone, a blue stone is
    // legal and scores 2^(1 + 0 - 1) = 1.
    let mut b = board_with_draws(&[stone(Color::Blue, Symbol::Equals)]);
    move_to(&mut b, 1, 0);
    let r = b.place_stone();
    assert!(r.is_ok());
    assert_eq!(b.cell_at(1, 0), Some(stone(Color::Blue, Symbol::Equals)));
    assert_eq!(b.score, 1);
    assert_eq!(b.stones.len(), 65);
    assert_eq!(r, Ok(b.game_over));
}

#[test]
fn single_neighbor_sharing_symbol_is_legal() {
    let mut b = board_with_draws(&[stone(Color::Pink, Symbol::And)]);
    move_to(&mut b, 1, 0);
    assert!(b.place_stone().is_ok());
    assert_eq!(b.score, 1);
}

#[test]
fn two_neighbors_color_one_way_symbol_the_other() {
    // Scenario: (6, 3) touches the (Red, Line) starter to the west and
    // the (White, Star) starter to the south. A stone matching the west
    // neighbor's color and the south neighbor's symbol is legal.
    let mut b = board_with_draws(&[stone(Color::Red, Symbol::Star)]);
    move_to(&mut b, 6, 3);
    assert!(b.place_stone().is_ok());
    assert_eq!(b.score, 2); // 2^(2 + 0 - 1)
}

#[test]
fn two_neighbors_roles_swap_with_directions() {
    // The same junction accepts the mirrored assignment: color from the
    // south neighbor, symbol from the west one. Direction plays no role.
    let mut b = board_with_draws(&[stone(Color::White, Symbol::Line)]);
    move_to(&mut b, 6, 3);
    assert!(b.place_stone().is_ok());
    assert_eq!(b.score, 2);
}

#[test]
fn two_neighbors_one_match_only_is_invalid() {
    // Color matches one neighbor but no symbol matches: illegal at a
    // two-neighbor junction.
    let mut b = board_with_draws(&[stone(Color::Red, Symbol::Hash)]);
    move_to(&mut b, 6, 3);
    assert_eq!(b.place_stone(), Err(MoveError::InvalidMove));
}

fn blank_grid() -> Vec<Option<Stone>> {
    vec![None; 96]
}

fn put(cells: &mut Vec<Option<Stone>>, x: usize, y: usize, s: Stone) {
    cells[y * 12 + x] = Some(s);
}

#[test]
fn fifth_full_match_scores_power_and_table_bonus() {
    // Scenario: combo counter at 4; a full four-neighbor match adds
    // 2^(4 + 4 - 1) = 128 plus the fifth table bonus 400, and raises the
    // counter to 5.
    let mut cells = blank_grid();
    put(&mut cells, 5, 3, stone(Color::Blue, Symbol::And));
    put(&mut cells, 7, 3, stone(Color::Blue, Symbol::Carrot));
    put(&mut cells, 6, 2, stone(Color::Green, Symbol::Hash));
    put(&mut cells, 6, 4, stone(Color::Orange, Symbol::Hash));
    let mut supply = standard_pool();
    supply.truncate(68);
    remove_one(&mut supply, stone(Color::Blue, Symbol::Hash));
    supply.push(stone(Color::Blue, Symbol::Hash));
    let mut b = Board::from_parts(cells, supply, 1000, 4).expect("a valid position");
    move_to(&mut b, 6, 3);
    let r = b.place_stone();
    assert!(r.is_ok());
    assert_eq!(b.score, 1000 + 128 + 400);
    assert_eq!(b.multiplier_exp, 5);
}

#[test]
fn full_match_at_zero_combo_scores_smallest_bonus() {
    let mut cells = blank_grid();
    put(&mut cells, 5, 3, stone(Color::Blue, Symbol::And));
    put(&mut cells, 7, 3, stone(Color::Blue, Symbol::Carrot));
    put(&mut cells, 6, 2, stone(Color::Green, Symbol::Hash));
    put(&mut cells, 6, 4, stone(Color::Orange, Symbol::Hash));
    let mut supply = standard_pool();
    supply.truncate(68);
    remove_one(&mut supply, stone(Color::Blue, Symbol::Hash));
    supply.push(stone(Color::Blue, Symbol::Hash));
    let mut b = Board::from_parts(cells, supply, 0, 0).expect("a valid position");
    move_to(&mut b, 6, 3);
    assert!(b.place_stone().is_ok());
    assert_eq!(b.score, 8 + 25); // 2^(4 + 0 - 1) + the first table bonus
    assert_eq!(b.multiplier_exp, 1);
}

#[test]
fn occupied_cursor_cell_is_double_place_and_draws_nothing() {
    let mut b = board_with_draws(&[]);
    // The cursor starts on the (0, 0) anchor, which is occupied.
    let supply_before = b.stones.clone();
    assert_eq!(b.place_stone(), Err(MoveError::DoublePlace));
    assert_eq!(b.stones, supply_before);
    assert_eq!(b.cell_at(0, 0), Some(stone(Color::Blue, Symbol::And)));
    assert_eq!(b.score, 0);
}

#[test]
fn empty_supply_is_stack_empty_and_game_over() {
    // Scenario: no stones left. Placement reports the empty stack and
    // leaves the grid alone; the game-over scan says the game is over.
    let mut cells = blank_grid();
    let pool = standard_pool();
    for i in 0..72 {
        cells[i] = Some(pool[i]);
    }
    let mut b = Board::from_parts(cells, Vec::new(), 0, 0).expect("a valid position");
    move_to(&mut b, 0, 6);
    let grid_before = b.cells.clone();
    assert_eq!(b.place_stone(), Err(MoveError::StackEmpty));
    assert_eq!(b.cells, grid_before);
    assert!(b.is_game_over());
}

#[test]
fn no_legal_cell_anywhere_is_game_over_with_stones_left() {
    // Scenario: the next stone shares neither color nor symbol with any
    // placed stone, so no cell is legal although the supply is not empty.
    let mut cells = blank_grid();
    put(&mut cells, 0, 0, stone(Color::Blue, Symbol::And));
    put(&mut cells, 11, 0, stone(Color::Blue, Symbol::Carrot));
    put(&mut cells, 0, 7, stone(Color::Blue, Symbol::Equals));
    put(&mut cells, 11, 7, stone(Color::Blue, Symbol::And));
    put(&mut cells, 5, 3, stone(Color::Blue, Symbol::Carrot));
    put(&mut cells, 6, 4, stone(Color::Blue, Symbol::Equals));
    let mut supply = standard_pool();
    for s in [
        stone(Color::Blue, Symbol::And),
        stone(Color::Blue, Symbol::And),
        stone(Color::Blue, Symbol::Carrot),
        stone(Color::Blue, Symbol::Carrot),
        stone(Color::Blue, Symbol::Equals),
        stone(Color::Blue, Symbol::Equals),
    ] {
        remove_one(&mut supply, s);
    }
    remove_one(&mut supply, stone(Color::Green, Symbol::Hash));
    supply.push(stone(Color::Green, Symbol::Hash));
    let b = Board::from_parts(cells, supply, 0, 0).expect("a valid position");
    assert_eq!(b.stones.len(), 66);
    assert!(b.is_game_over());
}

#[test]
fn a_board_with_a_legal_cell_is_not_game_over() {
    let b = board_with_draws(&[stone(Color::Blue, Symbol::Equals)]);
    assert!(!b.is_game_over());
}

#[test]
fn from_parts_rejects_unbalanced_positions() {
    // 96 cells but too many stones for the occupied count.
    assert!(Board::from_parts(blank_grid(), standard_pool(), 0, 0).is_some());
    // A blank grid must come with all 72 stones.
    let mut short = standard_pool();
    short.truncate(71);
    assert!(Board::from_parts(blank_grid(), short, 0, 0).is_none());
    // Wrong grid size.
    assert!(Board::from_parts(vec![None; 95], standard_pool(), 0, 0).is_none());
    // Combo counter past the bonus table.
    assert!(Board::from_parts(blank_grid(), standard_pool(), 0, 13).is_none());
}

#[test]
fn cursor_clamps_at_the_edges() {
    let mut b = board_with_draws(&[]);
    assert_eq!((b.cursor_x, b.cursor_y), (0, 0));
    b.move_cursor(Direction::Left);
    b.move_cursor(Direction::Up);
    assert_eq!((b.cursor_x, b.cursor_y), (0, 0));
    for _ in 0..20 {
        b.move_cursor(Direction::Right);
    }
    for _ in 0..20 {
        b.move_cursor(Direction::Down);
    }
    assert_eq!((b.cursor_x, b.cursor_y), (11, 7));
    b.move_cursor(Direction::Right);
    b.move_cursor(Direction::Down);
    assert_eq!((b.cursor_x, b.cursor_y), (11, 7));
    b.move_cursor(Direction::Left);
    assert_eq!((b.cursor_x, b.cursor_y), (10, 7));
    b.move_cursor(Direction::Up);
    assert_eq!((b.cursor_x, b.cursor_y), (10, 6));
}

#[test]
fn errors_change_nothing_and_success_keeps_placed_stones() {
    // Safety across a short scripted game: failed attempts leave every
    // observable piece of state alone, and placed stones stay placed.
    let mut b = board_with_draws(&[
        stone(Color::Blue, Symbol::Equals),
        stone(Color::Blue, Symbol::And),
    ]);
    move_to(&mut b, 1, 0);
    assert!(b.place_stone().is_ok());
    let placed_before: Vec<(usize, Option<Stone>)> =
        (0..96).map(|i| (i, b.cells[i])).filter(|(_, c)| c.is_some()).collect();
    let score_before = b.score;

    // A failing attempt on an occupied cell...
    move_to(&mut b, 0, 0);
    assert_eq!(b.place_stone(), Err(MoveError::DoublePlace));
    // ...and one on an isolated cell...
    move_to(&mut b, 9, 4);
    assert_eq!(b.place_stone(), Err(MoveError::InvalidMove));
    for (i, c) in placed_before.iter() {
        assert_eq!(b.cells[*i], *c);
    }
    assert_eq!(b.score, score_before);

    // ...then a successful one next to the stone placed first.
    move_to(&mut b, 2, 0);
    assert!(b.place_stone().is_ok());
    for (i, c) in placed_before.iter() {
        assert_eq!(b.cells[*i], *c);
    }
    assert!(b.score > score_before);
}

#[test]
fn score_and_combo_never_decrease() {
    let mut b = board_with_draws(&[
        stone(Color::Blue, Symbol::Equals),
        stone(Color::Green, Symbol::Hash),
        stone(Color::Blue, Symbol::Hash),
    ]);
    let mut last_score = b.score;
    let mut last_exp = b.multiplier_exp;
    let cells: [(usize, usize); 6] = [(1, 0), (2, 2), (10, 0), (1, 1), (5, 4), (6, 3)];
    for &(x, y) in cells.iter() {
        move_to(&mut b, x, y);
        let _ = b.place_stone();
        assert!(b.score >= last_score);
        assert!(b.multiplier_exp >= last_exp);
        last_score = b.score;
        last_exp = b.multiplier_exp;
    }
}

#[test]
fn peek_next_stone_reads_the_top_without_drawing() {
    let next = stone(Color::Blue, Symbol::Equals);
    let b = board_with_draws(&[next]);
    assert_eq!(b.peek_next_stone(), Some(next));
    assert_eq!(b.stones.len(), 66);
    let empty = Board::from_parts(
        {
            let mut cells = blank_grid();
            let pool = standard_pool();
            for i in 0..72 {
                cells[i] = Some(pool[i]);
            }
            cells
        },
        Vec::new(),
        0,
        0,
    )
    .expect("a valid position");
    assert_eq!(empty.peek_next_stone(), None);
}

fn three_neighbor_board(
    west: Stone,
    east: Stone,
    north: Stone,
    draw: Stone,
) -> Board {
    let mut cells = blank_grid();
    put(&mut cells, 5, 3, west);
    put(&mut cells, 7, 3, east);
    put(&mut cells, 6, 2, north);
    let mut supply = standard_pool();
    supply.truncate(69);
    remove_one(&mut supply, draw);
    supply.push(draw);
    let mut b = Board::from_parts(cells, supply, 0, 0).expect("a valid position");
    move_to(&mut b, 6, 3);
    b
}

#[test]
fn three_neighbors_two_colors_one_symbol_is_legal() {
    let mut b = three_neighbor_board(
        stone(Color::Blue, Symbol::And),
        stone(Color::Blue, Symbol::Carrot),
        stone(Color::Green, Symbol::Hash),
        stone(Color::Blue, Symbol::Hash),
    );
    assert!(b.place_stone().is_ok());
    assert_eq!(b.score, 4); // 2^(3 + 0 - 1)
}

#[test]
fn three_neighbors_two_symbols_one_color_is_legal() {
    let mut b = three_neighbor_board(
        stone(Color::Blue, Symbol::And),
        stone(Color::Green, Symbol::And),
        stone(Color::Pink, Symbol::Carrot),
        stone(Color::Pink, Symbol::And),
    );
    assert!(b.place_stone().is_ok());
    assert_eq!(b.score, 4);
}

#[test]
fn three_neighbors_without_a_full_split_is_invalid() {
    // Two neighbors share the new stone's color but none its symbol.
    let mut b = three_neighbor_board(
        stone(Color::Blue, Symbol::And),
        stone(Color::Blue, Symbol::Carrot),
        stone(Color::Green, Symbol::Hash),
        stone(Color::Blue, Symbol::Star),
    );
    assert_eq!(b.place_stone(), Err(MoveError::InvalidMove));
    assert_eq!(b.score, 0);
}

#[test]
fn game_over_stays_set_once_reached() {
    // One empty legal cell and a single stone left: placing it empties
    // the supply, so the game ends, and every later attempt fails while
    // the flag stays set.
    let mut cells = blank_grid();
    let pool = standard_pool();
    for i in 0..72 {
        cells[i] = Some(pool[i]);
    }
    cells[5 * 12 + 11] = None;
    put(&mut cells, 10, 5, stone(Color::Blue, Symbol::And));
    put(&mut cells, 11, 4, stone(Color::Green, Symbol::Hash));
    let supply = vec![stone(Color::Blue, Symbol::Hash)];
    let mut b = Board::from_parts(cells, supply, 0, 0).expect("a valid position");
    assert!(!b.game_over);
    move_to(&mut b, 11, 5);
    assert_eq!(b.place_stone(), Ok(true));
    assert!(b.game_over);
    assert!(b.is_game_over());

    move_to(&mut b, 0, 6);
    assert_eq!(b.place_stone(), Err(MoveError::StackEmpty));
    assert!(b.game_over);

    move_to(&mut b, 0, 0);
    assert_eq!(b.place_stone(), Err(MoveError::DoublePlace));
    assert!(b.game_over);
}

#[test]
fn clamp_bounds_values() {
    assert_eq!(ishido::board::clamp(5, 0, 11), 5);
    assert_eq!(ishido::board::clamp(-3, 0, 11), 0);
    assert_eq!(ishido::board::clamp(14, 0, 11), 11);
    assert_eq!(ishido::board::clamp(0, 0, 7), 0);
    assert_eq!(ishido::board::clamp(7, 0, 7), 7);
}
