use rust_way_of_life::neighbours::{
    get_cell, get_if_positive, get_neighbours, get_or_empty, get_three, get_three_of_row, get_two,
    get_wrapped, get_wrapping, staying_alive, wrap,
};
use rust_way_of_life::{Cell, Game};

fn game(layout: &str, wrapping: bool) -> Game {
    Game::from_specific(layout, wrapping).unwrap()
}

fn flags(cells: &[&Cell]) -> Vec<bool> {
    cells.iter().map(|cell| cell.alive).collect()
}

fn row(layout: &str) -> Vec<Cell> {
    layout.chars().map(|c| Cell { alive: c == '#' }).collect()
}

fn rows_as_text(game: &Game) -> Vec<String> {
    game.row_columns()
        .iter()
        .map(|row| row.iter().map(|cell| if cell.alive { '#' } else { '.' }).collect())
        .collect()
}

#[test]
fn wrap_is_the_mathematical_modulo() {
    assert_eq!(wrap(0, 5), 0);
    assert_eq!(wrap(4, 5), 4);
    assert_eq!(wrap(5, 5), 0);
    assert_eq!(wrap(7, 5), 2);
    assert_eq!(wrap(-1, 5), 4);
    assert_eq!(wrap(-5, 5), 0);
    assert_eq!(wrap(-6, 5), 4);
    assert_eq!(wrap(-1, 1), 0);
    assert_eq!(wrap(1, 1), 0);
    assert_eq!(wrap(i128::MIN, 7), i128::MIN.rem_euclid(7) as usize);
    assert_eq!(wrap(i128::MAX, 7), i128::MAX.rem_euclid(7) as usize);
    assert_eq!(wrap(-1, usize::MAX), usize::MAX - 1);
}

#[test]
fn get_if_positive_finds_only_what_is_on_the_list() {
    let list = [10, 20, 30];

    assert_eq!(get_if_positive(&list, -1), None);
    assert_eq!(get_if_positive(&list, 0), Some(&10));
    assert_eq!(get_if_positive(&list, 2), Some(&30));
    assert_eq!(get_if_positive(&list, 3), None);
    assert_eq!(get_if_positive(&list, i128::MAX), None);
    assert_eq!(get_if_positive(&list, (1i128 << 64) + 1), None);
    assert_eq!(get_if_positive::<u8>(&[], 0), None);
}

#[test]
fn get_wrapped_goes_around_the_ends() {
    let list = [10, 20, 30];

    assert_eq!(get_wrapped(&list, -1), Some(&30));
    assert_eq!(get_wrapped(&list, 0), Some(&10));
    assert_eq!(get_wrapped(&list, 3), Some(&10));
    assert_eq!(get_wrapped(&list, 4), Some(&20));
    assert_eq!(get_wrapped(&list, -3), Some(&10));
    assert_eq!(get_wrapped::<u8>(&[], 0), None);
}

#[test]
fn get_cell_follows_the_edge_policy() {
    let cells = row("#..");

    assert_eq!(get_cell(&cells, -1, false), None);
    assert_eq!(get_cell(&cells, 3, true), Some(&Cell { alive: true }));
    assert_eq!(get_cell(&cells, -1, true), Some(&Cell { alive: false }));
    assert_eq!(get_cell(&cells, 0, false), Some(&Cell { alive: true }));
    assert_eq!(get_cell(&[], 0, true), None);
}

#[test]
fn get_three_of_row_leaves_out_what_is_off_a_bounded_row() {
    let cells = row("#.#.");

    assert_eq!(flags(&get_three_of_row(0, &cells, false)), vec![true, false]);
    assert_eq!(flags(&get_three_of_row(1, &cells, false)), vec![true, false, true]);
    assert_eq!(flags(&get_three_of_row(3, &cells, false)), vec![true, false]);
    assert_eq!(flags(&get_three_of_row(4, &cells, false)), vec![false]);
    assert_eq!(flags(&get_three_of_row(9, &cells, false)), Vec::<bool>::new());
}

#[test]
fn get_three_of_row_goes_around_a_wrapping_row() {
    let cells = row("#.#.");

    assert_eq!(flags(&get_three_of_row(0, &cells, true)), vec![false, true, false]);
    assert_eq!(flags(&get_three_of_row(3, &cells, true)), vec![true, false, true]);
    assert_eq!(flags(&get_three_of_row(0, &row("#"), true)), vec![true, true, true]);
    assert_eq!(flags(&get_three_of_row(0, &[], true)), Vec::<bool>::new());
}

#[test]
fn get_two_gives_the_cells_beside() {
    let bounded = game("#.#\n.#.", false);
    let wrapped = game("#.#\n.#.", true);

    assert_eq!(flags(&get_two(&bounded, 1, 0)), vec![true, true]);
    assert_eq!(flags(&get_two(&bounded, 0, 0)), vec![false]);
    assert_eq!(flags(&get_two(&bounded, 2, 1)), vec![true]);
    assert_eq!(flags(&get_two(&wrapped, 0, 0)), vec![true, false]);
    assert_eq!(flags(&get_two(&wrapped, 2, 1)), vec![true, false]);
}

#[test]
fn get_or_empty_has_nothing_beyond_the_grid() {
    let rows = vec![row("#.."), row(".#.")];

    assert_eq!(flags(&get_or_empty(&rows, 1, -1)), Vec::<bool>::new());
    assert_eq!(flags(&get_or_empty(&rows, 1, 0)), vec![true, false, false]);
    assert_eq!(flags(&get_or_empty(&rows, 0, 1)), vec![false, true]);
    assert_eq!(flags(&get_or_empty(&rows, 1, 2)), Vec::<bool>::new());
}

#[test]
fn get_wrapping_goes_around_the_grid() {
    let rows = vec![row("#.."), row(".#.")];

    assert_eq!(flags(&get_wrapping(&rows, 1, -1)), vec![false, true, false]);
    assert_eq!(flags(&get_wrapping(&rows, 1, 2)), vec![true, false, false]);
    assert_eq!(flags(&get_wrapping(&rows, 0, 0)), vec![false, true, false]);
    assert_eq!(flags(&get_wrapping(&[], 0, 0)), Vec::<bool>::new());
}

#[test]
fn get_three_follows_the_edge_policy_of_the_game() {
    let bounded = game("#..\n.#.", false);
    let wrapped = game("#..\n.#.", true);

    assert_eq!(flags(&get_three(&bounded, 1, -1)), Vec::<bool>::new());
    assert_eq!(flags(&get_three(&wrapped, 1, -1)), vec![false, true, false]);
    assert_eq!(flags(&get_three(&bounded, 0, 0)), vec![true, false]);
    assert_eq!(flags(&get_three(&wrapped, 0, 0)), vec![false, true, false]);
}

#[test]
fn get_neighbours_lists_above_beside_below() {
    let bounded = game("#.#\n...\n.##", false);

    assert_eq!(
        flags(&get_neighbours(&bounded, 1, 1)),
        vec![true, false, true, false, false, false, true, true]
    );
    assert_eq!(flags(&get_neighbours(&bounded, 0, 0)), vec![false, false, false]);
    assert_eq!(flags(&get_neighbours(&bounded, 2, 2)), vec![false, false, true]);
    assert_eq!(flags(&get_neighbours(&bounded, 1, 0)), vec![true, true, false, false, false]);
}

#[test]
fn get_neighbours_are_always_eight_with_wrapping_edges() {
    let wrapped = game("#.#\n...\n.##", true);

    assert_eq!(
        flags(&get_neighbours(&wrapped, 0, 0)),
        vec![true, false, true, true, false, false, false, false]
    );
    for y in 0..3 {
        for x in 0..3 {
            assert_eq!(get_neighbours(&wrapped, x, y).len(), 8);
        }
    }
    assert_eq!(get_neighbours(&game("#", true), 0, 0).len(), 8);
    assert_eq!(get_neighbours(&game("#.", true), 1, 0).len(), 8);
}

#[test]
fn staying_alive_follows_the_rule() {
    let alive = Cell { alive: true };
    let dead = Cell { alive: false };
    for living in 0..=8usize {
        let mut around: Vec<&Cell> = Vec::new();
        for i in 0..8 {
            around.push(if i < living { &alive } else { &dead });
        }
        assert_eq!(staying_alive(&alive, &around), living == 2 || living == 3);
        assert_eq!(staying_alive(&dead, &around), living == 3);
    }
    assert_eq!(staying_alive(&alive, &[]), false);
    assert_eq!(staying_alive(&dead, &[]), false);
}

#[test]
fn generation_counts_up_by_one_for_every_tick() {
    let mut state = game(".#.\n.#.\n.#.", false);
    assert_eq!(state.iteration_count(), 0);
    for expected in 1..=12u64 {
        state = state.tick();
        assert_eq!(state.iteration_count(), expected);
    }
    let empty = game("", false).tick().tick();
    assert_eq!(empty.iteration_count(), 2);
}

#[test]
fn tick_leaves_the_state_it_started_from_as_it_was() {
    let initial = game(".#.\n.#.\n.#.", false);
    let before = initial.clone();

    let next = initial.tick();

    assert_eq!(initial, before);
    assert_eq!(initial.iteration_count(), 0);
    assert_ne!(next.row_columns(), initial.row_columns());
    assert_eq!(rows_as_text(&next), vec!["...", "###", "..."]);
}

#[test]
fn tick_keeps_the_shape_and_the_edge_policy() {
    for wrapping in [false, true] {
        let initial = Game::new(7, 3, 42, wrapping);

        let next = initial.tick();

        assert_eq!(next.wrapping(), wrapping);
        assert_eq!(next.row_columns().len(), 3);
        for row in next.row_columns() {
            assert_eq!(row.len(), 7);
        }
    }
}

#[test]
fn tick_of_a_grid_without_cells_has_no_cells() {
    assert_eq!(Game::new(0, 0, 1, true).tick().row_columns().len(), 0);
    assert_eq!(Game::new(5, 0, 1, false).tick().row_columns().len(), 0);
    let rows_without_cells = Game::new(0, 4, 1, true).tick();
    assert_eq!(rows_without_cells.row_columns().len(), 4);
    for row in rows_without_cells.row_columns() {
        assert_eq!(row.len(), 0);
    }
}

#[test]
fn lone_cell_on_a_wrapping_grid_meets_itself_eight_times() {
    let alive = game("#", true);
    let dead = game(".", true);

    assert_eq!(flags(&get_neighbours(&alive, 0, 0)), vec![true; 8]);
    assert_eq!(rows_as_text(&alive.tick()), vec!["."]);
    assert_eq!(rows_as_text(&dead.tick()), vec!["."]);
}

#[test]
fn two_by_two_wrapping_grid_counts_a_cell_once_for_each_position() {
    // Around every cell the other three are met twice each, and the cell
    // itself twice: two living cells make four or six living neighbours.
    let initial = game("#.\n.#", true);

    assert_eq!(rows_as_text(&initial.tick()), vec!["..", ".."]);
}

#[test]
fn dead_cell_with_three_neighbours_comes_alive() {
    let initial = game("##.\n#..\n...", false);

    assert_eq!(rows_as_text(&initial.tick()), vec!["##.", "##.", "..."]);
}

#[test]
fn living_cell_with_more_than_three_neighbours_dies() {
    let initial = game("###\n###\n###", false);

    assert_eq!(rows_as_text(&initial.tick()), vec!["#.#", "...", "#.#"]);
}

#[test]
fn every_cell_is_judged_against_the_grid_as_it_was() {
    // Updating in place, row by row, would let the middle row see the new
    // upper row and end differently.
    let initial = game("....\n.##.\n.#..\n....", false);

    assert_eq!(rows_as_text(&initial.tick()), vec!["....", ".##.", ".##.", "...."]);
}

#[test]
fn blinker_at_the_left_edge_loses_a_cell_without_wrapping() {
    let initial = game(".....\n#....\n#....\n#....\n.....", false);

    let once = initial.tick();
    let twice = once.tick();

    assert_eq!(rows_as_text(&once), vec![".....", ".....", "##...", ".....", "....."]);
    assert_eq!(rows_as_text(&twice), vec![".....", ".....", ".....", ".....", "....."]);
}

#[test]
fn blinker_at_the_left_edge_reaches_around_with_wrapping() {
    let initial = game(".....\n#....\n#....\n#....\n.....", true);

    let once = initial.tick();
    let twice = once.tick();

    assert_eq!(rows_as_text(&once), vec![".....", ".....", "##..#", ".....", "....."]);
    assert_eq!(twice.row_columns(), initial.row_columns());
}

#[test]
fn blinker_in_a_corner_blinks_with_wrapping() {
    let initial = game("#...\n#...\n....\n#...", true);

    let once = initial.tick();

    assert_eq!(rows_as_text(&once), vec!["##.#", "....", "....", "...."]);
    assert_eq!(once.tick().row_columns(), initial.row_columns());
}

#[test]
fn block_is_still_at_the_edge_and_around_it() {
    let cornered = game("##.\n##.\n...", false);
    let around = game("#..#\n....\n....\n#..#", true);

    assert_eq!(cornered.tick().row_columns(), cornered.row_columns());
    assert_eq!(around.tick().row_columns(), around.row_columns());
}

#[test]
fn glider_moves_one_cell_down_and_right_in_four_ticks() {
    let initial = game(".#....\n..#...\n###...\n......\n......\n......", false);

    let later = initial.tick().tick().tick().tick();

    assert_eq!(
        rows_as_text(&later),
        vec!["......", "..#...", "...#..", ".###..", "......", "......"]
    );
    assert_eq!(later.iteration_count(), 4);
}
