use rand_xoshiro::rand_core::{RngCore, SeedableRng};
use rand_xoshiro::Xoshiro256PlusPlus;
use rust_way_of_life::cell::{cell_from_draw, to_cell};
use rust_way_of_life::layout::{collect_chars, split_lines};
use rust_way_of_life::{Cell, Game, InvalidLayout};

fn alive_rows(game: &Game) -> Vec<Vec<bool>> {
    game.row_columns()
        .iter()
        .map(|row| row.iter().map(|cell| cell.alive).collect())
        .collect()
}

fn lines_as_strings(text: &str) -> Vec<String> {
    split_lines(&collect_chars(text))
        .iter()
        .map(|line| line.iter().collect())
        .collect()
}

#[test]
fn new_game_has_the_asked_dimensions() {
    for (width, height) in [(0u16, 0u16), (0, 3), (3, 0), (1, 1), (7, 4), (4, 7), (40, 25)] {
        let game = Game::new(width, height, 99, false);
        assert_eq!(game.row_columns().len(), height as usize);
        for row in game.row_columns() {
            assert_eq!(row.len(), width as usize);
        }
    }
}

#[test]
fn new_game_starts_at_generation_zero_with_its_edge_policy() {
    let bounded = Game::new(3, 3, 5, false);
    let wrapped = Game::new(3, 3, 5, true);

    assert_eq!(bounded.iteration_count(), 0);
    assert_eq!(wrapped.iteration_count(), 0);
    assert_eq!(bounded.wrapping(), false);
    assert_eq!(wrapped.wrapping(), true);
}

#[test]
fn new_game_is_the_same_for_the_same_seed() {
    let first = Game::new(16, 9, 1234, false);
    let second = Game::new(16, 9, 1234, false);

    assert_eq!(first, second);
}

#[test]
fn new_game_differs_between_seeds() {
    let first = Game::new(32, 32, 1, false);
    let second = Game::new(32, 32, 2, false);

    assert_ne!(alive_rows(&first), alive_rows(&second));
}

#[test]
fn new_game_fills_row_by_row_from_the_generator() {
    let width = 5usize;
    let height = 4usize;
    let seed = 1234u64;
    let mut generator = Xoshiro256PlusPlus::seed_from_u64(seed);
    let mut expected: Vec<Vec<bool>> = Vec::new();
    for _y in 0..height {
        let mut row = Vec::new();
        for _x in 0..width {
            row.push(generator.next_u32() % 2 == 0);
        }
        expected.push(row);
    }

    let game = Game::new(width as u16, height as u16, seed, true);

    assert_eq!(alive_rows(&game), expected);
}

#[test]
fn new_game_holds_living_and_dead_cells() {
    let game = Game::new(16, 16, 7, false);
    let flags: Vec<bool> = alive_rows(&game).into_iter().flatten().collect();

    assert!(flags.iter().any(|alive| *alive));
    assert!(flags.iter().any(|alive| !*alive));
}

#[test]
fn cell_from_draw_is_alive_for_even_numbers() {
    assert_eq!(cell_from_draw(0).alive, true);
    assert_eq!(cell_from_draw(1).alive, false);
    assert_eq!(cell_from_draw(2).alive, true);
    assert_eq!(cell_from_draw(u32::MAX).alive, false);
    assert_eq!(cell_from_draw(u32::MAX - 1).alive, true);
}

#[test]
fn to_cell_reads_only_the_hash_as_alive() {
    assert_eq!(to_cell('#'), Cell { alive: true });
    assert_eq!(to_cell('.'), Cell { alive: false });
    assert_eq!(to_cell('x'), Cell { alive: false });
    assert_eq!(to_cell(' '), Cell { alive: false });
}

#[test]
fn cell_clone_keeps_the_state() {
    assert_eq!(Cell { alive: true }.clone(), Cell { alive: true });
    assert_eq!(Cell { alive: false }.clone(), Cell { alive: false });
}

#[test]
fn from_specific_starts_at_generation_zero_with_its_edge_policy() {
    let bounded = Game::from_specific("#.", false).unwrap();
    let wrapped = Game::from_specific("#.", true).unwrap();

    assert_eq!(bounded.iteration_count(), 0);
    assert_eq!(wrapped.iteration_count(), 0);
    assert_eq!(bounded.wrapping(), false);
    assert_eq!(wrapped.wrapping(), true);
}

#[test]
fn from_specific_keeps_the_order_of_rows_and_columns() {
    let game = Game::from_specific("#..\n.#.\n..#\n###", false).unwrap();

    assert_eq!(
        alive_rows(&game),
        vec![
            vec![true, false, false],
            vec![false, true, false],
            vec![false, false, true],
            vec![true, true, true],
        ]
    );
}

#[test]
fn from_specific_reads_any_other_glyph_as_dead() {
    let game = Game::from_specific("#x \n.#o", false).unwrap();

    assert_eq!(alive_rows(&game), vec![vec![true, false, false], vec![false, true, false]]);
}

#[test]
fn from_specific_rejects_rows_of_differing_length() {
    assert_eq!(Game::from_specific(".\n..", false), Err(InvalidLayout));
    assert_eq!(Game::from_specific("..\n.", true), Err(InvalidLayout));
    assert_eq!(Game::from_specific("##\n##\n#", false), Err(InvalidLayout));
    assert_eq!(Game::from_specific("##\n\n##", false), Err(InvalidLayout));
}

#[test]
fn invalid_layout_says_what_is_wrong() {
    assert_eq!(InvalidLayout.message(), "invalid layout: inconsistent row length");
}

#[test]
fn from_specific_takes_a_final_line_ending_or_none() {
    let without = Game::from_specific("#.\n.#", false).unwrap();
    let with = Game::from_specific("#.\n.#\n", false).unwrap();

    assert_eq!(without, with);
    assert_eq!(with.row_columns().len(), 2);
}

#[test]
fn from_specific_takes_carriage_returns_before_line_feeds() {
    let game = Game::from_specific("#.\r\n.#\r\n", false).unwrap();

    assert_eq!(alive_rows(&game), vec![vec![true, false], vec![false, true]]);
}

#[test]
fn from_specific_counts_characters_not_bytes() {
    let game = Game::from_specific("é#\n#.", false).unwrap();

    assert_eq!(alive_rows(&game), vec![vec![false, true], vec![true, false]]);
}

#[test]
fn from_specific_of_nothing_is_the_grid_without_rows() {
    let game = Game::from_specific("", false).unwrap();

    assert_eq!(game.row_columns().len(), 0);
    assert_eq!(game.iteration_count(), 0);
}

#[test]
fn from_specific_of_empty_lines_has_rows_without_cells() {
    let game = Game::from_specific("\n\n", true).unwrap();

    assert_eq!(alive_rows(&game), vec![Vec::<bool>::new(), Vec::<bool>::new()]);
}

#[test]
fn collect_chars_gives_every_character_in_order() {
    assert_eq!(collect_chars(""), Vec::<char>::new());
    assert_eq!(collect_chars("#.\n"), vec!['#', '.', '\n']);
    assert_eq!(collect_chars("aé∑"), vec!['a', 'é', '∑']);
}

#[test]
fn split_lines_splits_at_line_feeds() {
    assert_eq!(lines_as_strings(""), Vec::<String>::new());
    assert_eq!(lines_as_strings("ab"), vec!["ab"]);
    assert_eq!(lines_as_strings("ab\n"), vec!["ab"]);
    assert_eq!(lines_as_strings("ab\ncd"), vec!["ab", "cd"]);
    assert_eq!(lines_as_strings("ab\n\ncd\n"), vec!["ab", "", "cd"]);
    assert_eq!(lines_as_strings("\n"), vec![""]);
    assert_eq!(lines_as_strings("\n\n"), vec!["", ""]);
}

#[test]
fn split_lines_drops_a_carriage_return_only_before_a_line_feed() {
    assert_eq!(lines_as_strings("ab\r\ncd"), vec!["ab", "cd"]);
    assert_eq!(lines_as_strings("\r\n"), vec![""]);
    assert_eq!(lines_as_strings("a\rb\n"), vec!["a\rb"]);
    assert_eq!(lines_as_strings("ab\r\r\n"), vec!["ab\r"]);
    assert_eq!(lines_as_strings("ab\r"), vec!["ab\r"]);
}

#[test]
fn split_lines_agrees_with_the_lines_of_std() {
    for text in ["", "a", "a\n", "a\nb", "a\r\nb\r\n", "\n\na", "a\r", "\r\n\r\n", "#.\n.#\n"] {
        let expected: Vec<String> = text.lines().map(|line| line.to_string()).collect();
        assert_eq!(lines_as_strings(text), expected);
    }
}
