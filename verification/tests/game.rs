use snake_game::game::same_cell;
use snake_game::{get_opposite_direction, rand_position, Direction, Position, SnakeGame};

fn on_board(game: &SnakeGame, cell: Position) -> bool {
    cell.0 < game.width() && cell.1 < game.height()
}

fn assert_sound(game: &SnakeGame) {
    let snake = game.snake();
    assert!(!snake.is_empty());
    for cell in &snake {
        assert!(on_board(game, *cell));
    }
    assert!(on_board(game, game.food()));
    if snake.contains(&game.food()) {
        assert!(game.unoccupied_positions().is_empty());
        assert!(game.is_game_over() || snake.len() == 1);
    }
}

#[test]
fn it_works() {
    let game = SnakeGame::new(10, 10);

    println!("{:?}", game);
}

#[test]
fn new_puts_the_snake_on_the_central_cell() {
    let game = SnakeGame::new(4, 4);
    assert_eq!(game.width(), 4);
    assert_eq!(game.height(), 4);
    assert_eq!(game.snake(), vec![(2, 2)]);
    assert_eq!(game.direction(), Direction::Left);
    assert!(!game.is_game_over());
    assert!(on_board(&game, game.food()));
    assert_ne!(game.food(), (2, 2));

    assert_eq!(SnakeGame::new(5, 3).snake(), vec![(2, 1)]);
    assert_eq!(SnakeGame::new(10, 10).snake(), vec![(5, 5)]);
    assert_eq!(SnakeGame::new(7, 1).snake(), vec![(3, 0)]);
    assert_eq!(SnakeGame::new(1, 2).snake(), vec![(0, 1)]);
}

#[test]
fn new_never_puts_the_food_under_the_snake() {
    for _ in 0..300 {
        let game = SnakeGame::new(2, 2);
        assert_ne!(game.food(), (1, 1));
        assert!(on_board(&game, game.food()));
        assert!(!game.is_game_over());
        assert_sound(&game);
    }
}

#[test]
fn new_on_two_cells_has_one_place_for_the_food() {
    for _ in 0..50 {
        let wide = SnakeGame::new(2, 1);
        assert_eq!(wide.snake(), vec![(1, 0)]);
        assert_eq!(wide.food(), (0, 0));
        let tall = SnakeGame::new(1, 2);
        assert_eq!(tall.snake(), vec![(0, 1)]);
        assert_eq!(tall.food(), (0, 0));
    }
}

#[test]
fn new_on_a_single_cell_is_open_until_the_first_tick() {
    let mut game = SnakeGame::new(1, 1);
    assert_eq!(game.snake(), vec![(0, 0)]);
    assert_eq!(game.food(), (0, 0));
    assert_eq!(game.direction(), Direction::Left);
    assert!(!game.is_game_over());
    assert_sound(&game);
    game.tick();
    assert!(game.is_game_over());
    assert_eq!(game.snake(), vec![(0, 0)]);
    assert_eq!(game.food(), (0, 0));
    assert_sound(&game);
    game.tick();
    assert!(game.is_game_over());
    assert_eq!(game.snake(), vec![(0, 0)]);

    let mut turned = SnakeGame::new(1, 1);
    turned.change_direction(Direction::Down);
    assert!(!turned.is_game_over());
    turned.tick();
    assert!(turned.is_game_over());
    assert_eq!(turned.snake(), vec![(0, 0)]);
    assert_eq!(turned.food(), (0, 0));
}

#[test]
fn new_starts_every_game_open() {
    for width in 1..7 {
        for height in 1..7 {
            let game = SnakeGame::new(width, height);
            assert!(!game.is_game_over());
            assert_eq!(game.snake(), vec![(width / 2, height / 2)]);
            assert_eq!(game.direction(), Direction::Left);
            assert_eq!(game.snake().contains(&game.food()), width == 1 && height == 1);
            assert_sound(&game);
        }
    }
}

#[test]
fn try_new_refuses_an_empty_board() {
    assert!(SnakeGame::try_new(0, 0).is_none());
    assert!(SnakeGame::try_new(0, 5).is_none());
    assert!(SnakeGame::try_new(5, 0).is_none());
    let game = SnakeGame::try_new(4, 4).unwrap();
    assert_eq!(game.snake(), vec![(2, 2)]);
    assert!(!game.is_game_over());
    assert_ne!(game.food(), (2, 2));
    let small = SnakeGame::try_new(1, 1).unwrap();
    assert_eq!(small.snake(), vec![(0, 0)]);
    assert_eq!(small.food(), (0, 0));
    assert!(!small.is_game_over());
}

#[test]
fn opposite_headings_pair_up() {
    assert_eq!(get_opposite_direction(&Direction::Up), Direction::Down);
    assert_eq!(get_opposite_direction(&Direction::Down), Direction::Up);
    assert_eq!(get_opposite_direction(&Direction::Left), Direction::Right);
    assert_eq!(get_opposite_direction(&Direction::Right), Direction::Left);
}

#[test]
fn every_heading_steps_along_the_row() {
    assert_eq!(Direction::Up.delta(), (-1, 0));
    assert_eq!(Direction::Down.delta(), (1, 0));
    assert_eq!(Direction::Left.delta(), (-1, 0));
    assert_eq!(Direction::Right.delta(), (1, 0));
}

#[test]
fn change_direction_ignores_a_turn_right_around() {
    let mut game = SnakeGame::new(6, 6);
    let food = game.food();
    game.change_direction(Direction::Right);
    assert_eq!(game.direction(), Direction::Left);
    game.change_direction(Direction::Left);
    assert_eq!(game.direction(), Direction::Left);
    game.change_direction(Direction::Up);
    assert_eq!(game.direction(), Direction::Up);
    game.change_direction(Direction::Down);
    assert_eq!(game.direction(), Direction::Up);
    game.change_direction(Direction::Right);
    assert_eq!(game.direction(), Direction::Right);
    game.change_direction(Direction::Left);
    assert_eq!(game.direction(), Direction::Right);
    game.change_direction(Direction::Down);
    assert_eq!(game.direction(), Direction::Down);
    game.change_direction(Direction::Up);
    assert_eq!(game.direction(), Direction::Down);
    assert_eq!(game.snake(), vec![(3, 3)]);
    assert_eq!(game.food(), food);
    assert!(!game.is_game_over());
}

#[test]
fn the_last_turn_that_was_followed_counts() {
    let mut game = SnakeGame::new(6, 1);
    game.place_food(Some((0, 0)));
    game.change_direction(Direction::Up);
    game.change_direction(Direction::Right);
    game.change_direction(Direction::Left);
    game.tick();
    assert_eq!(game.direction(), Direction::Right);
    assert_eq!(game.snake(), vec![(4, 0)]);
}

#[test]
fn tick_on_four_by_four_moves_the_head_left() {
    for _ in 0..100 {
        let mut game = SnakeGame::new(4, 4);
        assert_eq!(game.snake(), vec![(2, 2)]);
        let food = game.food();
        game.tick();
        assert!(!game.is_game_over());
        if food == (1, 2) {
            assert_eq!(game.snake(), vec![(1, 2), (2, 2)]);
            assert!(!game.snake().contains(&game.food()));
            assert!(on_board(&game, game.food()));
        } else {
            assert_eq!(game.snake(), vec![(1, 2)]);
            assert_eq!(game.food(), food);
        }
        assert_sound(&game);
    }
}

#[test]
fn tick_without_food_keeps_the_length() {
    let mut game = SnakeGame::new(6, 2);
    game.place_food(Some((5, 0)));
    game.tick();
    assert_eq!(game.snake(), vec![(2, 1)]);
    game.tick();
    assert_eq!(game.snake(), vec![(1, 1)]);
    game.change_direction(Direction::Down);
    game.tick();
    assert_eq!(game.snake(), vec![(2, 1)]);
    assert_eq!(game.food(), (5, 0));
    assert!(!game.is_game_over());
}

#[test]
fn tick_onto_food_grows_the_snake_by_one() {
    let mut game = SnakeGame::new(5, 2);
    assert_eq!(game.snake(), vec![(2, 1)]);
    game.place_food(Some((1, 1)));
    game.tick();
    assert_eq!(game.snake(), vec![(1, 1), (2, 1)]);
    assert!(!game.is_game_over());
    assert!(on_board(&game, game.food()));
    assert!(!game.snake().contains(&game.food()));
    game.place_food(Some((4, 0)));
    game.tick();
    assert_eq!(game.snake(), vec![(0, 1), (1, 1)]);
    assert_eq!(game.food(), (4, 0));
    assert_sound(&game);
}

#[test]
fn tick_off_the_board_ends_the_game() {
    let mut game = SnakeGame::new(1, 3);
    let food = game.food();
    assert_eq!(game.snake(), vec![(0, 1)]);
    game.tick();
    assert!(game.is_game_over());
    assert_eq!(game.snake(), vec![(0, 1)]);
    assert_eq!(game.food(), food);
    assert_eq!(game.direction(), Direction::Left);

    let mut right = SnakeGame::new(3, 3);
    right.place_food(Some((0, 0)));
    right.change_direction(Direction::Down);
    right.tick();
    assert_eq!(right.snake(), vec![(2, 1)]);
    assert!(!right.is_game_over());
    right.tick();
    assert!(right.is_game_over());
    assert_eq!(right.snake(), vec![(2, 1)]);
    assert_eq!(right.food(), (0, 0));
    assert_eq!(right.direction(), Direction::Down);
}

#[test]
fn tick_after_the_end_changes_nothing() {
    let mut game = SnakeGame::new(2, 3);
    game.place_food(Some((1, 0)));
    game.tick();
    assert_eq!(game.snake(), vec![(0, 1)]);
    game.tick();
    assert!(game.is_game_over());
    for _ in 0..10 {
        game.tick();
        assert!(game.is_game_over());
        assert_eq!(game.snake(), vec![(0, 1)]);
        assert_eq!(game.food(), (1, 0));
        assert_eq!(game.direction(), Direction::Left);
        assert_eq!(game.width(), 2);
        assert_eq!(game.height(), 3);
    }
}

#[test]
fn filling_the_board_ends_the_game() {
    let mut game = SnakeGame::new(2, 1);
    assert_eq!(game.food(), (0, 0));
    game.tick();
    assert_eq!(game.snake(), vec![(0, 0), (1, 0)]);
    assert!(game.is_game_over());
    assert_eq!(game.food(), (0, 0));
    assert_sound(&game);
    game.tick();
    assert_eq!(game.snake(), vec![(0, 0), (1, 0)]);
    assert!(game.is_game_over());
}

#[test]
fn a_whole_game_on_three_cells() {
    for _ in 0..50 {
        let mut game = SnakeGame::new(3, 1);
        assert_eq!(game.snake(), vec![(1, 0)]);
        let first = game.food();
        assert!(first == (0, 0) || first == (2, 0));
        let last = if first == (0, 0) { (2, 0) } else { (0, 0) };
        if first == (2, 0) {
            game.change_direction(Direction::Down);
        }
        game.tick();
        assert_eq!(game.snake(), vec![first, (1, 0)]);
        assert_eq!(game.food(), last);
        assert!(!game.is_game_over());
        if first == (0, 0) {
            game.change_direction(Direction::Down);
        } else {
            game.change_direction(Direction::Left);
        }
        game.tick();
        assert_eq!(game.snake(), vec![(1, 0), first]);
        assert_eq!(game.food(), last);
        assert!(!game.is_game_over());
        game.tick();
        assert_eq!(game.snake(), vec![last, (1, 0), first]);
        assert!(game.is_game_over());
        assert_eq!(game.food(), last);
        assert_sound(&game);
    }
}

#[test]
fn the_snake_may_run_into_itself() {
    let mut game = SnakeGame::new(5, 1);
    game.place_food(Some((1, 0)));
    game.tick();
    game.place_food(Some((0, 0)));
    game.tick();
    assert_eq!(game.snake(), vec![(0, 0), (1, 0), (2, 0)]);
    game.place_food(Some((4, 0)));
    game.change_direction(Direction::Down);
    assert_eq!(game.direction(), Direction::Down);
    game.tick();
    assert_eq!(game.snake(), vec![(1, 0), (0, 0), (1, 0)]);
    assert!(!game.is_game_over());
    assert_eq!(game.food(), (4, 0));
}

#[test]
fn random_play_stays_sound() {
    let turns = [Direction::Up, Direction::Down, Direction::Left, Direction::Right];
    for round in 0..40 {
        let mut game = SnakeGame::new(1 + round % 5, 1 + round % 3);
        assert_sound(&game);
        for step in 0..60 {
            let before = game.snake().len();
            let over = game.is_game_over();
            game.change_direction(turns[rand_position(4, 1).0]);
            assert_sound(&game);
            game.tick();
            assert_sound(&game);
            let after = game.snake().len();
            assert!(after == before || after == before + 1, "step {}", step);
            if over {
                assert!(game.is_game_over());
                assert_eq!(after, before);
            }
        }
    }
}

#[test]
fn unoccupied_positions_reads_the_board_row_by_row() {
    let mut game = SnakeGame::new(2, 2);
    assert_eq!(game.unoccupied_positions(), vec![(0, 0), (1, 0), (0, 1)]);
    game.place_food(Some((0, 1)));
    game.tick();
    assert_eq!(game.snake(), vec![(0, 1), (1, 1)]);
    assert_eq!(game.unoccupied_positions(), vec![(0, 0), (1, 0)]);
    let wide = SnakeGame::new(3, 2);
    assert_eq!(wide.unoccupied_positions(), vec![(0, 0), (1, 0), (2, 0), (0, 1), (2, 1)]);
}

#[test]
fn occupies_tells_the_cells_of_the_snake() {
    let mut game = SnakeGame::new(4, 1);
    game.place_food(Some((1, 0)));
    game.tick();
    assert!(game.occupies((1, 0)));
    assert!(game.occupies((2, 0)));
    assert!(!game.occupies((0, 0)));
    assert!(!game.occupies((3, 0)));
    assert!(!game.occupies((1, 1)));
}

#[test]
fn is_valid_move_checks_all_four_walls() {
    let game = SnakeGame::new(4, 3);
    assert!(game.is_valid_move((1, 1), -1, 0));
    assert!(!game.is_valid_move((0, 1), -1, 0));
    assert!(game.is_valid_move((2, 1), 1, 0));
    assert!(!game.is_valid_move((3, 1), 1, 0));
    assert!(game.is_valid_move((1, 1), 0, -1));
    assert!(!game.is_valid_move((1, 0), 0, -1));
    assert!(game.is_valid_move((1, 1), 0, 1));
    assert!(!game.is_valid_move((1, 2), 0, 1));
    assert!(game.is_valid_move((4, 3), -1, -1));
    assert!(!game.is_valid_move((usize::MAX, 0), 1, 0));
    assert!(!game.is_valid_move((usize::MAX, 0), -1, 0));
    assert!(!game.is_valid_move((0, usize::MAX), 0, 1));
    assert!(game.is_valid_move((0, 0), 3, 2));
    assert!(!game.is_valid_move((0, 0), 4, 0));
}

#[test]
fn rand_position_stays_on_the_board() {
    assert_eq!(rand_position(1, 1), (0, 0));
    for _ in 0..500 {
        let cell = rand_position(3, 2);
        assert!(cell.0 < 3);
        assert!(cell.1 < 2);
        let column = rand_position(1, 7);
        assert_eq!(column.0, 0);
        assert!(column.1 < 7);
    }
}

#[test]
fn rand_position_reaches_every_cell() {
    let mut seen = [[false; 3]; 2];
    for _ in 0..2000 {
        let cell = rand_position(3, 2);
        seen[cell.1][cell.0] = true;
    }
    assert_eq!(seen, [[true; 3]; 2]);
}

#[test]
fn get_unoccupied_position_draws_a_free_cell() {
    let mut game = SnakeGame::new(2, 1);
    assert_eq!(game.get_unoccupied_position(), Some((0, 0)));
    game.tick();
    assert_eq!(game.get_unoccupied_position(), None);

    let board = SnakeGame::new(3, 3);
    let mut seen = Vec::new();
    for _ in 0..2000 {
        let cell = board.get_unoccupied_position().unwrap();
        assert!(on_board(&board, cell));
        assert_ne!(cell, (1, 1));
        if !seen.contains(&cell) {
            seen.push(cell);
        }
    }
    assert_eq!(seen.len(), 8);
}

#[test]
fn place_food_moves_the_food_or_ends_the_game() {
    let mut game = SnakeGame::new(4, 4);
    game.place_food(Some((3, 0)));
    assert_eq!(game.food(), (3, 0));
    assert!(!game.is_game_over());
    assert_eq!(game.snake(), vec![(2, 2)]);
    game.place_food(None);
    assert!(game.is_game_over());
    assert_eq!(game.food(), (3, 0));
    assert_eq!(game.snake(), vec![(2, 2)]);
}

#[test]
fn same_cell_compares_both_coordinates() {
    assert!(same_cell((3, 4), (3, 4)));
    assert!(!same_cell((3, 4), (4, 3)));
    assert!(!same_cell((3, 4), (3, 5)));
    assert!(!same_cell((3, 4), (2, 4)));
    assert!(same_cell((0, 0), (0, 0)));
}
