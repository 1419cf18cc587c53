use snake::coordinate::{Coordinate, Direction};
use snake::game::{Game, GameState, INITIAL_INTERVAL, INTERVAL_STEP, MIN_INTERVAL};
use snake::grid::{Glyph, GridResult};
use snake::scheduler::{on_input, on_tick, InputAction, TickAction};

fn cell(x: usize, y: usize) -> Coordinate {
    Coordinate { x, y }
}

/// The direction that keeps a snake on one closed tour of all the cells
/// inside the walls of a 20 x 20 grid: right along row 2, then down the rows
/// in a zigzag between columns 3 and 19, and back up in column 2.
fn tour(head: Coordinate) -> Direction {
    if head.x == 2 {
        if head.y == 2 {
            Direction::Right
        } else {
            Direction::Up
        }
    } else if head.y == 2 {
        if head.x < 19 {
            Direction::Right
        } else {
            Direction::Down
        }
    } else if head.y % 2 == 1 {
        if head.x > 3 {
            Direction::Left
        } else if head.y == 19 {
            Direction::Left
        } else {
            Direction::Down
        }
    } else if head.x < 19 {
        Direction::Right
    } else {
        Direction::Down
    }
}

/// Moves the snake along the tour, frame by frame, until it has eaten an
/// apple.
fn eat_next_apple(game: &mut Game) {
    for _ in 0..400 {
        let d = tour(game.stage().snake().position());
        game.apply_direction(d);
        match game.render() {
            GridResult::Grow => return,
            GridResult::Step => {},
            GridResult::Collision(c) => panic!("collision at ({}, {})", c.x, c.y),
        }
    }
    panic!("no apple on the tour");
}

#[test]
fn supports_tells_which_grids_hold_a_game() {
    assert!(Game::supports(20, 20));
    assert!(Game::supports(6, 2));
    assert!(!Game::supports(5, 20));
    assert!(!Game::supports(20, 1));
    assert!(Game::supports(usize::MAX, 2));
    assert!(!Game::supports(0, 0));
}

#[test]
fn new_game_is_running_and_blank() {
    let game = Game::new(20, 20);
    assert_eq!(game.state(), GameState::Running);
    assert_eq!(game.score(), 0);
    assert_eq!(game.interval(), 300);
    assert_eq!(INITIAL_INTERVAL, 300);
    assert_eq!(INTERVAL_STEP, 25);
    assert_eq!(MIN_INTERVAL, 50);
    assert!(game.grid().is_empty());
    assert_eq!(game.grid().cols(), 20);
    assert_eq!(game.grid().rows(), 20);
    assert_eq!(game.stage().snake().len(), 0);
}

#[test]
fn start_centers_the_snake_and_renders_the_first_frame() {
    let mut game = Game::new(20, 20);
    game.start();
    assert_eq!(game.state(), GameState::Running);
    let snake = game.stage().snake();
    assert_eq!(snake.position(), cell(10, 10));
    assert_eq!(snake.len(), 2);
    assert!(snake.is_refreshed());
    assert!(snake.apple().is_placed());
    assert_eq!(game.grid().cells().len(), 80);
    assert_eq!(game.grid().taken().len(), 79);
    assert!(!game.grid().is_occupied(cell(8, 10)));
    assert_eq!(game.score(), 0);
    assert_eq!(game.interval(), 300);
}

#[test]
fn frame_is_rebuilt_from_nothing_each_time() {
    let mut game = Game::new(20, 20);
    game.start();
    for _ in 0..5 {
        game.apply_direction(tour(game.stage().snake().position()));
        let painted = game.stage().snake().len();
        match game.render() {
            GridResult::Step => {
                assert_eq!(game.grid().cells().len(), 76 + painted + 1);
                assert_eq!(game.stage().snake().len(), painted - 1);
            },
            GridResult::Grow => {
                assert_eq!(game.grid().cells().len(), 76 + painted);
                assert_eq!(game.stage().snake().len(), painted);
            },
            GridResult::Collision(c) => panic!("collision at ({}, {})", c.x, c.y),
        }
        assert!(painted >= 3);
    }
}

#[test]
fn frame_without_a_move_trims_all_the_same() {
    let mut game = Game::new(20, 20);
    game.start();
    assert_eq!(game.stage().snake().len(), 2);
    assert_eq!(game.render(), GridResult::Step);
    assert_eq!(game.stage().snake().len(), 1);
    assert_eq!(game.grid().cells().len(), 79);
}

#[test]
fn straight_on_ends_at_the_wall() {
    let mut game = Game::new(20, 20);
    game.start();
    let mut steps: usize = 0;
    let result = loop {
        game.step();
        steps += 1;
        match game.render() {
            GridResult::Collision(c) => break c,
            _ => assert!(steps < 20),
        }
    };
    assert_eq!(result, cell(20, 10));
    assert_eq!(steps, 10);
    assert_eq!(game.state(), GameState::GameOver(cell(20, 10)));
    assert!(game.grid().has_collitions());
}

#[test]
fn game_over_is_final() {
    let mut game = Game::new(20, 20);
    game.start();
    for _ in 0..10 {
        game.step();
        game.render();
    }
    assert_eq!(game.state(), GameState::GameOver(cell(20, 10)));
    let score: u64 = game.score();
    let cells = game.grid().cells().clone();
    let len: usize = game.stage().snake().len();

    game.apply_direction(Direction::Up);
    game.step();
    assert_eq!(game.stage().snake().position(), cell(20, 10));
    assert_eq!(game.render(), GridResult::Collision(cell(20, 10)));
    assert_eq!(on_tick(&mut game), TickAction::Stop(cell(20, 10)));
    assert_eq!(game.state(), GameState::GameOver(cell(20, 10)));
    assert_eq!(game.score(), score);
    assert_eq!(game.stage().snake().len(), len);
    assert_eq!(game.grid().cells(), &cells);
}

#[test]
fn start_begins_a_new_game_after_game_over() {
    let mut game = Game::new(20, 20);
    game.start();
    eat_next_apple(&mut game);
    while game.state() == GameState::Running {
        game.step();
        game.render();
    }
    assert!(game.score() >= 1);
    game.start();
    assert_eq!(game.state(), GameState::Running);
    assert_eq!(game.score(), 0);
    assert_eq!(game.interval(), 300);
    assert_eq!(game.stage().snake().position(), cell(10, 10));
    assert_eq!(game.stage().snake().direction(), Direction::Right);
    assert_eq!(game.stage().snake().len(), 2);
    assert!(game.stage().snake().apple().is_placed());
    assert!(!game.stage().snake().body().contains(&game.stage().snake().apple().position()));
    assert_eq!(game.render(), GridResult::Step);
}

#[test]
fn game_on_two_rows_is_over_at_once() {
    let mut game = Game::new(6, 2);
    game.start();
    assert_eq!(game.state(), GameState::GameOver(cell(3, 1)));
}

#[test]
fn turn_into_the_upper_wall_ends_there() {
    let mut game = Game::new(20, 20);
    game.start();
    game.apply_direction(Direction::Up);
    let mut last = game.render();
    while game.state() == GameState::Running {
        game.step();
        last = game.render();
    }
    assert_eq!(last, GridResult::Collision(cell(10, 1)));
    assert_eq!(game.state(), GameState::GameOver(cell(10, 1)));
}

#[test]
fn apple_is_never_put_on_walls_or_snake() {
    for _ in 0..50 {
        let mut game = Game::new(8, 6);
        game.start();
        let apple = game.stage().snake().apple().position();
        assert!(apple.x > 1 && apple.x < 8 && apple.y > 1 && apple.y < 6);
        assert!(![cell(4, 3), cell(3, 3), cell(2, 3)].contains(&apple));
        let drawn = game.grid().cells().iter().filter(|c| c.coord == apple).count();
        assert_eq!(drawn, 1);
        assert_eq!(game.grid().cells().last().unwrap().glyph, Glyph::Apple);
    }
}

#[test]
fn eaten_apple_grows_the_snake_raises_the_score_and_quickens_the_pace() {
    let mut game = Game::new(20, 20);
    game.start();
    let apple = game.stage().snake().apple().position();
    let mut before: usize = game.stage().snake().len();
    let mut grown = false;
    for _ in 0..400 {
        before = game.stage().snake().len();
        let d = tour(game.stage().snake().position());
        game.apply_direction(d);
        assert_eq!(game.stage().snake().len(), before + 1);
        match game.render() {
            GridResult::Grow => {
                grown = true;
                break;
            },
            GridResult::Step => {
                assert_eq!(game.stage().snake().len(), before);
                assert_eq!(game.score(), 0);
                assert_eq!(game.interval(), 300);
            },
            GridResult::Collision(c) => panic!("collision at ({}, {})", c.x, c.y),
        }
    }
    assert!(grown);
    assert_eq!(game.stage().snake().position(), apple);
    assert_eq!(game.stage().snake().len(), before + 1);
    assert_eq!(game.stage().snake().len(), 3);
    assert_eq!(game.score(), 1);
    assert_eq!(game.interval(), 275);
    assert!(!game.stage().snake().apple().is_placed());
    assert_eq!(game.state(), GameState::Running);
}

#[test]
fn pace_quickens_down_to_the_floor_and_stays_there() {
    let mut game = Game::new(20, 20);
    game.start();
    let expected = [275, 250, 225, 200, 175, 150, 125, 100, 75, 50, 50, 50];
    for (eaten, interval) in expected.iter().enumerate() {
        eat_next_apple(&mut game);
        assert_eq!(game.score(), eaten as u64 + 1);
        assert_eq!(game.interval(), *interval);
        assert_eq!(game.stage().snake().len(), 2 + eaten + 1);
    }
    assert_eq!(game.state(), GameState::Running);
}

#[test]
fn tick_steps_and_renders() {
    let mut game = Game::new(20, 20);
    game.start();
    for k in 1..=9 {
        match on_tick(&mut game) {
            TickAction::Sleep(ms) => assert_eq!(ms, game.interval()),
            TickAction::Stop(c) => panic!("collision at ({}, {})", c.x, c.y),
        }
        assert_eq!(game.stage().snake().position(), cell(10 + k, 10));
    }
    assert_eq!(on_tick(&mut game), TickAction::Stop(cell(20, 10)));
    assert_eq!(game.state(), GameState::GameOver(cell(20, 10)));
}

#[test]
fn tick_after_a_turn_does_not_move_twice() {
    let mut game = Game::new(20, 20);
    game.start();
    game.apply_direction(Direction::Down);
    assert_eq!(game.stage().snake().position(), cell(10, 11));
    on_tick(&mut game);
    assert_eq!(game.stage().snake().position(), cell(10, 11));
    on_tick(&mut game);
    assert_eq!(game.stage().snake().position(), cell(10, 12));
}

#[test]
fn tick_sleeps_for_the_pace_of_the_game() {
    let mut game = Game::new(20, 20);
    game.start();
    game.apply_direction(Direction::Up);
    let action = on_tick(&mut game);
    assert_eq!(action, TickAction::Sleep(game.interval()));
}

#[test]
fn input_loop_applies_keys_and_leaves_when_told() {
    assert_eq!(on_input(Some(Direction::Up), false), InputAction::Apply(Direction::Up));
    assert_eq!(on_input(Some(Direction::Left), true), InputAction::Apply(Direction::Left));
    assert_eq!(on_input(None, false), InputAction::Wait);
    assert_eq!(on_input(None, true), InputAction::Exit);
}
