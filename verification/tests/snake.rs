use snake::apple::Apple;
use snake::coordinate::{Coordinate, Direction};
use snake::grid::{Cell, Glyph, Grid, GridResult};
use snake::snake::{Snake, SEED_MOVES};
use snake::stage::Stage;

fn cell(x: usize, y: usize) -> Coordinate {
    Coordinate { x, y }
}

/// Marks every cell of the grid as taken but those of `keep`.
fn fill_but(grid: &mut Grid, keep: &[Coordinate]) {
    for y in 1..=grid.rows() {
        for x in 1..=grid.cols() {
            if !keep.contains(&cell(x, y)) {
                assert_eq!(grid.set(cell(x, y)), GridResult::Step);
            }
        }
    }
}

/// A snake after its first frame, with its head at (10, 10), its two moves
/// to the right, and its apple at `apple`; the grid is left empty.
fn snake_with_apple_at(grid: &mut Grid, apple: Coordinate) -> Snake {
    let mut snake = Snake::new();
    snake.start(cell(10, 10));
    fill_but(grid, &[cell(10, 10), cell(9, 10), cell(8, 10), apple]);
    assert_eq!(snake.render(grid), GridResult::Step);
    assert_eq!(snake.apple().position(), apple);
    assert!(snake.apple().is_placed());
    assert_eq!(snake.len(), 2);
    grid.clear();
    snake
}

fn drawn(x: usize, y: usize, glyph: Glyph) -> Cell {
    Cell { coord: cell(x, y), glyph }
}

#[test]
fn new_snake_has_no_body() {
    let snake = Snake::new();
    assert_eq!(snake.len(), 0);
    assert_eq!(snake.position(), cell(1, 1));
    assert_eq!(snake.direction(), Direction::Right);
    assert!(!snake.is_refreshed());
    assert!(!snake.apple().is_placed());
    assert!(snake.body().is_empty());
}

#[test]
fn start_seeds_three_moves_to_the_right() {
    let mut snake = Snake::new();
    snake.start(cell(10, 10));
    assert_eq!(SEED_MOVES, 3);
    assert_eq!(snake.len(), 3);
    assert_eq!(snake.position(), cell(10, 10));
    assert_eq!(snake.direction(), Direction::Right);
    assert!(!snake.is_refreshed());
    assert_eq!(snake.body(), vec![cell(10, 10), cell(9, 10), cell(8, 10)]);
}

#[test]
fn snake_that_was_not_drawn_ignores_requests() {
    let mut snake = Snake::new();
    snake.start(cell(10, 10));
    snake.request_direction(Direction::Up);
    snake.step();
    assert_eq!(snake.position(), cell(10, 10));
    assert_eq!(snake.len(), 3);
    assert_eq!(snake.direction(), Direction::Right);
}

#[test]
fn snake_without_a_body_ignores_requests_even_after_a_rendering() {
    let mut grid = Grid::new(20, 20);
    let mut snake = Snake::new();
    assert_eq!(snake.render(&mut grid), GridResult::Step);
    assert!(!snake.is_refreshed());
    snake.request_direction(Direction::Down);
    assert_eq!(snake.position(), cell(1, 1));
    assert_eq!(snake.len(), 0);
}

#[test]
fn first_rendering_draws_three_cells_and_the_apple_and_trims_the_tail() {
    let mut grid = Grid::new(20, 20);
    let mut snake = Snake::new();
    snake.start(grid.center());
    assert_eq!(snake.render(&mut grid), GridResult::Step);
    assert!(snake.is_refreshed());
    assert_eq!(snake.len(), 2);
    assert_eq!(snake.body(), vec![cell(10, 10), cell(9, 10)]);
    let apple = snake.apple().position();
    let expected = vec![
        drawn(10, 10, Glyph::Snake),
        drawn(9, 10, Glyph::Snake),
        drawn(8, 10, Glyph::Snake),
        Cell { coord: apple, glyph: Glyph::Apple },
    ];
    assert_eq!(grid.cells(), &expected);
    assert_eq!(grid.taken(), &vec![cell(10, 10), cell(9, 10), apple]);
    assert!(!grid.is_occupied(cell(8, 10)));
    assert!(snake.apple().is_placed());
    assert!(grid.in_bounds(apple));
    assert!(![cell(10, 10), cell(9, 10), cell(8, 10)].contains(&apple));
}

#[test]
fn rendering_without_growth_drops_the_oldest_move() {
    let mut grid = Grid::new(6, 6);
    let mut snake = Snake::new();
    snake.start(cell(3, 3));
    fill_but(&mut grid, &[cell(3, 3), cell(2, 3), cell(1, 3), cell(5, 5)]);
    assert_eq!(snake.render(&mut grid), GridResult::Step);
    assert_eq!(snake.apple().position(), cell(5, 5));
    assert_eq!(snake.len(), 2);
    grid.clear();

    snake.step();
    assert_eq!(snake.position(), cell(4, 3));
    assert_eq!(snake.len(), 3);
    assert_eq!(snake.render(&mut grid), GridResult::Step);
    assert_eq!(snake.len(), 2);
    assert_eq!(snake.direction(), Direction::Right);
    assert!(snake.is_refreshed());
    assert!(grid.taken().contains(&cell(4, 3)));
    assert!(grid.taken().contains(&cell(3, 3)));
    assert!(grid.taken().contains(&cell(5, 5)));
    assert!(!grid.taken().contains(&cell(2, 3)));
    assert_eq!(snake.apple().position(), cell(5, 5));
    assert!(snake.apple().is_placed());
}

#[test]
fn rendering_trims_every_history_down_to_nothing() {
    let mut grid = Grid::new(20, 20);
    let mut snake = snake_with_apple_at(&mut grid, cell(3, 3));
    assert_eq!(snake.render(&mut grid), GridResult::Step);
    assert_eq!(snake.len(), 1);
    assert_eq!(grid.taken(), &vec![cell(10, 10), cell(3, 3)]);
    grid.clear();
    assert_eq!(snake.render(&mut grid), GridResult::Step);
    assert_eq!(snake.len(), 0);
    assert_eq!(grid.taken(), &vec![cell(3, 3)]);
    assert!(snake.is_refreshed());
    grid.clear();
    assert_eq!(snake.render(&mut grid), GridResult::Step);
    assert_eq!(snake.len(), 0);
    assert!(!snake.is_refreshed());
}

#[test]
fn reversal_is_rejected_and_turn_is_accepted_after_next_rendering() {
    let mut grid = Grid::new(20, 20);
    let mut snake = snake_with_apple_at(&mut grid, cell(3, 3));
    assert_eq!(snake.direction(), Direction::Right);

    snake.step();
    assert_eq!(snake.position(), cell(11, 10));
    assert_eq!(snake.len(), 3);

    snake.request_direction(Direction::Left);
    assert_eq!(snake.position(), cell(11, 10));
    assert_eq!(snake.len(), 3);
    assert_eq!(snake.direction(), Direction::Right);

    assert_eq!(snake.render(&mut grid), GridResult::Step);
    snake.request_direction(Direction::Left);
    assert_eq!(snake.position(), cell(11, 10));
    assert_eq!(snake.len(), 2);
    assert_eq!(snake.direction(), Direction::Right);
    assert!(snake.is_refreshed());

    snake.request_direction(Direction::Up);
    assert_eq!(snake.position(), cell(11, 9));
    assert_eq!(snake.len(), 3);
    assert_eq!(snake.direction(), Direction::Up);
    assert!(!snake.is_refreshed());
}

#[test]
fn only_one_request_is_accepted_between_two_renderings() {
    let mut grid = Grid::new(20, 20);
    let mut snake = snake_with_apple_at(&mut grid, cell(3, 3));
    snake.request_direction(Direction::Up);
    snake.request_direction(Direction::Left);
    snake.request_direction(Direction::Up);
    snake.step();
    assert_eq!(snake.position(), cell(10, 9));
    assert_eq!(snake.len(), 3);
    assert_eq!(snake.direction(), Direction::Up);
}

#[test]
fn body_follows_the_moves_back_from_the_head() {
    let mut grid = Grid::new(20, 20);
    let mut snake = snake_with_apple_at(&mut grid, cell(3, 3));
    assert_eq!(snake.body(), vec![cell(10, 10), cell(9, 10)]);
    snake.request_direction(Direction::Up);
    assert_eq!(snake.body(), vec![cell(10, 9), cell(10, 10), cell(9, 10)]);
    assert_eq!(snake.render(&mut grid), GridResult::Step);
    assert_eq!(snake.body(), vec![cell(10, 9), cell(10, 10)]);
    grid.clear();
    snake.request_direction(Direction::Left);
    assert_eq!(snake.body(), vec![cell(9, 9), cell(10, 9), cell(10, 10)]);
}

#[test]
fn step_without_apple_trims_the_tail_and_frees_its_cell() {
    let mut grid = Grid::new(20, 20);
    let mut snake = snake_with_apple_at(&mut grid, cell(3, 3));
    snake.step();
    assert_eq!(snake.render(&mut grid), GridResult::Step);
    assert_eq!(snake.len(), 2);
    assert!(snake.is_refreshed());
    let expected = vec![
        drawn(11, 10, Glyph::Snake),
        drawn(10, 10, Glyph::Snake),
        drawn(9, 10, Glyph::Snake),
        drawn(3, 3, Glyph::Apple),
    ];
    assert_eq!(grid.cells(), &expected);
    assert_eq!(grid.taken(), &vec![cell(11, 10), cell(10, 10), cell(3, 3)]);
    assert!(!grid.is_occupied(cell(9, 10)));
}

#[test]
fn snake_grows_by_one_when_it_reaches_the_apple() {
    let mut grid = Grid::new(20, 20);
    let mut snake = snake_with_apple_at(&mut grid, cell(11, 10));
    let before: usize = snake.len();
    snake.step();
    assert_eq!(snake.render(&mut grid), GridResult::Grow);
    assert_eq!(snake.len(), before + 1);
    assert_eq!(snake.len(), 3);
    assert!(!snake.apple().is_placed());
    assert!(snake.is_refreshed());
    assert_eq!(grid.cells().len(), 3);
    assert_eq!(grid.taken(), &vec![cell(11, 10), cell(10, 10), cell(9, 10)]);

    grid.clear();
    snake.step();
    assert_eq!(snake.render(&mut grid), GridResult::Step);
    assert_eq!(snake.len(), 3);
    assert!(snake.apple().is_placed());
    assert_eq!(snake.body(), vec![cell(12, 10), cell(11, 10), cell(10, 10)]);
    assert_eq!(grid.cells().len(), 5);
}

#[test]
fn rendering_stops_at_a_collision_and_leaves_the_snake_alone() {
    let mut grid = Grid::new(20, 20);
    let mut snake = snake_with_apple_at(&mut grid, cell(3, 3));
    snake.step();
    grid.set(cell(10, 10));
    assert_eq!(snake.render(&mut grid), GridResult::Collision(cell(10, 10)));
    assert_eq!(snake.len(), 3);
    assert!(!snake.is_refreshed());
    assert_eq!(snake.position(), cell(11, 10));
    assert!(grid.is_occupied(cell(11, 10)));
    assert!(!grid.is_occupied(cell(9, 10)));
    assert!(!grid.is_occupied(cell(3, 3)));
    snake.request_direction(Direction::Up);
    assert_eq!(snake.position(), cell(11, 10));
}

#[test]
fn snake_that_runs_into_itself_collides() {
    let mut grid = Grid::new(20, 20);
    let mut snake = snake_with_apple_at(&mut grid, cell(11, 10));
    snake.step();
    assert_eq!(snake.render(&mut grid), GridResult::Grow);
    grid.clear();
    fill_but(&mut grid, &[cell(12, 10), cell(11, 10), cell(10, 10), cell(9, 10), cell(12, 11)]);
    snake.step();
    assert_eq!(snake.render(&mut grid), GridResult::Step);
    assert_eq!(snake.apple().position(), cell(12, 11));
    grid.clear();
    snake.request_direction(Direction::Down);
    assert_eq!(snake.render(&mut grid), GridResult::Grow);
    assert_eq!(snake.len(), 4);
    grid.clear();
    snake.request_direction(Direction::Left);
    assert_eq!(snake.render(&mut grid), GridResult::Step);
    assert_eq!(snake.body(), vec![cell(11, 11), cell(12, 11), cell(12, 10), cell(11, 10)]);
    grid.clear();
    snake.request_direction(Direction::Up);
    assert_eq!(snake.position(), cell(11, 10));
    assert_eq!(snake.render(&mut grid), GridResult::Collision(cell(11, 10)));
}

#[test]
fn head_may_enter_the_cell_that_the_tail_has_just_left() {
    let mut grid = Grid::new(20, 20);
    let mut snake = snake_with_apple_at(&mut grid, cell(11, 10));
    snake.step();
    assert_eq!(snake.render(&mut grid), GridResult::Grow);
    grid.clear();
    fill_but(&mut grid, &[cell(12, 10), cell(11, 10), cell(10, 10), cell(9, 10), cell(3, 3)]);
    snake.step();
    assert_eq!(snake.render(&mut grid), GridResult::Step);
    assert_eq!(snake.body(), vec![cell(12, 10), cell(11, 10), cell(10, 10)]);
    grid.clear();
    snake.request_direction(Direction::Down);
    assert_eq!(snake.render(&mut grid), GridResult::Step);
    grid.clear();
    snake.request_direction(Direction::Left);
    assert_eq!(snake.render(&mut grid), GridResult::Step);
    assert_eq!(grid.cells()[3], drawn(11, 10, Glyph::Snake));
    assert!(!grid.is_occupied(cell(11, 10)));
    grid.clear();
    snake.request_direction(Direction::Up);
    snake.request_direction(Direction::Right);
    assert_eq!(snake.position(), cell(11, 10));
    assert_eq!(snake.render(&mut grid), GridResult::Step);
    grid.clear();
    snake.request_direction(Direction::Right);
    assert_eq!(snake.position(), cell(12, 10));
    assert_eq!(snake.body(), vec![cell(12, 10), cell(11, 10), cell(11, 11), cell(12, 11)]);
    assert_eq!(snake.render(&mut grid), GridResult::Step);
}

#[test]
fn new_apple_has_no_place() {
    let apple = Apple::new();
    assert!(!apple.is_placed());
    assert_eq!(apple.position(), cell(1, 1));
}

#[test]
fn apple_takes_the_only_free_cell() {
    let mut grid = Grid::new(3, 3);
    fill_but(&mut grid, &[cell(2, 3)]);
    let mut apple = Apple::new();
    assert_eq!(apple.render(&mut grid), GridResult::Step);
    assert!(apple.is_placed());
    assert_eq!(apple.position(), cell(2, 3));
    assert_eq!(grid.cells(), &vec![drawn(2, 3, Glyph::Apple)]);
    assert!(grid.is_occupied(cell(2, 3)));
}

#[test]
fn apple_keeps_its_place_from_frame_to_frame() {
    let mut grid = Grid::new(6, 6);
    let mut apple = Apple::new();
    assert_eq!(apple.render(&mut grid), GridResult::Step);
    let place = apple.position();
    for _ in 0..10 {
        grid.clear();
        assert_eq!(apple.render(&mut grid), GridResult::Step);
        assert_eq!(apple.position(), place);
        assert!(grid.is_occupied(place));
    }
}

#[test]
fn apple_on_a_taken_cell_reports_grow_and_loses_its_place() {
    let mut grid = Grid::new(6, 6);
    let mut apple = Apple::new();
    assert_eq!(apple.render(&mut grid), GridResult::Step);
    let place = apple.position();
    grid.clear();
    grid.draw(place, Glyph::Snake);
    assert_eq!(apple.render(&mut grid), GridResult::Grow);
    assert!(!apple.is_placed());
    assert_eq!(grid.cells().len(), 1);

    grid.clear();
    grid.draw(place, Glyph::Snake);
    assert_eq!(apple.render(&mut grid), GridResult::Step);
    assert!(apple.is_placed());
    assert_ne!(apple.position(), place);
}

#[test]
fn apple_stays_out_of_a_full_grid() {
    let mut grid = Grid::new(2, 2);
    fill_but(&mut grid, &[]);
    let mut apple = Apple::new();
    assert_eq!(apple.render(&mut grid), GridResult::Step);
    assert!(!apple.is_placed());
    assert_eq!(grid.taken().len(), 4);
    assert!(grid.cells().is_empty());
    assert!(!grid.has_collitions());
}

#[test]
fn walls_are_the_rim_in_drawing_order() {
    let expected = vec![
        cell(1, 1),
        cell(1, 3),
        cell(2, 1),
        cell(2, 3),
        cell(3, 1),
        cell(3, 3),
        cell(4, 1),
        cell(4, 3),
        cell(1, 2),
        cell(4, 2),
    ];
    assert_eq!(Stage::walls(4, 3), expected);
}

#[test]
fn walls_of_the_default_grid() {
    let walls = Stage::walls(20, 20);
    assert_eq!(walls.len(), 76);
    for y in 1..=20 {
        for x in 1..=20 {
            let rim = x == 1 || x == 20 || y == 1 || y == 20;
            assert_eq!(walls.contains(&cell(x, y)), rim);
        }
    }
}

#[test]
fn grid_without_cells_has_no_walls() {
    assert!(Stage::walls(0, 5).is_empty());
    assert!(Stage::walls(5, 0).is_empty());
}

#[test]
fn stage_draws_walls_then_snake_then_apple() {
    let mut grid = Grid::new(20, 20);
    let mut stage = Stage::new();
    stage.start(grid.center());
    assert_eq!(stage.render(&mut grid), GridResult::Step);
    assert_eq!(grid.cells().len(), 80);
    for i in 0..76 {
        assert_eq!(grid.cells()[i].glyph, Glyph::Wall);
    }
    for i in 76..79 {
        assert_eq!(grid.cells()[i].glyph, Glyph::Snake);
    }
    assert_eq!(grid.cells()[79].glyph, Glyph::Apple);
    assert_eq!(grid.taken().len(), 79);
    let apple = stage.snake().apple().position();
    assert!(apple.x > 1 && apple.x < 20 && apple.y > 1 && apple.y < 20);
}

#[test]
fn stage_reports_a_wall_that_is_taken() {
    let mut grid = Grid::new(20, 20);
    grid.set(cell(2, 1));
    let mut stage = Stage::new();
    stage.start(grid.center());
    assert_eq!(stage.render(&mut grid), GridResult::Collision(cell(2, 1)));
    assert!(!stage.snake().is_refreshed());
    assert_eq!(grid.taken(), &vec![cell(2, 1), cell(1, 1), cell(1, 20)]);
    assert_eq!(grid.cells().len(), 2);
}

#[test]
fn walls_of_a_single_row_collide_with_themselves() {
    let mut grid = Grid::new(6, 1);
    let mut stage = Stage::new();
    assert_eq!(stage.render(&mut grid), GridResult::Collision(cell(1, 1)));
}

#[test]
fn stage_passes_moves_on_to_the_snake() {
    let mut grid = Grid::new(20, 20);
    let mut stage = Stage::new();
    stage.start(grid.center());
    stage.render(&mut grid);
    stage.apply_direction(Direction::Down);
    assert_eq!(stage.snake().position(), cell(10, 11));
    grid.clear();
    stage.render(&mut grid);
    stage.step();
    assert_eq!(stage.snake().position(), cell(10, 12));
    assert_eq!(stage.snake().direction(), Direction::Down);
}
