//! The stage: the walls around the grid, and the snake inside them.

use vstd::prelude::*;
use crate::coordinate::{Coordinate, Direction, Point};
use crate::grid::{
    lemma_paint, lemma_paint_clear, points_of, Glyph, Grid, GridResult, GridView, Outcome,
};
use crate::snake::{lemma_snake_rendered, Snake, SnakeView};

verus! {

/// The cells of the walls of a grid of the given size, in the order in
/// which they are drawn: the top and the bottom row, column by column, then
/// what is left of the left and the right column, row by row. A grid
/// without cells has no walls.
pub open spec fn wall_points(cols: int, rows: int) -> Seq<Point> {
    if cols <= 0 || rows <= 0 {
        Seq::empty()
    } else {
        Seq::new(
            (2 * cols) as nat,
            |i: int|
                Point {
                    x: i / 2 + 1,
                    y: if i % 2 == 0 {
                        1
                    } else {
                        rows
                    },
                },
        ) + Seq::new(
            (if rows >= 2 {
                2 * (rows - 2)
            } else {
                0
            }) as nat,
            |i: int|
                Point {
                    x: if i % 2 == 0 {
                        1
                    } else {
                        cols
                    },
                    y: i / 2 + 2,
                },
        )
    }
}

/// Whether `p` lies on the rim of the rectangle `[1, cols] x [1, rows]`.
pub open spec fn on_rim(cols: int, rows: int, p: Point) -> bool {
    &&& 1 <= p.x <= cols
    &&& 1 <= p.y <= rows
    &&& (p.x == 1 || p.x == cols || p.y == 1 || p.y == rows)
}

/// The walls are the rim of the grid, no more and no less.
pub proof fn law_walls_are_the_rim(cols: int, rows: int)
    ensures
        forall|p: Point| on_rim(cols, rows, p) <==> wall_points(cols, rows).contains(p),
{
    let walls = wall_points(cols, rows);
    assert forall|p: Point| on_rim(cols, rows, p) implies walls.contains(p) by {
        if p.y == 1 {
            assert(walls[2 * (p.x - 1)] == p);
        } else if p.y == rows {
            assert(walls[2 * (p.x - 1) + 1] == p);
        } else if p.x == 1 {
            assert(walls[2 * cols + 2 * (p.y - 2)] == p);
        } else {
            assert(walls[2 * cols + 2 * (p.y - 2) + 1] == p);
        }
    }
    assert forall|p: Point| walls.contains(p) implies on_rim(cols, rows, p) by {
        let i = choose|i: int| 0 <= i < walls.len() && walls[i] == p;
        assert(walls[i] == p);
    }
}

/// Walls never collide with each other. On a grid of at least two columns
/// and two rows no cell of the walls occurs twice, so the walls can be
/// painted onto an empty grid without a collision.
pub proof fn law_walls_never_collide(grid: GridView)
    requires
        grid.cols >= 2,
        grid.rows >= 2,
        grid.is_empty(),
    ensures
        grid.paint(wall_points(grid.cols, grid.rows), Glyph::Wall).1 is None,
{
    let walls = wall_points(grid.cols, grid.rows);
    assert forall|j: int, k: int| 0 <= j < k < walls.len() implies #[trigger] walls[j]
        != #[trigger] walls[k] by {
        if k < 2 * grid.cols {
            assert(walls[j].x == j / 2 + 1 && walls[k].x == k / 2 + 1);
        } else if j >= 2 * grid.cols {
            assert(walls[j].y == (j - 2 * grid.cols) / 2 + 2);
            assert(walls[k].y == (k - 2 * grid.cols) / 2 + 2);
        } else {
            assert(walls[j].y == 1 || walls[j].y == grid.rows);
            assert(1 < walls[k].y < grid.rows);
        }
    }
    lemma_paint_clear(grid, walls, Glyph::Wall);
}

/// The grid as the apple finds it when the stage is rendered onto `grid`:
/// with the walls and the body of the snake painted. `None` if either
/// collides.
pub open spec fn stage_ground(snake: SnakeView, grid: GridView) -> Option<GridView> {
    let (walled, hit) = grid.paint(wall_points(grid.cols, grid.rows), Glyph::Wall);
    if hit is None {
        snake.ground(walled)
    } else {
        None
    }
}

/// One rendering of the stage onto `grid`: the walls are painted, and on
/// them the snake is rendered. A collision at a wall ends the rendering
/// before the snake is touched.
pub open spec fn stage_rendered(snake: SnakeView, grid: GridView, spot: Point) -> (
    SnakeView,
    GridView,
    Outcome,
) {
    let (walled, hit) = grid.paint(wall_points(grid.cols, grid.rows), Glyph::Wall);
    match hit {
        Some(p) => (snake, walled, Outcome::Collision(p)),
        None => snake.rendered(walled, spot),
    }
}

/// What a rendering of the stage keeps, if the cell given to an apple that
/// takes a new place is free on the grid with walls and body painted.
///
/// The snake keeps its invariant, and the grid its size and its invariant.
/// A snake that lies on the grid stays on it, and nothing is then drawn
/// outside the grid. The rendering ends
/// in a collision exactly if walls and body cannot be painted, and the
/// snake is then as before. Otherwise walls and the body that is left can
/// be painted again onto the same grid, and the head of a started snake
/// does not lie on the rim.
pub proof fn lemma_stage_rendered(s: SnakeView, grid: GridView, spot: Point)
    requires
        s.wf(),
        grid.wf(),
        stage_ground(s, grid) matches Some(ground) ==> (s.apple.takes_place(ground)
            ==> ground.is_free(spot)),
    ensures
        stage_rendered(s, grid, spot).0.wf(),
        s.fits(grid) ==> stage_rendered(s, grid, spot).0.fits(grid),
        s.representable() ==> stage_rendered(s, grid, spot).0.representable(),
        stage_rendered(s, grid, spot).1.wf(),
        stage_rendered(s, grid, spot).1.cols == grid.cols,
        stage_rendered(s, grid, spot).1.rows == grid.rows,
        grid.within() && s.fits(grid) ==> stage_rendered(s, grid, spot).1.within(),
        stage_rendered(s, grid, spot).2 is Collision <==> stage_ground(s, grid) is None,
        stage_rendered(s, grid, spot).2 is Collision ==> stage_rendered(s, grid, spot).0 == s,
        stage_rendered(s, grid, spot).2 !is Collision ==> stage_ground(
            stage_rendered(s, grid, spot).0,
            grid,
        ) is Some,
        stage_rendered(s, grid, spot).2 !is Collision && s.moves.len() > 0 ==> !on_rim(
            grid.cols,
            grid.rows,
            stage_rendered(s, grid, spot).0.head,
        ),
        stage_rendered(s, grid, spot).2 !is Collision ==> stage_rendered(s, grid, spot).0.refreshed
            == (s.moves.len() > 0),
{
    let walls = wall_points(grid.cols, grid.rows);
    let (walled, hit) = grid.paint(walls, Glyph::Wall);
    law_walls_are_the_rim(grid.cols, grid.rows);
    lemma_paint(grid, walls, Glyph::Wall);
    assert forall|k: int| 0 <= k < walls.len() implies grid.in_bounds(#[trigger] walls[k]) by {
        assert(walls.contains(walls[k]));
    }
    if hit is None {
        lemma_snake_rendered(s, walled, spot);
        let head = stage_rendered(s, grid, spot).0.head;
        if stage_rendered(s, grid, spot).2 !is Collision && s.moves.len() > 0 && on_rim(
            grid.cols,
            grid.rows,
            head,
        ) {
            let k = choose|k: int| 0 <= k < walls.len() && walls[k] == head;
            assert(walled.occupied(walls[k]));
        }
    }
}

/// The walls and the snake, rendered as one.
pub struct Stage {
    snake: Snake,
}

impl View for Stage {
    type V = SnakeView;

    closed spec fn view(&self) -> SnakeView {
        self.snake@
    }
}

impl Stage {
    /// Creates a stage whose snake has not been started.
    pub fn new() -> (stage: Stage)
        ensures
            stage@ == SnakeView::fresh(),
            stage@.wf(),
    {
        Stage { snake: Snake::new() }
    }

    /// The snake.
    pub fn snake(&self) -> (snake: &Snake)
        ensures
            snake@ == self@,
    {
        &self.snake
    }

    /// The cells of the walls of a grid of `cols` columns and `rows` rows.
    pub fn walls(cols: usize, rows: usize) -> (cells: Vec<Coordinate>)
        ensures
            points_of(cells@) == wall_points(cols as int, rows as int),
    {
        let mut cells: Vec<Coordinate> = Vec::new();
        let ghost walls = wall_points(cols as int, rows as int);
        if cols == 0 || rows == 0 {
            assert(points_of(cells@) =~= walls);
            return cells;
        }
        let mut i: usize = 0;
        while i < cols
            invariant
                i <= cols,
                cols > 0,
                rows > 0,
                walls == wall_points(cols as int, rows as int),
                cells@.len() == 2 * i,
                forall|k: int| 0 <= k < 2 * i ==> (#[trigger] cells@[k])@ == walls[k],
            decreases cols - i,
        {
            cells.push(Coordinate { x: i + 1, y: 1 });
            cells.push(Coordinate { x: i + 1, y: rows });
            i += 1;
        }
        let mut y: usize = 2;
        while y < rows
            invariant
                2 <= y,
                y <= rows || y == 2,
                cols > 0,
                rows > 0,
                walls == wall_points(cols as int, rows as int),
                cells@.len() == 2 * cols + 2 * (y - 2),
                forall|k: int| 0 <= k < cells@.len() ==> (#[trigger] cells@[k])@ == walls[k],
            decreases rows - y,
        {
            cells.push(Coordinate { x: 1, y });
            cells.push(Coordinate { x: cols, y });
            y += 1;
        }
        assert(walls.len() == cells@.len());
        assert forall|k: int| 0 <= k < cells@.len() implies points_of(cells@)[k] == walls[k] by {
            assert(cells@[k]@ == walls[k]);
        }
        assert(points_of(cells@) =~= walls);
        cells
    }

    /// Makes the snake ready for a game, with its head at `center`.
    pub fn start(&mut self, center: Coordinate)
        ensures
            final(self)@ == SnakeView::started(center@),
            final(self)@.wf(),
            final(self)@.full(),
    {
        self.snake.start(center);
    }

    /// Hands a request for direction `d` on to the snake.
    pub fn apply_direction(&mut self, d: Direction)
        requires
            old(self)@.accepts(d) ==> old(self)@.head.shifted(d).representable(),
        ensures
            final(self)@ == old(self)@.turned(d),
            old(self)@.wf() ==> final(self)@.wf(),
            old(self)@.full() ==> final(self)@.full(),
    {
        self.snake.request_direction(d);
    }

    /// Moves the snake one cell straight on, if it accepts that.
    pub fn step(&mut self)
        requires
            old(self)@.refreshed ==> old(self)@.head.shifted(old(self)@.heading).representable(),
        ensures
            final(self)@ == old(self)@.stepped(),
            old(self)@.wf() ==> final(self)@.wf(),
            old(self)@.full() ==> final(self)@.full(),
    {
        self.snake.step();
    }

    /// Renders the walls, the snake and the apple onto `grid`.
    pub fn render(&mut self, grid: &mut Grid) -> (result: GridResult)
        requires
            old(self)@.wf(),
            old(self)@.representable(),
            old(grid).wf(),
        ensures
            (final(self)@, final(grid)@, result@) == stage_rendered(
                old(self)@,
                old(grid)@,
                final(self)@.apple.at,
            ),
            stage_ground(old(self)@, old(grid)@) matches Some(ground) ==> (old(
                self,
            )@.apple.takes_place(ground) ==> ground.is_free(final(self)@.apple.at)),
            final(self)@.wf(),
            final(self)@.representable(),
            old(self)@.fits(old(grid)@) ==> final(self)@.fits(final(grid)@),
            final(grid).wf(),
            old(self)@.full() && !old(self)@.refreshed ==> final(self)@.full(),
    {
        let walls = Stage::walls(grid.cols(), grid.rows());
        proof {
            lemma_paint(grid@, wall_points(grid@.cols, grid@.rows), Glyph::Wall);
        }
        match grid.paint(&walls, Glyph::Wall) {
            GridResult::Collision(c) => {
                proof {
                    lemma_stage_rendered(old(self)@, old(grid)@, self@.apple.at);
                }
                return GridResult::Collision(c);
            },
            _ => {},
        }
        let result = self.snake.render(grid);
        proof {
            lemma_stage_rendered(old(self)@, old(grid)@, self@.apple.at);
        }
        result
    }
}

} // verus!
