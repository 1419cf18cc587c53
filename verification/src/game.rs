//! The game: a stage and a grid, the score, the pace, and whether the game
//! is over.

use vstd::prelude::*;
use crate::coordinate::{Coordinate, Direction, Point};
use crate::grid::{lemma_paint, Glyph, Grid, GridResult, GridView, Outcome};
use crate::snake::{lemma_trail_len, lemma_trail_push, SnakeView, SEED_MOVES};
use crate::stage::{
    law_walls_are_the_rim, law_walls_never_collide, lemma_stage_rendered, on_rim, stage_ground,
    stage_rendered, wall_points, Stage,
};

verus! {

/// The time between two ticks when a game begins, in milliseconds.
pub const INITIAL_INTERVAL: u64 = 300;

/// By how much an eaten apple shortens the time between two ticks.
pub const INTERVAL_STEP: u64 = 25;

/// The shortest time between two ticks.
pub const MIN_INTERVAL: u64 = 50;

/// The fewest columns that hold a snake at the start of a game: its head is
/// in the middle column, and its body needs two more to the left of it.
pub const MIN_COLS: usize = 6;

/// The fewest rows that hold a snake at the start of a game: the middle row
/// must be a row of the grid.
pub const MIN_ROWS: usize = 2;

/// The time between two ticks after an apple was eaten at pace `interval`:
/// shorter by `INTERVAL_STEP`, but not below `MIN_INTERVAL`.
pub open spec fn faster(interval: int) -> int {
    if interval >= MIN_INTERVAL + INTERVAL_STEP {
        interval - INTERVAL_STEP
    } else if interval >= MIN_INTERVAL {
        MIN_INTERVAL as int
    } else {
        interval
    }
}

/// The score after one more apple. It stops at the largest `u64`, which is
/// all that the counter can hold.
pub open spec fn raised(score: int) -> int {
    if score < u64::MAX {
        score + 1
    } else {
        score
    }
}

/// Whether a game can be played on a grid of this size: the snake fits at
/// the center.
pub open spec fn playable(cols: int, rows: int) -> bool {
    MIN_COLS <= cols && MIN_ROWS <= rows
}

/// Whether a game is running or over.
#[derive(Clone, Copy, Debug, PartialEq, Eq, Structural)]
pub enum GameState {
    Running,
    /// The game ended with a collision at this cell.
    GameOver(Coordinate),
}

/// The mathematical model of a [`Game`].
pub struct GameView {
    pub snake: SnakeView,
    pub grid: GridView,
    pub score: int,
    pub interval: int,
    /// Where the game ended, if it is over.
    pub over: Option<Point>,
}

impl GameView {
    /// The game as it is created: nothing drawn, the snake not started.
    pub open spec fn created(cols: int, rows: int) -> GameView {
        GameView {
            snake: SnakeView::fresh(),
            grid: GridView::blank(cols, rows),
            score: 0,
            interval: INITIAL_INTERVAL as int,
            over: None,
        }
    }

    /// Whether `p` lies inside the walls.
    pub open spec fn inside(self, p: Point) -> bool {
        1 < p.x < self.grid.cols && 1 < p.y < self.grid.rows
    }

    /// The invariant of a game.
    ///
    /// The grid is playable, and what is drawn lies on it, and so does the
    /// snake. A snake that is ready for a request has its head inside the
    /// walls, and walls and body can be painted without a collision. The
    /// pace is between the shortest and the first. A game that is over has
    /// a snake that takes no more requests, and every further frame ends in
    /// the same collision and leaves the same grid.
    pub open spec fn wf(self) -> bool {
        &&& self.grid.wf()
        &&& self.grid.within()
        &&& playable(self.grid.cols, self.grid.rows)
        &&& self.snake.wf()
        &&& self.snake.fits(self.grid)
        &&& self.snake.refreshed ==> self.inside(self.snake.head) && stage_ground(
            self.snake,
            self.grid.cleared(),
        ) is Some
        &&& MIN_INTERVAL <= self.interval <= INITIAL_INTERVAL
        &&& 0 <= self.score <= u64::MAX
        &&& self.over matches Some(p) ==> !self.snake.refreshed && forall|spot: Point|
            #[trigger] stage_rendered(self.snake, self.grid.cleared(), spot) == (
                self.snake,
                self.grid,
                Outcome::Collision(p),
            )
    }

    /// This game after a request for direction `d`.
    pub open spec fn turned(self, d: Direction) -> GameView {
        GameView { snake: self.snake.turned(d), ..self }
    }

    /// This game after one step of the snake straight on.
    pub open spec fn stepped(self) -> GameView {
        GameView { snake: self.snake.stepped(), ..self }
    }

    /// One frame, where `spot` is the cell that an apple without a place is
    /// given.
    ///
    /// The grid is cleared and the stage is rendered onto it. `Grow` raises
    /// the score and quickens the pace. A collision ends the game.
    pub open spec fn framed(self, spot: Point) -> (GameView, Outcome) {
        let (snake, grid, outcome) = stage_rendered(self.snake, self.grid.cleared(), spot);
        let drawn = GameView { snake, grid, ..self };
        match outcome {
            Outcome::Step => (drawn, outcome),
            Outcome::Grow => (
                GameView { score: raised(self.score), interval: faster(self.interval), ..drawn },
                outcome,
            ),
            Outcome::Collision(p) => (GameView { over: Some(p), ..drawn }, outcome),
        }
    }

    /// The grid as the apple finds it in the next frame: cleared, with the
    /// walls and the body of the snake painted. `None` if either collides.
    pub open spec fn ground(self) -> Option<GridView> {
        stage_ground(self.snake, self.grid.cleared())
    }

    /// This game as it begins: the snake started at the center, no score,
    /// the first pace, and the first frame rendered.
    pub open spec fn started(self, spot: Point) -> GameView {
        self.seeded().framed(spot).0
    }

    /// This game as it begins, before its first frame.
    pub open spec fn seeded(self) -> GameView {
        GameView {
            snake: SnakeView::started(self.grid.center()),
            score: 0,
            interval: INITIAL_INTERVAL as int,
            over: None,
            ..self
        }
    }

    /// One tick: a step straight on, then a frame.
    pub open spec fn ticked(self, spot: Point) -> (GameView, Outcome) {
        self.stepped().framed(spot)
    }
}

/// The game: the one value that the tick loop and the input loop share.
pub struct Game {
    stage: Stage,
    grid: Grid,
    score: u64,
    interval: u64,
    over: Option<Coordinate>,
}

impl View for Game {
    type V = GameView;

    closed spec fn view(&self) -> GameView {
        GameView {
            snake: self.stage@,
            grid: self.grid@,
            score: self.score as int,
            interval: self.interval as int,
            over: match self.over {
                Some(c) => Some(c@),
                None => None,
            },
        }
    }
}

impl Game {
    /// The invariant that every operation keeps.
    pub open spec fn wf(&self) -> bool {
        self@.wf()
    }

    /// Whether a game can be played on a grid of `cols` columns and `rows`
    /// rows.
    pub fn supports(cols: usize, rows: usize) -> (b: bool)
        ensures
            b == playable(cols as int, rows as int),
    {
        cols >= MIN_COLS && rows >= MIN_ROWS
    }

    /// Creates a game on a grid of `cols` columns and `rows` rows. Nothing
    /// is drawn and the snake is not started.
    pub fn new(cols: usize, rows: usize) -> (game: Game)
        requires
            playable(cols as int, rows as int),
        ensures
            game@ == GameView::created(cols as int, rows as int),
            game.wf(),
    {
        let game = Game {
            stage: Stage::new(),
            grid: Grid::new(cols, rows),
            score: 0,
            interval: INITIAL_INTERVAL,
            over: None,
        };
        proof {
            lemma_trail_len(game@.snake.head, game@.snake.moves);
        }
        game
    }

    /// The grid, which holds what the last frame drew.
    pub fn grid(&self) -> (grid: &Grid)
        ensures
            grid@ == self@.grid,
    {
        &self.grid
    }

    /// The stage.
    pub fn stage(&self) -> (stage: &Stage)
        ensures
            stage@ == self@.snake,
    {
        &self.stage
    }

    /// The number of apples eaten since the game began.
    pub fn score(&self) -> (score: u64)
        ensures
            score == self@.score,
    {
        self.score
    }

    /// The time between two ticks, in milliseconds.
    pub fn interval(&self) -> (interval: u64)
        ensures
            interval == self@.interval,
    {
        self.interval
    }

    /// Whether the game is running or over.
    pub fn state(&self) -> (state: GameState)
        ensures
            state is Running <==> self@.over is None,
            state matches GameState::GameOver(c) ==> self@.over == Some(c@),
    {
        match self.over {
            Some(c) => GameState::GameOver(c),
            None => GameState::Running,
        }
    }

    /// Hands a request for direction `d` on to the snake.
    pub fn apply_direction(&mut self, d: Direction)
        requires
            old(self).wf(),
        ensures
            final(self)@ == old(self)@.turned(d),
            final(self).wf(),
            old(self)@.snake.full() ==> final(self)@.snake.full(),
    {
        proof {
            lemma_turn_keeps_wf(self@, d);
        }
        self.stage.apply_direction(d);
    }

    /// Moves the snake one cell straight on, if it accepts that.
    pub fn step(&mut self)
        requires
            old(self).wf(),
        ensures
            final(self)@ == old(self)@.stepped(),
            final(self).wf(),
            old(self)@.snake.full() ==> final(self)@.snake.full(),
    {
        proof {
            lemma_turn_keeps_wf(self@, self@.snake.heading);
        }
        self.stage.step();
    }

    /// Renders one frame and takes its outcome to heart: `Grow` raises the
    /// score and quickens the pace, a collision ends the game.
    pub fn render(&mut self) -> (result: GridResult)
        requires
            old(self).wf(),
        ensures
            (final(self)@, result@) == old(self)@.framed(final(self)@.snake.apple.at),
            old(self)@.ground() matches Some(ground) ==> (old(self)@.snake.apple.takes_place(
                ground,
            ) ==> ground.is_free(final(self)@.snake.apple.at)),
            final(self).wf(),
            old(self)@.snake.full() && !old(self)@.snake.refreshed ==> final(self)@.snake.full(),
    {
        self.grid.clear();
        let result = self.stage.render(&mut self.grid);
        proof {
            law_invariant_is_kept(old(self)@, Direction::Up, self@.snake.apple.at);
        }
        match result {
            GridResult::Grow => {
                if self.score < u64::MAX {
                    self.score = self.score + 1;
                }
                if self.interval >= MIN_INTERVAL + INTERVAL_STEP {
                    self.interval = self.interval - INTERVAL_STEP;
                } else {
                    self.interval = MIN_INTERVAL;
                }
            },
            GridResult::Collision(c) => {
                self.over = Some(c);
            },
            GridResult::Step => {},
        }
        result
    }

    /// Begins a game: puts the snake at the center of the grid with its
    /// seed history, clears score, pace and outcome, and renders the first
    /// frame.
    pub fn start(&mut self)
        requires
            old(self).wf(),
        ensures
            final(self)@ == old(self)@.started(final(self)@.snake.apple.at),
            old(self)@.seeded().ground() matches Some(ground) ==> (!ground.is_full()
                ==> ground.is_free(final(self)@.snake.apple.at)),
            final(self).wf(),
            final(self)@.snake.full(),
    {
        let center = self.grid.center();
        self.stage.start(center);
        self.score = 0;
        self.interval = INITIAL_INTERVAL;
        self.over = None;
        proof {
            lemma_seed_keeps_wf(old(self)@);
        }
        self.render();
    }
}

/// The growth law. Take a game whose snake accepts a move in direction `d`,
/// a step straight on or a turn, and then renders a frame. If the apple
/// reports `Grow`, the history of the snake is one move longer than before
/// the move, the score is one higher, and the pace is strictly quicker
/// without falling below `MIN_INTERVAL`.
///
/// Left out are a pace that is at `MIN_INTERVAL` already, which cannot
/// quicken, and a score at the largest `u64`, which cannot rise.
pub proof fn law_growth(g: GameView, d: Direction, spot: Point)
    requires
        g.wf(),
        g.snake.accepts(d),
        g.turned(d).framed(spot).1 is Grow,
        g.interval > MIN_INTERVAL,
        g.score < u64::MAX,
    ensures
        g.turned(d).framed(spot).0.snake.moves.len() == g.snake.moves.len() + 1,
        g.turned(d).framed(spot).0.score == g.score + 1,
        MIN_INTERVAL <= g.turned(d).framed(spot).0.interval < g.interval,
        g.turned(d).framed(spot).0.interval == if g.interval >= MIN_INTERVAL + INTERVAL_STEP {
            g.interval - INTERVAL_STEP
        } else {
            MIN_INTERVAL as int
        },
{
}

/// Growth at the limits: with the pace at `MIN_INTERVAL` or the score at the
/// largest `u64`, the snake still grows by one move, and pace and score
/// stay where they are.
pub proof fn law_growth_at_the_limits(g: GameView, d: Direction, spot: Point)
    requires
        g.wf(),
        g.snake.accepts(d),
        g.turned(d).framed(spot).1 is Grow,
    ensures
        g.turned(d).framed(spot).0.snake.moves.len() == g.snake.moves.len() + 1,
        g.interval == MIN_INTERVAL ==> g.turned(d).framed(spot).0.interval == MIN_INTERVAL,
        g.score == u64::MAX ==> g.turned(d).framed(spot).0.score == u64::MAX,
{
}

/// Without growth nothing grows: a move and a frame that ends in `Step`
/// leave the length of the history, the score and the pace as they were
/// before the move.
pub proof fn law_step_keeps_length(g: GameView, d: Direction, spot: Point)
    requires
        g.wf(),
        g.snake.accepts(d),
        g.turned(d).framed(spot).1 is Step,
    ensures
        g.turned(d).framed(spot).0.snake.moves.len() == g.snake.moves.len(),
        g.turned(d).framed(spot).0.score == g.score,
        g.turned(d).framed(spot).0.interval == g.interval,
{
}

/// The growth law of ticks. A tick of a game whose snake is ready is a step
/// straight on and a frame: if it ends in `Grow`, the history is one move
/// longer than the tick found it, and if it ends in `Step`, it is as long.
/// A snake that has turned since the last frame does not step again, so the
/// tick is the frame alone: the move that the turn added stays after
/// `Grow`, and after `Step` the history is one move shorter, as long as it
/// was before the turn.
pub proof fn law_tick_growth(g: GameView, spot: Point)
    requires
        g.wf(),
    ensures
        g.snake.refreshed ==> g.ticked(spot) == g.turned(g.snake.heading).framed(spot),
        !g.snake.refreshed ==> g.ticked(spot) == g.framed(spot),
        g.ticked(spot).1 is Grow && g.snake.refreshed ==> g.ticked(spot).0.snake.moves.len()
            == g.snake.moves.len() + 1,
        g.ticked(spot).1 is Grow && !g.snake.refreshed ==> g.ticked(spot).0.snake.moves.len()
            == g.snake.moves.len(),
        g.ticked(spot).1 is Step && g.snake.refreshed ==> g.ticked(spot).0.snake.moves.len()
            == g.snake.moves.len(),
        g.ticked(spot).1 is Step && !g.snake.refreshed && g.snake.moves.len() > 0 ==> g.ticked(
            spot,
        ).0.snake.moves.len() == g.snake.moves.len() - 1,
        g.ticked(spot).1 is Collision ==> g.ticked(spot).0.snake == g.stepped().snake,
{
}

/// The body is never painted with fewer than `SEED_MOVES` moves. A game
/// that begins has a full snake, and every request and every tick keeps it
/// full, whatever cell the apple is given.
pub proof fn law_seed_length_is_kept(g: GameView, d: Direction, spot: Point)
    requires
        g.snake.full(),
    ensures
        g.seeded().snake.full(),
        g.started(spot).snake.full(),
        g.turned(d).snake.full(),
        g.stepped().snake.full(),
        g.ticked(spot).0.snake.full(),
        !g.snake.refreshed ==> g.snake.moves.len() >= SEED_MOVES && g.framed(spot).0.snake.full(),
        !g.stepped().snake.refreshed && g.stepped().snake.moves.len() >= SEED_MOVES,
{
}

/// Every move and every frame keeps the invariant of a game, whichever free
/// cell an apple without a place is given. So the pace never falls below
/// `MIN_INTERVAL`, and no frame draws outside the grid.
pub proof fn law_invariant_is_kept(g: GameView, d: Direction, spot: Point)
    requires
        g.wf(),
        g.ground() matches Some(ground) ==> (g.snake.apple.takes_place(ground) ==> ground.is_free(
            spot,
        )),
    ensures
        g.turned(d).wf(),
        g.stepped().wf(),
        g.framed(spot).0.wf(),
{
    lemma_turn_keeps_wf(g, d);
    lemma_turn_keeps_wf(g, g.snake.heading);
    lemma_stage_rendered(g.snake, g.grid.cleared(), spot);
    let after = g.framed(spot).0;
    assert(after.grid.cleared() == g.grid.cleared());
}

/// Running into a wall ends the game. If the head of a started snake lies
/// on the rim of the grid, the next frame ends in a collision at the head,
/// and the game is over there.
pub proof fn law_wall_ends_game(g: GameView, spot: Point)
    requires
        g.wf(),
        g.snake.moves.len() > 0,
        on_rim(g.grid.cols, g.grid.rows, g.snake.head),
    ensures
        g.framed(spot).1 == Outcome::Collision(g.snake.head),
        g.framed(spot).0.over == Some(g.snake.head),
        g.framed(spot).0.snake == g.snake,
{
    let blank = g.grid.cleared();
    let walls = wall_points(blank.cols, blank.rows);
    law_walls_never_collide(blank);
    lemma_paint(blank, walls, Glyph::Wall);
    law_walls_are_the_rim(blank.cols, blank.rows);
    lemma_trail_len(g.snake.head, g.snake.moves);
    let k = choose|k: int| 0 <= k < walls.len() && walls[k] == g.snake.head;
    assert(blank.paint(walls, Glyph::Wall).0.occupied(walls[k]));
}

/// A game that is over stays over: requests and steps change nothing, and a
/// frame ends in the same collision and changes nothing either.
pub proof fn law_game_over_is_final(g: GameView, d: Direction, spot: Point)
    requires
        g.wf(),
        g.over is Some,
    ensures
        g.turned(d) == g,
        g.stepped() == g,
        g.framed(spot) == (g, Outcome::Collision(g.over->0)),
        g.ticked(spot) == (g, Outcome::Collision(g.over->0)),
{
    assert(stage_rendered(g.snake, g.grid.cleared(), spot) == (
        g.snake,
        g.grid,
        Outcome::Collision(g.over->0),
    ));
}

/// A frame ends the game exactly when it ends in a collision, and then the
/// game is over at the cell of that collision. Any other frame leaves a
/// running game running.
pub proof fn law_collision_ends_game(g: GameView, spot: Point)
    requires
        g.wf(),
    ensures
        g.framed(spot).1 matches Outcome::Collision(p) ==> g.framed(spot).0.over == Some(p),
        g.framed(spot).1 !is Collision ==> g.framed(spot).0.over == g.over,
{
}

/// A request keeps the invariant of a game: a snake that is ready for one
/// has its head inside the walls, so the cell that it moves to lies on the
/// grid.
pub proof fn lemma_turn_keeps_wf(g: GameView, d: Direction)
    requires
        g.wf(),
    ensures
        g.turned(d).wf(),
        g.snake.refreshed ==> g.grid.in_bounds(g.snake.head.shifted(d)),
{
    let s = g.snake;
    let t = s.turned(d);
    if s.accepts(d) {
        lemma_trail_push(s.head, s.moves, d);
        lemma_trail_len(s.head, s.moves);
        assert forall|k: int| 0 <= k < t.body().len() implies g.grid.in_bounds(
            #[trigger] t.body()[k],
        ) by {
            if k > 0 {
                assert(t.body()[k] == s.body()[k - 1]);
            }
        }
    }
}

/// Seeding keeps the invariant of a game.
pub proof fn lemma_seed_keeps_wf(g: GameView)
    requires
        g.wf(),
    ensures
        g.seeded().wf(),
{
    let s = g.seeded().snake;
    let c = g.grid.center();
    reveal_with_fuel(crate::snake::trail, 4);
    assert(s.moves.len() == 3);
    assert(s.moves.drop_last().len() == 2);
    assert(s.moves.drop_last().drop_last().len() == 1);
    assert(s.body() =~= seq![
        c,
        Point { x: c.x - 1, y: c.y },
        Point { x: c.x - 2, y: c.y },
    ]);
}

} // verus!
