//! The snake: a head, and the moves that brought it there.
//!
//! The body is not stored. It is found by walking the history of moves
//! backwards from the head: one cell for each move. A frame without growth
//! forgets the oldest move once the body is drawn, so between two frames the
//! history is one move shorter than the body on the screen, and the next
//! move makes up for it.

use vstd::prelude::*;
use crate::apple::{lemma_apple_rendered, Apple, AppleView};
use crate::coordinate::{Coordinate, Direction, Point};
use crate::grid::{
    law_paint_stops_at_first_taken, lemma_marked, lemma_paint, lemma_paint_clear, lemma_released,
    points_of, stamps, Glyph, Grid, GridResult, GridView, Mark, Outcome,
};

verus! {

/// The number of moves that a snake starts with. While a game is played,
/// the body is never painted with fewer.
pub const SEED_MOVES: usize = 3;

/// The cells of a body whose head is at `head` and whose history is `moves`,
/// from the head to the tail: the head, then the body that the snake had
/// before its last move.
pub open spec fn trail(head: Point, moves: Seq<Direction>) -> Seq<Point>
    decreases moves.len(),
{
    if moves.len() == 0 {
        Seq::empty()
    } else {
        seq![head] + trail(head.shifted(moves.last().opposite()), moves.drop_last())
    }
}

/// A body has one cell for each move, and it begins at the head.
pub proof fn lemma_trail_len(head: Point, moves: Seq<Direction>)
    ensures
        trail(head, moves).len() == moves.len(),
        moves.len() > 0 ==> trail(head, moves)[0] == head,
    decreases moves.len(),
{
    if moves.len() > 0 {
        lemma_trail_len(head.shifted(moves.last().opposite()), moves.drop_last());
    }
}

/// Each cell of a body lies one step behind the cell before it, against the
/// move that was made there.
pub proof fn lemma_trail_next(head: Point, moves: Seq<Direction>, k: int)
    requires
        0 <= k,
        k + 1 < moves.len(),
    ensures
        trail(head, moves)[k + 1] == trail(head, moves)[k].shifted(
            moves[moves.len() - 1 - k].opposite(),
        ),
    decreases moves.len(),
{
    let before = head.shifted(moves.last().opposite());
    let earlier = moves.drop_last();
    lemma_trail_len(head, moves);
    lemma_trail_len(before, earlier);
    if k > 0 {
        lemma_trail_next(before, earlier, k - 1);
    }
}

/// A move puts the new head in front of the body that was there.
pub proof fn lemma_trail_push(head: Point, moves: Seq<Direction>, d: Direction)
    ensures
        trail(head.shifted(d), moves.push(d)) == seq![head.shifted(d)] + trail(head, moves),
{
    assert(moves.push(d).drop_last() =~= moves);
    assert(head.shifted(d).shifted(d.opposite()) == head);
}

/// Forgetting the oldest move takes the last cell off the body.
pub proof fn lemma_trail_trim(head: Point, moves: Seq<Direction>)
    requires
        moves.len() > 0,
    ensures
        trail(head, moves.drop_first()) == trail(head, moves).drop_last(),
    decreases moves.len(),
{
    let before = head.shifted(moves.last().opposite());
    let earlier = moves.drop_last();
    lemma_trail_len(before, earlier);
    if moves.len() == 1 {
        assert(trail(head, moves).drop_last() =~= Seq::empty());
        assert(moves.drop_first() =~= Seq::empty());
    } else {
        lemma_trail_trim(before, earlier);
        assert(moves.drop_first().drop_last() =~= earlier.drop_first());
        assert(moves.drop_first().last() == moves.last());
        assert(trail(head, moves).drop_last() =~= seq![head] + trail(before, earlier).drop_last());
    }
}

/// The mathematical model of a [`Snake`].
pub struct SnakeView {
    /// Where the head is.
    pub head: Point,
    /// The committed direction: that of the last accepted move.
    pub heading: Direction,
    /// The moves that the body is made of, oldest first.
    pub moves: Seq<Direction>,
    /// Whether the body has been drawn since the last accepted move.
    pub refreshed: bool,
    pub apple: AppleView,
}

impl SnakeView {
    /// The snake that has not been started: no body, heading right.
    pub open spec fn fresh() -> SnakeView {
        SnakeView {
            head: Point { x: 1, y: 1 },
            heading: Direction::Right,
            moves: Seq::empty(),
            refreshed: false,
            apple: AppleView::fresh(),
        }
    }

    /// The invariant of a snake: the last move of its history, if it has
    /// one, is its heading.
    pub open spec fn wf(self) -> bool {
        self.moves.len() > 0 ==> self.moves.last() == self.heading
    }

    /// Whether the history is as long as a game keeps it: at least
    /// `SEED_MOVES` moves when the body is painted next. A snake that has
    /// moved since it was drawn is painted as it is. One that is ready for
    /// a move makes that move first, so it may be one move short.
    pub open spec fn full(self) -> bool {
        if self.refreshed {
            self.moves.len() >= SEED_MOVES - 1
        } else {
            self.moves.len() >= SEED_MOVES
        }
    }

    /// The cells of the body, from the head to the tail.
    pub open spec fn body(self) -> Seq<Point> {
        trail(self.head, self.moves)
    }

    /// Whether the body, and the apple if it has a place, lie on `grid`.
    pub open spec fn fits(self, grid: GridView) -> bool {
        &&& forall|k: int| 0 <= k < self.body().len() ==> grid.in_bounds(#[trigger] self.body()[k])
        &&& self.apple.placed ==> grid.in_bounds(self.apple.at)
    }

    /// Whether every cell of the body can be held in a [`Coordinate`].
    pub open spec fn representable(self) -> bool {
        forall|k: int| 0 <= k < self.body().len() ==> (#[trigger] self.body()[k]).representable()
    }

    /// The snake as a game begins: its head at `center`, heading right, with
    /// the seed history of `SEED_MOVES` moves to the right, not drawn yet,
    /// and its apple without a place.
    pub open spec fn started(center: Point) -> SnakeView {
        SnakeView {
            head: center,
            heading: Direction::Right,
            moves: Seq::new(SEED_MOVES as nat, |i: int| Direction::Right),
            refreshed: false,
            apple: AppleView::fresh(),
        }
    }

    /// Whether a request for direction `d` is accepted: the body has been
    /// drawn since the last move, and `d` does not reverse the heading.
    pub open spec fn accepts(self, d: Direction) -> bool {
        self.refreshed && d != self.heading.opposite()
    }

    /// This snake after a request for direction `d`. An accepted request
    /// moves the head one cell, appends `d` to the history and makes it the
    /// heading; the snake then waits for the next drawing. A request that is
    /// not accepted changes nothing.
    pub open spec fn turned(self, d: Direction) -> SnakeView {
        if self.accepts(d) {
            SnakeView {
                head: self.head.shifted(d),
                heading: d,
                moves: self.moves.push(d),
                refreshed: false,
                ..self
            }
        } else {
            self
        }
    }

    /// This snake after one step straight on.
    pub open spec fn stepped(self) -> SnakeView {
        self.turned(self.heading)
    }

    /// The grid as the apple finds it when this snake is rendered onto
    /// `grid`: with the body painted. `None` if the body collides.
    pub open spec fn ground(self, grid: GridView) -> Option<GridView> {
        let (painted, hit) = grid.paint(self.body(), Glyph::Snake);
        if hit is None {
            Some(painted)
        } else {
            None
        }
    }

    /// One rendering of the snake onto `grid`, where `spot` is the cell that
    /// an apple without a place is given.
    ///
    /// The body is painted from the head to the tail. A collision ends the
    /// rendering and leaves the snake as it was. Otherwise the snake is
    /// ready for the next request, and the apple is rendered. Unless the
    /// apple reports `Grow`, the history loses its oldest move, and the
    /// cell of the tail, the last that was painted, is given back: its
    /// glyph stays drawn, but the cell is free.
    pub open spec fn rendered(self, grid: GridView, spot: Point) -> (SnakeView, GridView, Outcome) {
        let (painted, hit) = grid.paint(self.body(), Glyph::Snake);
        match hit {
            Some(p) => (self, painted, Outcome::Collision(p)),
            None => {
                let (apple, fed, outcome) = self.apple.rendered(painted, spot);
                let drawn = SnakeView { refreshed: self.moves.len() > 0, apple, ..self };
                if outcome is Step && self.moves.len() > 0 {
                    (
                        SnakeView { moves: self.moves.drop_first(), ..drawn },
                        fed.released(self.body().last()),
                        Outcome::Step,
                    )
                } else {
                    (drawn, fed, outcome)
                }
            },
        }
    }
}

/// A snake never accepts a reversal of its heading: such a request leaves
/// head, history and heading as they were.
pub proof fn law_reversal_is_ignored(s: SnakeView)
    ensures
        !s.accepts(s.heading.opposite()),
        s.turned(s.heading.opposite()) == s,
{
}

/// Between two drawings a snake accepts at most one request: after an
/// accepted one, every further request is ignored.
pub proof fn law_one_move_per_drawing(s: SnakeView, first: Direction, second: Direction)
    requires
        s.accepts(first),
    ensures
        s.turned(first).turned(second) == s.turned(first),
{
}

/// After a rendering without a collision, a started snake accepts every
/// request but a reversal of its heading.
pub proof fn law_drawn_snake_turns(s: SnakeView, grid: GridView, spot: Point, d: Direction)
    requires
        s.moves.len() > 0,
        s.rendered(grid, spot).2 !is Collision,
    ensures
        s.rendered(grid, spot).0.accepts(d) <==> d != s.heading.opposite(),
{
}

/// How the history grows and shrinks. Starting gives it `SEED_MOVES` moves,
/// an accepted request adds one, and a rendering changes it by its outcome
/// alone: `Grow` and a collision keep every move, `Step` drops the oldest.
pub proof fn law_history_length(
    s: SnakeView,
    center: Point,
    d: Direction,
    grid: GridView,
    spot: Point,
)
    ensures
        SnakeView::started(center).moves.len() == SEED_MOVES,
        s.turned(d).moves == if s.accepts(d) {
            s.moves.push(d)
        } else {
            s.moves
        },
        s.rendered(grid, spot).2 !is Step ==> s.rendered(grid, spot).0.moves == s.moves,
        s.rendered(grid, spot).2 is Step && s.moves.len() > 0 ==> s.rendered(grid, spot).0.moves
            == s.moves.drop_first(),
        s.wf() ==> SnakeView::started(center).wf() && s.turned(d).wf() && s.rendered(
            grid,
            spot,
        ).0.wf(),
{
    if s.rendered(grid, spot).2 is Step && s.moves.len() > 1 {
        assert(s.moves.drop_first().last() == s.moves.last());
    }
}

/// The body is never painted with fewer than `SEED_MOVES` moves while the
/// snake moves once between two renderings. A snake that begins a game is
/// full. A full snake stays full through every request, and through every
/// rendering that follows a move; a step straight on makes sure of that
/// move, so it stays full through every step and rendering.
pub proof fn law_seed_length_is_kept(
    s: SnakeView,
    center: Point,
    d: Direction,
    grid: GridView,
    spot: Point,
)
    requires
        s.full(),
    ensures
        SnakeView::started(center).full(),
        s.turned(d).full(),
        !s.refreshed ==> s.moves.len() >= SEED_MOVES && s.rendered(grid, spot).0.full(),
        !s.stepped().refreshed,
        s.stepped().rendered(grid, spot).0.full(),
{
}

/// The rendering without growth. If the body can be painted and the apple
/// does not report `Grow`, the outcome is `Step`. A snake with a body is
/// then ready for a request and has lost exactly its oldest move. The cell
/// of the tail, the last of the walk, is free, every other cell of the body
/// is taken, and the glyph of every cell of the body, the tail too, is
/// among those drawn.
pub proof fn law_step_trims_tail(s: SnakeView, grid: GridView, spot: Point)
    requires
        grid.wf(),
        s.ground(grid) is Some,
        s.apple.takes_place(s.ground(grid)->0) ==> s.ground(grid)->0.is_free(spot),
        s.rendered(grid, spot).2 !is Grow,
        s.moves.len() > 0,
    ensures
        s.rendered(grid, spot).2 is Step,
        s.rendered(grid, spot).0.moves == s.moves.drop_first(),
        s.rendered(grid, spot).0.moves.len() == s.moves.len() - 1,
        s.rendered(grid, spot).0.refreshed,
        s.rendered(grid, spot).0.head == s.head,
        s.rendered(grid, spot).0.heading == s.heading,
        !s.rendered(grid, spot).1.occupied(s.body().last()),
        forall|k: int|
            0 <= k < s.body().len() - 1 ==> s.rendered(grid, spot).1.occupied(
                #[trigger] s.body()[k],
            ),
        forall|k: int|
            0 <= k < s.body().len() ==> s.rendered(grid, spot).1.drawn.contains(
                Mark { at: #[trigger] s.body()[k], glyph: Glyph::Snake },
            ),
        s.rendered(grid, spot).0.body() == s.body().drop_last(),
{
    let body = s.body();
    let (painted, hit) = grid.paint(body, Glyph::Snake);
    let (apple, fed, outcome) = s.apple.rendered(painted, spot);
    let n = grid.reach(body, Glyph::Snake);
    lemma_paint(grid, body, Glyph::Snake);
    law_paint_stops_at_first_taken(grid, body, Glyph::Snake);
    lemma_trail_len(s.head, s.moves);
    lemma_trail_trim(s.head, s.moves);
    lemma_apple_rendered(s.apple, painted, spot);
    lemma_released(fed, body.last());
    assert(body.take(n) =~= body);
    assert forall|k: int| 0 <= k < body.len() - 1 implies s.rendered(grid, spot).1.occupied(
        #[trigger] body[k],
    ) by {
        assert(painted.occupied(body[k]));
        assert(fed.occupied(body[k]));
        assert(body[k] != body[body.len() - 1]);
    }
    assert forall|k: int| 0 <= k < body.len() implies s.rendered(grid, spot).1.drawn.contains(
        Mark { at: #[trigger] body[k], glyph: Glyph::Snake },
    ) by {
        let i = grid.drawn.len() + k;
        assert(painted.drawn[i] == stamps(body, Glyph::Snake)[k]);
        if fed.drawn.len() > painted.drawn.len() {
            lemma_marked(painted, apple.at, Some(Glyph::Apple));
        }
        assert(fed.drawn[i] == painted.drawn[i]);
    }
}

/// What a rendering of the snake keeps, if the cell given to an apple that
/// takes a new place is free on the grid with the body painted.
///
/// The snake keeps its invariant, and the grid its size and its invariant.
/// A snake that lies on the grid stays on it, and nothing is then drawn
/// outside the grid; a body that coordinates can hold stays one. The
/// rendering ends in a collision exactly if the body cannot be painted, and
/// the snake is then as before. Otherwise the body that is left can be
/// painted again onto the same grid, and the head of a started snake was
/// free on it.
pub proof fn lemma_snake_rendered(s: SnakeView, grid: GridView, spot: Point)
    requires
        s.wf(),
        grid.wf(),
        s.ground(grid) matches Some(ground) ==> (s.apple.takes_place(ground) ==> ground.is_free(
            spot,
        )),
    ensures
        s.rendered(grid, spot).0.wf(),
        s.fits(grid) ==> s.rendered(grid, spot).0.fits(grid),
        s.representable() ==> s.rendered(grid, spot).0.representable(),
        s.rendered(grid, spot).1.wf(),
        s.rendered(grid, spot).1.cols == grid.cols,
        s.rendered(grid, spot).1.rows == grid.rows,
        grid.within() && s.fits(grid) ==> s.rendered(grid, spot).1.within(),
        s.rendered(grid, spot).2 is Collision <==> s.ground(grid) is None,
        s.rendered(grid, spot).2 is Collision ==> s.rendered(grid, spot).0 == s,
        s.rendered(grid, spot).2 !is Collision ==> s.rendered(grid, spot).0.ground(grid) is Some,
        s.rendered(grid, spot).2 !is Collision && s.moves.len() > 0 ==> !grid.occupied(
            s.rendered(grid, spot).0.head,
        ),
        s.rendered(grid, spot).2 !is Collision ==> s.rendered(grid, spot).0.refreshed == (
        s.moves.len() > 0),
{
    let body = s.body();
    let (painted, hit) = grid.paint(body, Glyph::Snake);
    lemma_paint(grid, body, Glyph::Snake);
    lemma_trail_len(s.head, s.moves);
    if hit is None {
        lemma_apple_rendered(s.apple, painted, spot);
        let (apple, fed, outcome) = s.apple.rendered(painted, spot);
        if outcome is Step && s.moves.len() > 0 {
            lemma_trail_trim(s.head, s.moves);
            if s.moves.len() > 1 {
                assert(s.moves.drop_first().last() == s.moves.last());
            }
            lemma_released(fed, body.last());
            let short = body.drop_last();
            assert forall|k: int| 0 <= k < short.len() implies !grid.occupied(
                #[trigger] short[k],
            ) && short[k] == body[k] by {
                assert(short[k] == body[k]);
            }
            assert forall|j: int, k: int| 0 <= j < k < short.len() implies #[trigger] short[j]
                != #[trigger] short[k] by {
                assert(short[j] == body[j] && short[k] == body[k]);
            }
            lemma_paint_clear(grid, short, Glyph::Snake);
        }
    }
}

/// The snake, together with the apple that it is after.
pub struct Snake {
    position: Coordinate,
    direction: Direction,
    moves: Vec<Direction>,
    refreshed: bool,
    apple: Apple,
}

impl View for Snake {
    type V = SnakeView;

    closed spec fn view(&self) -> SnakeView {
        SnakeView {
            head: self.position@,
            heading: self.direction,
            moves: self.moves@,
            refreshed: self.refreshed,
            apple: self.apple@,
        }
    }
}

impl Snake {
    /// Creates a snake that has not been started.
    pub fn new() -> (snake: Snake)
        ensures
            snake@ == SnakeView::fresh(),
            snake@.wf(),
    {
        Snake {
            position: Coordinate { x: 1, y: 1 },
            direction: Direction::Right,
            moves: Vec::new(),
            refreshed: false,
            apple: Apple::new(),
        }
    }

    /// Makes the snake ready for a game: puts it at `center`, heading right,
    /// gives it the seed history, and takes the apple off the grid.
    pub fn start(&mut self, center: Coordinate)
        ensures
            final(self)@ == SnakeView::started(center@),
            final(self)@.wf(),
            final(self)@.full(),
    {
        self.position = center;
        self.direction = Direction::Right;
        self.moves = Vec::new();
        self.refreshed = false;
        self.apple = Apple::new();
        let mut i: usize = 0;
        while i < SEED_MOVES
            invariant
                i <= SEED_MOVES,
                self.moves@.len() == i,
                forall|k: int| 0 <= k < i ==> self.moves@[k] == self.direction,
                self.position == center,
                self.direction == Direction::Right,
                self.apple@ == AppleView::fresh(),
                !self.refreshed,
            decreases SEED_MOVES - i,
        {
            self.moves.push(self.direction);
            i += 1;
        }
        assert(self.moves@ =~= SnakeView::started(center@).moves);
    }

    /// Where the head is.
    pub fn position(&self) -> (c: Coordinate)
        ensures
            c@ == self@.head,
    {
        self.position
    }

    /// The committed direction.
    pub fn direction(&self) -> (d: Direction)
        ensures
            d == self@.heading,
    {
        self.direction
    }

    /// The length of the history of moves, which is the length of the body.
    pub fn len(&self) -> (n: usize)
        ensures
            n == self@.moves.len(),
    {
        self.moves.len()
    }

    /// Whether the body has been drawn since the last accepted move.
    pub fn is_refreshed(&self) -> (b: bool)
        ensures
            b == self@.refreshed,
    {
        self.refreshed
    }

    /// The apple.
    pub fn apple(&self) -> (apple: &Apple)
        ensures
            apple@ == self@.apple,
    {
        &self.apple
    }

    /// Asks the snake to move one cell in direction `d`. The request is
    /// dropped without a word unless the snake accepts it.
    pub fn request_direction(&mut self, d: Direction)
        requires
            old(self)@.accepts(d) ==> old(self)@.head.shifted(d).representable(),
        ensures
            final(self)@ == old(self)@.turned(d),
            old(self)@.wf() ==> final(self)@.wf(),
            old(self)@.full() ==> final(self)@.full(),
    {
        if self.refreshed && d.inverse() != self.direction {
            assert(d.opposite().opposite() == d);
            self.position.advance(d);
            self.moves.push(d);
            self.direction = d;
            self.refreshed = false;
        }
    }

    /// Moves the snake one cell straight on, if it accepts that.
    pub fn step(&mut self)
        requires
            old(self)@.refreshed ==> old(self)@.head.shifted(old(self)@.heading).representable(),
        ensures
            final(self)@ == old(self)@.stepped(),
            old(self)@.wf() ==> final(self)@.wf(),
            old(self)@.full() ==> final(self)@.full(),
    {
        let d = self.direction;
        self.request_direction(d);
    }

    /// The cells of the body, from the head to the tail.
    pub fn body(&self) -> (cells: Vec<Coordinate>)
        requires
            self@.representable(),
        ensures
            points_of(cells@) == self@.body(),
    {
        let ghost body = self@.body();
        let n: usize = self.moves.len();
        let mut cells: Vec<Coordinate> = Vec::new();
        let mut cursor = self.position;
        let mut i: usize = 0;
        proof {
            lemma_trail_len(self@.head, self@.moves);
        }
        while i < n
            invariant
                i <= n,
                n == self.moves@.len(),
                body == self@.body(),
                body.len() == n,
                self@.representable(),
                cells@.len() == i,
                points_of(cells@) =~= body.take(i as int),
                i < n ==> cursor@ == body[i as int],
            decreases n - i,
        {
            let ghost seen = cells@;
            cells.push(cursor);
            i += 1;
            assert forall|k: int| 0 <= k < i implies points_of(cells@)[k] == body[k] by {
                if k < i - 1 {
                    assert(points_of(seen)[k] == body.take(i - 1)[k]);
                }
            }
            if i < n {
                proof {
                    lemma_trail_next(self@.head, self@.moves, i - 1);
                    assert(body[i as int].representable());
                }
                cursor.advance(self.moves[n - i].inverse());
            }
        }
        assert(body.take(n as int) =~= body);
        cells
    }

    /// Renders the snake and its apple onto `grid`.
    ///
    /// Returns the collision if the body runs into something that is taken,
    /// `Grow` if the apple was reached, else `Step`.
    pub fn render(&mut self, grid: &mut Grid) -> (result: GridResult)
        requires
            old(self)@.wf(),
            old(self)@.representable(),
            old(grid).wf(),
        ensures
            (final(self)@, final(grid)@, result@) == old(self)@.rendered(
                old(grid)@,
                final(self)@.apple.at,
            ),
            old(self)@.ground(old(grid)@) matches Some(ground) ==> (old(self)@.apple.takes_place(
                ground,
            ) ==> ground.is_free(final(self)@.apple.at)),
            final(self)@.wf(),
            final(self)@.representable(),
            old(self)@.fits(old(grid)@) ==> final(self)@.fits(final(grid)@),
            final(grid).wf(),
            old(self)@.full() && !old(self)@.refreshed ==> final(self)@.full(),
    {
        let body = self.body();
        proof {
            lemma_paint(grid@, self@.body(), Glyph::Snake);
            lemma_trail_len(self@.head, self@.moves);
        }
        match grid.paint(&body, Glyph::Snake) {
            GridResult::Collision(c) => {
                proof {
                    lemma_snake_rendered(old(self)@, old(grid)@, self@.apple.at);
                }
                return GridResult::Collision(c);
            },
            _ => {},
        }
        self.refreshed = self.moves.len() > 0;
        let result = self.apple.render(grid);
        proof {
            lemma_snake_rendered(old(self)@, old(grid)@, self@.apple.at);
        }
        match result {
            GridResult::Step => {
                if self.moves.len() > 0 {
                    assert(self.moves@.remove(0) =~= self.moves@.drop_first());
                    self.moves.remove(0);
                    grid.unset(body[body.len() - 1]);
                }
                GridResult::Step
            },
            other => other,
        }
    }
}

} // verus!
