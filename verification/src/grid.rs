//! The occupancy grid of one frame: which cells are taken, which glyphs
//! were drawn, and whether a claim has collided since the grid was last
//! cleared.

use vstd::prelude::*;
use vstd::arithmetic::div_mod::{
    lemma_fundamental_div_mod, lemma_fundamental_div_mod_converse, lemma_mod_pos_bound,
    lemma_multiply_divide_lt, lemma_div_pos_is_pos,
};
use crate::coordinate::{Coordinate, Point};
use crate::random::random_index;

verus! {

/// What can be drawn into a cell.
#[derive(Clone, Copy, Debug, PartialEq, Eq, Structural)]
pub enum Glyph {
    Wall,
    Snake,
    Apple,
}

impl Glyph {
    /// The character that stands for this glyph on a text surface.
    pub open spec fn character(self) -> char {
        match self {
            Glyph::Wall => '+',
            Glyph::Snake => 'O',
            Glyph::Apple => 'A',
        }
    }

    /// Returns the character to print for this glyph.
    pub fn symbol(&self) -> (c: char)
        ensures
            c == self.character(),
    {
        match self {
            Glyph::Wall => '+',
            Glyph::Snake => 'O',
            Glyph::Apple => 'A',
        }
    }
}

/// How a claim on a cell, or the rendering of a whole frame, ended.
#[derive(Clone, Copy, Debug, PartialEq, Eq, Structural)]
pub enum GridResult {
    /// The apple was eaten: the snake keeps its tail this frame.
    Grow,
    /// Nothing special happened.
    Step,
    /// The given cell was already taken.
    Collision(Coordinate),
}

/// A [`GridResult`] over mathematical points.
pub enum Outcome {
    Grow,
    Step,
    Collision(Point),
}

impl View for GridResult {
    type V = Outcome;

    open spec fn view(&self) -> Outcome {
        match *self {
            GridResult::Grow => Outcome::Grow,
            GridResult::Step => Outcome::Step,
            GridResult::Collision(c) => Outcome::Collision(c@),
        }
    }
}

/// One request to draw: a glyph and the cell where it goes.
#[derive(Clone, Copy, Debug, PartialEq, Eq, Structural)]
pub struct Cell {
    pub coord: Coordinate,
    pub glyph: Glyph,
}

/// A [`Cell`] over mathematical points.
pub struct Mark {
    pub at: Point,
    pub glyph: Glyph,
}

impl View for Cell {
    type V = Mark;

    open spec fn view(&self) -> Mark {
        Mark { at: self.coord@, glyph: self.glyph }
    }
}

/// The marks that a sequence of cells stands for.
pub open spec fn marks_of(cells: Seq<Cell>) -> Seq<Mark> {
    cells.map_values(|c: Cell| c@)
}

/// The points that a sequence of coordinates stands for.
pub open spec fn points_of(coords: Seq<Coordinate>) -> Seq<Point> {
    coords.map_values(|c: Coordinate| c@)
}

/// The marks that painting `glyph` at each of `points` leaves.
pub open spec fn stamps(points: Seq<Point>, glyph: Glyph) -> Seq<Mark> {
    points.map_values(|p: Point| Mark { at: p, glyph })
}

/// The test that keeps every point but `p`.
pub open spec fn other_than(p: Point) -> spec_fn(Point) -> bool {
    |q: Point| q != p
}

/// The mathematical model of a [`Grid`]: its size, the occupancy set as the
/// points taken, in the order in which they were claimed, the glyphs drawn
/// in this frame, in the order in which they were drawn, and the collision
/// flag.
///
/// Taking and drawing are two things. A point that is only marked is taken
/// without a glyph, and a point that is released stays drawn: its glyph was
/// sent to the surface when the point was claimed.
pub struct GridView {
    pub cols: int,
    pub rows: int,
    pub taken: Seq<Point>,
    pub drawn: Seq<Mark>,
    pub collided: bool,
}

impl GridView {
    /// Whether `p` lies in the rectangle `[1, cols] x [1, rows]`.
    pub open spec fn in_bounds(self, p: Point) -> bool {
        1 <= p.x <= self.cols && 1 <= p.y <= self.rows
    }

    /// Whether `p` lies in the rectangle and is not taken.
    pub open spec fn is_free(self, p: Point) -> bool {
        self.in_bounds(p) && !self.occupied(p)
    }

    /// Whether `p` is in the occupancy set.
    pub open spec fn occupied(self, p: Point) -> bool {
        exists|i: int| 0 <= i < self.taken.len() && #[trigger] self.taken[i] == p
    }

    /// Whether the occupancy set is empty.
    pub open spec fn is_empty(self) -> bool {
        self.taken.len() == 0
    }

    /// No point is taken twice.
    pub open spec fn distinct(self) -> bool {
        forall|i: int, j: int|
            0 <= i < j < self.taken.len() ==> #[trigger] self.taken[i] != #[trigger] self.taken[j]
    }

    /// Whether every glyph that was drawn lies in the rectangle.
    pub open spec fn within(self) -> bool {
        forall|i: int| 0 <= i < self.drawn.len() ==> self.in_bounds((#[trigger] self.drawn[i]).at)
    }

    /// The invariant of a grid: a size that `usize` can hold, and no point
    /// taken twice.
    pub open spec fn wf(self) -> bool {
        &&& 0 <= self.cols <= usize::MAX
        &&& 0 <= self.rows <= usize::MAX
        &&& self.distinct()
    }

    /// An empty grid of the given size.
    pub open spec fn blank(cols: int, rows: int) -> GridView {
        GridView { cols, rows, taken: Seq::empty(), drawn: Seq::empty(), collided: false }
    }

    /// This grid with `p` added to the occupancy set, and `glyph` drawn
    /// there if there is one.
    pub open spec fn marked(self, p: Point, glyph: Option<Glyph>) -> GridView {
        GridView {
            taken: self.taken.push(p),
            drawn: match glyph {
                Some(g) => self.drawn.push(Mark { at: p, glyph: g }),
                None => self.drawn,
            },
            ..self
        }
    }

    /// This grid with the collision flag raised.
    pub open spec fn bumped(self) -> GridView {
        GridView { collided: true, ..self }
    }

    /// A claim on `p`: a collision at `p` if the point is taken, which
    /// leaves the occupancy set as it is and draws nothing; otherwise the
    /// point becomes taken and the glyph, if there is one, is drawn.
    pub open spec fn claim(self, p: Point, glyph: Option<Glyph>) -> (GridView, Outcome) {
        if self.occupied(p) {
            (self.bumped(), Outcome::Collision(p))
        } else {
            (self.marked(p, glyph), Outcome::Step)
        }
    }

    /// Claims the points of `path` one after the other and draws `glyph` at
    /// each. The first point that is taken stops the painting and is
    /// returned as the collision; what was painted before it stays.
    pub open spec fn paint(self, path: Seq<Point>, glyph: Glyph) -> (GridView, Option<Point>)
        decreases path.len(),
    {
        if path.len() == 0 {
            (self, None)
        } else if self.occupied(path[0]) {
            (self.bumped(), Some(path[0]))
        } else {
            self.marked(path[0], Some(glyph)).paint(path.drop_first(), glyph)
        }
    }

    /// How many points of `path` a painting takes before it stops.
    pub open spec fn reach(self, path: Seq<Point>, glyph: Glyph) -> int
        decreases path.len(),
    {
        if path.len() == 0 || self.occupied(path[0]) {
            0
        } else {
            1 + self.marked(path[0], Some(glyph)).reach(path.drop_first(), glyph)
        }
    }

    /// This grid with `p` taken out of the occupancy set. What was drawn
    /// stays drawn.
    pub open spec fn released(self, p: Point) -> GridView {
        GridView { taken: self.taken.filter(other_than(p)), ..self }
    }

    /// This grid as a new frame finds it: nothing taken, nothing drawn, no
    /// collision.
    pub open spec fn cleared(self) -> GridView {
        GridView::blank(self.cols, self.rows)
    }

    /// The middle cell, rounded down.
    pub open spec fn center(self) -> Point {
        Point { x: self.cols / 2, y: self.rows / 2 }
    }

    /// The number of cells of the rectangle.
    pub open spec fn size(self) -> int {
        self.cols * self.rows
    }

    /// The place of `p` when the rectangle is read row by row, counted from 0.
    pub open spec fn index_for(self, p: Point) -> int {
        (p.y - 1) * self.cols + (p.x - 1)
    }

    /// The point that is read at place `index`.
    pub open spec fn point_at(self, index: int) -> Point {
        Point { x: index % self.cols + 1, y: index / self.cols + 1 }
    }

    /// Every point of the rectangle, row by row.
    pub open spec fn points(self) -> Seq<Point> {
        Seq::new(self.size() as nat, |i: int| self.point_at(i))
    }

    /// The test that keeps the points that are not taken.
    pub open spec fn vacant(self) -> spec_fn(Point) -> bool {
        |p: Point| !self.occupied(p)
    }

    /// The points of the rectangle that are not taken, row by row.
    pub open spec fn free_points(self) -> Seq<Point> {
        self.points().filter(self.vacant())
    }

    /// Whether every point of the rectangle is taken.
    pub open spec fn is_full(self) -> bool {
        forall|p: Point| self.in_bounds(p) ==> self.occupied(p)
    }
}

/// What taking a point does: the occupancy set grows by that point and by
/// nothing else, size and flag stay, a point that was free leaves no point
/// taken twice, and a glyph drawn on the grid leaves every glyph on the
/// grid.
pub proof fn lemma_marked(g: GridView, p: Point, glyph: Option<Glyph>)
    ensures
        g.marked(p, glyph).cols == g.cols,
        g.marked(p, glyph).rows == g.rows,
        g.marked(p, glyph).collided == g.collided,
        g.marked(p, glyph).occupied(p),
        forall|q: Point| #[trigger] g.marked(p, glyph).occupied(q) <==> g.occupied(q) || q == p,
        g.wf() && !g.occupied(p) ==> g.marked(p, glyph).wf(),
        g.within() && (glyph is Some ==> g.in_bounds(p)) ==> g.marked(p, glyph).within(),
{
    let next = g.marked(p, glyph);
    assert(next.taken[g.taken.len() as int] == p);
    assert forall|q: Point| #[trigger] next.occupied(q) <==> g.occupied(q) || q == p by {
        if g.occupied(q) {
            let i = choose|i: int| 0 <= i < g.taken.len() && #[trigger] g.taken[i] == q;
            assert(next.taken[i] == q);
        }
        if next.occupied(q) && q != p {
            let i = choose|i: int| 0 <= i < next.taken.len() && #[trigger] next.taken[i] == q;
            assert(g.taken[i] == q);
        }
    }
    if g.wf() && !g.occupied(p) {
        assert forall|i: int, j: int| 0 <= i < j < next.taken.len() implies #[trigger] next.taken[i]
            != #[trigger] next.taken[j] by {
            if j == g.taken.len() {
                assert(g.taken[i] != p);
            } else {
                assert(g.taken[i] != g.taken[j]);
            }
        }
    }
    if g.within() && (glyph is Some ==> g.in_bounds(p)) {
        assert forall|i: int| 0 <= i < next.drawn.len() implies next.in_bounds(
            (#[trigger] next.drawn[i]).at,
        ) by {
            if i < g.drawn.len() {
                assert(g.in_bounds(g.drawn[i].at));
            }
        }
    }
}

/// Raising the collision flag changes nothing else: the same points are
/// taken and the same glyphs drawn.
pub proof fn lemma_bumped(g: GridView)
    ensures
        forall|q: Point| #[trigger] g.bumped().occupied(q) <==> g.occupied(q),
        g.wf() ==> g.bumped().wf(),
        g.within() ==> g.bumped().within(),
{
    let next = g.bumped();
    assert forall|q: Point| #[trigger] next.occupied(q) <==> g.occupied(q) by {
        if g.occupied(q) {
            let i = choose|i: int| 0 <= i < g.taken.len() && #[trigger] g.taken[i] == q;
            assert(next.taken[i] == q);
        }
        if next.occupied(q) {
            let i = choose|i: int| 0 <= i < next.taken.len() && #[trigger] next.taken[i] == q;
            assert(g.taken[i] == q);
        }
    }
}

/// A claim on any point of an empty grid succeeds: the point is then taken
/// and its glyph, if it has one, is the one glyph drawn. A second claim on
/// the same point, with nothing cleared in between, collides at that point
/// and changes neither what is taken nor what is drawn.
pub proof fn law_second_claim_collides(
    g: GridView,
    p: Point,
    first: Option<Glyph>,
    second: Option<Glyph>,
)
    requires
        g.is_empty(),
    ensures
        g.claim(p, first).1 == Outcome::Step,
        g.claim(p, first).0.occupied(p),
        g.claim(p, first).0.taken == g.taken.push(p),
        first matches Some(glyph) ==> g.claim(p, first).0.drawn == g.drawn.push(
            Mark { at: p, glyph },
        ),
        g.claim(p, first).0.claim(p, second).1 == Outcome::Collision(p),
        g.claim(p, first).0.claim(p, second).0.taken == g.claim(p, first).0.taken,
        g.claim(p, first).0.claim(p, second).0.drawn == g.claim(p, first).0.drawn,
{
    lemma_marked(g, p, first);
}

/// A point that is taken stays taken through every further claim, and a
/// claim on it collides there and draws nothing: only clearing or releasing
/// gives it back.
pub proof fn law_taken_until_cleared(g: GridView, p: Point, q: Point, glyph: Option<Glyph>)
    requires
        g.occupied(p),
    ensures
        g.claim(p, glyph).1 == Outcome::Collision(p),
        g.claim(p, glyph).0.taken == g.taken,
        g.claim(p, glyph).0.drawn == g.drawn,
        g.claim(q, glyph).0.occupied(p),
{
    lemma_marked(g, q, glyph);
}

/// A grid is empty exactly when no point is taken. It is not empty after a
/// claim that succeeded, whatever was taken before, and the point claimed
/// is then taken. A new and a cleared grid are empty.
pub proof fn law_empty_means_nothing_taken(g: GridView, p: Point, glyph: Option<Glyph>)
    ensures
        g.is_empty() <==> forall|q: Point| !g.occupied(q),
        g.claim(p, glyph).1 == Outcome::Step ==> !g.claim(p, glyph).0.is_empty() && g.claim(
            p,
            glyph,
        ).0.occupied(p),
        g.cleared().is_empty(),
        GridView::blank(g.cols, g.rows).is_empty(),
{
    if !g.is_empty() {
        assert(g.occupied(g.taken[0]));
    }
    lemma_marked(g, p, glyph);
}

/// Reading the rectangle row by row numbers its points: `index_for` maps the
/// points of the grid one to one onto `0 .. cols * rows`, and `point_at` is
/// its inverse.
pub proof fn law_index_for_is_bijection(g: GridView, p: Point, q: Point, i: int)
    requires
        0 <= g.cols,
        0 <= g.rows,
    ensures
        g.in_bounds(p) ==> 0 <= g.index_for(p) < g.size(),
        g.in_bounds(p) ==> g.point_at(g.index_for(p)) == p,
        g.in_bounds(p) && g.in_bounds(q) && g.index_for(p) == g.index_for(q) ==> p == q,
        0 <= i < g.size() ==> g.in_bounds(g.point_at(i)),
        0 <= i < g.size() ==> g.index_for(g.point_at(i)) == i,
{
    if g.in_bounds(p) {
        lemma_index_for(g, p);
    }
    if g.in_bounds(q) {
        lemma_index_for(g, q);
    }
    if 0 <= i < g.size() {
        lemma_point_at(g, i);
    }
}

/// A point of the rectangle has a place below the number of cells, and is
/// the point at that place.
proof fn lemma_index_for(g: GridView, p: Point)
    requires
        g.in_bounds(p),
    ensures
        0 <= g.index_for(p) < g.size(),
        g.point_at(g.index_for(p)) == p,
{
    let cols = g.cols;
    let rows = g.rows;
    let row = p.y - 1;
    let col = p.x - 1;
    assert(0 <= row * cols && row * cols + cols <= cols * rows) by (nonlinear_arith)
        requires
            0 <= row < rows,
            0 < cols,
    ;
    lemma_fundamental_div_mod_converse(g.index_for(p), cols, row, col);
}

/// The point at a place below the number of cells lies in the rectangle,
/// and that place is its own.
proof fn lemma_point_at(g: GridView, i: int)
    requires
        0 <= g.cols,
        0 <= g.rows,
        0 <= i < g.size(),
    ensures
        g.in_bounds(g.point_at(i)),
        g.index_for(g.point_at(i)) == i,
{
    let cols = g.cols;
    assert(cols > 0) by (nonlinear_arith)
        requires
            0 <= cols,
            0 < cols * g.rows,
    ;
    lemma_mod_pos_bound(i, cols);
    lemma_div_pos_is_pos(i, cols);
    lemma_multiply_divide_lt(i, cols, g.rows);
    lemma_fundamental_div_mod(i, cols);
    assert(cols * (i / cols) == (i / cols) * cols) by (nonlinear_arith);
}

/// The free points of a grid are the points of its rectangle that are not
/// taken, each of them listed once. A grid is full exactly when it has
/// none.
pub proof fn lemma_free_points(g: GridView)
    requires
        0 <= g.cols,
        0 <= g.rows,
    ensures
        g.is_full() <==> g.free_points().len() == 0,
        forall|k: int| 0 <= k < g.free_points().len() ==> g.is_free(#[trigger] g.free_points()[k]),
        forall|p: Point| g.is_free(p) ==> #[trigger] g.free_points().contains(p),
        forall|j: int, k: int|
            0 <= j < k < g.free_points().len() ==> #[trigger] g.free_points()[j]
                != #[trigger] g.free_points()[k],
{
    let all = g.points();
    let free = g.free_points();
    let keep = g.vacant();
    assert forall|k: int| 0 <= k < free.len() implies g.is_free(#[trigger] free[k]) by {
        all.lemma_filter_pred(keep, k);
        assert(free.contains(free[k]));
        all.lemma_filter_contains_rev(keep, free[k]);
        let i = choose|i: int| 0 <= i < all.len() && all[i] == free[k];
        lemma_point_at(g, i);
    }
    assert forall|p: Point| g.is_free(p) implies #[trigger] free.contains(p) by {
        lemma_index_for(g, p);
        let i = g.index_for(p);
        assert(all[i] == p);
        all.lemma_filter_contains(keep, i);
    }
    if free.len() > 0 {
        assert(g.is_free(free[0]));
    }
    if !g.is_full() {
        let p = choose|p: Point| g.in_bounds(p) && !g.occupied(p);
        assert(free.contains(p));
    }
    assert forall|i: int, j: int| 0 <= i < j < all.len() implies #[trigger] all[i]
        != #[trigger] all[j] by {
        lemma_point_at(g, i);
        lemma_point_at(g, j);
    }
    lemma_filter_keeps_distinct(all, keep);
}

/// What a painting leaves behind. The size stays and so does every point
/// that was taken. A painting that meets no collision takes exactly the
/// points of its path, none of which was taken before or occurs twice; one
/// that collides does so at a point of the path, and raises the flag.
pub proof fn lemma_paint(g: GridView, path: Seq<Point>, glyph: Glyph)
    ensures
        g.paint(path, glyph).0.cols == g.cols,
        g.paint(path, glyph).0.rows == g.rows,
        g.wf() ==> g.paint(path, glyph).0.wf(),
        g.within() && (forall|k: int| 0 <= k < path.len() ==> g.in_bounds(#[trigger] path[k]))
            ==> g.paint(path, glyph).0.within(),
        forall|p: Point| g.occupied(p) ==> g.paint(path, glyph).0.occupied(p),
        forall|p: Point|
            g.paint(path, glyph).0.occupied(p) ==> g.occupied(p) || path.contains(p),
        g.paint(path, glyph).1 is None ==> {
            &&& g.paint(path, glyph).0.collided == g.collided
            &&& forall|k: int| 0 <= k < path.len() ==> !g.occupied(#[trigger] path[k])
            &&& forall|k: int|
                0 <= k < path.len() ==> g.paint(path, glyph).0.occupied(#[trigger] path[k])
            &&& forall|j: int, k: int|
                0 <= j < k < path.len() ==> #[trigger] path[j] != #[trigger] path[k]
        },
        g.paint(path, glyph).1 matches Some(p) ==> path.contains(p) && g.paint(
            path,
            glyph,
        ).0.collided,
    decreases path.len(),
{
    if path.len() > 0 && !g.occupied(path[0]) {
        let first = path[0];
        let next = g.marked(first, Some(glyph));
        let rest = path.drop_first();
        let done = g.paint(path, glyph).0;
        lemma_marked(g, first, Some(glyph));
        lemma_paint(next, rest, glyph);
        assert forall|k: int| 0 <= k < rest.len() implies rest[k] == path[k + 1] by {}
        if g.within() && (forall|k: int| 0 <= k < path.len() ==> g.in_bounds(#[trigger] path[k])) {
            assert(g.in_bounds(path[0]));
            assert forall|k: int| 0 <= k < rest.len() implies next.in_bounds(
                #[trigger] rest[k],
            ) by {
                assert(g.in_bounds(path[k + 1]));
            }
        }
        assert forall|p: Point| g.occupied(p) implies done.occupied(p) by {
            assert(next.occupied(p));
        }
        assert forall|p: Point| done.occupied(p) implies g.occupied(p) || path.contains(p) by {
            if !next.occupied(p) {
                let k = choose|k: int| 0 <= k < rest.len() && rest[k] == p;
                assert(path[k + 1] == p);
            } else if !g.occupied(p) {
                assert(path[0] == p);
            }
        }
        if g.paint(path, glyph).1 is None {
            assert forall|k: int| 0 <= k < path.len() implies !g.occupied(#[trigger] path[k])
                && done.occupied(path[k]) by {
                if k > 0 {
                    assert(rest[k - 1] == path[k]);
                }
            }
            assert forall|j: int, k: int| 0 <= j < k < path.len() implies #[trigger] path[j]
                != #[trigger] path[k] by {
                assert(rest[k - 1] == path[k]);
                if j > 0 {
                    assert(rest[j - 1] == path[j]);
                }
            }
        }
        if let Some(p) = g.paint(path, glyph).1 {
            let k = choose|k: int| 0 <= k < rest.len() && rest[k] == p;
            assert(path[k + 1] == p);
        }
    } else if path.len() > 0 {
        lemma_bumped(g);
        assert(path[0] == path[0]);
    }
}

/// A painting in full. It takes the points of the path up to the first
/// that is taken already or has occurred before in the path, and no
/// further. Each point that it takes joins the occupancy set, behind the
/// points that were there, and gets one glyph drawn, behind the glyphs that
/// were there. It collides at the point where it stops, if it stops before
/// the end, and raises the flag then.
pub proof fn law_paint_stops_at_first_taken(g: GridView, path: Seq<Point>, glyph: Glyph)
    ensures
        0 <= g.reach(path, glyph) <= path.len(),
        forall|k: int|
            0 <= k < g.reach(path, glyph) ==> !g.occupied(#[trigger] path[k]) && !path.take(
                k,
            ).contains(path[k]),
        g.reach(path, glyph) < path.len() ==> g.occupied(path[g.reach(path, glyph)]) || path.take(
            g.reach(path, glyph),
        ).contains(path[g.reach(path, glyph)]),
        g.paint(path, glyph).0.taken == g.taken + path.take(g.reach(path, glyph)),
        g.paint(path, glyph).0.drawn == g.drawn + stamps(
            path.take(g.reach(path, glyph)),
            glyph,
        ),
        g.paint(path, glyph).0.collided == (g.collided || g.reach(path, glyph) < path.len()),
        g.paint(path, glyph).1 == if g.reach(path, glyph) < path.len() {
            Some(path[g.reach(path, glyph)])
        } else {
            None
        },
    decreases path.len(),
{
    let n = g.reach(path, glyph);
    if path.len() > 0 && !g.occupied(path[0]) {
        let first = path[0];
        let next = g.marked(first, Some(glyph));
        let rest = path.drop_first();
        let m = next.reach(rest, glyph);
        lemma_marked(g, first, Some(glyph));
        law_paint_stops_at_first_taken(next, rest, glyph);
        assert forall|k: int| 0 <= k <= m && k < rest.len() implies (rest.take(k).contains(
            rest[k],
        ) || rest[k] == first <==> path.take(k + 1).contains(path[k + 1])) by {
            let short = rest.take(k);
            let long = path.take(k + 1);
            assert(rest[k] == path[k + 1]);
            if short.contains(rest[k]) {
                let i = choose|i: int| 0 <= i < short.len() && short[i] == rest[k];
                assert(long[i + 1] == path[k + 1]);
            }
            if rest[k] == first {
                assert(long[0] == path[k + 1]);
            }
            if long.contains(path[k + 1]) {
                let i = choose|i: int| 0 <= i < long.len() && long[i] == path[k + 1];
                if i > 0 {
                    assert(short[i - 1] == rest[k]);
                }
            }
        }
        assert forall|k: int| 0 <= k < n implies !g.occupied(#[trigger] path[k]) && !path.take(
            k,
        ).contains(path[k]) by {
            if k > 0 {
                assert(rest[k - 1] == path[k]);
                assert(!next.occupied(rest[k - 1]));
            }
        }
        if n < path.len() {
            assert(rest[m] == path[n]);
        }
        assert forall|i: int| 0 <= i < m implies rest.take(m)[i] == path.take(n)[i + 1] by {}
        assert(g.taken + path.take(n) =~= next.taken + rest.take(m));
        assert(g.drawn + stamps(path.take(n), glyph) =~= next.drawn + stamps(rest.take(m), glyph));
    } else {
        assert(g.taken + path.take(0) =~= g.taken);
        assert(g.drawn + stamps(path.take(0), glyph) =~= g.drawn);
    }
}

/// A painting meets no collision if no point of its path is taken and none
/// occurs twice.
pub proof fn lemma_paint_clear(g: GridView, path: Seq<Point>, glyph: Glyph)
    requires
        forall|k: int| 0 <= k < path.len() ==> !g.occupied(#[trigger] path[k]),
        forall|j: int, k: int| 0 <= j < k < path.len() ==> #[trigger] path[j] != #[trigger] path[k],
    ensures
        g.paint(path, glyph).1 is None,
    decreases path.len(),
{
    if path.len() > 0 {
        let first = path[0];
        let next = g.marked(first, Some(glyph));
        let rest = path.drop_first();
        lemma_marked(g, first, Some(glyph));
        assert forall|k: int| 0 <= k < rest.len() implies !next.occupied(#[trigger] rest[k]) by {
            assert(rest[k] == path[k + 1]);
            assert(path[0] != path[k + 1]);
        }
        assert forall|j: int, k: int| 0 <= j < k < rest.len() implies #[trigger] rest[j]
            != #[trigger] rest[k] by {
            assert(rest[j] == path[j + 1]);
            assert(rest[k] == path[k + 1]);
        }
        lemma_paint_clear(next, rest, glyph);
    }
}

/// What releasing a point leaves behind: the point is free, every other
/// point is taken exactly if it was, what was drawn stays drawn, and the
/// invariant holds as before.
pub proof fn lemma_released(g: GridView, p: Point)
    ensures
        !g.released(p).occupied(p),
        forall|q: Point| q != p ==> (#[trigger] g.released(p).occupied(q) <==> g.occupied(q)),
        g.released(p).drawn == g.drawn,
        g.wf() ==> g.released(p).wf(),
        g.within() ==> g.released(p).within(),
{
    let keep = other_than(p);
    let kept = g.taken.filter(keep);
    assert forall|k: int| 0 <= k < kept.len() implies keep(#[trigger] kept[k]) && g.taken.contains(
        kept[k],
    ) by {
        g.taken.lemma_filter_pred(keep, k);
        assert(kept.contains(kept[k]));
        g.taken.lemma_filter_contains_rev(keep, kept[k]);
    }
    assert forall|q: Point| q != p && g.occupied(q) implies g.released(p).occupied(q) by {
        let i = choose|i: int| 0 <= i < g.taken.len() && #[trigger] g.taken[i] == q;
        g.taken.lemma_filter_contains(keep, i);
        let k = choose|k: int| 0 <= k < kept.len() && kept[k] == g.taken[i];
        assert(g.released(p).taken[k] == q);
    }
    assert forall|q: Point| g.released(p).occupied(q) implies g.occupied(q) && q != p by {
        let k = choose|k: int| 0 <= k < kept.len() && #[trigger] kept[k] == q;
        let i = choose|i: int| 0 <= i < g.taken.len() && g.taken[i] == kept[k];
        assert(g.taken[i] == q);
    }
    if g.wf() {
        lemma_filter_keeps_distinct(g.taken, keep);
    }
}

/// Filtering a sequence without duplicates leaves a sequence without
/// duplicates.
proof fn lemma_filter_keeps_distinct<A>(s: Seq<A>, keep: spec_fn(A) -> bool)
    requires
        forall|i: int, j: int| 0 <= i < j < s.len() ==> #[trigger] s[i] != #[trigger] s[j],
    ensures
        forall|i: int, j: int|
            0 <= i < j < s.filter(keep).len() ==> #[trigger] s.filter(keep)[i]
                != #[trigger] s.filter(keep)[j],
    decreases s.len(),
{
    if s.len() > 0 {
        let front = s.drop_last();
        let last = s.last();
        lemma_filter_keeps_distinct(front, keep);
        assert(front.push(last) =~= s);
        front.lemma_filter_push(last, keep);
        let kept = front.filter(keep);
        if keep(last) {
            assert forall|i: int| 0 <= i < kept.len() implies #[trigger] kept[i] != last by {
                assert(kept.contains(kept[i]));
                front.lemma_filter_contains_rev(keep, kept[i]);
                let k = choose|k: int| 0 <= k < front.len() && front[k] == kept[i];
                assert(s[k] == kept[i]);
                assert(s[s.len() - 1] == last);
            }
        }
    } else {
        s.lemma_filter_len(keep);
    }
}

/// The occupancy grid. It is rebuilt in every frame: cleared, then claimed
/// cell by cell while the frame is rendered.
pub struct Grid {
    /// The cells that are taken.
    matrix: Vec<Coordinate>,
    /// The glyphs drawn since the grid was last cleared.
    frame: Vec<Cell>,
    cols: usize,
    rows: usize,
    collided: bool,
}

impl View for Grid {
    type V = GridView;

    closed spec fn view(&self) -> GridView {
        GridView {
            cols: self.cols as int,
            rows: self.rows as int,
            taken: points_of(self.matrix@),
            drawn: marks_of(self.frame@),
            collided: self.collided,
        }
    }
}

impl Grid {
    /// The invariant that every operation keeps.
    pub open spec fn wf(&self) -> bool {
        self@.wf()
    }

    /// Creates an empty grid of `cols` columns and `rows` rows.
    pub fn new(cols: usize, rows: usize) -> (grid: Grid)
        ensures
            grid@ == GridView::blank(cols as int, rows as int),
            grid.wf(),
    {
        let grid = Grid {
            matrix: Vec::new(),
            frame: Vec::new(),
            cols,
            rows,
            collided: false,
        };
        assert(grid@.taken =~= Seq::empty());
        assert(grid@.drawn =~= Seq::empty());
        grid
    }

    /// The number of columns.
    pub fn cols(&self) -> (n: usize)
        ensures
            n == self@.cols,
    {
        self.cols
    }

    /// The number of rows.
    pub fn rows(&self) -> (n: usize)
        ensures
            n == self@.rows,
    {
        self.rows
    }

    /// Whether `coord` lies on the grid.
    pub fn in_bounds(&self, coord: Coordinate) -> (b: bool)
        ensures
            b == self@.in_bounds(coord@),
    {
        1 <= coord.x && coord.x <= self.cols && 1 <= coord.y && coord.y <= self.rows
    }

    /// Whether nothing is taken.
    pub fn is_empty(&self) -> (b: bool)
        ensures
            b == self@.is_empty(),
    {
        self.matrix.len() == 0
    }

    /// Whether a claim has collided since the grid was last cleared.
    pub fn has_collitions(&self) -> (b: bool)
        ensures
            b == self@.collided,
    {
        self.collided
    }

    /// Whether `coord` is taken.
    pub fn is_occupied(&self, coord: Coordinate) -> (b: bool)
        ensures
            b == self@.occupied(coord@),
    {
        let mut i: usize = 0;
        while i < self.matrix.len()
            invariant
                i <= self.matrix.len(),
                forall|j: int| 0 <= j < i ==> #[trigger] self@.taken[j] != coord@,
            decreases self.matrix.len() - i,
        {
            if self.matrix[i] == coord {
                assert(self@.taken[i as int] == coord@);
                return true;
            }
            i += 1;
        }
        false
    }

    /// The cells that are taken, in the order in which they were claimed.
    pub fn taken(&self) -> (cells: &Vec<Coordinate>)
        ensures
            points_of(cells@) == self@.taken,
    {
        &self.matrix
    }

    /// The glyphs drawn since the grid was last cleared, in the order in
    /// which they were drawn: what a drawing surface has to show.
    pub fn cells(&self) -> (cells: &Vec<Cell>)
        ensures
            marks_of(cells@) == self@.drawn,
    {
        &self.frame
    }

    /// Marks `coord` as taken without drawing anything there, or reports the
    /// collision if it is taken already.
    pub fn set(&mut self, coord: Coordinate) -> (result: GridResult)
        requires
            old(self).wf(),
        ensures
            (final(self)@, result@) == old(self)@.claim(coord@, None),
            final(self).wf(),
    {
        self.claim(coord, None)
    }

    /// Takes `coord` and draws `glyph` there, or reports the collision, and
    /// draws nothing, if the cell is taken already.
    pub fn draw(&mut self, coord: Coordinate, glyph: Glyph) -> (result: GridResult)
        requires
            old(self).wf(),
        ensures
            (final(self)@, result@) == old(self)@.claim(coord@, Some(glyph)),
            final(self).wf(),
    {
        self.claim(coord, Some(glyph))
    }

    /// Takes `coord`, with or without a glyph, or reports the collision.
    fn claim(&mut self, coord: Coordinate, glyph: Option<Glyph>) -> (result: GridResult)
        requires
            old(self).wf(),
        ensures
            (final(self)@, result@) == old(self)@.claim(coord@, glyph),
            final(self).wf(),
    {
        if self.is_occupied(coord) {
            self.collided = true;
            return GridResult::Collision(coord);
        }
        proof {
            lemma_marked(self@, coord@, glyph);
        }
        self.matrix.push(coord);
        match glyph {
            Some(g) => {
                self.frame.push(Cell { coord, glyph: g });
                assert(self@.drawn =~= old(self)@.drawn.push(Mark { at: coord@, glyph: g }));
            },
            None => {},
        }
        assert(self@.taken =~= old(self)@.taken.push(coord@));
        GridResult::Step
    }

    /// Draws `glyph` at the cells of `path`, one after the other, and stops
    /// at the first collision.
    pub fn paint(&mut self, path: &Vec<Coordinate>, glyph: Glyph) -> (result: GridResult)
        requires
            old(self).wf(),
        ensures
            final(self)@ == old(self)@.paint(points_of(path@), glyph).0,
            result@ == match old(self)@.paint(points_of(path@), glyph).1 {
                Some(p) => Outcome::Collision(p),
                None => Outcome::Step,
            },
            final(self).wf(),
    {
        let ghost points = points_of(path@);
        let mut i: usize = 0;
        assert(points.skip(0) =~= points);
        while i < path.len()
            invariant
                i <= path.len(),
                points == points_of(path@),
                self.wf(),
                self@.paint(points.skip(i as int), glyph) == old(self)@.paint(points, glyph),
            decreases path.len() - i,
        {
            let ghost rest = points.skip(i as int);
            assert(rest[0] == path[i as int]@);
            assert(rest.drop_first() =~= points.skip(i + 1));
            match self.draw(path[i], glyph) {
                GridResult::Collision(c) => {
                    return GridResult::Collision(c);
                },
                _ => {},
            }
            i += 1;
        }
        GridResult::Step
    }

    /// Empties the occupancy set, forgets what was drawn and lowers the
    /// collision flag.
    pub fn clear(&mut self)
        requires
            old(self).wf(),
        ensures
            final(self)@ == old(self)@.cleared(),
            final(self).wf(),
    {
        self.matrix.clear();
        self.frame.clear();
        self.collided = false;
        assert(self@.taken =~= Seq::empty());
        assert(self@.drawn =~= Seq::empty());
    }

    /// Takes `coord` out of the occupancy set. A glyph that was drawn there
    /// stays drawn.
    pub fn unset(&mut self, coord: Coordinate)
        requires
            old(self).wf(),
        ensures
            final(self)@ == old(self)@.released(coord@),
            final(self).wf(),
    {
        let ghost keep = other_than(coord@);
        let mut kept: Vec<Coordinate> = Vec::new();
        let mut i: usize = 0;
        assert(self@.taken.take(0) =~= Seq::empty());
        proof {
            Seq::<Point>::empty().lemma_filter_len(keep);
        }
        while i < self.matrix.len()
            invariant
                i <= self.matrix.len(),
                keep == other_than(coord@),
                points_of(kept@) =~= self@.taken.take(i as int).filter(keep),
            decreases self.matrix.len() - i,
        {
            let cell = self.matrix[i];
            proof {
                let seen = self@.taken.take(i as int);
                assert(self@.taken.take(i + 1) =~= seen.push(cell@));
                seen.lemma_filter_push(cell@, keep);
            }
            if cell != coord {
                kept.push(cell);
            }
            i += 1;
        }
        assert(self@.taken.take(i as int) =~= self@.taken);
        proof {
            lemma_released(old(self)@, coord@);
        }
        self.matrix = kept;
    }

    /// The place of the cell `(x, y)` when the grid is read row by row,
    /// counted from 0. The cell must lie on the grid, and the number of
    /// cells must fit in `usize`, as every place does then.
    pub fn index_for(&self, x: usize, y: usize) -> (index: usize)
        requires
            self.wf(),
            self@.size() <= usize::MAX,
            self@.in_bounds(Point { x: x as int, y: y as int }),
        ensures
            index == self@.index_for(Point { x: x as int, y: y as int }),
            index < self@.size(),
    {
        proof {
            lemma_index_for(self@, Point { x: x as int, y: y as int });
            assert(0 <= (y - 1) * self.cols) by (nonlinear_arith)
                requires
                    y >= 1,
                    self.cols >= 0,
            ;
        }
        (y - 1) * self.cols + (x - 1)
    }

    /// The cell that is read at place `index`.
    pub fn coordinate_at(&self, index: usize) -> (coord: Coordinate)
        requires
            self.wf(),
            index < self@.size(),
        ensures
            coord@ == self@.point_at(index as int),
            self@.in_bounds(coord@),
    {
        proof {
            lemma_point_at(self@, index as int);
        }
        Coordinate { x: index % self.cols + 1, y: index / self.cols + 1 }
    }

    /// The free cells of the grid, row by row.
    pub fn free_spots(&self) -> (spots: Vec<Coordinate>)
        requires
            self.wf(),
        ensures
            points_of(spots@) == self@.free_points(),
    {
        let ghost keep = self@.vacant();
        let ghost all = self@.points();
        let ghost cols = self@.cols;
        let mut spots: Vec<Coordinate> = Vec::new();
        let mut row: usize = 0;
        assert(all.take(0) =~= Seq::empty());
        proof {
            Seq::<Point>::empty().lemma_filter_len(keep);
        }
        while row < self.rows
            invariant
                self.wf(),
                row <= self.rows,
                keep == self@.vacant(),
                all == self@.points(),
                cols == self@.cols,
                0 <= row * cols <= self@.size(),
                points_of(spots@) =~= all.take(row * cols).filter(keep),
            decreases self.rows - row,
        {
            let mut col: usize = 0;
            while col < self.cols
                invariant
                    self.wf(),
                    row < self.rows,
                    col <= self.cols,
                    keep == self@.vacant(),
                    all == self@.points(),
                    cols == self@.cols,
                    0 <= row * cols + col <= self@.size(),
                    points_of(spots@) =~= all.take(row * cols + col).filter(keep),
                decreases self.cols - col,
            {
                let coord = Coordinate { x: col + 1, y: row + 1 };
                proof {
                    let place = row * cols + col;
                    lemma_index_for(self@, coord@);
                    assert(all[place] == coord@);
                    let seen = all.take(place);
                    assert(all.take(place + 1) =~= seen.push(coord@));
                    seen.lemma_filter_push(coord@, keep);
                }
                if !self.is_occupied(coord) {
                    spots.push(coord);
                }
                col += 1;
            }
            assert(row * cols + cols == (row + 1) * cols) by (nonlinear_arith);
            row += 1;
        }
        assert(row * cols == cols * self@.rows) by (nonlinear_arith)
            requires
                row == self@.rows,
        ;
        assert(all.take(row * cols) =~= all);
        spots
    }

    /// The free cell at place `pick` when the free cells are read row by
    /// row, or `None` if there are no more than `pick` of them.
    pub fn free_spot(&self, pick: usize) -> (spot: Option<Coordinate>)
        requires
            self.wf(),
        ensures
            match spot {
                Some(coord) => pick < self@.free_points().len() && coord@
                    == self@.free_points()[pick as int],
                None => pick >= self@.free_points().len(),
            },
    {
        let spots = self.free_spots();
        if pick < spots.len() {
            Some(spots[pick])
        } else {
            None
        }
    }

    /// The number of free cells.
    pub fn free_count(&self) -> (count: usize)
        requires
            self.wf(),
        ensures
            count == self@.free_points().len(),
    {
        self.free_spots().len()
    }

    /// A free cell of the grid, or `None` if the grid is full.
    ///
    /// The place of the cell among the free cells is drawn by
    /// `random_index`, so each free cell is as likely as every other as far
    /// as that draw is uniform. The contract cannot speak of likelihood: it
    /// says that the cell is free, whichever was drawn.
    pub fn random_free_spot(&self) -> (spot: Option<Coordinate>)
        requires
            self.wf(),
        ensures
            spot is None <==> self@.is_full(),
            spot matches Some(coord) ==> self@.in_bounds(coord@) && !self@.occupied(coord@),
    {
        proof {
            lemma_free_points(self@);
        }
        let count: usize = self.free_count();
        if count == 0 {
            None
        } else {
            self.free_spot(random_index(count))
        }
    }

    /// The middle cell of the grid, rounded down.
    pub fn center(&self) -> (c: Coordinate)
        ensures
            c@ == self@.center(),
    {
        Coordinate { x: self.cols / 2, y: self.rows / 2 }
    }
}

} // verus!
