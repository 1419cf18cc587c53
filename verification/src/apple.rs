//! The apple: the one piece of food on the grid.

use vstd::prelude::*;
use crate::coordinate::{Coordinate, Point};
use crate::grid::{lemma_bumped, lemma_marked, Glyph, Grid, GridResult, GridView, Outcome};

verus! {

/// The mathematical model of an [`Apple`].
pub struct AppleView {
    pub at: Point,
    pub placed: bool,
}

impl AppleView {
    /// The apple that has not been put anywhere yet.
    pub open spec fn fresh() -> AppleView {
        AppleView { at: Point { x: 1, y: 1 }, placed: false }
    }

    /// Whether a rendering onto `grid` gives the apple a new place.
    pub open spec fn takes_place(self, grid: GridView) -> bool {
        !self.placed && !grid.is_full()
    }

    /// One rendering of the apple onto `grid`, where `spot` is the cell that
    /// an apple without a place is given.
    ///
    /// An apple without a place stays out of a full grid. Otherwise it is
    /// drawn at its place, old or new. If that cell is taken, the snake has
    /// reached the apple: the apple loses its place and the outcome is
    /// `Grow`.
    pub open spec fn rendered(self, grid: GridView, spot: Point) -> (AppleView, GridView, Outcome) {
        if !self.placed && grid.is_full() {
            (self, grid, Outcome::Step)
        } else {
            let at = if self.placed {
                self.at
            } else {
                spot
            };
            if grid.occupied(at) {
                (AppleView { at, placed: false }, grid.bumped(), Outcome::Grow)
            } else {
                (AppleView { at, placed: true }, grid.marked(at, Some(Glyph::Apple)), Outcome::Step)
            }
        }
    }
}

/// What a rendering of the apple keeps, if the cell given to an apple that
/// takes a new place is free. The grid keeps its size and its invariant,
/// and every point that was taken stays taken. The outcome is never a
/// collision. It is `Grow` exactly if the apple had a place that was taken;
/// the apple is then without a place, and nothing is taken or drawn.
/// Otherwise an apple that is on the grid afterwards is the one point that
/// is newly taken and the one glyph that is newly drawn. Where the old
/// place of the apple lay on the grid, the new one does, and what was drawn
/// on the grid stays there.
pub proof fn lemma_apple_rendered(apple: AppleView, grid: GridView, spot: Point)
    requires
        grid.wf(),
        apple.takes_place(grid) ==> grid.is_free(spot),
    ensures
        apple.rendered(grid, spot).1.wf(),
        apple.rendered(grid, spot).1.cols == grid.cols,
        apple.rendered(grid, spot).1.rows == grid.rows,
        apple.rendered(grid, spot).2 !is Collision,
        apple.rendered(grid, spot).2 is Grow <==> apple.placed && grid.occupied(apple.at),
        apple.rendered(grid, spot).2 is Grow ==> !apple.rendered(grid, spot).0.placed
            && apple.rendered(grid, spot).1.taken == grid.taken && apple.rendered(
            grid,
            spot,
        ).1.drawn == grid.drawn,
        forall|p: Point|
            #[trigger] apple.rendered(grid, spot).1.occupied(p) <==> grid.occupied(p) || (
            apple.rendered(grid, spot).0.placed && p == apple.rendered(grid, spot).0.at),
        apple.placed ==> grid.in_bounds(apple.at) ==> {
            &&& apple.rendered(grid, spot).0.placed ==> grid.in_bounds(
                apple.rendered(grid, spot).0.at,
            )
            &&& grid.within() ==> apple.rendered(grid, spot).1.within()
        },
{
    let (after, drawn, outcome) = apple.rendered(grid, spot);
    if after.placed {
        lemma_marked(grid, after.at, Some(Glyph::Apple));
    } else {
        lemma_bumped(grid);
    }
}

/// The apple. It keeps its place from frame to frame until the snake
/// reaches it, and is then put on a free cell in the next frame.
pub struct Apple {
    position: Coordinate,
    placed: bool,
}

impl View for Apple {
    type V = AppleView;

    closed spec fn view(&self) -> AppleView {
        AppleView { at: self.position@, placed: self.placed }
    }
}

impl Apple {
    /// Creates an apple without a place.
    pub fn new() -> (apple: Apple)
        ensures
            apple@ == AppleView::fresh(),
    {
        Apple { position: Coordinate { x: 1, y: 1 }, placed: false }
    }

    /// The cell of the apple. It means something only while the apple has
    /// a place.
    pub fn position(&self) -> (c: Coordinate)
        ensures
            c@ == self@.at,
    {
        self.position
    }

    /// Whether the apple has a place.
    pub fn is_placed(&self) -> (b: bool)
        ensures
            b == self@.placed,
    {
        self.placed
    }

    /// Renders the apple: gives it a random free cell if it has no place,
    /// and draws it. Returns `Grow` if its cell was taken, else `Step`.
    pub fn render(&mut self, grid: &mut Grid) -> (result: GridResult)
        requires
            old(grid).wf(),
        ensures
            (final(self)@, final(grid)@, result@) == old(self)@.rendered(
                old(grid)@,
                final(self)@.at,
            ),
            old(self)@.takes_place(old(grid)@) ==> old(grid)@.is_free(final(self)@.at),
            final(grid).wf(),
    {
        if !self.placed {
            match grid.random_free_spot() {
                Some(spot) => {
                    self.position = spot;
                    self.placed = true;
                },
                None => {
                    return GridResult::Step;
                },
            }
        }
        match grid.draw(self.position, Glyph::Apple) {
            GridResult::Collision(_) => {
                self.placed = false;
                GridResult::Grow
            },
            other => other,
        }
    }
}

} // verus!
