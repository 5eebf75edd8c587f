//! The mathematical model of a game: what a state is, when it is sound, and
//! which states one tick or one turn can lead to.

use crate::direction::Direction;
use vstd::prelude::*;

verus! {

/// A cell of the board: `(x, y)`, column first.
pub type Position = (usize, usize);

/// A game as a mathematical value.
pub struct GameView {
    /// Number of columns.
    pub width: nat,
    /// Number of rows.
    pub height: nat,
    /// The cells of the snake, head first, tail last.
    pub body: Seq<Position>,
    /// The heading that the next tick applies.
    pub heading: Direction,
    /// The cell that holds the food.
    pub food: Position,
    /// Whether the game has ended.
    pub terminal: bool,
}

impl GameView {
    /// The pair `(x, y)` names a cell of the board.
    pub open spec fn on_board(self, x: int, y: int) -> bool {
        0 <= x < self.width && 0 <= y < self.height
    }

    /// `cell` lies on the board.
    pub open spec fn in_bounds(self, cell: Position) -> bool {
        self.on_board(cell.0 as int, cell.1 as int)
    }

    /// `cell` lies on the board and the snake is not on it.
    pub open spec fn vacant(self, cell: Position) -> bool {
        self.in_bounds(cell) && !self.body.contains(cell)
    }

    /// The snake covers every cell of the board.
    pub open spec fn board_full(self) -> bool {
        forall|cell: Position| #[trigger] self.in_bounds(cell) ==> self.body.contains(cell)
    }

    /// The board has a cell, the snake has a head, and the snake and the
    /// food are on the board.
    pub open spec fn laid_out(self) -> bool {
        &&& self.width > 0
        &&& self.height > 0
        &&& self.body.len() > 0
        &&& forall|i: int| 0 <= i < self.body.len() ==> self.in_bounds(#[trigger] self.body[i])
        &&& self.in_bounds(self.food)
    }

    /// Soundness of a state: it is laid out on the board, and the food lies
    /// under the snake only where the snake covers the board. Then the game
    /// has ended, or the snake is one cell long: the board of a single cell
    /// has no room for food even as the game begins.
    pub open spec fn inv(self) -> bool {
        &&& self.laid_out()
        &&& self.body.contains(self.food) ==> self.board_full() && (self.terminal
            || self.body.len() == 1)
    }

    /// A tick leaves such a state as it is: the game has ended, or there is
    /// no snake to move.
    pub open spec fn halted(self) -> bool {
        self.terminal || self.body.len() == 0
    }

    /// Where the heading takes the head, as a pair of integers that may lie
    /// off the board.
    pub open spec fn target(self) -> (int, int) {
        (self.body[0].0 + self.heading.step().0, self.body[0].1 + self.heading.step().1)
    }

    /// The next step would leave the board.
    pub open spec fn hits_wall(self) -> bool {
        !self.on_board(self.target().0, self.target().1)
    }

    /// The cell that the head enters, where the next step stays on the board.
    pub open spec fn next_head(self) -> Position {
        (self.target().0 as usize, self.target().1 as usize)
    }

    /// The next tick moves the snake without feeding it.
    pub open spec fn moves(self) -> bool {
        !self.halted() && !self.hits_wall() && self.next_head() != self.food
    }

    /// The next tick takes the head onto the food.
    pub open spec fn eats(self) -> bool {
        !self.halted() && !self.hits_wall() && self.next_head() == self.food
    }

    /// The next tick takes the head onto a cell that the snake still covers
    /// once the tick is over.
    pub open spec fn bites_itself(self) -> bool {
        ||| self.moves() && self.body.drop_last().contains(self.next_head())
        ||| self.eats() && self.body.contains(self.next_head())
    }

    /// The same state with the game ended.
    pub open spec fn ended(self) -> GameView {
        GameView { terminal: true, ..self }
    }

    /// The snake after a step that did not feed it: a new head in front, the
    /// last cell given up.
    pub open spec fn moved(self) -> GameView {
        GameView { body: seq![self.next_head()] + self.body.drop_last(), ..self }
    }

    /// The snake after a step onto the food: a new head in front, nothing
    /// given up.
    pub open spec fn grown(self) -> GameView {
        GameView { body: seq![self.next_head()] + self.body, ..self }
    }

    /// `pick` is a possible outcome of looking for a free cell: a vacant
    /// cell, or nothing on a full board.
    pub open spec fn admits(self, pick: Option<Position>) -> bool {
        match pick {
            Some(cell) => self.vacant(cell),
            None => self.board_full(),
        }
    }

    /// The state once the search for a free cell has come back: the food lies
    /// on the cell that was found, or the game has ended because none was.
    pub open spec fn with_food(self, pick: Option<Position>) -> GameView {
        match pick {
            Some(cell) => GameView { food: cell, ..self },
            None => self.ended(),
        }
    }

    /// What the search for a free cell came back with, read off the state
    /// that it led to: nothing where the game has ended, else the cell that
    /// holds the food.
    pub open spec fn food_pick(self) -> Option<Position> {
        if self.terminal {
            None
        } else {
            Some(self.food)
        }
    }

    /// `next` is what `self` becomes once a search for a free cell, made in
    /// `self`, has come back with one of the outcomes that `self` admits.
    pub open spec fn feeds_to(self, next: GameView) -> bool {
        self.admits(next.food_pick()) && next == self.with_food(next.food_pick())
    }

    /// `self` is a state that a game can begin in on the board that `origin`
    /// lays out with the snake still on the food. Where the snake leaves a
    /// cell free, the food has gone to a free cell; where it leaves none,
    /// the food has stayed under it. Either way the game is open.
    pub open spec fn begins_from(self, origin: GameView) -> bool {
        if origin.board_full() {
            self == origin
        } else {
            origin.feeds_to(self)
        }
    }

    /// `next` is a state that one tick can lead to from `self`. Only a step
    /// onto the food leaves a choice: the free cell that the new food is
    /// put on.
    pub open spec fn ticks_to(self, next: GameView) -> bool {
        if self.halted() {
            next == self
        } else if self.hits_wall() {
            next == self.ended()
        } else if self.next_head() != self.food {
            next == self.moved()
        } else {
            self.grown().feeds_to(next)
        }
    }

    /// The state after a request to head towards `direction`: a request to
    /// turn right around is ignored, any other is followed.
    pub open spec fn turned(self, direction: Direction) -> GameView {
        if direction == self.heading.opposite() {
            self
        } else {
            GameView { heading: direction, ..self }
        }
    }

    /// `next` is a state that one operation of the game, a tick or a turn,
    /// can lead to from `self`.
    pub open spec fn steps_to(self, next: GameView) -> bool {
        ||| self.ticks_to(next)
        ||| exists|direction: Direction| next == #[trigger] self.turned(direction)
    }
}

/// `a` comes before `b` when the board is read row by row from the top, each
/// row from the left.
pub open spec fn before_in_row_major(a: Position, b: Position) -> bool {
    a.1 < b.1 || (a.1 == b.1 && a.0 < b.0)
}

/// The cells of `cells` stand in the order in which the board is read, none
/// of them twice.
pub open spec fn row_major_sorted(cells: Seq<Position>) -> bool {
    forall|i: int, j: int|
        0 <= i < j < cells.len() ==> before_in_row_major(#[trigger] cells[i], #[trigger] cells[j])
}

/// A `width` by `height` board with the snake on its central cell, heading
/// left, before any food has been put down: the food is still under the snake.
pub open spec fn seed(width: nat, height: nat) -> GameView {
    let center = ((width / 2) as usize, (height / 2) as usize);
    GameView {
        width,
        height,
        body: seq![center],
        heading: Direction::Left,
        food: center,
        terminal: false,
    }
}

/// Putting the food where a search for a free cell has pointed makes a
/// laid-out state sound, whatever the search found.
pub proof fn lemma_placed_food_gives_inv(state: GameView, pick: Option<Position>)
    requires
        state.laid_out(),
        state.admits(pick),
    ensures
        state.with_food(pick).inv(),
{
    let next = state.with_food(pick);
    assert(next.body == state.body);
    if next.body.contains(next.food) {
        assert forall|cell: Position| #[trigger] next.in_bounds(cell) implies next.body.contains(
            cell,
        ) by {
            assert(state.in_bounds(cell));
        }
    }
}

/// A new game starts open and in a sound state, with the snake on the
/// central cell alone. On a board of more than one cell the food lies off the
/// snake. The board of one cell has no room for food: the food lies under the
/// snake there, and the first tick ends the game at the wall.
pub proof fn lemma_start(width: nat, height: nat, start: GameView)
    requires
        0 < width <= usize::MAX,
        0 < height <= usize::MAX,
        start.begins_from(seed(width, height)),
    ensures
        start.inv(),
        start.width == width,
        start.height == height,
        start.body == seq![((width / 2) as usize, (height / 2) as usize)],
        start.body.no_duplicates(),
        start.heading == Direction::Left,
        !start.terminal,
        seed(width, height).board_full() <==> width == 1 && height == 1,
        width > 1 || height > 1 ==> seed(width, height).feeds_to(start) && start.vacant(
            start.food,
        ),
        width == 1 && height == 1 ==> start.food == (0usize, 0usize) && start.hits_wall(),
{
    let origin = seed(width, height);
    let center = ((width / 2) as usize, (height / 2) as usize);
    assert(origin.body[0] == center);
    assert(origin.in_bounds(center));
    if width > 1 || height > 1 {
        let other: Position = if width > 1 {
            (0usize, center.1)
        } else {
            (center.0, 0usize)
        };
        assert(origin.in_bounds(other));
        assert(other != center);
        assert(!origin.body.contains(other));
        assert(!origin.board_full());
        lemma_placed_food_gives_inv(origin, start.food_pick());
    } else {
        assert forall|cell: Position| #[trigger] origin.in_bounds(cell) implies origin.body.contains(
            cell,
        ) by {
            assert(cell == center);
        }
        assert(origin.body.contains(center));
    }
}

/// In a sound state the food lies under the snake of an open game only on
/// the board of one cell, and the next tick then ends the game at the wall.
pub proof fn lemma_food_under_open_snake(state: GameView)
    requires
        state.inv(),
        !state.terminal,
        state.body.contains(state.food),
    ensures
        state.width == 1,
        state.height == 1,
        state.body == seq![(0usize, 0usize)],
        state.food == (0usize, 0usize),
        state.hits_wall(),
{
    let origin: Position = (0usize, 0usize);
    let beside: Position = (1usize, 0usize);
    let below: Position = (0usize, 1usize);
    assert(state.in_bounds(origin));
    assert(state.body.contains(origin));
    assert(state.body[0] == origin);
    if state.width > 1 {
        assert(state.in_bounds(beside));
        assert(state.body.contains(beside));
    }
    if state.height > 1 {
        assert(state.in_bounds(below));
        assert(state.body.contains(below));
    }
    assert(state.heading.step().0 != 0);
    assert(state.body =~= seq![origin]);
}

/// A tick takes a sound state to a sound state.
pub proof fn lemma_tick_preserves_inv(state: GameView, next: GameView)
    requires
        state.inv(),
        state.ticks_to(next),
    ensures
        next.inv(),
{
    if state.halted() {
    } else if state.hits_wall() {
        if next.body.contains(next.food) {
            assert forall|cell: Position| #[trigger] next.in_bounds(cell) implies next.body.contains(
                cell,
            ) by {
                assert(state.in_bounds(cell));
            }
        }
    } else if state.next_head() != state.food {
        let body = next.body;
        assert(body[0] == state.next_head());
        assert forall|i: int| 0 <= i < body.len() implies next.in_bounds(#[trigger] body[i]) by {
            if i > 0 {
                assert(body[i] == state.body[i - 1]);
            }
        }
        if state.body.contains(state.food) {
            lemma_food_under_open_snake(state);
        }
        if body.contains(next.food) {
            let i = choose|i: int| 0 <= i < body.len() && body[i] == next.food;
            assert(state.body[i - 1] == state.food);
        }
    } else {
        let grown = state.grown();
        assert(grown.body[0] == state.next_head());
        assert forall|i: int| 0 <= i < grown.body.len() implies grown.in_bounds(
            #[trigger] grown.body[i],
        ) by {
            if i > 0 {
                assert(grown.body[i] == state.body[i - 1]);
            }
        }
        lemma_placed_food_gives_inv(grown, next.food_pick());
    }
}

/// A turn, followed or ignored, takes a sound state to a sound state.
pub proof fn lemma_turn_preserves_inv(state: GameView, direction: Direction)
    requires
        state.inv(),
    ensures
        state.turned(direction).inv(),
{
    let next = state.turned(direction);
    assert(next.body == state.body);
    if next.body.contains(next.food) {
        assert forall|cell: Position| #[trigger] next.in_bounds(cell) implies next.body.contains(
            cell,
        ) by {
            assert(state.in_bounds(cell));
        }
    }
}

/// Every state of a game that began in a sound state is sound, however many
/// ticks and turns have led to it.
pub proof fn lemma_play_preserves_inv(play: Seq<GameView>)
    requires
        play.len() > 0,
        play[0].inv(),
        forall|i: int| 0 <= i < play.len() - 1 ==> (#[trigger] play[i]).steps_to(play[i + 1]),
    ensures
        forall|i: int| 0 <= i < play.len() ==> (#[trigger] play[i]).inv(),
    decreases play.len(),
{
    if play.len() > 1 {
        let earlier = play.drop_last();
        assert forall|i: int| 0 <= i < earlier.len() - 1 implies (#[trigger] earlier[i]).steps_to(
            earlier[i + 1],
        ) by {
            assert(play[i].steps_to(play[i + 1]));
        }
        lemma_play_preserves_inv(earlier);
        let before = play[play.len() - 2];
        let last = play[play.len() - 1];
        assert(earlier[play.len() - 2].inv());
        assert(before.steps_to(last));
        if before.ticks_to(last) {
            lemma_tick_preserves_inv(before, last);
        } else {
            let direction = choose|direction: Direction| last == #[trigger] before.turned(direction);
            lemma_turn_preserves_inv(before, direction);
        }
        assert forall|i: int| 0 <= i < play.len() implies (#[trigger] play[i]).inv() by {
            if i < play.len() - 1 {
                assert(earlier[i].inv());
            }
        }
    }
}

/// A snake that lies on no cell twice still does so after a tick, unless the
/// tick takes its head onto a cell that it keeps: nothing stops the snake
/// from running into itself.
pub proof fn lemma_tick_keeps_body_distinct(state: GameView, next: GameView)
    requires
        state.body.no_duplicates(),
        state.ticks_to(next),
    ensures
        next.body.no_duplicates() <==> !state.bites_itself(),
{
    if state.halted() || state.hits_wall() {
    } else {
        let kept = if state.next_head() != state.food {
            state.body.drop_last()
        } else {
            state.body
        };
        let head = state.next_head();
        assert(next.body == seq![head] + kept);
        assert(next.body[0] == head);
        assert(forall|i: int| 0 <= i < kept.len() ==> kept[i] == state.body[i]);
        assert(forall|i: int| 0 < i < next.body.len() ==> next.body[i] == kept[i - 1]);
        if kept.contains(head) {
            let k = choose|k: int| 0 <= k < kept.len() && kept[k] == head;
            assert(next.body[k + 1] == next.body[0]);
        } else {
            assert forall|i: int, j: int|
                0 <= i < next.body.len() && 0 <= j < next.body.len() && i != j implies next.body[i]
                != next.body[j] by {
                if i == 0 {
                    assert(kept[j - 1] == next.body[j]);
                } else if j == 0 {
                    assert(kept[i - 1] == next.body[i]);
                } else {
                    assert(state.body[i - 1] != state.body[j - 1]);
                }
            }
        }
    }
}

/// A snake that lay on no cell twice when the game began still does so after
/// any number of ticks and turns, as long as none of its steps took it onto
/// itself.
pub proof fn lemma_play_keeps_body_distinct(play: Seq<GameView>)
    requires
        play.len() > 0,
        play[0].body.no_duplicates(),
        forall|i: int| 0 <= i < play.len() - 1 ==> (#[trigger] play[i]).steps_to(play[i + 1]),
        forall|i: int| 0 <= i < play.len() - 1 ==> !(#[trigger] play[i]).bites_itself(),
    ensures
        forall|i: int| 0 <= i < play.len() ==> (#[trigger] play[i]).body.no_duplicates(),
    decreases play.len(),
{
    if play.len() > 1 {
        let earlier = play.drop_last();
        assert forall|i: int| 0 <= i < earlier.len() - 1 implies (#[trigger] earlier[i]).steps_to(
            earlier[i + 1],
        ) by {
            assert(play[i].steps_to(play[i + 1]));
        }
        assert forall|i: int| 0 <= i < earlier.len() - 1 implies !(#[trigger] earlier[i]).bites_itself() by {
            assert(!play[i].bites_itself());
        }
        lemma_play_keeps_body_distinct(earlier);
        let before = play[play.len() - 2];
        let last = play[play.len() - 1];
        assert(earlier[play.len() - 2].body.no_duplicates());
        assert(before.steps_to(last));
        assert(!before.bites_itself());
        if before.ticks_to(last) {
            lemma_tick_keeps_body_distinct(before, last);
        } else {
            let direction = choose|direction: Direction| last == #[trigger] before.turned(direction);
            assert(last.body == before.body);
        }
        assert forall|i: int| 0 <= i < play.len() implies (#[trigger] play[i]).body.no_duplicates() by {
            if i < play.len() - 1 {
                assert(earlier[i].body.no_duplicates());
            }
        }
    }
}

/// A sound snake that is fed does not bite itself: where the food lies
/// under the snake of an open game, no step leads onto it.
pub proof fn lemma_fed_snake_is_distinct(state: GameView, next: GameView)
    requires
        state.inv(),
        state.body.no_duplicates(),
        state.eats(),
        state.ticks_to(next),
    ensures
        next.body.no_duplicates(),
{
    if state.body.contains(state.food) {
        // The snake is one cell long and lies on the food: no step leads there.
        lemma_food_under_open_snake(state);
    }
    lemma_tick_keeps_body_distinct(state, next);
}

/// A game that has ended stays as it is, however many ticks follow.
pub proof fn lemma_ended_game_stays(play: Seq<GameView>)
    requires
        play.len() > 0,
        play[0].terminal,
        forall|i: int| 0 <= i < play.len() - 1 ==> (#[trigger] play[i]).ticks_to(play[i + 1]),
    ensures
        forall|i: int| 0 <= i < play.len() ==> #[trigger] play[i] == play[0],
    decreases play.len(),
{
    if play.len() > 1 {
        let earlier = play.drop_last();
        assert forall|i: int| 0 <= i < earlier.len() - 1 implies (#[trigger] earlier[i]).ticks_to(
            earlier[i + 1],
        ) by {
            assert(play[i].ticks_to(play[i + 1]));
        }
        lemma_ended_game_stays(earlier);
        assert(earlier[play.len() - 2] == earlier[0]);
        assert(play[play.len() - 2].ticks_to(play[play.len() - 1]));
        assert forall|i: int| 0 <= i < play.len() implies #[trigger] play[i] == play[0] by {
            if i < play.len() - 1 {
                assert(earlier[i] == earlier[0]);
            }
        }
    }
}

} // verus!
