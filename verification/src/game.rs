//! The executable game.

use crate::direction::{get_opposite_direction, Direction};
use crate::model::{
    before_in_row_major, lemma_placed_food_gives_inv, lemma_start, lemma_tick_keeps_body_distinct,
    lemma_tick_preserves_inv, lemma_turn_preserves_inv, row_major_sorted, seed, GameView, Position,
};
use crate::random::{choose_among, rand_position};
use std::collections::VecDeque;
use vstd::prelude::*;

verus! {

/// Whether `a` and `b` are the same cell.
pub fn same_cell(a: Position, b: Position) -> (same: bool)
    ensures
        same == (a == b),
{
    a.0 == b.0 && a.1 == b.1
}

/// A game of snake on a board of fixed size.
#[derive(Debug)]
pub struct SnakeGame {
    width: usize,
    height: usize,
    snake: VecDeque<Position>,
    snake_direction: Direction,
    food: Position,
    game_over: bool,
}

impl View for SnakeGame {
    type V = GameView;

    closed spec fn view(&self) -> GameView {
        GameView {
            width: self.width as nat,
            height: self.height as nat,
            body: self.snake@,
            heading: self.snake_direction,
            food: self.food,
            terminal: self.game_over,
        }
    }
}

impl SnakeGame {
    /// The game is in a sound state.
    pub open spec fn wf(&self) -> bool {
        self@.inv()
    }

    /// Starts a game on a board of `width` columns and `height` rows. The
    /// game is open, and the snake is one cell long, lies on the central cell
    /// and heads left. The food lies on a free cell drawn at random, each
    /// with the same chance.
    ///
    /// A board of a single cell leaves no room for food: there the food lies
    /// under the snake, and the first tick ends the game at the wall.
    pub fn new(width: usize, height: usize) -> (game: SnakeGame)
        requires
            width > 0,
            height > 0,
        ensures
            game@.begins_from(seed(width as nat, height as nat)),
            game.wf(),
            game@.width == width,
            game@.height == height,
            game@.body == seq![(width / 2, height / 2)],
            game@.body.no_duplicates(),
            game@.heading == Direction::Left,
            !game@.terminal,
            width > 1 || height > 1 ==> seed(width as nat, height as nat).feeds_to(game@)
                && game@.vacant(game@.food),
            width == 1 && height == 1 ==> game@.food == (0usize, 0usize),
    {
        let center = (width / 2, height / 2);
        let mut snake: VecDeque<Position> = VecDeque::new();
        snake.push_front(center);
        let mut game = SnakeGame {
            width,
            height,
            snake,
            snake_direction: Direction::Left,
            food: center,
            game_over: false,
        };
        // A draw that lands on the snake is made again among the free cells
        // only, which leaves every free cell the same chance.
        let drawn = rand_position(width, height);
        let pick = if same_cell(drawn, center) {
            game.get_unoccupied_position()
        } else {
            Some(drawn)
        };
        if pick.is_some() {
            game.place_food(pick);
        }
        proof {
            lemma_start(width as nat, height as nat, game@);
        }
        game
    }

    /// Starts a game as [`SnakeGame::new`] does, on any pair of sizes: a
    /// board without columns or without rows is refused.
    pub fn try_new(width: usize, height: usize) -> (made: Option<SnakeGame>)
        ensures
            made is None <==> width == 0 || height == 0,
            made matches Some(game) ==> {
                &&& game@.begins_from(seed(width as nat, height as nat))
                &&& game.wf()
                &&& game@.width == width
                &&& game@.height == height
                &&& game@.body == seq![(width / 2, height / 2)]
                &&& game@.body.no_duplicates()
                &&& game@.heading == Direction::Left
                &&& !game@.terminal
                &&& width > 1 || height > 1 ==> seed(width as nat, height as nat).feeds_to(game@)
                    && game@.vacant(game@.food)
                &&& width == 1 && height == 1 ==> game@.food == (0usize, 0usize)
            },
    {
        if width == 0 || height == 0 {
            None
        } else {
            Some(SnakeGame::new(width, height))
        }
    }

    /// Asks the snake to head towards `direction` from the next tick on. The
    /// snake cannot turn right around: a request for the opposite of its
    /// heading is ignored. Of several requests between two ticks the last
    /// one that was followed counts.
    pub fn change_direction(&mut self, direction: Direction)
        ensures
            final(self)@ == old(self)@.turned(direction),
            direction == old(self)@.heading.opposite() ==> final(self)@ == old(self)@,
            direction != old(self)@.heading.opposite() ==> final(self)@.heading == direction,
            old(self).wf() ==> final(self).wf(),
    {
        proof {
            if self.wf() {
                lemma_turn_preserves_inv(self@, direction);
            }
        }
        if get_opposite_direction(&self.snake_direction) == direction {
            return;
        }
        self.snake_direction = direction
    }

    /// Advances the game by one step.
    ///
    /// Nothing happens once the game has ended. Otherwise the head moves one
    /// cell along the heading. A step off the board ends the game and leaves
    /// the snake where it was. A step onto the food lets the snake grow by
    /// the new head; the food then goes to a free cell drawn at random, and
    /// the game ends where the snake has left none. Any other step moves the
    /// snake on: it gains the new head and gives up its last cell. The snake
    /// may run into itself; that does not end the game.
    pub fn tick(&mut self)
        ensures
            old(self)@.ticks_to(final(self)@),
            old(self).wf() ==> final(self).wf(),
            old(self)@.halted() ==> final(self)@ == old(self)@,
            !old(self)@.halted() && old(self)@.hits_wall() ==> final(self)@ == old(self)@.ended(),
            old(self)@.moves() ==> final(self)@ == old(self)@.moved() && final(self)@.body.len()
                == old(self)@.body.len(),
            old(self)@.eats() ==> final(self)@.body == seq![old(self)@.food] + old(self)@.body
                && final(self)@.body.len() == old(self)@.body.len() + 1,
            old(self)@.eats() && !old(self)@.grown().board_full() ==> !final(self)@.terminal
                && final(self)@.vacant(final(self)@.food),
            old(self)@.eats() && old(self)@.grown().board_full() ==> final(self)@.terminal
                && final(self)@.food == old(self)@.food,
            old(self)@.body.no_duplicates() ==> (final(self)@.body.no_duplicates()
                <==> !old(self)@.bites_itself()),
    {
        if self.game_over {
            return;
        }
        if self.snake.len() == 0 {
            return;
        }
        let head = self.snake[0];

        let (dx, dy) = self.snake_direction.delta();

        if !self.is_valid_move(head, dx, dy) {
            self.game_over = true;
            proof {
                if old(self).wf() {
                    lemma_tick_preserves_inv(old(self)@, self@);
                }
            }
            return;
        }
        let new_head = (
            (head.0 as i128 + dx as i128) as usize,
            (head.1 as i128 + dy as i128) as usize,
        );
        self.snake.push_front(new_head);

        if same_cell(new_head, self.food) {
            let new_food = self.get_unoccupied_position();
            self.place_food(new_food);
        } else {
            self.snake.pop_back();
            assert(self@.body == old(self)@.moved().body);
        }
        proof {
            if old(self)@.body.no_duplicates() {
                lemma_tick_keeps_body_distinct(old(self)@, self@);
            }
            if old(self).wf() {
                lemma_tick_preserves_inv(old(self)@, self@);
            }
        }
    }

    /// Number of columns of the board.
    pub fn width(&self) -> (width: usize)
        ensures
            width == self@.width,
    {
        self.width
    }

    /// Number of rows of the board.
    pub fn height(&self) -> (height: usize)
        ensures
            height == self@.height,
    {
        self.height
    }

    /// The cells of the snake, head first.
    pub fn snake(&self) -> (body: Vec<Position>)
        ensures
            body@ == self@.body,
    {
        let mut body: Vec<Position> = Vec::new();
        let mut i: usize = 0;
        while i < self.snake.len()
            invariant
                i <= self.snake@.len(),
                body@ == self.snake@.subrange(0, i as int),
            decreases self.snake@.len() - i,
        {
            body.push(self.snake[i]);
            i += 1;
        }
        body
    }

    /// The heading that the next tick applies.
    pub fn direction(&self) -> (heading: Direction)
        ensures
            heading == self@.heading,
    {
        self.snake_direction
    }

    /// The cell that holds the food.
    pub fn food(&self) -> (food: Position)
        ensures
            food == self@.food,
    {
        self.food
    }

    /// Whether the game has ended.
    pub fn is_game_over(&self) -> (over: bool)
        ensures
            over == self@.terminal,
    {
        self.game_over
    }

    /// Whether the snake lies on `cell`.
    pub fn occupies(&self, cell: Position) -> (hit: bool)
        ensures
            hit == self@.body.contains(cell),
    {
        let mut i: usize = 0;
        while i < self.snake.len()
            invariant
                i <= self.snake@.len(),
                forall|j: int| 0 <= j < i ==> self.snake@[j] != cell,
            decreases self.snake@.len() - i,
        {
            let segment = self.snake[i];
            if same_cell(segment, cell) {
                return true;
            }
            i += 1;
        }
        false
    }

    /// The free cells of the board, row by row from the top, each row from
    /// the left.
    pub fn unoccupied_positions(&self) -> (cells: Vec<Position>)
        ensures
            forall|cell: Position| cells@.contains(cell) <==> self@.vacant(cell),
            row_major_sorted(cells@),
    {
        let mut cells: Vec<Position> = Vec::new();
        let mut y: usize = 0;
        while y < self.height
            invariant
                y <= self.height,
                forall|cell: Position|
                    cells@.contains(cell) <==> self@.vacant(cell) && cell.1 < y,
                row_major_sorted(cells@),
            decreases self.height - y,
        {
            let mut x: usize = 0;
            while x < self.width
                invariant
                    x <= self.width,
                    y < self.height,
                    forall|cell: Position|
                        cells@.contains(cell) <==> self@.vacant(cell) && (cell.1 < y || (cell.1
                            == y && cell.0 < x)),
                    row_major_sorted(cells@),
                decreases self.width - x,
            {
                let ghost before = cells@;
                let occupied = self.occupies((x, y));
                if !occupied {
                    cells.push((x, y));
                    proof {
                        assert(cells@[before.len() as int] == (x, y));
                        assert forall|cell: Position| cells@.contains(cell) implies before.contains(
                            cell,
                        ) || cell == (x, y) by {
                            let i = choose|i: int| 0 <= i < cells@.len() && cells@[i] == cell;
                            if i < before.len() {
                                assert(before[i] == cell);
                            }
                        }
                        assert forall|cell: Position| before.contains(cell) implies cells@.contains(
                            cell,
                        ) by {
                            let i = choose|i: int| 0 <= i < before.len() && before[i] == cell;
                            assert(cells@[i] == cell);
                        }
                        assert forall|i: int, j: int| 0 <= i < j < cells@.len() implies before_in_row_major(
                            cells@[i],
                            cells@[j],
                        ) by {
                            if j == before.len() {
                                assert(before.contains(before[i]));
                            } else {
                                assert(before_in_row_major(before[i], before[j]));
                            }
                        }
                    }
                }
                proof {
                    assert forall|cell: Position|
                        cells@.contains(cell) <==> self@.vacant(cell) && (cell.1 < y || (cell.1
                            == y && cell.0 < x + 1)) by {
                        if cell.1 == y && cell.0 == x {
                            assert(cell == (x, y));
                        }
                        if !occupied {
                            assert(cells@.contains(cell) <==> before.contains(cell) || cell == (
                                x,
                                y,
                            ));
                        }
                    }
                }
                x += 1;
            }
            y += 1;
        }
        cells
    }
    /// Whether the cell that lies `dx` columns and `dy` rows from `position`
    /// is on the board.
    pub fn is_valid_move(&self, position: Position, dx: i32, dy: i32) -> (valid: bool)
        ensures
            valid == self@.on_board(position.0 + dx, position.1 + dy),
    {
        let new_x: i128 = position.0 as i128 + dx as i128;
        let new_y: i128 = position.1 as i128 + dy as i128;
        0 <= new_x && new_x < self.width as i128 && 0 <= new_y && new_y < self.height as i128
    }

    /// Draws a free cell at random, each with the same chance. There is
    /// nothing to draw exactly when the snake covers the board.
    pub fn get_unoccupied_position(&self) -> (pick: Option<Position>)
        ensures
            self@.admits(pick),
    {
        let candidates = self.unoccupied_positions();
        let mut rng = rand::thread_rng();
        let pick = choose_among(&mut rng, &candidates);
        proof {
            match pick {
                Some(cell) => {},
                None => {
                    assert forall|cell: Position| #[trigger]
                        self@.in_bounds(cell) implies self@.body.contains(cell) by {
                        if self@.vacant(cell) {
                            assert(candidates@.contains(cell));
                        }
                    }
                },
            }
        }
        pick
    }

    /// Settles the game once a search for a free cell has come back with
    /// `pick`: the food goes to the cell that was found, or the game ends
    /// because none was. This is the last step of starting a game and of a
    /// tick that fed the snake.
    ///
    /// The result is sound where `pick` is an outcome that such a search can
    /// have. Nothing stops a caller from handing in another cell; the
    /// state is then what the contract says, sound or not.
    pub fn place_food(&mut self, pick: Option<Position>)
        ensures
            final(self)@ == old(self)@.with_food(pick),
            old(self)@.laid_out() && old(self)@.admits(pick) ==> final(self).wf(),
    {
        proof {
            if self@.laid_out() && self@.admits(pick) {
                lemma_placed_food_gives_inv(self@, pick);
            }
        }
        if let Some(new_food) = pick {
            self.food = new_food;
        } else {
            self.game_over = true;
        }
    }
}

} // verus!
