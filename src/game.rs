//! A play session: the board, the mistake and success counters, and the
//! failed attempts.
use crate::board::{
    board_wf, card_state, first_open, matched_prefix, moved, open_card, select_result, selected,
    test_result, Board, BoardView, Card, SelectionFailiure,
};
use crate::codec::{decoded, encoded, TranscodingError};
use crate::color::{color_index, Color};
use crate::puzzle::{default_puzzle_fields, group_of, ConnectionPuzzle, ConnectionSet, PuzzleRef};
use crate::selection::{matched_count, same_cards, Selection, SelectionError};
use vstd::prelude::*;

verus! {

/// A match of four cards of one color.
#[derive(Copy, Clone, PartialEq, Eq, Structural, Debug)]
pub enum SelectionSuccess {
    /// The last group is matched: the game is won.
    Won(Color),
    /// A group is matched and others are left.
    Matched(Color),
}

/// Why a submitted selection is no match.
#[derive(Copy, Clone, PartialEq, Eq, Structural, Debug)]
pub enum GameFailiure {
    /// At most two of the cards share the color of the first one.
    Mismatch,
    /// Fewer than four cards are selected.
    NotEnough,
    /// Exactly three of the cards share the color of the first one.
    OneAway,
    /// The fourth mistake: the game is lost.
    Lost,
    /// The same cards were submitted before and failed.
    AlreadyTried,
}

impl From<SelectionFailiure> for GameFailiure {
    /// The game's name for a failed selection.
    fn from(failure: SelectionFailiure) -> (r: GameFailiure) {
        match failure {
            SelectionFailiure::Mismatch => GameFailiure::Mismatch,
            SelectionFailiure::NotEnough => GameFailiure::NotEnough,
            SelectionFailiure::OneAway => GameFailiure::OneAway,
        }
    }
}

impl vstd::std_specs::convert::FromSpecImpl<SelectionFailiure> for GameFailiure {
    open spec fn obeys_from_spec() -> bool {
        true
    }

    open spec fn from_spec(failure: SelectionFailiure) -> GameFailiure {
        match failure {
            SelectionFailiure::Mismatch => GameFailiure::Mismatch,
            SelectionFailiure::NotEnough => GameFailiure::NotEnough,
            SelectionFailiure::OneAway => GameFailiure::OneAway,
        }
    }
}

/// The number of mistakes that loses a game.
pub const MISTAKE_BUDGET: u8 = 4;

/// The state of a session, as its contracts see it.
pub struct GameView {
    pub board: BoardView,
    pub mistakes: int,
    pub successes: int,
    /// The failed selections of four cards, oldest first.
    pub attempts: Seq<Seq<PuzzleRef>>,
}

/// The invariant of a session.
pub open spec fn game_wf(g: GameView) -> bool {
    &&& board_wf(g.board)
    &&& 0 <= g.mistakes <= 4
    &&& g.successes == matched_count(g.board.matched)
}

/// Whether the selection holds the same cards as a failed attempt.
pub open spec fn already_tried(g: GameView) -> bool {
    exists|i: int| 0 <= i < g.attempts.len() && same_cards(#[trigger] g.attempts[i], g.board.selection)
}

/// Whether submitting the selection counts as a mistake: four cards, not
/// tried before, and no match.
pub open spec fn counted_failure(g: GameView) -> bool {
    &&& !already_tried(g)
    &&& g.board.selection.len() == 4
    &&& test_result(g.board) is Err
}

/// The mistake counter after one more mistake; it stops at the budget.
pub open spec fn mistakes_after(g: GameView) -> int {
    if g.mistakes + 1 >= 4 {
        4
    } else {
        g.mistakes + 1
    }
}

/// What submitting the selection returns.
pub open spec fn check_result(g: GameView) -> Result<SelectionSuccess, GameFailiure> {
    if already_tried(g) {
        Err(GameFailiure::AlreadyTried)
    } else {
        match test_result(g.board) {
            Ok(c) => if g.successes == 3 {
                Ok(SelectionSuccess::Won(c))
            } else {
                Ok(SelectionSuccess::Matched(c))
            },
            Err(SelectionFailiure::NotEnough) => Err(GameFailiure::NotEnough),
            Err(f) => if g.mistakes >= 3 {
                Err(GameFailiure::Lost)
            } else if f == SelectionFailiure::OneAway {
                Err(GameFailiure::OneAway)
            } else {
                Err(GameFailiure::Mismatch)
            },
        }
    }
}

/// A fresh session of a puzzle: no mistake, no match, nothing chosen, no
/// attempt.
pub open spec fn fresh(g: GameView, puzzle: Seq<Seq<char>>) -> bool {
    &&& game_wf(g)
    &&& g.board.puzzle == puzzle
    &&& g.board.selection == Seq::<PuzzleRef>::empty()
    &&& g.board.matched == seq![false, false, false, false]
    &&& g.mistakes == 0
    &&& g.successes == 0
    &&& g.attempts == Seq::<Seq<PuzzleRef>>::empty()
}

/// The same session, with only the selection changed.
pub open spec fn with_selection(g: GameView, b: BoardView) -> GameView {
    GameView { board: b, ..g }
}

/// The views of a list of selections.
pub open spec fn attempt_views(v: Seq<Selection>) -> Seq<Seq<PuzzleRef>> {
    v.map_values(|s: Selection| s@)
}

/// A play session over one puzzle.
#[derive(Debug)]
pub struct GameState {
    mistakes: u8,
    successes: u8,
    board: Board,
    prev_attempts: Vec<Selection>,
}

impl View for GameState {
    type V = GameView;

    closed spec fn view(&self) -> GameView {
        GameView {
            board: self.board@,
            mistakes: self.mistakes as int,
            successes: self.successes as int,
            attempts: attempt_views(self.prev_attempts@),
        }
    }
}

impl GameState {
    /// A fresh session of a puzzle, its cards shuffled.
    pub fn new(puzzle: ConnectionPuzzle) -> (r: GameState)
        ensures
            fresh(r@, puzzle@),
    {
        let board = Board::new(puzzle);
        let r = GameState { mistakes: 0, successes: 0, board, prev_attempts: Vec::new() };
        assert(r@.attempts =~= Seq::<Seq<PuzzleRef>>::empty());
        r
    }

    /// A fresh session of the puzzle that is played when no code is given.
    pub fn default() -> (r: GameState)
        ensures
            fresh(r@, default_puzzle_fields()),
    {
        let puzzle = ConnectionPuzzle::default();
        GameState::new(puzzle)
    }

    /// A session of the placeholder puzzle, its cards in order.
    pub fn empty() -> (r: GameState)
        ensures
            fresh(r@, ConnectionPuzzle::empty_fields()),
    {
        let board = Board::empty();
        let r = GameState { board, mistakes: 0, successes: 0, prev_attempts: Vec::new() };
        assert(r@.attempts =~= Seq::<Seq<PuzzleRef>>::empty());
        r
    }

    /// A fresh session of the puzzle of a code.
    pub fn from_code(code: &str) -> (r: Result<GameState, TranscodingError>)
        ensures
            r matches Ok(g) ==> decoded(code@) == Ok::<Seq<Seq<char>>, TranscodingError>(
                g@.board.puzzle,
            ) && fresh(g@, g@.board.puzzle),
            r matches Err(e) ==> decoded(code@) == Err::<Seq<Seq<char>>, TranscodingError>(e),
            forall|f: Seq<Seq<char>>|
                f.len() == 20 && code@ == #[trigger] encoded(f) ==> (r matches Ok(g)
                    && g@.board.puzzle == f),
    {
        let puzzle = ConnectionPuzzle::decode(code)?;
        Ok(GameState::new(puzzle))
    }

    /// The code of the session's puzzle.
    pub fn puzzle_code(&self) -> (r: String)
        ensures
            r@ == encoded(self@.board.puzzle),
    {
        self.board.encode()
    }

    /// The number of mistakes made.
    pub fn mistakes(&self) -> (r: u8)
        ensures
            r as int == self@.mistakes,
    {
        self.mistakes
    }

    /// The number of groups matched.
    pub fn successes(&self) -> (r: u8)
        ensures
            r as int == self@.successes,
    {
        self.successes
    }

    /// The number of chosen cards.
    pub fn selection_len(&self) -> (r: usize)
        ensures
            r == self@.board.selection.len(),
    {
        self.board.selection().len()
    }

    /// Selects the card at `index`, counted from the first card that is not
    /// matched (matched cards cannot be addressed): takes it out of the
    /// selection if it is in, adds it if fewer than four cards are chosen,
    /// and fails with `Full` otherwise. Returns the number of chosen cards.
    pub fn select(&mut self, index: usize) -> (r: Result<usize, SelectionError>)
        requires
            game_wf(old(self)@),
            first_open(old(self)@.board) + index < 16,
        ensures
            game_wf(final(self)@),
            final(self)@ == with_selection(old(self)@, selected(old(self)@.board, index as int)),
            r == select_result(old(self)@.board, index as int),
            final(self)@.board.selection.len() <= 4,
    {
        self.board.select(index)
    }

    /// The word of the card shown at a position of the order, matched
    /// groups included.
    pub fn card_text(&self, index: usize) -> (r: String)
        requires
            game_wf(self@),
            index < 16,
        ensures
            r@ == self@.board.puzzle[5 * color_index(self@.board.order[index as int].color)
                + self@.board.order[index as int].word_index + 1],
    {
        self.board.get_word(index).to_owned()
    }

    /// The card shown at a position of the order, matched groups included.
    pub fn get(&self, index: usize) -> (r: Card)
        requires
            game_wf(self@),
            index < 16,
        ensures
            r.color == self@.board.order[index as int].color,
            r.word@ == self@.board.puzzle[5 * color_index(r.color)
                + self@.board.order[index as int].word_index + 1],
            r.theme@ == self@.board.puzzle[5 * color_index(r.color)],
            r.state == card_state(self@.board, self@.board.order[index as int]),
    {
        self.board.get(index)
    }

    /// The number of matched groups; the cards that are not matched start at
    /// four times this position.
    pub fn num_matched(&self) -> (r: usize)
        requires
            game_wf(self@),
        ensures
            r as int == self@.successes,
            4 * r == first_open(self@.board),
    {
        self.board.num_matched()
    }

    /// The positions, counted from the first card that is not matched, of
    /// the chosen cards, in increasing order.
    pub fn get_selection_indices(&self) -> (r: Vec<usize>)
        requires
            game_wf(self@),
        ensures
            forall|k: int, l: int| 0 <= k < l < r.len() ==> r@[k] < r@[l],
            forall|k: int|
                0 <= k < r.len() ==> first_open(self@.board) + r@[k] < 16
                    && self@.board.selection.contains(
                    #[trigger] open_card(self@.board, r@[k] as int),
                ),
            forall|i: int|
                0 <= i && first_open(self@.board) + i < 16 && self@.board.selection.contains(
                    #[trigger] open_card(self@.board, i),
                ) ==> r@.contains(i as usize),
    {
        self.board.selection_indices()
    }

    /// A copy of the group of a color.
    pub fn connection_set(&self, color: Color) -> (r: ConnectionSet)
        ensures
            r@ == group_of(self@.board.puzzle, color),
    {
        self.board.set(color).duplicate()
    }

    /// Whether the selection holds the same cards as a failed attempt.
    fn tried_before(&self) -> (r: bool)
        ensures
            r == already_tried(self@),
    {
        let mut i: usize = 0;
        while i < self.prev_attempts.len()
            invariant
                i <= self.prev_attempts.len(),
                forall|j: int|
                    0 <= j < i ==> !same_cards(
                        #[trigger] self@.attempts[j],
                        self@.board.selection,
                    ),
            decreases self.prev_attempts.len() - i,
        {
            if self.prev_attempts[i].same_cards(self.board.selection()) {
                proof {
                    assert(same_cards(self@.attempts[i as int], self@.board.selection));
                }
                return true;
            }
            i = i + 1;
        }
        false
    }

    /// Counts a mistake and keeps the failed selection.
    fn record_mistake(&mut self)
        requires
            game_wf(old(self)@),
        ensures
            game_wf(final(self)@),
            final(self)@ == (GameView {
                mistakes: mistakes_after(old(self)@),
                attempts: old(self)@.attempts.push(old(self)@.board.selection),
                ..old(self)@
            }),
    {
        let attempt = self.board.selection().duplicate();
        self.prev_attempts.push(attempt);
        if self.mistakes < MISTAKE_BUDGET {
            self.mistakes = self.mistakes + 1;
        }
        assert(self@.attempts =~= old(self)@.attempts.push(old(self)@.board.selection));
    }

    /// Submits the selection. A selection that holds the same cards as a
    /// failed attempt gives `AlreadyTried` and changes nothing; fewer than
    /// four cards give `NotEnough` and change nothing. A match moves its
    /// cards to the first open block and gives `Won` when it is the fourth
    /// match, else `Matched`. Any other selection is a mistake: it is kept
    /// among the attempts and gives `Lost` when it is the fourth mistake,
    /// else `OneAway` or `Mismatch`.
    pub fn check_selection(&mut self) -> (r: Result<SelectionSuccess, GameFailiure>)
        requires
            game_wf(old(self)@),
        ensures
            game_wf(final(self)@),
            r == check_result(old(self)@),
            already_tried(old(self)@) ==> final(self)@ == old(self)@,
            r == Err::<SelectionSuccess, GameFailiure>(GameFailiure::NotEnough) ==> final(self)@
                == old(self)@,
            r is Ok ==> matched_prefix(final(self)@.board),
            r is Ok ==> moved(old(self)@.board, final(self)@.board) && final(self)@.successes
                == old(self)@.successes + 1 && final(self)@.mistakes == old(self)@.mistakes
                && final(self)@.attempts == old(self)@.attempts,
            counted_failure(old(self)@) ==> final(self)@ == (GameView {
                mistakes: mistakes_after(old(self)@),
                attempts: old(self)@.attempts.push(old(self)@.board.selection),
                ..old(self)@
            }),
    {
        if self.tried_before() {
            return Err(GameFailiure::AlreadyTried);
        }
        let almost_won = self.successes == 3;
        let almost_lost = self.mistakes >= 3;
        match self.board.test_selection() {
            Ok(color) => {
                proof {
                    let b = self@.board;
                    let ob = old(self)@.board;
                    let c = color_index(ob.selection[0].color);
                    assert(!ob.matched[c]) by {
                        assert(ob.order.skip(first_open(ob)).contains(ob.selection[0]));
                        let j = choose|j: int|
                            0 <= j < ob.order.skip(first_open(ob)).len() && ob.order.skip(
                                first_open(ob),
                            )[j] == ob.selection[0];
                        assert(ob.order[first_open(ob) + j] == ob.selection[0]);
                    }
                    assert(matched_count(b.matched) == matched_count(ob.matched) + 1);
                }
                self.successes = self.successes + 1;
                if almost_won {
                    Ok(SelectionSuccess::Won(color))
                } else {
                    Ok(SelectionSuccess::Matched(color))
                }
            },
            Err(SelectionFailiure::NotEnough) => Err(GameFailiure::NotEnough),
            Err(failure) => {
                self.record_mistake();
                if almost_lost {
                    Err(GameFailiure::Lost)
                } else if failure == SelectionFailiure::OneAway {
                    Err(GameFailiure::OneAway)
                } else {
                    Err(GameFailiure::Mismatch)
                }
            },
        }
    }

    /// Shuffles the cards that are not matched.
    pub fn shuffle(&mut self)
        requires
            game_wf(old(self)@),
        ensures
            game_wf(final(self)@),
            final(self)@.mistakes == old(self)@.mistakes,
            final(self)@.successes == old(self)@.successes,
            final(self)@.attempts == old(self)@.attempts,
            final(self)@.board.selection == old(self)@.board.selection,
            final(self)@.board.matched == old(self)@.board.matched,
            final(self)@.board.puzzle == old(self)@.board.puzzle,
            final(self)@.board.order.take(first_open(old(self)@.board)) == old(
                self,
            )@.board.order.take(first_open(old(self)@.board)),
            final(self)@.board.order.skip(first_open(old(self)@.board)).to_multiset() == old(
                self,
            )@.board.order.skip(first_open(old(self)@.board)).to_multiset(),
    {
        self.board.shuffle();
    }

    /// Empties the selection.
    pub fn clear_selection(&mut self)
        requires
            game_wf(old(self)@),
        ensures
            game_wf(final(self)@),
            final(self)@ == with_selection(
                old(self)@,
                BoardView { selection: Seq::<PuzzleRef>::empty(), ..old(self)@.board },
            ),
    {
        self.board.deselect_all();
    }

    /// Starts the puzzle over: no mistake, no match, nothing chosen, no
    /// attempt, all cards shuffled.
    pub fn start_over(&mut self)
        requires
            game_wf(old(self)@),
        ensures
            fresh(final(self)@, old(self)@.board.puzzle),
            final(self)@.board.order.to_multiset() == old(self)@.board.order.to_multiset(),
    {
        self.mistakes = 0;
        self.successes = 0;
        self.board.reset();
        self.prev_attempts.clear();
        assert(self@.attempts =~= Seq::<Seq<PuzzleRef>>::empty());
    }
}

/// The mistake budget: in four submissions that each count as a mistake,
/// with the counter as the earlier ones left it, the first three give
/// `Mismatch` or `OneAway` and the fourth gives `Lost`.
pub proof fn lemma_mistake_budget(g: Seq<GameView>)
    requires
        g.len() == 4,
        g[0].mistakes == 0,
        forall|i: int| 0 <= i < 4 ==> counted_failure(#[trigger] g[i]),
        forall|i: int| 0 <= i < 3 ==> #[trigger] g[i + 1].mistakes == mistakes_after(g[i]),
    ensures
        forall|i: int|
            0 <= i < 3 ==> (#[trigger] check_result(g[i]) == Err::<SelectionSuccess, GameFailiure>(
                GameFailiure::Mismatch,
            ) || check_result(g[i]) == Err::<SelectionSuccess, GameFailiure>(
                GameFailiure::OneAway,
            )),
        check_result(g[3]) == Err::<SelectionSuccess, GameFailiure>(GameFailiure::Lost),
{
    assert(g[1].mistakes == mistakes_after(g[0]));
    assert(g[2].mistakes == mistakes_after(g[1]));
    assert(g[3].mistakes == mistakes_after(g[2]));
    assert(counted_failure(g[0]) && counted_failure(g[1]) && counted_failure(g[2])
        && counted_failure(g[3]));
}

/// The win condition: a match is `Won` exactly when three groups were
/// matched before it, and then all four groups are matched.
pub proof fn lemma_win_condition(g: GameView)
    requires
        game_wf(g),
        check_result(g) is Ok,
    ensures
        (check_result(g) matches Ok(SelectionSuccess::Won(_))) <==> g.successes == 3,
        g.successes == 3 ==> g.board.matched.update(
            color_index(g.board.selection[0].color),
            true,
        ) == seq![true, true, true, true],
{
    let b = g.board;
    let c = color_index(b.selection[0].color);
    assert(!b.matched[c]) by {
        assert(b.order.skip(first_open(b)).contains(b.selection[0]));
        let j = choose|j: int|
            0 <= j < b.order.skip(first_open(b)).len() && b.order.skip(first_open(b))[j]
                == b.selection[0];
        assert(b.order[first_open(b) + j] == b.selection[0]);
    }
    if g.successes == 3 {
        assert(b.matched.update(c, true) =~= seq![true, true, true, true]);
    }
}

/// A selection that failed and was counted is recognised again: once its
/// attempt is recorded, any later selection of the same cards, in whatever
/// order, is `AlreadyTried`, which changes nothing (see `check_selection`).
pub proof fn lemma_already_tried(first: GameView, later: GameView)
    requires
        counted_failure(first),
        first.attempts.push(first.board.selection).is_prefix_of(later.attempts),
        same_cards(later.board.selection, first.board.selection),
    ensures
        already_tried(later),
        check_result(later) == Err::<SelectionSuccess, GameFailiure>(GameFailiure::AlreadyTried),
{
    let i = first.attempts.len() as int;
    assert(later.attempts[i] == first.attempts.push(first.board.selection)[i]);
    assert(same_cards(later.attempts[i], later.board.selection));
}

} // verus!
