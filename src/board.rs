//! The arrangement of the sixteen cards of one session, and the rules of
//! selecting and matching them.
use crate::codec::encoded;
use crate::color::{color_index, Color};
use crate::puzzle::{group_of, joined_words, ConnectionPuzzle, ConnectionSet, PuzzleRef};
use crate::selection::{
    lemma_without, matched_count, selection_wf, toggled, without, MatchedCards, Selection,
    SelectionError,
};
use rand::seq::SliceRandom;
use vstd::prelude::*;

verus! {

/// Relies on rand's `SliceRandom::shuffle` with `rand::thread_rng()`: the
/// elements from `start` on are permuted among themselves, those before it
/// stay in place.
#[verifier::external_body]
fn shuffle_from(order: &mut Vec<PuzzleRef>, start: usize)
    requires
        start <= old(order).len(),
    ensures
        final(order).len() == old(order).len(),
        final(order)@.take(start as int) == old(order)@.take(start as int),
        final(order)@.skip(start as int).to_multiset() == old(order)@.skip(
            start as int,
        ).to_multiset(),
{
    order[start..].shuffle(&mut rand::thread_rng());
}

/// What a selection of four cards amounts to, when it is not a match.
#[derive(Copy, Clone, PartialEq, Eq, Structural, Debug)]
pub enum SelectionFailiure {
    /// At most two of the cards share the color of the first one.
    Mismatch,
    /// Fewer than four cards are selected.
    NotEnough,
    /// Exactly three of the cards share the color of the first one.
    OneAway,
}

/// How a card is shown.
#[derive(Copy, Clone, PartialEq, Eq, Structural, Debug)]
pub enum CardState {
    Selected,
    Normal,
    Matched,
}

/// The state of a board, as its contracts see it.
pub struct BoardView {
    /// The sixteen cards, in the order they are shown.
    pub order: Seq<PuzzleRef>,
    /// The chosen cards, in the order they were chosen.
    pub selection: Seq<PuzzleRef>,
    /// Whether each group is matched, by color position.
    pub matched: Seq<bool>,
    /// The twenty strings of the puzzle.
    pub puzzle: Seq<Seq<char>>,
}

/// Whether the group of a color is matched.
pub open spec fn is_matched(v: BoardView, c: Color) -> bool {
    v.matched[color_index(c)]
}

/// The position of the first card that is not matched.
pub open spec fn first_open(v: BoardView) -> int {
    4 * matched_count(v.matched)
}

/// The sixteen cards, each named once.
pub open spec fn order_wf(order: Seq<PuzzleRef>) -> bool {
    &&& order.len() == 16
    &&& order.no_duplicates()
    &&& forall|i: int| 0 <= i < 16 ==> (#[trigger] order[i]).valid()
}

/// The first `4 × matched` cards of the order are exactly the cards of the
/// matched groups, four by four, each block of four of one color.
pub open spec fn matched_prefix(v: BoardView) -> bool {
    &&& forall|i: int|
        0 <= i < 16 ==> (is_matched(v, (#[trigger] v.order[i]).color) <==> i < first_open(v))
    &&& forall|i: int, j: int|
        0 <= i < first_open(v) && 0 <= j < first_open(v) && i / 4 == j / 4 ==> (#[trigger] v.order[i]).color
            == (#[trigger] v.order[j]).color
}

/// The invariant of a board.
pub open spec fn board_wf(v: BoardView) -> bool {
    &&& order_wf(v.order)
    &&& v.matched.len() == 4
    &&& v.puzzle.len() == 20
    &&& matched_prefix(v)
    &&& selection_wf(v.selection)
    &&& forall|k: int|
        0 <= k < v.selection.len() ==> v.order.skip(first_open(v)).contains(
            #[trigger] v.selection[k],
        )
}

/// The number of cards of a list that have the given color.
pub open spec fn count_color(s: Seq<PuzzleRef>, c: Color) -> int
    decreases s.len(),
{
    if s.len() == 0 {
        0
    } else {
        count_color(s.drop_last(), c) + if s.last().color == c {
            1int
        } else {
            0int
        }
    }
}

/// What testing a selection gives: the color of a match, or why it is none.
/// The color tested is that of the first card chosen.
pub open spec fn test_result(v: BoardView) -> Result<Color, SelectionFailiure> {
    if v.selection.len() != 4 {
        Err(SelectionFailiure::NotEnough)
    } else {
        let c = v.selection[0].color;
        let m = count_color(v.selection, c);
        if m == 4 {
            Ok(c)
        } else if m == 3 {
            Err(SelectionFailiure::OneAway)
        } else {
            Err(SelectionFailiure::Mismatch)
        }
    }
}

/// The board after a match of the selection: its cards moved, in the order
/// chosen, to the first open block; their group marked matched; the
/// selection empty.
pub open spec fn moved(old: BoardView, new: BoardView) -> bool {
    &&& new.matched == old.matched.update(color_index(old.selection[0].color), true)
    &&& new.selection == Seq::<PuzzleRef>::empty()
    &&& new.puzzle == old.puzzle
    &&& new.order.take(first_open(old)) == old.order.take(first_open(old))
    &&& forall|t: int| 0 <= t < 4 ==> new.order[first_open(old) + t] == old.selection[t]
}

/// The card at a position counted from the first card that is not matched.
pub open spec fn open_card(v: BoardView, index: int) -> PuzzleRef {
    v.order[first_open(v) + index]
}

/// The board after the card at `index` (counted from the first card that
/// is not matched) is selected.
pub open spec fn selected(v: BoardView, index: int) -> BoardView {
    BoardView { selection: toggled(v.selection, open_card(v, index)), ..v }
}

/// What selecting the card at `index` returns.
pub open spec fn select_result(v: BoardView, index: int) -> Result<usize, SelectionError> {
    let c = open_card(v, index);
    if !v.selection.contains(c) && v.selection.len() >= 4 {
        Err(SelectionError::Full)
    } else {
        Ok(toggled(v.selection, c).len() as usize)
    }
}

/// Where the card at `i` comes from when the cards at `a` and `b` trade
/// places.
pub open spec fn traded(i: int, a: int, b: int) -> int {
    if i == a {
        b
    } else if i == b {
        a
    } else {
        i
    }
}

/// A card among those from `from` on stands at some position from `from` on.
proof fn lemma_open_position(order: Seq<PuzzleRef>, x: PuzzleRef, from: int)
    requires
        0 <= from <= order.len() == 16,
        order.skip(from).contains(x),
    ensures
        found_from(order, x, from),
{
    let j = choose|j: int| 0 <= j < order.skip(from).len() && order.skip(from)[j] == x;
    assert(order[from + j] == x);
}

/// Whether a card stands in the order at `from` or after it.
pub open spec fn found_from(order: Seq<PuzzleRef>, x: PuzzleRef, from: int) -> bool {
    exists|j: int| from <= j < 16 && order[j] == x
}

/// Selecting a card keeps the board well formed, and so keeps at most four
/// cards chosen, whatever sequence of selections came before.
pub proof fn lemma_select_keeps_wf(v: BoardView, index: int)
    requires
        board_wf(v),
        0 <= index,
        first_open(v) + index < 16,
    ensures
        board_wf(selected(v, index)),
        selected(v, index).selection.len() <= 4,
{
    let c = open_card(v, index);
    let w = selected(v, index);
    let s = w.selection;
    lemma_without(v.selection, c);
    assert(v.order.skip(first_open(v))[index] == c);
    assert(v.order.skip(first_open(v)).contains(c));
    if !v.selection.contains(c) && v.selection.len() < 4 {
        assert forall|i: int, j: int| 0 <= i < s.len() && 0 <= j < s.len() && i != j implies s[i]
            != s[j] by {
            if i == v.selection.len() {
                assert(v.selection.contains(s[j]));
            } else if j == v.selection.len() {
                assert(v.selection.contains(s[i]));
            }
        }
    }
    assert forall|k: int| 0 <= k < s.len() implies v.order.skip(first_open(v)).contains(
        #[trigger] s[k],
    ) by {
        if v.selection.contains(c) {
            assert(s.contains(s[k]));
            assert(v.selection.contains(s[k]));
            let j = choose|j: int| 0 <= j < v.selection.len() && v.selection[j] == s[k];
        } else if v.selection.len() < 4 {
            if k < v.selection.len() {
                assert(s[k] == v.selection[k]);
            }
        }
    }
}

/// Selecting a card that is not chosen, while there is room, and selecting
/// it again right after, gives back the selection as it was; the first
/// call returns one more than its size, the second its size.
pub proof fn lemma_toggle_twice(v: BoardView, index: int)
    requires
        board_wf(v),
        0 <= index,
        first_open(v) + index < 16,
        !v.selection.contains(open_card(v, index)),
        v.selection.len() < 4,
    ensures
        select_result(v, index) == Ok::<usize, SelectionError>((v.selection.len() + 1) as usize),
        selected(selected(v, index), index) == v,
        select_result(selected(v, index), index) == Ok::<usize, SelectionError>(
            v.selection.len() as usize,
        ),
{
    let c = open_card(v, index);
    let v1 = selected(v, index);
    assert(open_card(v1, index) == c);
    assert(v1.selection == v.selection.push(c));
    assert(v1.selection.contains(c)) by {
        assert(v1.selection[v.selection.len() as int] == c);
    }
    v.selection.lemma_filter_push(c, crate::selection::other_than(c));
    lemma_without(v.selection, c);
    assert(without(v1.selection, c) == v.selection);
    assert(selected(v1, index) =~= v);
}

/// Two valid cards with the same number are the same card.
pub proof fn lemma_id_injective(a: PuzzleRef, b: PuzzleRef)
    requires
        a.valid(),
        b.valid(),
        a.id() == b.id(),
    ensures
        a == b,
{
    assert(color_index(a.color) == color_index(b.color));
}

/// A well-formed order is a permutation of the sixteen cards: it names
/// every valid card.
pub proof fn lemma_order_has_every_card(order: Seq<PuzzleRef>, c: PuzzleRef)
    requires
        order_wf(order),
        c.valid(),
    ensures
        order.contains(c),
{
    let ids = order.map_values(|x: PuzzleRef| x.id());
    assert forall|i: int, j: int| 0 <= i < 16 && 0 <= j < 16 && i != j implies ids[i] != ids[j] by {
        if ids[i] == ids[j] {
            lemma_id_injective(order[i], order[j]);
        }
    }
    assert(ids.no_duplicates());
    ids.unique_seq_to_set();
    vstd::seq_lib::seq_to_set_is_finite(ids);
    vstd::set_lib::lemma_int_range(0, 16);
    let range = vstd::set_lib::set_int_range(0, 16);
    assert forall|k: int| ids.to_set().contains(k) implies range.contains(k) by {
        let i = choose|i: int| 0 <= i < ids.len() && ids[i] == k;
        assert(order[i].valid());
    }
    vstd::set_lib::lemma_subset_equality(ids.to_set(), range);
    assert(range.contains(c.id()));
    assert(ids.to_set().contains(c.id()));
    let i = choose|i: int| 0 <= i < ids.len() && ids[i] == c.id();
    lemma_id_injective(order[i], c);
    assert(order[i] == c);
}

/// A shuffle of the cards from `start` on keeps the cards there and before
/// there, and names no card twice.
proof fn lemma_shuffled(old: Seq<PuzzleRef>, new: Seq<PuzzleRef>, start: int)
    requires
        0 <= start <= old.len(),
        new.len() == old.len(),
        new.take(start) == old.take(start),
        new.skip(start).to_multiset() == old.skip(start).to_multiset(),
        old.no_duplicates(),
    ensures
        new.no_duplicates(),
        forall|x: PuzzleRef| #[trigger] new.skip(start).contains(x) <==> old.skip(start).contains(x),
        forall|i: int| 0 <= i < start ==> new[i] == old[i],
{
    broadcast use vstd::seq_lib::to_multiset_contains;

    let os = old.skip(start);
    let ns = new.skip(start);
    assert(os.no_duplicates()) by {
        assert forall|i: int, j: int| 0 <= i < os.len() && 0 <= j < os.len() && i != j implies os[i]
            != os[j] by {
            assert(os[i] == old[start + i]);
            assert(os[j] == old[start + j]);
        }
    }
    os.lemma_multiset_has_no_duplicates();
    assert forall|x: PuzzleRef| ns.to_multiset().contains(x) implies ns.to_multiset().count(x)
        == 1 by {
        assert(os.to_multiset().contains(x));
    }
    ns.lemma_multiset_has_no_duplicates_conv();
    assert forall|x: PuzzleRef| #[trigger] ns.contains(x) <==> os.contains(x) by {
        assert(ns.to_multiset().count(x) == os.to_multiset().count(x));
    }
    assert forall|i: int| 0 <= i < start implies new[i] == old[i] by {
        assert(new.take(start)[i] == new[i]);
        assert(old.take(start)[i] == old[i]);
    }
    assert forall|i: int, j: int|
        0 <= i < new.len() && 0 <= j < new.len() && i != j implies new[i] != new[j] by {
        if i >= start && j >= start {
            assert(ns[i - start] == new[i]);
            assert(ns[j - start] == new[j]);
        } else if i < start && j < start {
        } else {
            let (a, b) = if i < start {
                (i, j)
            } else {
                (j, i)
            };
            assert(ns[b - start] == new[b]);
            assert(ns.contains(new[b]));
            assert(os.contains(new[b]));
            let k = choose|k: int| 0 <= k < os.len() && os[k] == new[b];
            assert(old[start + k] == new[b]);
            assert(old[a] == new[a]);
        }
    }
}

/// Four different valid cards of one color are all the cards of that color.
proof fn lemma_four_of_a_color(s: Seq<PuzzleRef>, c: Color, x: PuzzleRef)
    requires
        s.len() == 4,
        s.no_duplicates(),
        forall|k: int| 0 <= k < 4 ==> (#[trigger] s[k]).valid() && s[k].color == c,
        x.valid(),
        x.color == c,
    ensures
        s.contains(x),
{
    assert(s[0] != s[1] && s[0] != s[2] && s[0] != s[3] && s[1] != s[2] && s[1] != s[3] && s[2]
        != s[3]);
    if x == s[0] {
        assert(s.contains(x));
    } else if x == s[1] {
        assert(s.contains(x));
    } else if x == s[2] {
        assert(s.contains(x));
    } else {
        assert(x == s[3]);
        assert(s.contains(x));
    }
}

/// A count of cards of a color that reaches the length means every card has
/// that color.
proof fn lemma_count_color(s: Seq<PuzzleRef>, c: Color)
    ensures
        0 <= count_color(s, c) <= s.len(),
        count_color(s, c) == s.len() ==> forall|k: int|
            0 <= k < s.len() ==> (#[trigger] s[k]).color == c,
    decreases s.len(),
{
    if s.len() > 0 {
        lemma_count_color(s.drop_last(), c);
        if count_color(s, c) == s.len() {
            assert forall|k: int| 0 <= k < s.len() implies (#[trigger] s[k]).color == c by {
                if k < s.len() - 1 {
                    assert(s.drop_last()[k] == s[k]);
                }
            }
        }
    }
}

/// A card as it is shown: its word, its group's theme, its color and its
/// state.
pub struct Card {
    pub color: Color,
    pub word: String,
    pub theme: String,
    pub state: CardState,
}

impl Card {
    /// The color of the card's text.
    pub fn text_color(&self) -> (r: &'static str)
        ensures
            r@ == (if self.state == CardState::Selected {
                "white"@
            } else {
                "black"@
            }),
    {
        match self.state {
            CardState::Selected => "white",
            _ => "black",
        }
    }

    /// The background of the card.
    pub fn background_color(&self) -> (r: &'static str)
        ensures
            r@ == card_background(self.state, self.color),
    {
        match self.state {
            CardState::Normal => "var(--connections-light-beige)",
            CardState::Selected => "var(--connections-darker-beige)",
            CardState::Matched => match self.color {
                Color::Yellow => "var(--connections-yellow)",
                Color::Green => "var(--connections-green)",
                Color::Blue => "var(--connections-blue)",
                Color::Purple => "var(--connections-maroon)",
            },
        }
    }

    /// The style class of the card.
    pub fn class_name(&self) -> (r: &'static str)
        ensures
            r@ == card_class(self.state, self.color),
    {
        match self.state {
            CardState::Normal => "card",
            CardState::Selected => "selected",
            CardState::Matched => match self.color {
                Color::Yellow => "matched_yellow",
                Color::Green => "matched_green",
                Color::Blue => "matched_blue",
                Color::Purple => "matched_purple",
            },
        }
    }
}

/// The background of a card in a state.
pub open spec fn card_background(state: CardState, color: Color) -> Seq<char> {
    match state {
        CardState::Normal => "var(--connections-light-beige)"@,
        CardState::Selected => "var(--connections-darker-beige)"@,
        CardState::Matched => match color {
            Color::Yellow => "var(--connections-yellow)"@,
            Color::Green => "var(--connections-green)"@,
            Color::Blue => "var(--connections-blue)"@,
            Color::Purple => "var(--connections-maroon)"@,
        },
    }
}

/// The style class of a card in a state.
pub open spec fn card_class(state: CardState, color: Color) -> Seq<char> {
    match state {
        CardState::Normal => "card"@,
        CardState::Selected => "selected"@,
        CardState::Matched => match color {
            Color::Yellow => "matched_yellow"@,
            Color::Green => "matched_green"@,
            Color::Blue => "matched_blue"@,
            Color::Purple => "matched_purple"@,
        },
    }
}

/// The state of a card on a board.
pub open spec fn card_state(v: BoardView, card: PuzzleRef) -> CardState {
    if is_matched(v, card.color) {
        CardState::Matched
    } else if v.selection.contains(card) {
        CardState::Selected
    } else {
        CardState::Normal
    }
}

/// The cards of one session: their order, the selection and the matched
/// groups.
#[derive(Debug)]
pub struct Board {
    selection: Selection,
    matched_cards: MatchedCards,
    puzzle: ConnectionPuzzle,
    order: Vec<PuzzleRef>,
}

impl View for Board {
    type V = BoardView;

    closed spec fn view(&self) -> BoardView {
        BoardView {
            order: self.order@,
            selection: self.selection@,
            matched: self.matched_cards@,
            puzzle: self.puzzle@,
        }
    }
}

impl Board {
    /// A fresh board of a puzzle: the cards in random order, none chosen,
    /// none matched.
    pub fn new(puzzle: ConnectionPuzzle) -> (r: Board)
        ensures
            board_wf(r@),
            r@.puzzle == puzzle@,
            r@.selection == Seq::<PuzzleRef>::empty(),
            r@.matched == seq![false, false, false, false],
    {
        let mut order = PuzzleRef::new_set();
        let ghost before = order@;
        proof {
            assert forall|i: int, j: int| 0 <= i < 16 && 0 <= j < 16 && i != j implies before[i]
                != before[j] by {
                assert(before[i].id() == i);
                assert(before[j].id() == j);
            }
        }
        shuffle_from(&mut order, 0);
        proof {
            lemma_shuffled(before, order@, 0);
            assert forall|i: int| 0 <= i < 16 implies (#[trigger] order@[i]).valid() by {
                assert(order@.skip(0) =~= order@);
                assert(before.skip(0) =~= before);
                assert(order@.contains(order@[i]));
                let k = choose|k: int| 0 <= k < 16 && before[k] == order@[i];
            }
        }
        let r = Board {
            selection: Selection::new(),
            matched_cards: MatchedCards::new(),
            puzzle,
            order,
        };
        assert(matched_count(r@.matched) == 0);
        r
    }

    /// A board of the placeholder puzzle, with its cards in order.
    pub fn empty() -> (r: Board)
        ensures
            board_wf(r@),
            r@.puzzle == ConnectionPuzzle::empty_fields(),
            r@.selection == Seq::<PuzzleRef>::empty(),
            r@.matched == seq![false, false, false, false],
            forall|i: int| 0 <= i < 16 ==> (#[trigger] r@.order[i]).id() == i,
    {
        let order = PuzzleRef::new_set();
        proof {
            assert forall|i: int, j: int| 0 <= i < 16 && 0 <= j < 16 && i != j implies order@[i]
                != order@[j] by {
                assert(order@[i].id() == i);
                assert(order@[j].id() == j);
            }
        }
        let r = Board {
            selection: Selection::new(),
            matched_cards: MatchedCards::new(),
            puzzle: ConnectionPuzzle::empty(),
            order,
        };
        assert(matched_count(r@.matched) == 0);
        r
    }

    /// The chosen cards.
    pub fn selection(&self) -> (r: &Selection)
        ensures
            r@ == self@.selection,
    {
        &self.selection
    }

    /// The puzzle of the board.
    pub fn puzzle(&self) -> (r: &ConnectionPuzzle)
        ensures
            r@ == self@.puzzle,
    {
        &self.puzzle
    }

    /// The number of matched groups.
    pub fn num_matched(&self) -> (r: usize)
        requires
            board_wf(self@),
        ensures
            r == matched_count(self@.matched),
            4 * r == first_open(self@),
            r <= 4,
    {
        self.matched_cards.num_matched()
    }

    /// The card shown at a position of the order, matched groups included.
    pub fn get(&self, index: usize) -> (r: Card)
        requires
            board_wf(self@),
            index < 16,
        ensures
            r.color == self@.order[index as int].color,
            r.word@ == self@.puzzle[5 * color_index(r.color) + self@.order[index as int].word_index
                + 1],
            r.theme@ == self@.puzzle[5 * color_index(r.color)],
            r.state == card_state(self@, self@.order[index as int]),
    {
        let card = self.order[index];
        let state = self.card_state(card);
        Card {
            color: card.color,
            word: self.card_word(card).to_owned(),
            theme: self.card_theme(card).to_owned(),
            state,
        }
    }

    /// The word of the card shown at a position of the order.
    pub fn get_word(&self, index: usize) -> (r: &str)
        requires
            board_wf(self@),
            index < 16,
        ensures
            r@ == self@.puzzle[5 * color_index(self@.order[index as int].color)
                + self@.order[index as int].word_index + 1],
    {
        let card = self.order[index];
        self.card_word(card)
    }

    /// The positions, counted from the first card that is not matched, of
    /// the chosen cards, in increasing order.
    pub fn selection_indices(&self) -> (r: Vec<usize>)
        requires
            board_wf(self@),
        ensures
            forall|k: int, l: int| 0 <= k < l < r.len() ==> r@[k] < r@[l],
            forall|k: int|
                0 <= k < r.len() ==> first_open(self@) + r@[k] < 16 && self@.selection.contains(
                    #[trigger] open_card(self@, r@[k] as int),
                ),
            forall|i: int|
                0 <= i && first_open(self@) + i < 16 && self@.selection.contains(
                    #[trigger] open_card(self@, i),
                ) ==> r@.contains(i as usize),
    {
        let start = 4 * self.matched_cards.num_matched();
        let mut r: Vec<usize> = Vec::new();
        let mut pos: usize = start;
        while pos < 16
            invariant
                start == first_open(self@),
                start <= pos <= 16,
                self.order.len() == 16,
                forall|k: int| 0 <= k < r.len() ==> r@[k] < pos - start,
                forall|k: int, l: int| 0 <= k < l < r.len() ==> r@[k] < r@[l],
                forall|k: int|
                    0 <= k < r.len() ==> start + r@[k] < 16 && self@.selection.contains(
                        #[trigger] open_card(self@, r@[k] as int),
                    ),
                forall|i: int|
                    0 <= i && start + i < pos && self@.selection.contains(
                        #[trigger] open_card(self@, i),
                    ) ==> r@.contains(i as usize),
            decreases 16 - pos,
        {
            if self.selection.contains(self.order[pos]) {
                let ghost before = r@;
                r.push(pos - start);
                proof {
                    assert forall|i: int|
                        0 <= i && start + i < pos + 1 && self@.selection.contains(
                            #[trigger] open_card(self@, i),
                        ) implies r@.contains(i as usize) by {
                        if start + i < pos {
                            assert(before.contains(i as usize));
                            let k = choose|k: int| 0 <= k < before.len() && before[k] == i as usize;
                            assert(r@[k] == i as usize);
                        } else {
                            assert(r@[r.len() - 1] == i as usize);
                        }
                    }
                }
            }
            pos = pos + 1;
        }
        r
    }

    /// The group of a color.
    pub fn set(&self, color: Color) -> (r: &ConnectionSet)
        ensures
            r@ == group_of(self@.puzzle, color),
    {
        self.puzzle.by_color(color)
    }

    /// The theme of a group, and its words in one line.
    pub fn matched_set_text(&self, color: Color) -> (r: (&str, String))
        ensures
            r.0@ == group_of(self@.puzzle, color)[0],
            r.1@ == joined_words(group_of(self@.puzzle, color)),
    {
        let set = self.puzzle.by_color(color);
        (set.theme_ref(), set.words())
    }

    /// The code of the board's puzzle.
    pub fn encode(&self) -> (r: String)
        ensures
            r@ == encoded(self@.puzzle),
    {
        self.puzzle.encode()
    }

    fn card_state(&self, card: PuzzleRef) -> (r: CardState)
        ensures
            r == card_state(self@, card),
    {
        if self.matched_cards.contains(card.color) {
            CardState::Matched
        } else if self.selection.contains(card) {
            CardState::Selected
        } else {
            CardState::Normal
        }
    }

    fn card_theme(&self, card: PuzzleRef) -> (r: &str)
        ensures
            r@ == self@.puzzle[5 * color_index(card.color)],
    {
        self.puzzle.theme(card)
    }

    fn card_word(&self, card: PuzzleRef) -> (r: &str)
        requires
            card.valid(),
        ensures
            r@ == self@.puzzle[5 * color_index(card.color) + card.word_index + 1],
    {
        self.puzzle.word(card)
    }

    /// Empties the selection.
    pub fn deselect_all(&mut self)
        requires
            board_wf(old(self)@),
        ensures
            board_wf(final(self)@),
            final(self)@ == (BoardView { selection: Seq::<PuzzleRef>::empty(), ..old(self)@ }),
    {
        self.selection.clear();
        assert(final(self)@.selection.len() == 0);
    }

    /// Selects the card at `index`, counted from the first card that is not
    /// matched: takes it out of the selection if it is in, adds it if fewer
    /// than four cards are chosen, and fails otherwise. Returns the number
    /// of chosen cards.
    pub fn select(&mut self, index: usize) -> (r: Result<usize, SelectionError>)
        requires
            board_wf(old(self)@),
            first_open(old(self)@) + index < 16,
        ensures
            board_wf(final(self)@),
            final(self)@ == selected(old(self)@, index as int),
            r == select_result(old(self)@, index as int),
    {
        let ghost v = self@;
        let start = 4 * self.matched_cards.num_matched();
        let reference = self.order[start + index];
        proof {
            lemma_select_keeps_wf(v, index as int);
        }
        let res = self.selection.toggle(reference);
        match res {
            Ok(_) => Ok(self.selection.len()),
            Err(e) => Err(e),
        }
    }

    /// Tests the selection. On a match its cards move, in the order they were
    /// chosen, to the first open block of the order, their group is marked
    /// matched and the selection is emptied; otherwise nothing changes.
    pub fn test_selection(&mut self) -> (r: Result<Color, SelectionFailiure>)
        requires
            board_wf(old(self)@),
        ensures
            board_wf(final(self)@),
            r == test_result(old(self)@),
            r is Ok ==> moved(old(self)@, final(self)@),
            r is Err ==> final(self)@ == old(self)@,
    {
        if self.selection.len() != 4 {
            return Err(SelectionFailiure::NotEnough);
        }
        let color = self.selection.get(0).color;
        let mut matches: usize = 0;
        let mut i: usize = 0;
        while i < 4
            invariant
                i <= 4,
                self@.selection.len() == 4,
                matches == count_color(self@.selection.take(i as int), color),
                matches <= i,
            decreases 4 - i,
        {
            assert(self@.selection.take(i + 1).drop_last() =~= self@.selection.take(i as int));
            if self.selection.get(i).color == color {
                matches = matches + 1;
            }
            i = i + 1;
        }
        assert(self@.selection.take(4) =~= self@.selection);
        if matches == 4 {
            self.move_matched(color);
            Ok(color)
        } else if matches == 3 {
            Err(SelectionFailiure::OneAway)
        } else {
            Err(SelectionFailiure::Mismatch)
        }
    }

        /// Position of `target` in the order, at `from` or after it.
    fn position_from(&self, from: usize, target: PuzzleRef) -> (r: usize)
        requires
            self.order.len() == 16,
            from <= 16,
            exists|j: int| from <= j < 16 && self.order@[j] == target,
        ensures
            from <= r < 16,
            self.order@[r as int] == target,
    {
        let mut i: usize = from;
        while i < 16 && self.order[i] != target
            invariant
                from <= i <= 16,
                self.order.len() == 16,
                exists|j: int| from <= j < 16 && self.order@[j] == target,
                forall|j: int| from <= j < i ==> self.order@[j] != target,
            decreases 16 - i,
        {
            i = i + 1;
        }
        i
    }

    /// Moves the four selected cards, all of `color`, to the first open
    /// block, marks the group matched and empties the selection.
    fn move_matched(&mut self, color: Color)
        requires
            board_wf(old(self)@),
            old(self)@.selection.len() == 4,
            color == old(self)@.selection[0].color,
            count_color(old(self)@.selection, color) == 4,
        ensures
            board_wf(final(self)@),
            moved(old(self)@, final(self)@),
    {
        let ghost v = self@;
        let ghost sel = v.selection;
        let ghost first = first_open(v);
        proof {
            lemma_count_color(sel, color);
            assert forall|k: int| 0 <= k < 4 implies #[trigger] found_from(v.order, sel[k], first)
                && !is_matched(v, sel[k].color) && sel[k].valid() by {
                lemma_open_position(v.order, sel[k], first);
            }
            assert(first + 4 <= 16) by {
                if first + 4 > 16 {
                    assert(found_from(v.order, sel[0], first));
                }
            }
        }
        let top0 = 4 * self.matched_cards.num_matched();
        let mut t: usize = 0;
        while t < 4
            invariant
                t <= 4,
                board_wf(v),
                sel == v.selection,
                sel.len() == 4,
                first == first_open(v),
                forall|k: int| 0 <= k < 4 ==> (#[trigger] sel[k]).color == color && sel[k].valid(),
                top0 == first,
                first + 4 <= 16,
                self@.selection == sel,
                self@.matched == v.matched,
                self@.puzzle == v.puzzle,
                order_wf(self@.order),
                forall|i: int| 0 <= i < first ==> self@.order[i] == v.order[i],
                forall|u: int| 0 <= u < t ==> self@.order[first + u] == sel[u],
                forall|j: int|
                    first <= j < 16 ==> !is_matched(v, (#[trigger] self@.order[j]).color),
                forall|u: int| t <= u < 4 ==> #[trigger] found_from(self@.order, sel[u], first + t),
                forall|x: PuzzleRef| self@.order.contains(x) ==> v.order.contains(x),
            decreases 4 - t,
        {
            let target = self.selection.get(t);
            let top = top0 + t;
            assert(found_from(self@.order, sel[t as int], first + t));
            let index = self.position_from(top, target);
            let ghost before = self@.order;
            let a = self.order[top];
            let b = self.order[index];
            self.order[top] = b;
            self.order[index] = a;
            proof {
                let after = self@.order;
                let (p, q) = (top as int, index as int);
                assert forall|i: int| 0 <= i < 16 implies #[trigger] after[i] == before[traded(
                    i,
                    p,
                    q,
                )] by {}
                assert forall|i: int, j: int| 0 <= i < 16 && 0 <= j < 16 && i != j implies after[i]
                    != after[j] by {
                    assert(after[i] == before[traded(i, p, q)]);
                    assert(after[j] == before[traded(j, p, q)]);
                }
                assert forall|x: PuzzleRef| after.contains(x) implies v.order.contains(x) by {
                    let i = choose|i: int| 0 <= i < 16 && after[i] == x;
                    assert(before.contains(before[traded(i, p, q)]));
                }
                assert forall|u: int| t + 1 <= u < 4 implies #[trigger] found_from(
                    after,
                    sel[u],
                    first + t + 1,
                ) by {
                    assert(found_from(before, sel[u], first + t));
                    let j = choose|j: int| first + t <= j < 16 && before[j] == sel[u];
                    assert(sel[u] != sel[t as int]);
                    if j == p {
                        assert(after[q] == sel[u]);
                    } else {
                        assert(after[j] == sel[u]);
                    }
                }
                assert forall|u: int| t + 1 <= u < 4 implies #[trigger] found_from(
                    self@.order,
                    sel[u],
                    first + (t + 1),
                ) by {
                    assert(found_from(after, sel[u], first + t + 1));
                }
            }
            t = t + 1;
        }
        self.matched_cards.mark_match(color);
        self.selection.clear();
        proof {
            let w = self@;
            let c = color;
            assert(!is_matched(v, c));
            assert(matched_count(w.matched) == matched_count(v.matched) + 1);
            assert(first_open(w) == first + 4);
            // no card of the matched color is left after its block
            assert forall|j: int| first + 4 <= j < 16 implies (#[trigger] w.order[j]).color != c by {
                if w.order[j].color == c {
                    lemma_four_of_a_color(sel, c, w.order[j]);
                    let u = choose|u: int| 0 <= u < 4 && sel[u] == w.order[j];
                    assert(w.order[first + u] == w.order[j]);
                }
            }
            assert forall|i: int| 0 <= i < 16 implies (is_matched(w, (#[trigger] w.order[i]).color)
                <==> i < first_open(w)) by {
                if i < first {
                    assert(w.order[i] == v.order[i]);
                    assert(is_matched(v, v.order[i].color));
                } else if i < first + 4 {
                    assert(w.order[i] == sel[i - first]);
                } else {
                }
            }
            assert forall|i: int, j: int|
                0 <= i < first_open(w) && 0 <= j < first_open(w) && i / 4 == j / 4 implies (#[trigger] w.order[i]).color
                == (#[trigger] w.order[j]).color by {
                if i < first {
                    assert(w.order[i] == v.order[i]);
                    assert(w.order[j] == v.order[j]);
                } else {
                    assert(w.order[i] == sel[i - first]);
                    assert(w.order[j] == sel[j - first]);
                }
            }
            assert(w.order.take(first) =~= v.order.take(first));
        }
    }

    /// Shuffles the cards that are not matched; the matched blocks stay.
    pub fn shuffle(&mut self)
        requires
            board_wf(old(self)@),
        ensures
            board_wf(final(self)@),
            final(self)@.selection == old(self)@.selection,
            final(self)@.matched == old(self)@.matched,
            final(self)@.puzzle == old(self)@.puzzle,
            final(self)@.order.take(first_open(old(self)@)) == old(self)@.order.take(
                first_open(old(self)@),
            ),
            final(self)@.order.skip(first_open(old(self)@)).to_multiset() == old(
                self,
            )@.order.skip(first_open(old(self)@)).to_multiset(),
    {
        let ghost v = self@;
        let starting_point = 4 * self.matched_cards.num_matched();
        shuffle_from(&mut self.order, starting_point);
        proof {
            let w = self@;
            let first = first_open(v);
            lemma_shuffled(v.order, w.order, first);
            assert forall|i: int| 0 <= i < 16 implies (#[trigger] w.order[i]).valid() && (
            is_matched(w, w.order[i].color) <==> i < first_open(w)) by {
                if i >= first {
                    assert(w.order.skip(first)[i - first] == w.order[i]);
                    assert(w.order.skip(first).contains(w.order[i]));
                    lemma_open_position(v.order, w.order[i], first);
                }
            }
        }
    }

    /// Empties the selection, unmatches every group and shuffles all cards.
    pub fn reset(&mut self)
        requires
            board_wf(old(self)@),
        ensures
            board_wf(final(self)@),
            final(self)@.selection == Seq::<PuzzleRef>::empty(),
            final(self)@.matched == seq![false, false, false, false],
            final(self)@.puzzle == old(self)@.puzzle,
            final(self)@.order.to_multiset() == old(self)@.order.to_multiset(),
    {
        let ghost v = self@;
        self.selection.clear();
        self.matched_cards.clear();
        shuffle_from(&mut self.order, 0);
        proof {
            let w = self@;
            lemma_shuffled(v.order, w.order, 0);
            assert(w.order.skip(0) =~= w.order);
            assert(v.order.skip(0) =~= v.order);
            assert(matched_count(w.matched) == 0);
            assert forall|i: int| 0 <= i < 16 implies (#[trigger] w.order[i]).valid() by {
                assert(w.order.contains(w.order[i]));
                let k = choose|k: int| 0 <= k < 16 && v.order[k] == w.order[i];
            }
        }
    }
}

} // verus!
