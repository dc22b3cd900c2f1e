//! The cards a player has chosen, and the groups that are already matched.
use crate::color::{color_index, Color};
use crate::puzzle::PuzzleRef;
use vstd::prelude::*;

verus! {

/// Why a card could not be added to the selection.
#[derive(Copy, Clone, PartialEq, Eq, Structural, Debug)]
pub enum SelectionError {
    /// Four cards are chosen already.
    Full,
}

/// What selecting a card did to it.
#[derive(Copy, Clone, PartialEq, Eq, Structural, Debug)]
pub enum SelectState {
    /// The card is now chosen.
    Selected,
    /// The card is no longer chosen.
    Normal,
}

/// A list of cards without the given card.
pub open spec fn without(s: Seq<PuzzleRef>, c: PuzzleRef) -> Seq<PuzzleRef> {
    s.filter(other_than(c))
}

/// The test that keeps every card but one.
pub open spec fn other_than(c: PuzzleRef) -> spec_fn(PuzzleRef) -> bool {
    |x: PuzzleRef| x != c
}

/// Whether two lists hold the same cards, in whatever order.
pub open spec fn same_cards(a: Seq<PuzzleRef>, b: Seq<PuzzleRef>) -> bool {
    forall|x: PuzzleRef| a.contains(x) <==> b.contains(x)
}

/// A selection holds at most four cards, none twice.
pub open spec fn selection_wf(s: Seq<PuzzleRef>) -> bool {
    s.len() <= 4 && s.no_duplicates()
}

/// The selection after a card is toggled: taken out if it is in, added if
/// it is not and there is room, unchanged otherwise.
pub open spec fn toggled(s: Seq<PuzzleRef>, c: PuzzleRef) -> Seq<PuzzleRef> {
    if s.contains(c) {
        without(s, c)
    } else if s.len() >= 4 {
        s
    } else {
        s.push(c)
    }
}

/// Taking out a card of a list without duplicates shortens it by one and
/// keeps the other cards, in order.
pub proof fn lemma_without(s: Seq<PuzzleRef>, c: PuzzleRef)
    requires
        s.no_duplicates(),
    ensures
        without(s, c).no_duplicates(),
        forall|x: PuzzleRef| #[trigger] without(s, c).contains(x) <==> s.contains(x) && x != c,
        s.contains(c) ==> without(s, c).len() == s.len() - 1,
        !s.contains(c) ==> without(s, c) == s,
    decreases s.len(),
{
    if s.len() == 0 {
        assert(without(s, c) =~= s);
    } else {
        let init = s.drop_last();
        let last = s.last();
        assert(init.push(last) =~= s);
        assert(init.no_duplicates());
        lemma_without(init, c);
        init.lemma_filter_push(last, other_than(c));
        let w = without(init, c);
        let ww = without(s, c);
        assert(!init.contains(last)) by {
            if init.contains(last) {
                let k = choose|k: int| 0 <= k < init.len() && init[k] == last;
                assert(s[k] == s[s.len() - 1]);
            }
        }
        assert forall|x: PuzzleRef| s.contains(x) <==> init.contains(x) || x == last by {
            vstd::seq_lib::lemma_seq_contains_after_push(init, last, x);
        }
        if last != c {
            assert(ww == w.push(last));
            assert forall|x: PuzzleRef| #[trigger] ww.contains(x) <==> s.contains(x) && x != c by {
                vstd::seq_lib::lemma_seq_contains_after_push(w, last, x);
            }
            assert(!w.contains(last));
            assert forall|i: int, j: int|
                0 <= i < ww.len() && 0 <= j < ww.len() && i != j implies ww[i] != ww[j] by {
                if i == w.len() {
                    assert(w.contains(w[j]));
                } else if j == w.len() {
                    assert(w.contains(w[i]));
                }
            }
            if !s.contains(c) {
                assert(ww =~= s);
            }
        } else {
            assert(ww == w);
            assert(!init.contains(c));
        }
    }
}

/// The cards a player has chosen, in the order they were chosen.
#[derive(Debug)]
pub struct Selection {
    cards: Vec<PuzzleRef>,
}

impl View for Selection {
    type V = Seq<PuzzleRef>;

    closed spec fn view(&self) -> Seq<PuzzleRef> {
        self.cards@
    }
}

impl Selection {
    /// An empty selection.
    pub fn new() -> (r: Selection)
        ensures
            r@ == Seq::<PuzzleRef>::empty(),
    {
        Selection { cards: Vec::new() }
    }

    /// The number of chosen cards.
    pub fn len(&self) -> (r: usize)
        ensures
            r == self@.len(),
    {
        self.cards.len()
    }

    /// The card chosen at a position.
    pub fn get(&self, index: usize) -> (r: PuzzleRef)
        requires
            index < self@.len(),
        ensures
            r == self@[index as int],
    {
        self.cards[index]
    }

    /// The chosen cards, in the order they were chosen.
    pub fn cards(&self) -> (r: Vec<PuzzleRef>)
        ensures
            r@ == self@,
    {
        let mut r: Vec<PuzzleRef> = Vec::new();
        let mut i: usize = 0;
        while i < self.cards.len()
            invariant
                i <= self.cards.len(),
                r@ == self.cards@.take(i as int),
            decreases self.cards.len() - i,
        {
            r.push(self.cards[i]);
            i = i + 1;
            assert(r@ =~= self.cards@.take(i as int));
        }
        assert(self.cards@.take(i as int) =~= self.cards@);
        r
    }

    /// A copy of the selection.
    pub fn duplicate(&self) -> (r: Selection)
        ensures
            r@ == self@,
    {
        Selection { cards: self.cards() }
    }

    /// Whether a card is chosen.
    pub fn contains(&self, target_card: PuzzleRef) -> (r: bool)
        ensures
            r == self@.contains(target_card),
    {
        let mut i: usize = 0;
        while i < self.cards.len()
            invariant
                i <= self.cards.len(),
                forall|j: int| 0 <= j < i ==> self.cards@[j] != target_card,
            decreases self.cards.len() - i,
        {
            if self.cards[i] == target_card {
                return true;
            }
            i = i + 1;
        }
        false
    }

    /// Whether two selections hold the same cards, in whatever order.
    pub fn same_cards(&self, other: &Selection) -> (r: bool)
        ensures
            r == same_cards(self@, other@),
    {
        let mut i: usize = 0;
        while i < self.cards.len()
            invariant
                i <= self.cards.len(),
                forall|j: int| 0 <= j < i ==> other@.contains(#[trigger] self.cards@[j]),
            decreases self.cards.len() - i,
        {
            if !other.contains(self.cards[i]) {
                assert(self@.contains(self.cards@[i as int]));
                return false;
            }
            i = i + 1;
        }
        let mut k: usize = 0;
        while k < other.cards.len()
            invariant
                k <= other.cards.len(),
                forall|j: int| 0 <= j < k ==> self@.contains(#[trigger] other.cards@[j]),
            decreases other.cards.len() - k,
        {
            if !self.contains(other.cards[k]) {
                assert(other@.contains(other.cards@[k as int]));
                return false;
            }
            k = k + 1;
        }
        assert forall|x: PuzzleRef| self@.contains(x) <==> other@.contains(x) by {
            if self@.contains(x) {
                let j = choose|j: int| 0 <= j < self@.len() && self@[j] == x;
                assert(other@.contains(self.cards@[j]));
            }
            if other@.contains(x) {
                let j = choose|j: int| 0 <= j < other@.len() && other@[j] == x;
                assert(self@.contains(other.cards@[j]));
            }
        }
        true
    }

    /// Empties the selection.
    pub fn clear(&mut self)
        ensures
            final(self)@ == Seq::<PuzzleRef>::empty(),
    {
        self.cards = Vec::new();
    }

    /// Takes a card out of the selection, keeping the order of the others.
    fn remove(&mut self, card: PuzzleRef)
        ensures
            final(self)@ == without(old(self)@, card),
    {
        let mut kept: Vec<PuzzleRef> = Vec::new();
        let mut i: usize = 0;
        while i < self.cards.len()
            invariant
                i <= self.cards.len(),
                kept@ == without(self.cards@.take(i as int), card),
            decreases self.cards.len() - i,
        {
            let c = self.cards[i];
            proof {
                self.cards@.take(i as int).lemma_filter_push(c, other_than(card));
                assert(self.cards@.take(i + 1) =~= self.cards@.take(i as int).push(c));
            }
            if c != card {
                kept.push(c);
            }
            i = i + 1;
        }
        assert(self.cards@.take(i as int) =~= self.cards@);
        self.cards = kept;
    }

    /// Takes the card out if it is chosen; otherwise chooses it, unless four
    /// cards are chosen already.
    pub fn toggle(&mut self, card: PuzzleRef) -> (r: Result<SelectState, SelectionError>)
        requires
            selection_wf(old(self)@),
        ensures
            final(self)@ == toggled(old(self)@, card),
            selection_wf(final(self)@),
            old(self)@.contains(card) ==> r == Ok::<SelectState, SelectionError>(
                SelectState::Normal,
            ),
            !old(self)@.contains(card) && old(self)@.len() < 4 ==> r == Ok::<
                SelectState,
                SelectionError,
            >(SelectState::Selected),
            !old(self)@.contains(card) && old(self)@.len() >= 4 ==> r == Err::<
                SelectState,
                SelectionError,
            >(SelectionError::Full),
    {
        proof {
            lemma_without(self@, card);
        }
        if self.contains(card) {
            self.remove(card);
            Ok(SelectState::Normal)
        } else if self.cards.len() >= 4 {
            Err(SelectionError::Full)
        } else {
            self.cards.push(card);
            Ok(SelectState::Selected)
        }
    }
}

/// The groups that are matched, one flag per color.
#[derive(Debug)]
pub struct MatchedCards {
    yellow: bool,
    blue: bool,
    purple: bool,
    green: bool,
}

/// The number of matched groups.
pub open spec fn matched_count(m: Seq<bool>) -> int {
    (if m[0] { 1int } else { 0int }) + (if m[1] { 1int } else { 0int }) + (if m[2] { 1int } else { 0int }) + (
    if m[3] { 1int } else { 0int })
}

impl View for MatchedCards {
    /// The flags of Yellow, Blue, Purple and Green.
    type V = Seq<bool>;

    closed spec fn view(&self) -> Seq<bool> {
        seq![self.yellow, self.blue, self.purple, self.green]
    }
}

impl MatchedCards {
    /// No group matched.
    pub fn new() -> (r: MatchedCards)
        ensures
            r@ == seq![false, false, false, false],
    {
        MatchedCards { yellow: false, blue: false, purple: false, green: false }
    }

    /// The number of matched groups.
    pub fn num_matched(&self) -> (r: usize)
        ensures
            r == matched_count(self@),
            r <= 4,
    {
        let mut num: usize = 0;
        if self.yellow {
            num += 1;
        }
        if self.blue {
            num += 1;
        }
        if self.purple {
            num += 1;
        }
        if self.green {
            num += 1;
        }
        num
    }

    /// Whether the group of a color is matched.
    pub fn contains(&self, color: Color) -> (r: bool)
        ensures
            r == self@[color_index(color)],
    {
        match color {
            Color::Yellow => self.yellow,
            Color::Blue => self.blue,
            Color::Purple => self.purple,
            Color::Green => self.green,
        }
    }

    /// Marks every group unmatched.
    pub fn clear(&mut self)
        ensures
            final(self)@ == seq![false, false, false, false],
    {
        self.yellow = false;
        self.blue = false;
        self.purple = false;
        self.green = false;
    }

    /// Marks the group of a color matched.
    pub fn mark_match(&mut self, color: Color)
        ensures
            final(self)@ == old(self)@.update(color_index(color), true),
    {
        match color {
            Color::Yellow => self.yellow = true,
            Color::Blue => self.blue = true,
            Color::Purple => self.purple = true,
            Color::Green => self.green = true,
        }
        assert(self@ =~= old(self)@.update(color_index(color), true));
    }
}

} // verus!
