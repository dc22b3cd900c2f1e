//! What the page shows in answer to the game's outcomes: which buttons are
//! active, which pop-up or end screen appears. The page layer performs
//! these decisions; it holds no rule of its own.
use crate::color::Color;
use crate::game::{GameFailiure, SelectionSuccess};
use vstd::prelude::*;

verus! {

/// The buttons of the game page.
#[derive(Copy, Clone, PartialEq, Eq, Structural, Debug)]
pub enum ButtonId {
    Shuffle,
    Submit,
    DeselectAll,
    TryAgain,
    Share,
    NewPuzzle,
    EditMe,
    SeeBoard,
}

/// The element id of a button.
pub open spec fn button_name(b: ButtonId) -> Seq<char> {
    match b {
        ButtonId::Shuffle => "shuffle"@,
        ButtonId::Submit => "submit"@,
        ButtonId::DeselectAll => "deselect"@,
        ButtonId::TryAgain => "again"@,
        ButtonId::Share => "share"@,
        ButtonId::NewPuzzle => "new-puzzle"@,
        ButtonId::EditMe => "edit-me"@,
        ButtonId::SeeBoard => "see-board"@,
    }
}

impl ButtonId {
    /// The element id of the button.
    pub fn as_str(&self) -> (r: &'static str)
        ensures
            r@ == button_name(*self),
    {
        match self {
            ButtonId::Shuffle => "shuffle",
            ButtonId::Submit => "submit",
            ButtonId::DeselectAll => "deselect",
            ButtonId::TryAgain => "again",
            ButtonId::Share => "share",
            ButtonId::NewPuzzle => "new-puzzle",
            ButtonId::EditMe => "edit-me",
            ButtonId::SeeBoard => "see-board",
        }
    }
}

/// The pop-ups of the game page.
#[derive(Copy, Clone, PartialEq, Eq, Structural, Debug)]
pub enum PopUpId {
    CopyToClipboard,
    OneAway,
    AlreadyGuessed,
}

/// The element id of a pop-up.
pub open spec fn pop_up_name(p: PopUpId) -> Seq<char> {
    match p {
        PopUpId::CopyToClipboard => "copied"@,
        PopUpId::OneAway => "away"@,
        PopUpId::AlreadyGuessed => "already"@,
    }
}

impl PopUpId {
    /// The element id of the pop-up.
    pub fn as_str(&self) -> (r: &'static str)
        ensures
            r@ == pop_up_name(*self),
    {
        match self {
            PopUpId::CopyToClipboard => "copied",
            PopUpId::OneAway => "away",
            PopUpId::AlreadyGuessed => "already",
        }
    }
}

/// How a game ended.
#[derive(Copy, Clone, PartialEq, Eq, Structural, Debug)]
pub enum EndState {
    Win,
    Lost,
}

/// The page templates.
#[derive(Copy, Clone, PartialEq, Eq, Structural, Debug)]
pub enum CustomElem {
    Board,
    Game,
}

impl CustomElem {
    /// The element id of the template.
    pub fn as_str(&self) -> (r: &'static str)
        ensures
            r@ == (match *self {
                CustomElem::Board => "board-template"@,
                CustomElem::Game => "connections-game"@,
            }),
    {
        match self {
            CustomElem::Board => "board-template",
            CustomElem::Game => "connections-game",
        }
    }
}

/// Buttons to turn on and off.
pub struct ButtonUpdate {
    pub enable: Vec<ButtonId>,
    pub disable: Vec<ButtonId>,
}

/// The buttons that change once a selection holds `size` cards: none chosen
/// turns off submitting and deselecting; the first card turns on
/// deselecting; a third card turns off submitting; the fourth turns it on.
pub open spec fn button_changes(size: int) -> (Seq<ButtonId>, Seq<ButtonId>) {
    if size == 0 {
        (seq![], seq![ButtonId::DeselectAll, ButtonId::Submit])
    } else if size == 1 {
        (seq![ButtonId::DeselectAll], seq![])
    } else if size == 3 {
        (seq![], seq![ButtonId::Submit])
    } else if size == 4 {
        (seq![ButtonId::Submit], seq![])
    } else {
        (seq![], seq![])
    }
}

/// The buttons to turn on and off after a selection returned its size.
pub fn after_select(size: usize) -> (r: ButtonUpdate)
    requires
        size <= 4,
    ensures
        (r.enable@, r.disable@) == button_changes(size as int),
{
    let mut enable: Vec<ButtonId> = Vec::new();
    let mut disable: Vec<ButtonId> = Vec::new();
    if size == 0 {
        disable.push(ButtonId::DeselectAll);
        disable.push(ButtonId::Submit);
    } else if size == 1 {
        enable.push(ButtonId::DeselectAll);
    } else if size == 3 {
        disable.push(ButtonId::Submit);
    } else if size == 4 {
        enable.push(ButtonId::Submit);
    }
    let r = ButtonUpdate { enable, disable };
    assert((r.enable@, r.disable@) =~~= button_changes(size as int));
    r
}

/// What the page does after a selection was submitted.
#[derive(Copy, Clone, PartialEq, Eq, Structural, Debug)]
pub enum Feedback {
    /// Show the matched group of a color.
    ShowMatch(Color),
    /// Show the matched group of a color, then the end screen.
    ShowMatchAndEnd(Color, EndState),
    /// Shake the selected cards.
    Shake,
    /// Show a pop-up.
    PopUp(PopUpId),
    /// Show the end screen.
    End(EndState),
}

/// The feedback of each outcome of a submission.
pub open spec fn feedback_of(r: Result<SelectionSuccess, GameFailiure>) -> Feedback {
    match r {
        Ok(SelectionSuccess::Won(c)) => Feedback::ShowMatchAndEnd(c, EndState::Win),
        Ok(SelectionSuccess::Matched(c)) => Feedback::ShowMatch(c),
        Err(GameFailiure::Mismatch) => Feedback::Shake,
        Err(GameFailiure::NotEnough) => Feedback::Shake,
        Err(GameFailiure::OneAway) => Feedback::PopUp(PopUpId::OneAway),
        Err(GameFailiure::AlreadyTried) => Feedback::PopUp(PopUpId::AlreadyGuessed),
        Err(GameFailiure::Lost) => Feedback::End(EndState::Lost),
    }
}

/// The feedback of the outcome of a submission.
pub fn submit_feedback(r: &Result<SelectionSuccess, GameFailiure>) -> (f: Feedback)
    ensures
        f == feedback_of(*r),
{
    match r {
        Ok(SelectionSuccess::Won(c)) => Feedback::ShowMatchAndEnd(*c, EndState::Win),
        Ok(SelectionSuccess::Matched(c)) => Feedback::ShowMatch(*c),
        Err(GameFailiure::Mismatch) => Feedback::Shake,
        Err(GameFailiure::NotEnough) => Feedback::Shake,
        Err(GameFailiure::OneAway) => Feedback::PopUp(PopUpId::OneAway),
        Err(GameFailiure::AlreadyTried) => Feedback::PopUp(PopUpId::AlreadyGuessed),
        Err(GameFailiure::Lost) => Feedback::End(EndState::Lost),
    }
}

/// Whether an outcome uses up one of the mistakes shown on the page.
pub fn costs_mistake(r: &Result<SelectionSuccess, GameFailiure>) -> (b: bool)
    ensures
        b == (*r == Err::<SelectionSuccess, GameFailiure>(GameFailiure::Mismatch) || *r == Err::<
            SelectionSuccess,
            GameFailiure,
        >(GameFailiure::OneAway) || *r == Err::<SelectionSuccess, GameFailiure>(
            GameFailiure::Lost,
        )),
{
    match r {
        Err(GameFailiure::Mismatch) | Err(GameFailiure::OneAway) | Err(GameFailiure::Lost) => true,
        _ => false,
    }
}

} // verus!
