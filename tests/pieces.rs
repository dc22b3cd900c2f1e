use connections::animation::{
    jump_keyframes, popup_keyframes, shake_keyframes, slide_in_keyframes, AnimationType,
    AttributeUnit, Display, KeyframeAttribute, NumberAttribute,
};
use connections::ui::{after_select, costs_mistake, submit_feedback, ButtonId, EndState, Feedback, PopUpId};
use connections::{
    empty_pair, AsColor, Blue, Color, ConnectionSet, GameFailiure, Green, Purple, SelectionSuccess,
    Yellow,
};

#[test]
fn colors_and_their_numbers() {
    for n in 0..4u8 {
        assert_eq!(Color::from_int(n).to_int(), n);
    }
    assert_eq!(Color::from_int(2), Color::Purple);
    assert_eq!(Color::Green.as_str(), "green");
    assert_eq!(Color::all(), [Color::Yellow, Color::Blue, Color::Purple, Color::Green]);
    assert_eq!(Yellow::color(), Color::Yellow);
    assert_eq!(Blue::color(), Color::Blue);
    assert_eq!(Purple::color(), Color::Purple);
    assert_eq!(Green::color(), Color::Green);
}

#[test]
fn empty_pair_is_blank() {
    let (theme, words) = empty_pair();
    assert!(theme.is_empty());
    assert!(words.iter().all(|w| w.is_empty()));
    let s = ConnectionSet::empty_set();
    assert_eq!(s.words(), ", , , ");
}

#[test]
fn buttons_after_select() {
    let u = after_select(0);
    assert_eq!(u.enable, vec![]);
    assert_eq!(u.disable, vec![ButtonId::DeselectAll, ButtonId::Submit]);
    assert_eq!(after_select(1).enable, vec![ButtonId::DeselectAll]);
    assert!(after_select(2).enable.is_empty() && after_select(2).disable.is_empty());
    assert_eq!(after_select(3).disable, vec![ButtonId::Submit]);
    assert_eq!(after_select(4).enable, vec![ButtonId::Submit]);
    assert_eq!(ButtonId::DeselectAll.as_str(), "deselect");
    assert_eq!(ButtonId::NewPuzzle.as_str(), "new-puzzle");
}

#[test]
fn feedback_of_outcomes() {
    assert_eq!(
        submit_feedback(&Ok(SelectionSuccess::Won(Color::Blue))),
        Feedback::ShowMatchAndEnd(Color::Blue, EndState::Win)
    );
    assert_eq!(submit_feedback(&Ok(SelectionSuccess::Matched(Color::Green))), Feedback::ShowMatch(Color::Green));
    assert_eq!(submit_feedback(&Err(GameFailiure::Mismatch)), Feedback::Shake);
    assert_eq!(submit_feedback(&Err(GameFailiure::OneAway)), Feedback::PopUp(PopUpId::OneAway));
    assert_eq!(submit_feedback(&Err(GameFailiure::AlreadyTried)), Feedback::PopUp(PopUpId::AlreadyGuessed));
    assert_eq!(submit_feedback(&Err(GameFailiure::Lost)), Feedback::End(EndState::Lost));
    assert!(costs_mistake(&Err(GameFailiure::Lost)));
    assert!(!costs_mistake(&Err(GameFailiure::AlreadyTried)));
    assert!(!costs_mistake(&Err(GameFailiure::NotEnough)));
    assert_eq!(PopUpId::AlreadyGuessed.as_str(), "already");
}

#[test]
fn animation_keyframes() {
    assert_eq!(jump_keyframes().len(), 3);
    assert_eq!(
        jump_keyframes()[1],
        vec![KeyframeAttribute::Translate {
            x: NumberAttribute { num: 0, unit: AttributeUnit::Unitless },
            y: NumberAttribute { num: -10, unit: AttributeUnit::Pixel },
        }]
    );
    let shake = shake_keyframes();
    assert_eq!(shake.len(), 7);
    assert_eq!(shake[0], shake[6]);
    assert_eq!(shake[1], shake[3]);
    let pop = popup_keyframes();
    assert_eq!(pop.len(), 4);
    assert_eq!(pop[0][0], KeyframeAttribute::Display(Display::Hidden));
    assert_eq!(pop[1][3], KeyframeAttribute::Offset(25));
    assert_eq!(pop[2][3].key(), "offset");
    let slide = slide_in_keyframes();
    assert_eq!(slide[0], slide[3]);
    assert_eq!(slide[2].len(), 3);
    assert_eq!(AnimationType::PopUp.duration_ms(), 2000);
    assert_eq!(AnimationType::Shake.keyframes(), shake);
}
