use connections::{
    CardState, SelectionFailiure, Color, ConnectionPuzzle, GameFailiure, GameState, SelectionError,
    SelectionSuccess, TranscodingError,
};

/// The position of a word among the cards that are not matched.
fn open_index(g: &GameState, word: &str) -> usize {
    let first = 4 * g.num_matched();
    for i in first..16 {
        if g.get(i).word == word {
            return i - first;
        }
    }
    panic!("no open card holds {}", word)
}

fn select_words(g: &mut GameState, words: &[&str]) {
    for w in words {
        let i = open_index(g, w);
        g.select(i).expect("room for the card");
    }
}

const YELLOW: [&str; 4] = ["wheat", "milk", "eggs", "sugar"];
const BLUE: [&str; 4] = ["helium", "argon", "krypton", "neon"];
const PURPLE: [&str; 4] = ["war", "bed", "situation", "clean"];
const GREEN: [&str; 4] = ["victory", "ocean", "thunder", "music"];

#[test]
fn yellow_group_matches() {
    let mut g = GameState::default();
    select_words(&mut g, &YELLOW);
    assert!(matches!(g.check_selection(), Ok(SelectionSuccess::Matched(Color::Yellow))));
    assert_eq!(g.successes(), 1);
    assert_eq!(g.mistakes(), 0);
    assert_eq!(g.selection_len(), 0);
}

#[test]
fn three_and_one_is_one_away() {
    let mut g = GameState::default();
    select_words(&mut g, &["wheat", "milk", "eggs", "neon"]);
    assert!(matches!(g.check_selection(), Err(GameFailiure::OneAway)));
    assert_eq!(g.mistakes(), 1);
}

#[test]
fn two_and_two_is_mismatch() {
    let mut g = GameState::default();
    select_words(&mut g, &["wheat", "milk", "helium", "argon"]);
    assert!(matches!(g.check_selection(), Err(GameFailiure::Mismatch)));
    assert_eq!(g.mistakes(), 1);
}

#[test]
fn first_card_sets_the_tested_color() {
    // three blue cards, but the first one chosen is yellow
    let mut g = GameState::default();
    select_words(&mut g, &["wheat", "helium", "argon", "neon"]);
    assert!(matches!(g.check_selection(), Err(GameFailiure::Mismatch)));
    // the same cards with a blue card first
    let mut g = GameState::default();
    select_words(&mut g, &["helium", "wheat", "argon", "neon"]);
    assert!(matches!(g.check_selection(), Err(GameFailiure::OneAway)));
}

#[test]
fn fewer_than_four_is_not_enough() {
    let mut g = GameState::default();
    select_words(&mut g, &["wheat", "milk", "eggs"]);
    assert!(matches!(g.check_selection(), Err(GameFailiure::NotEnough)));
    assert_eq!(g.mistakes(), 0);
    assert_eq!(g.selection_len(), 3);
}

#[test]
fn select_returns_sizes_and_toggles() {
    let mut g = GameState::default();
    let i = open_index(&g, "wheat");
    assert_eq!(g.select(i), Ok(1));
    assert_eq!(g.get(i).state, CardState::Selected);
    assert_eq!(g.select(i), Ok(0));
    assert_eq!(g.get(i).state, CardState::Normal);
    for (n, w) in ["milk", "eggs", "sugar", "neon"].iter().enumerate() {
        let k = open_index(&g, w);
        assert_eq!(g.select(k), Ok(n + 1));
    }
    let k = open_index(&g, "wheat");
    assert_eq!(g.select(k), Err(SelectionError::Full));
    assert_eq!(g.selection_len(), 4);
    let k = open_index(&g, "neon");
    assert_eq!(g.select(k), Ok(3));
}

#[test]
fn selecting_twice_restores_selection() {
    let mut g = GameState::default();
    select_words(&mut g, &["milk", "war"]);
    let before: Vec<usize> = (0..16).filter(|&i| g.get(i).state == CardState::Selected).collect();
    let k = open_index(&g, "ocean");
    assert_eq!(g.select(k), Ok(3));
    assert_eq!(g.select(k), Ok(2));
    let after: Vec<usize> = (0..16).filter(|&i| g.get(i).state == CardState::Selected).collect();
    assert_eq!(before, after);
}

#[test]
fn clear_selection_empties_it() {
    let mut g = GameState::default();
    select_words(&mut g, &["milk", "war", "bed"]);
    g.clear_selection();
    assert_eq!(g.selection_len(), 0);
    assert!((0..16).all(|i| g.get(i).state == CardState::Normal));
}

#[test]
fn match_moves_group_to_front() {
    let mut g = GameState::default();
    select_words(&mut g, &BLUE);
    assert!(matches!(g.check_selection(), Ok(SelectionSuccess::Matched(Color::Blue))));
    for i in 0..4 {
        let c = g.get(i);
        assert_eq!(c.color, Color::Blue);
        assert_eq!(c.state, CardState::Matched);
        assert_eq!(c.theme, "noble gasses");
        assert_eq!(c.word, BLUE[i]);
    }
    for i in 4..16 {
        assert_ne!(g.get(i).color, Color::Blue);
        assert_eq!(g.get(i).state, CardState::Normal);
    }
    select_words(&mut g, &GREEN);
    assert!(matches!(g.check_selection(), Ok(SelectionSuccess::Matched(Color::Green))));
    for i in 0..4 {
        assert_eq!(g.get(i).color, Color::Blue);
    }
    for i in 4..8 {
        assert_eq!(g.get(i).color, Color::Green);
        assert_eq!(g.get(i).word, GREEN[i - 4]);
    }
    g.shuffle();
    for i in 0..4 {
        assert_eq!(g.get(i).color, Color::Blue);
    }
    for i in 4..8 {
        assert_eq!(g.get(i).color, Color::Green);
    }
    for i in 8..16 {
        assert!(g.get(i).color == Color::Yellow || g.get(i).color == Color::Purple);
    }
}

#[test]
fn fourth_match_wins() {
    let mut g = GameState::default();
    select_words(&mut g, &PURPLE);
    assert!(matches!(g.check_selection(), Ok(SelectionSuccess::Matched(Color::Purple))));
    select_words(&mut g, &YELLOW);
    assert!(matches!(g.check_selection(), Ok(SelectionSuccess::Matched(Color::Yellow))));
    select_words(&mut g, &GREEN);
    assert!(matches!(g.check_selection(), Ok(SelectionSuccess::Matched(Color::Green))));
    select_words(&mut g, &BLUE);
    assert!(matches!(g.check_selection(), Ok(SelectionSuccess::Won(Color::Blue))));
    assert_eq!(g.successes(), 4);
    assert_eq!(g.num_matched(), 4);
    assert!((0..16).all(|i| g.get(i).state == CardState::Matched));
}

#[test]
fn fourth_mistake_loses() {
    let mut g = GameState::default();
    let guesses = [
        ["wheat", "milk", "eggs", "neon"],
        ["wheat", "milk", "helium", "argon"],
        ["war", "bed", "situation", "music"],
        ["victory", "ocean", "wheat", "helium"],
    ];
    for (n, guess) in guesses.iter().enumerate() {
        g.clear_selection();
        select_words(&mut g, guess);
        let r = g.check_selection();
        if n < 3 {
            assert!(matches!(r, Err(GameFailiure::OneAway) | Err(GameFailiure::Mismatch)));
        } else {
            assert!(matches!(r, Err(GameFailiure::Lost)));
        }
        assert_eq!(g.mistakes() as usize, n + 1);
    }
    // a fourth mistake that is one away is still reported as a loss
    let mut g = GameState::default();
    for guess in guesses.iter().take(3) {
        g.clear_selection();
        select_words(&mut g, guess);
        let _ = g.check_selection();
    }
    g.clear_selection();
    select_words(&mut g, &["helium", "argon", "krypton", "war"]);
    assert!(matches!(g.check_selection(), Err(GameFailiure::Lost)));
    assert_eq!(g.mistakes(), 4);
}

#[test]
fn repeated_guess_is_already_tried() {
    let mut g = GameState::default();
    select_words(&mut g, &["wheat", "milk", "helium", "argon"]);
    assert!(matches!(g.check_selection(), Err(GameFailiure::Mismatch)));
    assert_eq!(g.mistakes(), 1);
    g.clear_selection();
    select_words(&mut g, &["argon", "helium", "milk", "wheat"]);
    assert!(matches!(g.check_selection(), Err(GameFailiure::AlreadyTried)));
    assert_eq!(g.mistakes(), 1);
    assert_eq!(g.selection_len(), 4);
    // a different guess still counts
    g.clear_selection();
    select_words(&mut g, &["argon", "helium", "milk", "eggs"]);
    assert!(matches!(g.check_selection(), Err(GameFailiure::Mismatch)));
    assert_eq!(g.mistakes(), 2);
}

#[test]
fn start_over_resets_counters() {
    let mut g = GameState::default();
    select_words(&mut g, &YELLOW);
    let _ = g.check_selection();
    select_words(&mut g, &["helium", "argon", "war", "bed"]);
    let _ = g.check_selection();
    g.start_over();
    assert_eq!(g.mistakes(), 0);
    assert_eq!(g.successes(), 0);
    assert_eq!(g.num_matched(), 0);
    assert_eq!(g.selection_len(), 0);
    // the attempt history is gone too
    select_words(&mut g, &["helium", "argon", "war", "bed"]);
    assert!(matches!(g.check_selection(), Err(GameFailiure::Mismatch)));
    let mut words: Vec<String> = (0..16).map(|i| g.card_text(i)).collect();
    words.sort();
    let mut all: Vec<String> =
        YELLOW.iter().chain(&BLUE).chain(&PURPLE).chain(&GREEN).map(|w| w.to_string()).collect();
    all.sort();
    assert_eq!(words, all);
}

#[test]
fn from_code_round_trip() {
    let g = GameState::default();
    let code = g.puzzle_code();
    assert_eq!(code, ConnectionPuzzle::default().encode());
    let h = GameState::from_code(&code).expect("a valid code");
    assert_eq!(h.mistakes(), 0);
    assert_eq!(h.successes(), 0);
    for c in [Color::Yellow, Color::Blue, Color::Purple, Color::Green] {
        assert_eq!(h.connection_set(c).theme(), g.connection_set(c).theme());
        assert_eq!(h.connection_set(c).words_list(), g.connection_set(c).words_list());
    }
    assert!(matches!(GameState::from_code("%%%"), Err(TranscodingError::Base64)));
}

#[test]
fn connection_set_of_each_color() {
    let g = GameState::default();
    assert_eq!(g.connection_set(Color::Purple).theme(), "___Room");
    assert_eq!(g.connection_set(Color::Purple).words(), "war, bed, situation, clean");
    assert_eq!(g.connection_set(Color::Green).theme(), "Domains of Greek Gods");
    assert_eq!(g.connection_set(Color::Yellow).words_list(), YELLOW.to_vec());
}

#[test]
fn empty_game_has_blank_cards_in_order() {
    let g = GameState::empty();
    for i in 0..16 {
        let c = g.get(i);
        assert_eq!(c.word, "");
        assert_eq!(c.theme, "");
        assert_eq!(c.state, CardState::Normal);
    }
    assert_eq!(g.get(0).color, Color::Yellow);
    assert_eq!(g.get(15).color, Color::Green);
}

#[test]
fn every_shuffle_keeps_all_cards() {
    let mut g = GameState::default();
    for _ in 0..20 {
        g.shuffle();
        let mut words: Vec<String> = (0..16).map(|i| g.card_text(i)).collect();
        words.sort();
        words.dedup();
        assert_eq!(words.len(), 16);
    }
}

#[test]
fn selection_indices_are_sorted_open_positions() {
    let mut g = GameState::default();
    select_words(&mut g, &YELLOW);
    let _ = g.check_selection();
    select_words(&mut g, &["war", "helium"]);
    let idx = g.get_selection_indices();
    assert_eq!(idx.len(), 2);
    assert!(idx[0] < idx[1]);
    let mut expected = vec![open_index(&g, "war"), open_index(&g, "helium")];
    expected.sort();
    assert_eq!(idx, expected);
}

#[test]
fn mistakes_stop_at_the_budget() {
    let mut g = GameState::default();
    let guesses = [
        ["wheat", "milk", "eggs", "neon"],
        ["wheat", "milk", "helium", "argon"],
        ["war", "bed", "situation", "music"],
        ["victory", "ocean", "wheat", "helium"],
        ["victory", "ocean", "war", "helium"],
    ];
    for guess in guesses.iter() {
        g.clear_selection();
        select_words(&mut g, guess);
        let _ = g.check_selection();
    }
    assert_eq!(g.mistakes(), 4);
    g.clear_selection();
    select_words(&mut g, &["victory", "ocean", "war", "bed"]);
    assert!(matches!(g.check_selection(), Err(GameFailiure::Lost)));
    assert_eq!(g.mistakes(), 4);
}

#[test]
fn card_styles() {
    let mut g = GameState::default();
    let i = open_index(&g, "neon");
    g.select(i).unwrap();
    let c = g.get(i);
    assert_eq!(c.class_name(), "selected");
    assert_eq!(c.text_color(), "white");
    assert_eq!(c.background_color(), "var(--connections-darker-beige)");
    g.clear_selection();
    select_words(&mut g, &GREEN);
    let _ = g.check_selection();
    let m = g.get(0);
    assert_eq!(m.class_name(), "matched_green");
    assert_eq!(m.text_color(), "black");
    assert_eq!(m.background_color(), "var(--connections-green)");
}

#[test]
fn selection_failures_convert() {
    assert_eq!(GameFailiure::from(SelectionFailiure::OneAway), GameFailiure::OneAway);
    assert_eq!(GameFailiure::from(SelectionFailiure::NotEnough), GameFailiure::NotEnough);
    assert_eq!(GameFailiure::from(SelectionFailiure::Mismatch), GameFailiure::Mismatch);
}
