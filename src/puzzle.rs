use crate::color::{color_index, Color};
use vstd::prelude::*;

verus! {

/// One group of a puzzle: a theme and the four words that share it.
#[derive(Debug)]
pub struct ConnectionSet {
    pub theme: String,
    pub words: [String; 4],
}

impl View for ConnectionSet {
    /// The theme followed by the four words.
    type V = Seq<Seq<char>>;

    open spec fn view(&self) -> Seq<Seq<char>> {
        seq![
            self.theme@,
            self.words@[0]@,
            self.words@[1]@,
            self.words@[2]@,
            self.words@[3]@,
        ]
    }
}

/// The text of a theme and four words, as a group's view lists them.
pub open spec fn set_fields(theme: Seq<char>, words: Seq<Seq<char>>) -> Seq<Seq<char>> {
    seq![theme, words[0], words[1], words[2], words[3]]
}

/// The words of a group, joined by a comma and a space.
pub open spec fn joined_words(set: Seq<Seq<char>>) -> Seq<char> {
    set[1] + ", "@ + set[2] + ", "@ + set[3] + ", "@ + set[4]
}

/// A theme and four words, all of them empty.
pub fn empty_pair() -> (r: (String, [String; 4]))
    ensures
        r.0@.len() == 0,
        forall|i: int| 0 <= i < 4 ==> (#[trigger] r.1@[i])@.len() == 0,
{
    (String::new(), [String::new(), String::new(), String::new(), String::new()])
}

impl ConnectionSet {
    /// A group with the given theme and words.
    pub fn new(theme: &str, words: [&str; 4]) -> (r: ConnectionSet)
        ensures
            r@ == set_fields(theme@, words@.map_values(|w: &str| w@)),
    {
        let w: [String; 4] = [
            words[0].to_owned(),
            words[1].to_owned(),
            words[2].to_owned(),
            words[3].to_owned(),
        ];
        let r = ConnectionSet { theme: theme.to_owned(), words: w };
        assert(r@ =~= set_fields(theme@, words@.map_values(|w: &str| w@)));
        r
    }

    /// The group of the placeholder puzzle: all five strings empty.
    pub fn empty_set() -> (r: ConnectionSet)
        ensures
            forall|i: int| 0 <= i < 5 ==> (#[trigger] r@[i]).len() == 0,
    {
        let (theme, words) = empty_pair();
        ConnectionSet { theme, words }
    }

    /// A copy of the theme.
    pub fn theme(&self) -> (r: String)
        ensures
            r@ == self@[0],
    {
        self.theme.clone()
    }

    /// The theme.
    pub fn theme_ref(&self) -> (r: &str)
        ensures
            r@ == self@[0],
    {
        self.theme.as_str()
    }

    /// The word at a position of the group.
    pub fn word(&self, index: usize) -> (r: &str)
        requires
            index < 4,
        ensures
            r@ == self@[index + 1],
    {
        self.words[index].as_str()
    }

    /// Copies of the four words, in order.
    pub fn words_list(&self) -> (r: Vec<String>)
        ensures
            r.len() == 4,
            forall|i: int| 0 <= i < 4 ==> (#[trigger] r@[i])@ == self@[i + 1],
    {
        let mut r: Vec<String> = Vec::new();
        let mut i: usize = 0;
        while i < 4
            invariant
                i <= 4,
                r.len() == i,
                forall|j: int| 0 <= j < i ==> (#[trigger] r@[j])@ == self@[j + 1],
            decreases 4 - i,
        {
            r.push(self.words[i].clone());
            i = i + 1;
        }
        r
    }

    /// The four words, in order.
    pub fn words_list_ref(&self) -> (r: [&str; 4])
        ensures
            forall|i: int| 0 <= i < 4 ==> (#[trigger] r@[i])@ == self@[i + 1],
    {
        [
            self.words[0].as_str(),
            self.words[1].as_str(),
            self.words[2].as_str(),
            self.words[3].as_str(),
        ]
    }

    /// The four words in one line, separated by a comma and a space.
    pub fn words(&self) -> (r: String)
        ensures
            r@ == joined_words(self@),
    {
        let mut r = self.words[0].clone();
        r.append(", ");
        r.append(self.words[1].as_str());
        r.append(", ");
        r.append(self.words[2].as_str());
        r.append(", ");
        r.append(self.words[3].as_str());
        r
    }

    /// A copy of the group.
    pub fn duplicate(&self) -> (r: ConnectionSet)
        ensures
            r@ == self@,
    {
        ConnectionSet {
            theme: self.theme.clone(),
            words: [
                self.words[0].clone(),
                self.words[1].clone(),
                self.words[2].clone(),
                self.words[3].clone(),
            ],
        }
    }
}

/// A reference to one card of a puzzle: its group and its place in the group.
#[derive(Copy, Clone, PartialEq, Eq, Structural, Hash, Debug)]
pub struct PuzzleRef {
    pub color: Color,
    pub word_index: usize,
}

impl PuzzleRef {
    /// Whether the reference names one of a puzzle's sixteen cards.
    pub open spec fn valid(&self) -> bool {
        self.word_index < 4
    }

    /// The number of the card among the sixteen, from 0 to 15.
    pub open spec fn id(&self) -> int {
        4 * color_index(self.color) + self.word_index
    }

    /// The reference to a card.
    pub fn new(color: Color, word_index: usize) -> (r: PuzzleRef)
        requires
            word_index < 4,
        ensures
            r.color == color,
            r.word_index == word_index,
            r.valid(),
    {
        PuzzleRef { color, word_index }
    }

    /// The card's group.
    pub fn color(&self) -> (r: Color)
        ensures
            r == self.color,
    {
        self.color
    }

    /// The card's word in the given group.
    pub fn word<'a>(&self, set: &'a ConnectionSet) -> (r: &'a str)
        requires
            self.valid(),
        ensures
            r@ == set@[self.word_index + 1],
    {
        set.word(self.word_index)
    }

    /// The sixteen cards, group by group.
    pub fn new_set() -> (r: Vec<PuzzleRef>)
        ensures
            r.len() == 16,
            forall|i: int| 0 <= i < 16 ==> (#[trigger] r@[i]).id() == i && r@[i].valid(),
    {
        let mut r: Vec<PuzzleRef> = Vec::new();
        let mut c: u8 = 0;
        while c < 4
            invariant
                c <= 4,
                r.len() == 4 * c,
                forall|i: int| 0 <= i < r.len() ==> (#[trigger] r@[i]).id() == i && r@[i].valid(),
            decreases 4 - c,
        {
            let color = Color::from_int(c);
            let mut w: usize = 0;
            while w < 4
                invariant
                    c < 4,
                    w <= 4,
                    color_index(color) == c,
                    r.len() == 4 * c + w,
                    forall|i: int|
                        0 <= i < r.len() ==> (#[trigger] r@[i]).id() == i && r@[i].valid(),
                decreases 4 - w,
            {
                r.push(PuzzleRef::new(color, w));
                w = w + 1;
            }
            c = c + 1;
        }
        r
    }
}

/// The view of a puzzle: the five strings of each group, groups in color order.
pub open spec fn group_of(p: Seq<Seq<char>>, c: Color) -> Seq<Seq<char>> {
    p.subrange(5 * color_index(c), 5 * color_index(c) + 5)
}

/// The twenty strings of a puzzle made of four groups.
pub open spec fn puzzle_fields(
    yellow: Seq<Seq<char>>,
    blue: Seq<Seq<char>>,
    purple: Seq<Seq<char>>,
    green: Seq<Seq<char>>,
) -> Seq<Seq<char>> {
    yellow + blue + purple + green
}

/// A puzzle: one group of a theme and four words for each color.
#[derive(Debug)]
pub struct ConnectionPuzzle {
    pub yellow: ConnectionSet,
    pub blue: ConnectionSet,
    pub purple: ConnectionSet,
    pub green: ConnectionSet,
}

impl View for ConnectionPuzzle {
    /// The twenty strings of the puzzle: the yellow theme and words, then blue,
    /// purple and green.
    type V = Seq<Seq<char>>;

    open spec fn view(&self) -> Seq<Seq<char>> {
        puzzle_fields(self.yellow@, self.blue@, self.purple@, self.green@)
    }
}

/// The strings of the puzzle that a new session starts with when it is given no code.
pub open spec fn default_puzzle_fields() -> Seq<Seq<char>> {
    seq![
        "Minecraft Cake Recipe"@, "wheat"@, "milk"@, "eggs"@, "sugar"@,
        "noble gasses"@, "helium"@, "argon"@, "krypton"@, "neon"@,
        "___Room"@, "war"@, "bed"@, "situation"@, "clean"@,
        "Domains of Greek Gods"@, "victory"@, "ocean"@, "thunder"@, "music"@,
    ]
}

impl ConnectionPuzzle {
    /// A puzzle from the theme and words of each group.
    pub fn new(
        yellow: (&str, [&str; 4]),
        blue: (&str, [&str; 4]),
        purple: (&str, [&str; 4]),
        green: (&str, [&str; 4]),
    ) -> (r: ConnectionPuzzle)
        ensures
            r.yellow@ == set_fields(yellow.0@, yellow.1@.map_values(|w: &str| w@)),
            r.blue@ == set_fields(blue.0@, blue.1@.map_values(|w: &str| w@)),
            r.purple@ == set_fields(purple.0@, purple.1@.map_values(|w: &str| w@)),
            r.green@ == set_fields(green.0@, green.1@.map_values(|w: &str| w@)),
    {
        ConnectionPuzzle {
            yellow: ConnectionSet::new(yellow.0, yellow.1),
            blue: ConnectionSet::new(blue.0, blue.1),
            purple: ConnectionSet::new(purple.0, purple.1),
            green: ConnectionSet::new(green.0, green.1),
        }
    }

    /// The twenty empty strings of the placeholder puzzle.
    pub open spec fn empty_fields() -> Seq<Seq<char>> {
        Seq::new(20, |i: int| Seq::<char>::empty())
    }

    /// The placeholder puzzle whose twenty strings are all empty.
    pub fn empty() -> (r: ConnectionPuzzle)
        ensures
            r@ == ConnectionPuzzle::empty_fields(),
    {
        let r = ConnectionPuzzle {
            yellow: ConnectionSet::empty_set(),
            blue: ConnectionSet::empty_set(),
            purple: ConnectionSet::empty_set(),
            green: ConnectionSet::empty_set(),
        };
        assert forall|i: int| 0 <= i < 20 implies (#[trigger] r@[i]) =~= Seq::<char>::empty() by {
            if i < 5 {
                assert(r@[i] == r.yellow@[i]);
            } else if i < 10 {
                assert(r@[i] == r.blue@[i - 5]);
            } else if i < 15 {
                assert(r@[i] == r.purple@[i - 10]);
            } else {
                assert(r@[i] == r.green@[i - 15]);
            }
        }
        assert(r@ =~= ConnectionPuzzle::empty_fields());
        r
    }

    /// The group of a color.
    pub fn by_color(&self, color: Color) -> (r: &ConnectionSet)
        ensures
            r@ == group_of(self@, color),
    {
        let r = match color {
            Color::Yellow => &self.yellow,
            Color::Blue => &self.blue,
            Color::Purple => &self.purple,
            Color::Green => &self.green,
        };
        assert(r@ =~= group_of(self@, color));
        r
    }

    /// The yellow group.
    pub fn yellow(&self) -> (r: &ConnectionSet)
        ensures
            r@ == group_of(self@, Color::Yellow),
    {
        self.by_color(Color::Yellow)
    }

    /// The blue group.
    pub fn blue(&self) -> (r: &ConnectionSet)
        ensures
            r@ == group_of(self@, Color::Blue),
    {
        self.by_color(Color::Blue)
    }

    /// The purple group.
    pub fn purple(&self) -> (r: &ConnectionSet)
        ensures
            r@ == group_of(self@, Color::Purple),
    {
        self.by_color(Color::Purple)
    }

    /// The green group.
    pub fn green(&self) -> (r: &ConnectionSet)
        ensures
            r@ == group_of(self@, Color::Green),
    {
        self.by_color(Color::Green)
    }

    /// A copy of the yellow group.
    pub fn yellow_owned(&self) -> (r: ConnectionSet)
        ensures
            r@ == group_of(self@, Color::Yellow),
    {
        self.by_color(Color::Yellow).duplicate()
    }

    /// A copy of the blue group.
    pub fn blue_owned(&self) -> (r: ConnectionSet)
        ensures
            r@ == group_of(self@, Color::Blue),
    {
        self.by_color(Color::Blue).duplicate()
    }

    /// A copy of the purple group.
    pub fn purple_owned(&self) -> (r: ConnectionSet)
        ensures
            r@ == group_of(self@, Color::Purple),
    {
        self.by_color(Color::Purple).duplicate()
    }

    /// A copy of the green group.
    pub fn green_owned(&self) -> (r: ConnectionSet)
        ensures
            r@ == group_of(self@, Color::Green),
    {
        self.by_color(Color::Green).duplicate()
    }

    /// The word of a card.
    pub fn word(&self, reference: PuzzleRef) -> (r: &str)
        requires
            reference.valid(),
        ensures
            r@ == self@[5 * color_index(reference.color) + reference.word_index + 1],
    {
        reference.word(self.by_color(reference.color))
    }

    /// The theme of a card's group.
    pub fn theme(&self, reference: PuzzleRef) -> (r: &str)
        ensures
            r@ == self@[5 * color_index(reference.color)],
    {
        self.by_color(reference.color).theme_ref()
    }

    /// A copy of the puzzle.
    pub fn duplicate(&self) -> (r: ConnectionPuzzle)
        ensures
            r@ == self@,
    {
        ConnectionPuzzle {
            yellow: self.yellow.duplicate(),
            blue: self.blue.duplicate(),
            purple: self.purple.duplicate(),
            green: self.green.duplicate(),
        }
    }
}

impl Default for ConnectionPuzzle {
    /// The puzzle that a session starts with when it is given no code.
    fn default() -> (r: ConnectionPuzzle)
        ensures
            r@ == default_puzzle_fields(),
    {
        let purple = ("___Room", ["war", "bed", "situation", "clean"]);
        let green = ("Domains of Greek Gods", ["victory", "ocean", "thunder", "music"]);
        let yellow = ("Minecraft Cake Recipe", ["wheat", "milk", "eggs", "sugar"]);
        let blue = ("noble gasses", ["helium", "argon", "krypton", "neon"]);
        let r = ConnectionPuzzle::new(yellow, blue, purple, green);
        assert(r@ =~= default_puzzle_fields());
        r
    }
}

} // verus!
