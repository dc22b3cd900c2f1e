use vstd::prelude::*;

verus! {

/// One of the four groups of a puzzle, in their fixed order.
#[derive(Copy, Clone, PartialEq, Eq, Structural, Hash, Debug)]
pub enum Color {
    Yellow,
    Blue,
    Purple,
    Green,
}

/// The position of a color in the order Yellow, Blue, Purple, Green.
pub open spec fn color_index(c: Color) -> int {
    match c {
        Color::Yellow => 0,
        Color::Blue => 1,
        Color::Purple => 2,
        Color::Green => 3,
    }
}

/// The color at a position of the order Yellow, Blue, Purple, Green.
pub open spec fn color_at(i: int) -> Color
    recommends
        i < 4,
{
    if i == 0 {
        Color::Yellow
    } else if i == 1 {
        Color::Blue
    } else if i == 2 {
        Color::Purple
    } else {
        Color::Green
    }
}

impl Color {
    /// The color with the given position in the fixed order.
    pub fn from_int(n: u8) -> (r: Color)
        requires
            n < 4,
        ensures
            r == color_at(n as int),
            color_index(r) == n,
    {
        match n {
            0 => Color::Yellow,
            1 => Color::Blue,
            2 => Color::Purple,
            _ => Color::Green,
        }
    }

    /// The position of this color in the fixed order.
    pub fn to_int(&self) -> (r: u8)
        ensures
            r as int == color_index(*self),
            color_at(r as int) == *self,
    {
        match self {
            Color::Yellow => 0,
            Color::Blue => 1,
            Color::Purple => 2,
            Color::Green => 3,
        }
    }

    /// The lower-case name of the color, as the presentation layer uses it.
    pub fn as_str(&self) -> (r: &'static str)
        ensures
            r@ == color_name(*self),
    {
        match self {
            Color::Yellow => "yellow",
            Color::Blue => "blue",
            Color::Purple => "purple",
            Color::Green => "green",
        }
    }

    /// The four colors in their fixed order.
    pub fn all() -> (r: [Color; 4])
        ensures
            forall|i: int| 0 <= i < 4 ==> #[trigger] r@[i] == color_at(i),
    {
        [Color::Yellow, Color::Blue, Color::Purple, Color::Green]
    }
}

/// The lower-case name of a color.
pub open spec fn color_name(c: Color) -> Seq<char> {
    match c {
        Color::Yellow => "yellow"@,
        Color::Blue => "blue"@,
        Color::Purple => "purple"@,
        Color::Green => "green"@,
    }
}

/// A type that stands for one color.
pub trait AsColor {
    fn color() -> Color;
}

/// The type of the yellow group.
pub struct Yellow {}

/// The type of the blue group.
pub struct Blue {}

/// The type of the purple group.
pub struct Purple {}

/// The type of the green group.
pub struct Green {}

impl AsColor for Yellow {
    fn color() -> (r: Color)
        ensures
            r == Color::Yellow,
    {
        Color::Yellow
    }
}

impl AsColor for Blue {
    fn color() -> (r: Color)
        ensures
            r == Color::Blue,
    {
        Color::Blue
    }
}

impl AsColor for Purple {
    fn color() -> (r: Color)
        ensures
            r == Color::Purple,
    {
        Color::Purple
    }
}

impl AsColor for Green {
    fn color() -> (r: Color)
        ensures
            r == Color::Green,
    {
        Color::Green
    }
}

} // verus!
