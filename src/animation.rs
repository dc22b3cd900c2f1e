//! The animations of the page, as data: each is a list of keyframes, each
//! keyframe a list of style attributes. Lengths are whole numbers of their
//! unit; a keyframe's offset is a percentage of the animation's duration.
use vstd::prelude::*;

verus! {

/// The unit of a length.
#[derive(Copy, Clone, PartialEq, Eq, Structural, Debug)]
pub enum AttributeUnit {
    Pixel,
    Percent,
    /// A bare number.
    Unitless,
}

/// A length: a whole number of a unit.
#[derive(Copy, Clone, PartialEq, Eq, Structural, Debug)]
pub struct NumberAttribute {
    pub num: i32,
    pub unit: AttributeUnit,
}

/// A timing function.
#[derive(Copy, Clone, PartialEq, Eq, Structural, Debug)]
pub enum Easing {
    EaseIn,
    EaseOut,
}

/// A display mode.
#[derive(Copy, Clone, PartialEq, Eq, Structural, Debug)]
pub enum Display {
    Block,
    /// Not displayed at all (`display: none`).
    Hidden,
}

/// One style attribute of a keyframe.
#[derive(Copy, Clone, PartialEq, Eq, Structural, Debug)]
pub enum KeyframeAttribute {
    Easing(Easing),
    Translate { x: NumberAttribute, y: NumberAttribute },
    Opacity(NumberAttribute),
    Display(Display),
    /// Where the keyframe stands, in percent of the duration.
    Offset(u8),
}

/// The style property that an attribute sets.
pub open spec fn attribute_key(a: KeyframeAttribute) -> Seq<char> {
    match a {
        KeyframeAttribute::Easing(_) => "easing"@,
        KeyframeAttribute::Translate { .. } => "transform"@,
        KeyframeAttribute::Opacity(_) => "opacity"@,
        KeyframeAttribute::Display(_) => "display"@,
        KeyframeAttribute::Offset(_) => "offset"@,
    }
}

impl KeyframeAttribute {
    /// The style property that the attribute sets.
    pub fn key(&self) -> (r: &'static str)
        ensures
            r@ == attribute_key(*self),
    {
        match self {
            KeyframeAttribute::Easing(_) => "easing",
            KeyframeAttribute::Translate { .. } => "transform",
            KeyframeAttribute::Opacity(_) => "opacity",
            KeyframeAttribute::Display(_) => "display",
            KeyframeAttribute::Offset(_) => "offset",
        }
    }

    /// No translation.
    pub fn base_translate() -> (r: KeyframeAttribute)
        ensures
            r == base(),
    {
        KeyframeAttribute::Translate {
            x: NumberAttribute { num: 0, unit: AttributeUnit::Unitless },
            y: NumberAttribute { num: 0, unit: AttributeUnit::Unitless },
        }
    }

    /// A horizontal translation.
    pub fn translate_x(num: i32, unit: AttributeUnit) -> (r: KeyframeAttribute)
        ensures
            r == translate(0, num, unit),
    {
        KeyframeAttribute::Translate {
            x: NumberAttribute { num, unit },
            y: NumberAttribute { num: 0, unit },
        }
    }

    /// A vertical translation.
    pub fn translate_y(num: i32, unit: AttributeUnit) -> (r: KeyframeAttribute)
        ensures
            r == translate(1, num, unit),
    {
        KeyframeAttribute::Translate {
            x: NumberAttribute { num: 0, unit },
            y: NumberAttribute { num, unit },
        }
    }

    /// The place of a keyframe, in percent of the duration.
    pub fn offset(percent: u8) -> (r: KeyframeAttribute)
        ensures
            r == KeyframeAttribute::Offset(percent),
    {
        KeyframeAttribute::Offset(percent)
    }
}

/// No translation.
pub open spec fn base() -> KeyframeAttribute {
    KeyframeAttribute::Translate {
        x: NumberAttribute { num: 0, unit: AttributeUnit::Unitless },
        y: NumberAttribute { num: 0, unit: AttributeUnit::Unitless },
    }
}

/// A translation along one axis (0 for horizontal, 1 for vertical).
pub open spec fn translate(axis: int, num: i32, unit: AttributeUnit) -> KeyframeAttribute {
    if axis == 0 {
        KeyframeAttribute::Translate {
            x: NumberAttribute { num, unit },
            y: NumberAttribute { num: 0, unit },
        }
    } else {
        KeyframeAttribute::Translate {
            x: NumberAttribute { num: 0, unit },
            y: NumberAttribute { num, unit },
        }
    }
}

/// The keyframes of an animation, as sequences.
pub open spec fn frames(k: Vec<Vec<KeyframeAttribute>>) -> Seq<Seq<KeyframeAttribute>> {
    k@.map_values(|f: Vec<KeyframeAttribute>| f@)
}

/// A card that jumps up ten pixels and comes back.
pub open spec fn jump_frames() -> Seq<Seq<KeyframeAttribute>> {
    let up = KeyframeAttribute::Translate {
        x: NumberAttribute { num: 0, unit: AttributeUnit::Unitless },
        y: NumberAttribute { num: -10i32, unit: AttributeUnit::Pixel },
    };
    seq![seq![base()], seq![up], seq![base()]]
}

/// A selection that shakes two pixels left and right, three times.
pub open spec fn shake_frames() -> Seq<Seq<KeyframeAttribute>> {
    let left = translate(0, -2i32, AttributeUnit::Pixel);
    let right = translate(0, 2i32, AttributeUnit::Pixel);
    seq![
        seq![base()],
        seq![left],
        seq![right],
        seq![left],
        seq![right],
        seq![left],
        seq![base()],
    ]
}

/// A pop-up that fades in, stays from a quarter to three quarters of the
/// time, and fades out.
pub open spec fn popup_frames() -> Seq<Seq<KeyframeAttribute>> {
    let hidden = KeyframeAttribute::Display(Display::Hidden);
    let showing = KeyframeAttribute::Display(Display::Block);
    let invisible = KeyframeAttribute::Opacity(NumberAttribute { num: 0, unit: AttributeUnit::Percent });
    let visible = KeyframeAttribute::Opacity(NumberAttribute { num: 100, unit: AttributeUnit::Percent });
    let ease_in = KeyframeAttribute::Easing(Easing::EaseIn);
    let ease_out = KeyframeAttribute::Easing(Easing::EaseOut);
    seq![
        seq![hidden, invisible, ease_out],
        seq![showing, visible, ease_in, KeyframeAttribute::Offset(25)],
        seq![showing, visible, ease_in, KeyframeAttribute::Offset(75)],
        seq![hidden, invisible, ease_in],
    ]
}

/// A banner that slides down from above, stays, and slides back up.
pub open spec fn slide_in_frames() -> Seq<Seq<KeyframeAttribute>> {
    let hidden = translate(1, -165i32, AttributeUnit::Percent);
    let showing = translate(1, -90i32, AttributeUnit::Percent);
    seq![
        seq![hidden],
        seq![showing, KeyframeAttribute::Offset(25)],
        seq![showing, KeyframeAttribute::Offset(75), KeyframeAttribute::Easing(Easing::EaseOut)],
        seq![hidden],
    ]
}

/// The keyframes of a card's jump.
pub fn jump_keyframes() -> (r: Vec<Vec<KeyframeAttribute>>)
    ensures
        frames(r) == jump_frames(),
{
    let normal = KeyframeAttribute::base_translate();
    let up = KeyframeAttribute::Translate {
        x: NumberAttribute { num: 0, unit: AttributeUnit::Unitless },
        y: NumberAttribute { num: -10, unit: AttributeUnit::Pixel },
    };
    let r = vec![vec![normal], vec![up], vec![normal]];
    assert(frames(r) =~~= jump_frames());
    r
}

/// The keyframes of a selection's shake.
pub fn shake_keyframes() -> (r: Vec<Vec<KeyframeAttribute>>)
    ensures
        frames(r) == shake_frames(),
{
    let left = KeyframeAttribute::translate_x(-2, AttributeUnit::Pixel);
    let normal = KeyframeAttribute::base_translate();
    let right = KeyframeAttribute::translate_x(2, AttributeUnit::Pixel);
    let r = vec![
        vec![normal],
        vec![left],
        vec![right],
        vec![left],
        vec![right],
        vec![left],
        vec![normal],
    ];
    assert(frames(r) =~~= shake_frames());
    r
}

/// The keyframes of a pop-up.
pub fn popup_keyframes() -> (r: Vec<Vec<KeyframeAttribute>>)
    ensures
        frames(r) == popup_frames(),
{
    let hidden = KeyframeAttribute::Display(Display::Hidden);
    let showing = KeyframeAttribute::Display(Display::Block);
    let invisible = KeyframeAttribute::Opacity(NumberAttribute { num: 0, unit: AttributeUnit::Percent });
    let visible = KeyframeAttribute::Opacity(NumberAttribute { num: 100, unit: AttributeUnit::Percent });
    let ease_in = KeyframeAttribute::Easing(Easing::EaseIn);
    let ease_out = KeyframeAttribute::Easing(Easing::EaseOut);
    let quarter_in = KeyframeAttribute::offset(25);
    let almost_done = KeyframeAttribute::offset(75);
    let r = vec![
        vec![hidden, invisible, ease_out],
        vec![showing, visible, ease_in, quarter_in],
        vec![showing, visible, ease_in, almost_done],
        vec![hidden, invisible, ease_in],
    ];
    assert(frames(r) =~~= popup_frames());
    r
}

/// The keyframes of a banner sliding in.
pub fn slide_in_keyframes() -> (r: Vec<Vec<KeyframeAttribute>>)
    ensures
        frames(r) == slide_in_frames(),
{
    let hidden = KeyframeAttribute::translate_y(-165, AttributeUnit::Percent);
    let showing = KeyframeAttribute::translate_y(-90, AttributeUnit::Percent);
    let ease_out = KeyframeAttribute::Easing(Easing::EaseOut);
    let almost_done = KeyframeAttribute::offset(75);
    let quarter_in = KeyframeAttribute::offset(25);
    let r = vec![vec![hidden], vec![showing, quarter_in], vec![showing, almost_done, ease_out], vec![hidden]];
    assert(frames(r) =~~= slide_in_frames());
    r
}

/// The animations of the page.
#[derive(Copy, Clone, PartialEq, Eq, Structural, Debug)]
pub enum AnimationType {
    Jump,
    Shake,
    PopUp,
    SlideIn,
}

/// The keyframes of an animation.
pub open spec fn animation_frames(a: AnimationType) -> Seq<Seq<KeyframeAttribute>> {
    match a {
        AnimationType::Jump => jump_frames(),
        AnimationType::Shake => shake_frames(),
        AnimationType::PopUp => popup_frames(),
        AnimationType::SlideIn => slide_in_frames(),
    }
}

impl AnimationType {
    /// How long the animation runs, in milliseconds.
    pub fn duration_ms(&self) -> (r: u32)
        ensures
            r == (match *self {
                AnimationType::Jump => 400u32,
                AnimationType::Shake => 300u32,
                AnimationType::PopUp => 2000u32,
                AnimationType::SlideIn => 1000u32,
            }),
    {
        match self {
            AnimationType::Jump => 400,
            AnimationType::Shake => 300,
            AnimationType::PopUp => 2000,
            AnimationType::SlideIn => 1000,
        }
    }

    /// The keyframes of the animation.
    pub fn keyframes(&self) -> (r: Vec<Vec<KeyframeAttribute>>)
        ensures
            frames(r) == animation_frames(*self),
    {
        match self {
            AnimationType::Jump => jump_keyframes(),
            AnimationType::Shake => shake_keyframes(),
            AnimationType::PopUp => popup_keyframes(),
            AnimationType::SlideIn => slide_in_keyframes(),
        }
    }
}

} // verus!
