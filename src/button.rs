use vstd::prelude::*;
use vstd::string::StringSliceAdditionalSpecFns;
use vstd::utf8::encode_utf8_decode_utf8;

verus! {

/// The twelve logical buttons of a controller.
#[derive(Clone, Copy, Debug, PartialEq, Eq, Structural, Hash)]
pub enum Pressed {
    A,
    B,
    X,
    Y,
    Select,
    Start,
    L,
    R,
    Up,
    Down,
    Left,
    Right,
}

/// Number of lanes, one per button.
pub const LANE_COUNT: usize = 12;

/// Position of a button's lane, counted from the left edge of the roll.
/// The visual order is Left, Up, Down, Right, L, Select, Start, R, Y, B, X, A.
pub open spec fn lane_index(p: Pressed) -> int {
    match p {
        Pressed::Left => 0,
        Pressed::Up => 1,
        Pressed::Down => 2,
        Pressed::Right => 3,
        Pressed::L => 4,
        Pressed::Select => 5,
        Pressed::Start => 6,
        Pressed::R => 7,
        Pressed::Y => 8,
        Pressed::B => 9,
        Pressed::X => 10,
        Pressed::A => 11,
    }
}

/// The button whose lane stands at position `i` (the inverse of `lane_index`).
pub open spec fn button_at(i: int) -> Pressed {
    if i == 0 {
        Pressed::Left
    } else if i == 1 {
        Pressed::Up
    } else if i == 2 {
        Pressed::Down
    } else if i == 3 {
        Pressed::Right
    } else if i == 4 {
        Pressed::L
    } else if i == 5 {
        Pressed::Select
    } else if i == 6 {
        Pressed::Start
    } else if i == 7 {
        Pressed::R
    } else if i == 8 {
        Pressed::Y
    } else if i == 9 {
        Pressed::B
    } else if i == 10 {
        Pressed::X
    } else {
        Pressed::A
    }
}

/// Every button has exactly one lane, and the lane order is a bijection.
pub proof fn lemma_lane_order_bijective(p: Pressed, i: int)
    ensures
        0 <= lane_index(p) < LANE_COUNT,
        button_at(lane_index(p)) == p,
        0 <= i < LANE_COUNT ==> lane_index(button_at(i)) == i,
{
}

/// The button that a skin file names `b`, if any.
pub open spec fn button_named(b: Seq<char>) -> Option<Pressed> {
    if b == "a"@ {
        Some(Pressed::A)
    } else if b == "b"@ {
        Some(Pressed::B)
    } else if b == "x"@ {
        Some(Pressed::X)
    } else if b == "y"@ {
        Some(Pressed::Y)
    } else if b == "select"@ {
        Some(Pressed::Select)
    } else if b == "start"@ {
        Some(Pressed::Start)
    } else if b == "l"@ {
        Some(Pressed::L)
    } else if b == "r"@ {
        Some(Pressed::R)
    } else if b == "up"@ {
        Some(Pressed::Up)
    } else if b == "down"@ {
        Some(Pressed::Down)
    } else if b == "left"@ {
        Some(Pressed::Left)
    } else if b == "right"@ {
        Some(Pressed::Right)
    } else {
        None
    }
}

/// Whether two strings hold the same characters.
pub(crate) fn same_text(a: &str, b: &str) -> (r: bool)
    ensures
        r == (a@ == b@),
{
    let x = a.as_bytes();
    let y = b.as_bytes();
    proof {
        encode_utf8_decode_utf8(a@);
        encode_utf8_decode_utf8(b@);
    }
    if x.len() != y.len() {
        return false;
    }
    let mut i: usize = 0;
    while i < x.len()
        invariant
            0 <= i <= x@.len(),
            x@.len() == y@.len(),
            x@ == a.spec_bytes(),
            y@ == b.spec_bytes(),
            forall|j: int| 0 <= j < i ==> x@[j] == y@[j],
        decreases x@.len() - i,
    {
        if x[i] != y[i] {
            return false;
        }
        i = i + 1;
    }
    assert(x@ =~= y@);
    true
}

impl Pressed {
    /// The button that a skin file names `name`: one of a, b, x, y, select,
    /// start, l, r, up, down, left, right.
    pub fn from_name(name: &str) -> (r: Option<Pressed>)
        ensures
            r == button_named(name@),
    {
        if same_text(name, "a") {
            Some(Pressed::A)
        } else if same_text(name, "b") {
            Some(Pressed::B)
        } else if same_text(name, "x") {
            Some(Pressed::X)
        } else if same_text(name, "y") {
            Some(Pressed::Y)
        } else if same_text(name, "select") {
            Some(Pressed::Select)
        } else if same_text(name, "start") {
            Some(Pressed::Start)
        } else if same_text(name, "l") {
            Some(Pressed::L)
        } else if same_text(name, "r") {
            Some(Pressed::R)
        } else if same_text(name, "up") {
            Some(Pressed::Up)
        } else if same_text(name, "down") {
            Some(Pressed::Down)
        } else if same_text(name, "left") {
            Some(Pressed::Left)
        } else if same_text(name, "right") {
            Some(Pressed::Right)
        } else {
            None
        }
    }

    /// Position of this button's lane from the left.
    pub fn lane(self) -> (r: usize)
        ensures
            r == lane_index(self),
            r < LANE_COUNT,
    {
        match self {
            Pressed::Left => 0,
            Pressed::Up => 1,
            Pressed::Down => 2,
            Pressed::Right => 3,
            Pressed::L => 4,
            Pressed::Select => 5,
            Pressed::Start => 6,
            Pressed::R => 7,
            Pressed::Y => 8,
            Pressed::B => 9,
            Pressed::X => 10,
            Pressed::A => 11,
        }
    }

    /// The button whose lane stands at position `i`.
    pub fn at_lane(i: usize) -> (r: Pressed)
        requires
            i < LANE_COUNT,
        ensures
            r == button_at(i as int),
            lane_index(r) == i,
    {
        if i == 0 {
            Pressed::Left
        } else if i == 1 {
            Pressed::Up
        } else if i == 2 {
            Pressed::Down
        } else if i == 3 {
            Pressed::Right
        } else if i == 4 {
            Pressed::L
        } else if i == 5 {
            Pressed::Select
        } else if i == 6 {
            Pressed::Start
        } else if i == 7 {
            Pressed::R
        } else if i == 8 {
            Pressed::Y
        } else if i == 9 {
            Pressed::B
        } else if i == 10 {
            Pressed::X
        } else {
            Pressed::A
        }
    }
}

} // verus!
