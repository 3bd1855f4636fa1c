//! The closed catalog of weighted six-sided dice.

use crate::config::ConfigError;
use rand::Rng;
use vstd::prelude::*;

verus! {

/// What `str::to_lowercase` makes of a text.
pub uninterp spec fn lower_of(s: Seq<char>) -> Seq<char>;

/// Relies on `str::to_lowercase`: the result depends on the characters alone.
#[verifier::external_body]
fn lowercase(s: &str) -> (r: String)
    ensures
        r@ == lower_of(s@),
{
    s.to_lowercase()
}

/// Relies on rand's `thread_rng().gen_range(0..n)`: a value drawn from `0..n`,
/// which is non-empty.
#[verifier::external_body]
fn random_below(n: usize) -> (r: usize)
    requires
        n > 0,
    ensures
        r < n,
{
    rand::thread_rng().gen_range(0..n)
}

/// The die that a (lower-case) short code selects, if any.
pub open spec fn dice_for_code(code: Seq<char>) -> Option<Dice> {
    if code == "r"@ || code == "red"@ {
        Some(Dice::Red)
    } else if code == "b"@ || code == "blue"@ {
        Some(Dice::Blue)
    } else if code == "o"@ || code == "olive"@ || code == "g"@ || code == "green"@ {
        Some(Dice::Olive)
    } else if code == "y"@ || code == "yellow"@ {
        Some(Dice::Yellow)
    } else if code == "m"@ || code == "magenta"@ || code == "p"@ || code == "purple"@ {
        Some(Dice::Magenta)
    } else {
        None
    }
}

/// The full catalog, in catalog order.
pub open spec fn catalog_seq() -> Seq<Dice> {
    seq![Dice::Red, Dice::Blue, Dice::Olive, Dice::Yellow, Dice::Magenta]
}

pub fn catalog() -> (r: Vec<Dice>)
    ensures
        r@ == catalog_seq(),
{
    let r = vec![Dice::Red, Dice::Blue, Dice::Olive, Dice::Yellow, Dice::Magenta];
    assert(r@ =~= catalog_seq());
    r
}

/// Selects a die by an already lower-cased code.
pub fn from_code(code: &str) -> (r: Option<Dice>)
    ensures
        r == dice_for_code(code@),
{
    let c = String::from_str(code);
    if c == String::from_str("r") || c == String::from_str("red") {
        Some(Dice::Red)
    } else if c == String::from_str("b") || c == String::from_str("blue") {
        Some(Dice::Blue)
    } else if c == String::from_str("o") || c == String::from_str("olive") || c
        == String::from_str("g") || c == String::from_str("green") {
        Some(Dice::Olive)
    } else if c == String::from_str("y") || c == String::from_str("yellow") {
        Some(Dice::Yellow)
    } else if c == String::from_str("m") || c == String::from_str("magenta") || c
        == String::from_str("p") || c == String::from_str("purple") {
        Some(Dice::Magenta)
    } else {
        None
    }
}

/// One of the five catalog dice.
#[derive(Clone, Copy, PartialEq, Eq, Debug, Structural)]
pub enum Dice {
    Red,
    Blue,
    Olive,
    Yellow,
    Magenta,
}

impl Dice {
    /// The six faces of the die, each equally likely.
    pub open spec fn face_values(self) -> Seq<u8> {
        match self {
            Dice::Red => seq![4, 4, 4, 4, 4, 9],
            Dice::Blue => seq![2, 2, 2, 7, 7, 7],
            Dice::Olive => seq![0, 5, 5, 5, 5, 5],
            Dice::Yellow => seq![3, 3, 3, 3, 8, 8],
            Dice::Magenta => seq![1, 1, 6, 6, 6, 6],
        }
    }

    /// The die's display name.
    pub open spec fn label(self) -> Seq<char> {
        match self {
            Dice::Red => "Red"@,
            Dice::Blue => "Blue"@,
            Dice::Olive => "Olive"@,
            Dice::Yellow => "Yellow"@,
            Dice::Magenta => "Magenta"@,
        }
    }

    /// Position of the die in the catalog.
    pub open spec fn index(self) -> nat {
        match self {
            Dice::Red => 0,
            Dice::Blue => 1,
            Dice::Olive => 2,
            Dice::Yellow => 3,
            Dice::Magenta => 4,
        }
    }

    pub fn faces(&self) -> (r: [u8; 6])
        ensures
            r@ == self.face_values(),
    {
        let r = match self {
            Dice::Red => [4, 4, 4, 4, 4, 9],
            Dice::Blue => [2, 2, 2, 7, 7, 7],
            Dice::Olive => [0, 5, 5, 5, 5, 5],
            Dice::Yellow => [3, 3, 3, 3, 8, 8],
            Dice::Magenta => [1, 1, 6, 6, 6, 6],
        };
        assert(r@ =~= self.face_values());
        r
    }

    /// One independent draw: one of the six faces.
    pub fn roll(&self) -> (r: u8)
        ensures
            self.face_values().contains(r),
    {
        let i = random_below(6);
        let faces = self.faces();
        faces[i]
    }

    /// Selects a die by a case-insensitive short code.
    pub fn fstr(s: &str) -> (r: Result<Dice, ConfigError>)
        ensures
            r == (match dice_for_code(lower_of(s@)) {
                Some(d) => Ok(d),
                None => Err(ConfigError::UnknownDieCode),
            }),
    {
        let lower = lowercase(s);
        match from_code(lower.as_str()) {
            Some(d) => Ok(d),
            None => Err(ConfigError::UnknownDieCode),
        }
    }

    /// The die's position in the catalog.
    pub(crate) fn position(&self) -> (r: usize)
        ensures
            r == self.index(),
    {
        match self {
            Dice::Red => 0,
            Dice::Blue => 1,
            Dice::Olive => 2,
            Dice::Yellow => 3,
            Dice::Magenta => 4,
        }
    }

    pub fn name(&self) -> (r: &'static str)
        ensures
            r@ == self.label(),
    {
        match self {
            Dice::Red => "Red",
            Dice::Blue => "Blue",
            Dice::Olive => "Olive",
            Dice::Yellow => "Yellow",
            Dice::Magenta => "Magenta",
        }
    }
}

} // verus!
