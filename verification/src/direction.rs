use crate::point::Point;
use crate::saved::{same_text, string_value, value_as_str, value_model, Saved};
use vstd::prelude::*;

verus! {

/// One of the four compass directions on a grid whose columns grow eastwards
/// and whose rows grow southwards.
#[derive(Clone, Copy, Debug, PartialEq, Eq, Structural, Hash)]
pub enum Direction {
    East,
    South,
    West,
    North,
}

impl Direction {
    /// The direction pointing the other way.
    pub open spec fn spec_opposite(self) -> Direction {
        match self {
            Direction::East => Direction::West,
            Direction::South => Direction::North,
            Direction::West => Direction::East,
            Direction::North => Direction::South,
        }
    }

    /// Horizontal component of the unit step in this direction.
    pub open spec fn dx(self) -> int {
        match self {
            Direction::East => 1,
            Direction::West => -1,
            _ => 0,
        }
    }

    /// Vertical component of the unit step in this direction.
    pub open spec fn dy(self) -> int {
        match self {
            Direction::South => 1,
            Direction::North => -1,
            _ => 0,
        }
    }

    /// True for the two directions that run along a column.
    pub open spec fn spec_is_vertical(self) -> bool {
        self == Direction::South || self == Direction::North
    }

    /// Returns the direction pointing the other way.
    #[verifier::when_used_as_spec(spec_opposite)]
    pub fn opposite(self) -> (r: Direction)
        ensures
            r == self.spec_opposite(),
    {
        match self {
            Direction::East => Direction::West,
            Direction::South => Direction::North,
            Direction::West => Direction::East,
            Direction::North => Direction::South,
        }
    }

    /// The direction a quarter turn clockwise from this one.
    pub open spec fn spec_rotated_cw(self) -> Direction {
        match self {
            Direction::East => Direction::South,
            Direction::South => Direction::West,
            Direction::West => Direction::North,
            Direction::North => Direction::East,
        }
    }

    /// Returns the direction a quarter turn clockwise from this one.
    #[verifier::when_used_as_spec(spec_rotated_cw)]
    pub fn rotated_cw(self) -> (r: Direction)
        ensures
            r == self.spec_rotated_cw(),
    {
        match self {
            Direction::East => Direction::South,
            Direction::South => Direction::West,
            Direction::West => Direction::North,
            Direction::North => Direction::East,
        }
    }

    /// Returns the unit step in this direction as a point.
    pub fn delta(self) -> (r: Point)
        ensures
            r.x == self.dx(),
            r.y == self.dy(),
    {
        match self {
            Direction::East => Point::new(1, 0),
            Direction::South => Point::new(0, 1),
            Direction::West => Point::new(-1, 0),
            Direction::North => Point::new(0, -1),
        }
    }

    /// Returns true for the two directions that run along a column.
    #[verifier::when_used_as_spec(spec_is_vertical)]
    pub fn is_vertical(self) -> (r: bool)
        ensures
            r == self.spec_is_vertical(),
    {
        match self {
            Direction::East | Direction::West => false,
            Direction::South | Direction::North => true,
        }
    }
}

/// Turning round twice gives the direction one started with.
pub proof fn lemma_opposite_involution(d: Direction)
    ensures
        d.spec_opposite().spec_opposite() == d,
        d.spec_opposite().dx() == -d.dx(),
        d.spec_opposite().dy() == -d.dy(),
{
}

impl Direction {
    /// The word under which the direction is saved.
    pub open spec fn spec_key(self) -> Seq<char> {
        match self {
            Direction::East => "east"@,
            Direction::South => "south"@,
            Direction::West => "west"@,
            Direction::North => "north"@,
        }
    }

    /// The direction that a saved value stands for: east for anything but
    /// the word of another direction.
    pub open spec fn from_model(m: Saved) -> Direction {
        if m == Saved::Text("south"@) {
            Direction::South
        } else if m == Saved::Text("west"@) {
            Direction::West
        } else if m == Saved::Text("north"@) {
            Direction::North
        } else {
            Direction::East
        }
    }

    /// Returns the word under which the direction is saved.
    pub fn key(self) -> (r: &'static str)
        ensures
            r@ == self.spec_key(),
    {
        match self {
            Direction::East => "east",
            Direction::South => "south",
            Direction::West => "west",
            Direction::North => "north",
        }
    }

    /// Returns the value that saves the direction: its word.
    pub fn to_toml(self) -> (v: toml::Value)
        ensures
            value_model(v) == Saved::Text(self.spec_key()),
    {
        string_value(self.key())
    }

    /// Returns the direction that `value` stands for: east for anything but
    /// the word of another direction.
    pub fn from_toml(value: &toml::Value) -> (d: Direction)
        ensures
            d == Self::from_model(value_model(*value)),
    {
        match value_as_str(value) {
            Some(word) => {
                if same_text(word, "south") {
                    Direction::South
                } else if same_text(word, "west") {
                    Direction::West
                } else if same_text(word, "north") {
                    Direction::North
                } else {
                    Direction::East
                }
            },
            None => Direction::East,
        }
    }
}

/// A direction that was saved is read back as itself.
pub proof fn lemma_direction_saved(d: Direction)
    ensures
        Direction::from_model(Saved::Text(d.spec_key())) == d,
{
    reveal_strlit("east");
    reveal_strlit("south");
    reveal_strlit("west");
    reveal_strlit("north");
    assert("east"@.len() == 4 && "south"@.len() == 5 && "west"@.len() == 4 && "north"@.len() == 5);
    assert("east"@[0] == 'e' && "west"@[0] == 'w' && "south"@[0] == 's' && "north"@[0] == 'n');
}

} // verus!
