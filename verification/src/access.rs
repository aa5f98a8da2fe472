use crate::saved::{entry, same_text, string_value, table_get, table_model, value_as_str, value_model, Saved};
use vstd::prelude::*;

verus! {

/// How far the player has come with one puzzle.
#[derive(Clone, Copy, Debug, PartialEq, Eq, Structural, Hash)]
pub enum Access {
    /// The player has not been here.
    Unvisited,
    /// The player has been here and has not solved the puzzle.
    Visited,
    /// The puzzle is solved.
    Solved,
    /// The puzzle was solved and has been set back to be played again.
    BeginReplay,
    /// The puzzle was solved and is being played again.
    Replaying,
}

impl Access {
    /// True unless the player has never been here.
    pub open spec fn spec_is_visited(self) -> bool {
        self != Access::Unvisited
    }

    /// True if the puzzle is solved now.
    pub open spec fn spec_is_solved(self) -> bool {
        self == Access::Solved
    }

    /// True if the puzzle is solved or has ever been.
    pub open spec fn spec_has_been_solved(self) -> bool {
        self == Access::Solved || self == Access::BeginReplay || self == Access::Replaying
    }

    /// The state after the player has come here: a first visit and the start
    /// of a replay are taken note of, any other state stays.
    pub open spec fn spec_visited(self) -> Access {
        match self {
            Access::Unvisited => Access::Visited,
            Access::BeginReplay => Access::Replaying,
            other => other,
        }
    }

    /// How far `self` has come, as a number that no visit and no solution
    /// ever lowers.
    pub open spec fn rank(self) -> int {
        match self {
            Access::Unvisited => 0,
            Access::Visited => 1,
            Access::Solved => 2,
            Access::BeginReplay => 3,
            Access::Replaying => 4,
        }
    }

    /// Returns true unless the player has never been here.
    #[verifier::when_used_as_spec(spec_is_visited)]
    pub fn is_visited(self) -> (r: bool)
        ensures
            r == self.spec_is_visited(),
    {
        self != Access::Unvisited
    }

    /// Returns true if the puzzle is solved now.
    #[verifier::when_used_as_spec(spec_is_solved)]
    pub fn is_solved(self) -> (r: bool)
        ensures
            r == self.spec_is_solved(),
    {
        self == Access::Solved
    }

    /// Returns true if the puzzle is solved or has ever been.
    #[verifier::when_used_as_spec(spec_has_been_solved)]
    pub fn has_been_solved(self) -> (r: bool)
        ensures
            r == self.spec_has_been_solved(),
    {
        match self {
            Access::Unvisited | Access::Visited => false,
            Access::Solved | Access::BeginReplay | Access::Replaying => true,
        }
    }

    /// Takes note that the player has come here.
    pub fn visit(&mut self)
        ensures
            *final(self) == old(self).spec_visited(),
            final(self).spec_is_visited(),
            final(self).rank() >= old(self).rank(),
    {
        match *self {
            Access::Unvisited => {
                *self = Access::Visited;
            },
            Access::BeginReplay => {
                *self = Access::Replaying;
            },
            _ => {},
        }
    }
}

impl Default for Access {
    fn default() -> (r: Access)
        ensures
            r == Access::Unvisited,
    {
        Access::Unvisited
    }
}

impl Access {
    /// The word under which the state is saved.
    pub open spec fn spec_key(self) -> Seq<char> {
        match self {
            Access::Unvisited => "unvisited"@,
            Access::Visited => "visited"@,
            Access::Solved => "solved"@,
            Access::BeginReplay => "begin_replay"@,
            Access::Replaying => "replaying"@,
        }
    }

    /// The state that a saved value stands for: unvisited for anything but
    /// the word of another state.
    pub open spec fn from_model(m: Saved) -> Access {
        if m == Saved::Text("visited"@) {
            Access::Visited
        } else if m == Saved::Text("solved"@) {
            Access::Solved
        } else if m == Saved::Text("begin_replay"@) {
            Access::BeginReplay
        } else if m == Saved::Text("replaying"@) {
            Access::Replaying
        } else {
            Access::Unvisited
        }
    }

    /// The state that a table holds under "access".
    pub open spec fn from_table(t: Map<Seq<char>, Saved>) -> Access {
        Self::from_model(entry(t, "access"@))
    }

    /// Returns the word under which the state is saved.
    pub fn key(self) -> (r: &'static str)
        ensures
            r@ == self.spec_key(),
    {
        match self {
            Access::Unvisited => "unvisited",
            Access::Visited => "visited",
            Access::Solved => "solved",
            Access::BeginReplay => "begin_replay",
            Access::Replaying => "replaying",
        }
    }

    /// Returns the value that saves the state: its word.
    pub fn to_toml(self) -> (v: toml::Value)
        ensures
            value_model(v) == Saved::Text(self.spec_key()),
    {
        string_value(self.key())
    }

    /// Returns the state that `value` stands for: unvisited for no value
    /// and for anything but the word of another state.
    pub fn from_toml(value: Option<&toml::Value>) -> (a: Access)
        ensures
            a == (match value {
                Some(v) => Self::from_model(value_model(*v)),
                None => Access::Unvisited,
            }),
    {
        let word = match value {
            Some(v) => match value_as_str(v) {
                Some(w) => w,
                None => {
                    return Access::Unvisited;
                },
            },
            None => {
                return Access::Unvisited;
            },
        };
        if same_text(word, "visited") {
            Access::Visited
        } else if same_text(word, "solved") {
            Access::Solved
        } else if same_text(word, "begin_replay") {
            Access::BeginReplay
        } else if same_text(word, "replaying") {
            Access::Replaying
        } else {
            Access::Unvisited
        }
    }

    /// Returns the state that the table holds under "access".
    pub fn read_from(table: &toml::value::Table) -> (a: Access)
        ensures
            a == Self::from_table(table_model(*table)),
    {
        Access::from_toml(table_get(table, "access"))
    }
}

/// A state that was saved is read back as itself.
pub proof fn lemma_access_saved(a: Access)
    ensures
        Access::from_model(Saved::Text(a.spec_key())) == a,
{
    reveal_strlit("unvisited");
    reveal_strlit("visited");
    reveal_strlit("solved");
    reveal_strlit("begin_replay");
    reveal_strlit("replaying");
    assert("unvisited"@.len() == 9 && "visited"@.len() == 7 && "solved"@.len() == 6
        && "begin_replay"@.len() == 12 && "replaying"@.len() == 9);
    assert("unvisited"@[0] == 'u' && "replaying"@[0] == 'r');
}

} // verus!
