use crate::saved::{same_text, string_value, value_as_str, value_model, Saved};
use vstd::prelude::*;

verus! {

/// A place in the game: the map, or one of the puzzles.
#[derive(Clone, Copy, Debug, PartialEq, Eq, Structural, Hash, PartialOrd, Ord)]
pub enum Location {
    TheMap,
    Prolog,
    ALightInTheAttic,
    BlackAndBlue,
    ColumnAsIcyEm,
    ConnectTheDots,
    CrossSauce,
    CrossTheLine,
    CubeTangle,
    Disconnected,
    DoubleCross,
    FactOrFiction,
    HexSpangled,
    IceToMeetYou,
    IfMemoryServes,
    JogYourMemory,
    LevelHeaded,
    LevelUp,
    LightSyrup,
    LogLevel,
    MemoryLane,
    MissedConnections,
    PasswordFile,
    PlaneAndSimple,
    PlaneAsDay,
    PointOfOrder,
    ShiftGears,
    ShiftTheBlame,
    ShiftingGround,
    StarCrossed,
    SystemFailure,
    SystemSyzygy,
    TheIceIsRight,
    TheYFactor,
    TreadLightly,
    VirtueOrIce,
    WhatchaColumn,
    WreckedAngle,
}

impl Location {
    /// Every location, the map first.
    pub open spec fn spec_all() -> Seq<Location> {
        seq![
            Location::TheMap,
            Location::Prolog,
            Location::ALightInTheAttic,
            Location::BlackAndBlue,
            Location::ColumnAsIcyEm,
            Location::ConnectTheDots,
            Location::CrossSauce,
            Location::CrossTheLine,
            Location::CubeTangle,
            Location::Disconnected,
            Location::DoubleCross,
            Location::FactOrFiction,
            Location::HexSpangled,
            Location::IceToMeetYou,
            Location::IfMemoryServes,
            Location::JogYourMemory,
            Location::LevelHeaded,
            Location::LevelUp,
            Location::LightSyrup,
            Location::LogLevel,
            Location::MemoryLane,
            Location::MissedConnections,
            Location::PasswordFile,
            Location::PlaneAndSimple,
            Location::PlaneAsDay,
            Location::PointOfOrder,
            Location::ShiftGears,
            Location::ShiftTheBlame,
            Location::ShiftingGround,
            Location::StarCrossed,
            Location::SystemFailure,
            Location::SystemSyzygy,
            Location::TheIceIsRight,
            Location::TheYFactor,
            Location::TreadLightly,
            Location::VirtueOrIce,
            Location::WhatchaColumn,
            Location::WreckedAngle,
        ]
    }

    /// The name that the player sees.
    pub open spec fn spec_name(self) -> Seq<char> {
        match self {
            Location::TheMap => "The Map"@,
            Location::Prolog => "Prolog"@,
            Location::ALightInTheAttic => "A Light in the Attic"@,
            Location::BlackAndBlue => "Black and Blue"@,
            Location::ColumnAsIcyEm => "Column as Icy `Em"@,
            Location::ConnectTheDots => "Connect the Dots"@,
            Location::CrossSauce => "Cross Sauce"@,
            Location::CrossTheLine => "Cross the Line"@,
            Location::CubeTangle => "Cube Tangle"@,
            Location::Disconnected => "Disconnected"@,
            Location::DoubleCross => "Double-Cross"@,
            Location::FactOrFiction => "Fact or Fiction"@,
            Location::HexSpangled => "Hex-Spangled"@,
            Location::IceToMeetYou => "Ice to Meet You"@,
            Location::IfMemoryServes => "If Memory Serves"@,
            Location::JogYourMemory => "Jog Your Memory"@,
            Location::LevelHeaded => "Level-Headed"@,
            Location::LevelUp => "Level Up"@,
            Location::LightSyrup => "Light Syrup"@,
            Location::LogLevel => "Log Level"@,
            Location::MemoryLane => "Memory Lane"@,
            Location::MissedConnections => "Missed Connections"@,
            Location::PasswordFile => "Password File"@,
            Location::PlaneAndSimple => "Plane and Simple"@,
            Location::PlaneAsDay => "Plane as Day"@,
            Location::PointOfOrder => "Point of Order"@,
            Location::ShiftGears => "Shift Gears"@,
            Location::ShiftTheBlame => "Shift the Blame"@,
            Location::ShiftingGround => "Shifting Ground"@,
            Location::StarCrossed => "Star-Crossed"@,
            Location::SystemFailure => "System Failure"@,
            Location::SystemSyzygy => "System Syzygy"@,
            Location::TheIceIsRight => "The Ice is Right"@,
            Location::TheYFactor => "The Y Factor"@,
            Location::TreadLightly => "Tread Lightly"@,
            Location::VirtueOrIce => "Virtue or Ice"@,
            Location::WhatchaColumn => "Whatcha Column"@,
            Location::WreckedAngle => "Wrecked Angle"@,
        }
    }

    /// The location that follows once this one is solved; the map where
    /// none does.
    pub open spec fn spec_next(self) -> Location {
        match self {
            Location::TheMap => Location::TheMap,
            Location::Prolog => Location::Disconnected,
            Location::ALightInTheAttic => Location::LightSyrup,
            Location::BlackAndBlue => Location::ShiftTheBlame,
            Location::ColumnAsIcyEm => Location::TheMap,
            Location::ConnectTheDots => Location::MissedConnections,
            Location::CrossSauce => Location::StarCrossed,
            Location::CrossTheLine => Location::TheMap,
            Location::CubeTangle => Location::HexSpangled,
            Location::Disconnected => Location::LogLevel,
            Location::DoubleCross => Location::CrossSauce,
            Location::FactOrFiction => Location::TheMap,
            Location::HexSpangled => Location::TheMap,
            Location::IceToMeetYou => Location::TheIceIsRight,
            Location::IfMemoryServes => Location::JogYourMemory,
            Location::JogYourMemory => Location::TheMap,
            Location::LevelHeaded => Location::TheMap,
            Location::LevelUp => Location::LevelHeaded,
            Location::LightSyrup => Location::TreadLightly,
            Location::LogLevel => Location::SystemFailure,
            Location::MemoryLane => Location::JogYourMemory,
            Location::MissedConnections => Location::TheMap,
            Location::PasswordFile => Location::SystemSyzygy,
            Location::PlaneAndSimple => Location::PlaneAsDay,
            Location::PlaneAsDay => Location::TheMap,
            Location::PointOfOrder => Location::ColumnAsIcyEm,
            Location::ShiftGears => Location::TheMap,
            Location::ShiftTheBlame => Location::TheMap,
            Location::ShiftingGround => Location::CubeTangle,
            Location::StarCrossed => Location::TheMap,
            Location::SystemFailure => Location::PasswordFile,
            Location::SystemSyzygy => Location::TheMap,
            Location::TheIceIsRight => Location::VirtueOrIce,
            Location::TheYFactor => Location::FactOrFiction,
            Location::TreadLightly => Location::IceToMeetYou,
            Location::VirtueOrIce => Location::TheMap,
            Location::WhatchaColumn => Location::PointOfOrder,
            Location::WreckedAngle => Location::ShiftingGround,
        }
    }

    /// The locations that must have been solved before this one opens.
    pub open spec fn spec_prereqs(self) -> Seq<Location> {
        match self {
            Location::TheMap => Seq::empty(),
            Location::Prolog => Seq::empty(),
            Location::ALightInTheAttic => seq![Location::Prolog],
            Location::BlackAndBlue => Seq::empty(),
            Location::ColumnAsIcyEm => Seq::empty(),
            Location::ConnectTheDots => Seq::empty(),
            Location::CrossSauce => seq![Location::DoubleCross],
            Location::CrossTheLine => seq![Location::Prolog],
            Location::CubeTangle => seq![Location::ShiftingGround],
            Location::Disconnected => seq![Location::Prolog],
            Location::DoubleCross => Seq::empty(),
            Location::FactOrFiction => seq![Location::TheYFactor],
            Location::HexSpangled => seq![Location::CubeTangle],
            Location::IceToMeetYou => Seq::empty(),
            Location::IfMemoryServes => seq![Location::MemoryLane],
            Location::JogYourMemory => seq![Location::IfMemoryServes],
            Location::LevelHeaded => seq![Location::LevelUp],
            Location::LevelUp => Seq::empty(),
            Location::LightSyrup => seq![Location::ALightInTheAttic],
            Location::LogLevel => seq![Location::Disconnected],
            Location::MemoryLane => seq![Location::HexSpangled],
            Location::MissedConnections => seq![Location::ConnectTheDots],
            Location::PasswordFile => seq![Location::SystemFailure],
            Location::PlaneAndSimple => Seq::empty(),
            Location::PlaneAsDay => seq![Location::PlaneAndSimple],
            Location::PointOfOrder => Seq::empty(),
            Location::ShiftGears => Seq::empty(),
            Location::ShiftTheBlame => seq![Location::BlackAndBlue],
            Location::ShiftingGround => seq![Location::WreckedAngle],
            Location::StarCrossed => seq![Location::CrossSauce],
            Location::SystemFailure => seq![Location::LogLevel],
            Location::SystemSyzygy => seq![Location::PasswordFile],
            Location::TheIceIsRight => seq![Location::IceToMeetYou],
            Location::TheYFactor => seq![Location::Prolog],
            Location::TreadLightly => seq![Location::LightSyrup],
            Location::VirtueOrIce => seq![Location::TheIceIsRight],
            Location::WhatchaColumn => Seq::empty(),
            Location::WreckedAngle => seq![Location::Prolog],
        }
    }

    /// The key under which the location is saved.
    pub open spec fn spec_key(self) -> Seq<char> {
        match self {
            Location::TheMap => "map"@,
            Location::Prolog => "prolog"@,
            Location::ALightInTheAttic => "a_light_in_the_attic"@,
            Location::BlackAndBlue => "black_and_blue"@,
            Location::ColumnAsIcyEm => "column_as_icy_em"@,
            Location::ConnectTheDots => "connect_the_dots"@,
            Location::CrossSauce => "cross_sauce"@,
            Location::CrossTheLine => "cross_the_line"@,
            Location::CubeTangle => "cube_tangle"@,
            Location::Disconnected => "disconnected"@,
            Location::DoubleCross => "double_cross"@,
            Location::FactOrFiction => "fact_or_fiction"@,
            Location::HexSpangled => "hex_spangled"@,
            Location::IceToMeetYou => "ice_to_meet_you"@,
            Location::IfMemoryServes => "if_memory_serves"@,
            Location::JogYourMemory => "jog_your_memory"@,
            Location::LevelHeaded => "level_headed"@,
            Location::LevelUp => "level_up"@,
            Location::LightSyrup => "light_syrup"@,
            Location::LogLevel => "log_level"@,
            Location::MemoryLane => "memory_lane"@,
            Location::MissedConnections => "missed_connections"@,
            Location::PasswordFile => "password_file"@,
            Location::PlaneAndSimple => "plane_and_simple"@,
            Location::PlaneAsDay => "plane_as_day"@,
            Location::PointOfOrder => "point_of_order"@,
            Location::ShiftGears => "shift_gears"@,
            Location::ShiftTheBlame => "shift_the_blame"@,
            Location::ShiftingGround => "shifting_ground"@,
            Location::StarCrossed => "star_crossed"@,
            Location::SystemFailure => "system_failure"@,
            Location::SystemSyzygy => "system_syzygy"@,
            Location::TheIceIsRight => "the_ice_is_right"@,
            Location::TheYFactor => "the_y_factor"@,
            Location::TreadLightly => "tread_lightly"@,
            Location::VirtueOrIce => "virtue_or_ice"@,
            Location::WhatchaColumn => "whatcha_column"@,
            Location::WreckedAngle => "wrecked_angle"@,
        }
    }

    /// Returns every location, the map first.
    pub fn all() -> (r: Vec<Location>)
        ensures
            r@ == Self::spec_all(),
    {
        let r = vec![
            Location::TheMap,
            Location::Prolog,
            Location::ALightInTheAttic,
            Location::BlackAndBlue,
            Location::ColumnAsIcyEm,
            Location::ConnectTheDots,
            Location::CrossSauce,
            Location::CrossTheLine,
            Location::CubeTangle,
            Location::Disconnected,
            Location::DoubleCross,
            Location::FactOrFiction,
            Location::HexSpangled,
            Location::IceToMeetYou,
            Location::IfMemoryServes,
            Location::JogYourMemory,
            Location::LevelHeaded,
            Location::LevelUp,
            Location::LightSyrup,
            Location::LogLevel,
            Location::MemoryLane,
            Location::MissedConnections,
            Location::PasswordFile,
            Location::PlaneAndSimple,
            Location::PlaneAsDay,
            Location::PointOfOrder,
            Location::ShiftGears,
            Location::ShiftTheBlame,
            Location::ShiftingGround,
            Location::StarCrossed,
            Location::SystemFailure,
            Location::SystemSyzygy,
            Location::TheIceIsRight,
            Location::TheYFactor,
            Location::TreadLightly,
            Location::VirtueOrIce,
            Location::WhatchaColumn,
            Location::WreckedAngle,
        ];
        proof {
            assert(r@ =~= Self::spec_all());
        }
        r
    }

    /// Returns the name that the player sees.
    pub fn name(self) -> (r: &'static str)
        ensures
            r@ == self.spec_name(),
    {
        match self {
            Location::TheMap => "The Map",
            Location::Prolog => "Prolog",
            Location::ALightInTheAttic => "A Light in the Attic",
            Location::BlackAndBlue => "Black and Blue",
            Location::ColumnAsIcyEm => "Column as Icy `Em",
            Location::ConnectTheDots => "Connect the Dots",
            Location::CrossSauce => "Cross Sauce",
            Location::CrossTheLine => "Cross the Line",
            Location::CubeTangle => "Cube Tangle",
            Location::Disconnected => "Disconnected",
            Location::DoubleCross => "Double-Cross",
            Location::FactOrFiction => "Fact or Fiction",
            Location::HexSpangled => "Hex-Spangled",
            Location::IceToMeetYou => "Ice to Meet You",
            Location::IfMemoryServes => "If Memory Serves",
            Location::JogYourMemory => "Jog Your Memory",
            Location::LevelHeaded => "Level-Headed",
            Location::LevelUp => "Level Up",
            Location::LightSyrup => "Light Syrup",
            Location::LogLevel => "Log Level",
            Location::MemoryLane => "Memory Lane",
            Location::MissedConnections => "Missed Connections",
            Location::PasswordFile => "Password File",
            Location::PlaneAndSimple => "Plane and Simple",
            Location::PlaneAsDay => "Plane as Day",
            Location::PointOfOrder => "Point of Order",
            Location::ShiftGears => "Shift Gears",
            Location::ShiftTheBlame => "Shift the Blame",
            Location::ShiftingGround => "Shifting Ground",
            Location::StarCrossed => "Star-Crossed",
            Location::SystemFailure => "System Failure",
            Location::SystemSyzygy => "System Syzygy",
            Location::TheIceIsRight => "The Ice is Right",
            Location::TheYFactor => "The Y Factor",
            Location::TreadLightly => "Tread Lightly",
            Location::VirtueOrIce => "Virtue or Ice",
            Location::WhatchaColumn => "Whatcha Column",
            Location::WreckedAngle => "Wrecked Angle",
        }
    }

    /// Returns the location that follows once this one is solved; the map
    /// where none does.
    pub fn next(self) -> (r: Location)
        ensures
            r == self.spec_next(),
    {
        match self {
            Location::TheMap => Location::TheMap,
            Location::Prolog => Location::Disconnected,
            Location::ALightInTheAttic => Location::LightSyrup,
            Location::BlackAndBlue => Location::ShiftTheBlame,
            Location::ColumnAsIcyEm => Location::TheMap,
            Location::ConnectTheDots => Location::MissedConnections,
            Location::CrossSauce => Location::StarCrossed,
            Location::CrossTheLine => Location::TheMap,
            Location::CubeTangle => Location::HexSpangled,
            Location::Disconnected => Location::LogLevel,
            Location::DoubleCross => Location::CrossSauce,
            Location::FactOrFiction => Location::TheMap,
            Location::HexSpangled => Location::TheMap,
            Location::IceToMeetYou => Location::TheIceIsRight,
            Location::IfMemoryServes => Location::JogYourMemory,
            Location::JogYourMemory => Location::TheMap,
            Location::LevelHeaded => Location::TheMap,
            Location::LevelUp => Location::LevelHeaded,
            Location::LightSyrup => Location::TreadLightly,
            Location::LogLevel => Location::SystemFailure,
            Location::MemoryLane => Location::JogYourMemory,
            Location::MissedConnections => Location::TheMap,
            Location::PasswordFile => Location::SystemSyzygy,
            Location::PlaneAndSimple => Location::PlaneAsDay,
            Location::PlaneAsDay => Location::TheMap,
            Location::PointOfOrder => Location::ColumnAsIcyEm,
            Location::ShiftGears => Location::TheMap,
            Location::ShiftTheBlame => Location::TheMap,
            Location::ShiftingGround => Location::CubeTangle,
            Location::StarCrossed => Location::TheMap,
            Location::SystemFailure => Location::PasswordFile,
            Location::SystemSyzygy => Location::TheMap,
            Location::TheIceIsRight => Location::VirtueOrIce,
            Location::TheYFactor => Location::FactOrFiction,
            Location::TreadLightly => Location::IceToMeetYou,
            Location::VirtueOrIce => Location::TheMap,
            Location::WhatchaColumn => Location::PointOfOrder,
            Location::WreckedAngle => Location::ShiftingGround,
        }
    }

    /// Returns the locations that must have been solved before this one
    /// opens.
    pub fn prereqs(self) -> (r: Vec<Location>)
        ensures
            r@ == self.spec_prereqs(),
    {
        let r: Vec<Location> = match self {
            Location::TheMap => Vec::new(),
            Location::Prolog => Vec::new(),
            Location::ALightInTheAttic => vec![Location::Prolog],
            Location::BlackAndBlue => Vec::new(),
            Location::ColumnAsIcyEm => Vec::new(),
            Location::ConnectTheDots => Vec::new(),
            Location::CrossSauce => vec![Location::DoubleCross],
            Location::CrossTheLine => vec![Location::Prolog],
            Location::CubeTangle => vec![Location::ShiftingGround],
            Location::Disconnected => vec![Location::Prolog],
            Location::DoubleCross => Vec::new(),
            Location::FactOrFiction => vec![Location::TheYFactor],
            Location::HexSpangled => vec![Location::CubeTangle],
            Location::IceToMeetYou => Vec::new(),
            Location::IfMemoryServes => vec![Location::MemoryLane],
            Location::JogYourMemory => vec![Location::IfMemoryServes],
            Location::LevelHeaded => vec![Location::LevelUp],
            Location::LevelUp => Vec::new(),
            Location::LightSyrup => vec![Location::ALightInTheAttic],
            Location::LogLevel => vec![Location::Disconnected],
            Location::MemoryLane => vec![Location::HexSpangled],
            Location::MissedConnections => vec![Location::ConnectTheDots],
            Location::PasswordFile => vec![Location::SystemFailure],
            Location::PlaneAndSimple => Vec::new(),
            Location::PlaneAsDay => vec![Location::PlaneAndSimple],
            Location::PointOfOrder => Vec::new(),
            Location::ShiftGears => Vec::new(),
            Location::ShiftTheBlame => vec![Location::BlackAndBlue],
            Location::ShiftingGround => vec![Location::WreckedAngle],
            Location::StarCrossed => vec![Location::CrossSauce],
            Location::SystemFailure => vec![Location::LogLevel],
            Location::SystemSyzygy => vec![Location::PasswordFile],
            Location::TheIceIsRight => vec![Location::IceToMeetYou],
            Location::TheYFactor => vec![Location::Prolog],
            Location::TreadLightly => vec![Location::LightSyrup],
            Location::VirtueOrIce => vec![Location::TheIceIsRight],
            Location::WhatchaColumn => Vec::new(),
            Location::WreckedAngle => vec![Location::Prolog],
        };
        proof {
            assert(r@ =~= self.spec_prereqs());
        }
        r
    }

    /// Returns the key under which the location is saved.
    pub fn key(self) -> (r: &'static str)
        ensures
            r@ == self.spec_key(),
    {
        match self {
            Location::TheMap => "map",
            Location::Prolog => "prolog",
            Location::ALightInTheAttic => "a_light_in_the_attic",
            Location::BlackAndBlue => "black_and_blue",
            Location::ColumnAsIcyEm => "column_as_icy_em",
            Location::ConnectTheDots => "connect_the_dots",
            Location::CrossSauce => "cross_sauce",
            Location::CrossTheLine => "cross_the_line",
            Location::CubeTangle => "cube_tangle",
            Location::Disconnected => "disconnected",
            Location::DoubleCross => "double_cross",
            Location::FactOrFiction => "fact_or_fiction",
            Location::HexSpangled => "hex_spangled",
            Location::IceToMeetYou => "ice_to_meet_you",
            Location::IfMemoryServes => "if_memory_serves",
            Location::JogYourMemory => "jog_your_memory",
            Location::LevelHeaded => "level_headed",
            Location::LevelUp => "level_up",
            Location::LightSyrup => "light_syrup",
            Location::LogLevel => "log_level",
            Location::MemoryLane => "memory_lane",
            Location::MissedConnections => "missed_connections",
            Location::PasswordFile => "password_file",
            Location::PlaneAndSimple => "plane_and_simple",
            Location::PlaneAsDay => "plane_as_day",
            Location::PointOfOrder => "point_of_order",
            Location::ShiftGears => "shift_gears",
            Location::ShiftTheBlame => "shift_the_blame",
            Location::ShiftingGround => "shifting_ground",
            Location::StarCrossed => "star_crossed",
            Location::SystemFailure => "system_failure",
            Location::SystemSyzygy => "system_syzygy",
            Location::TheIceIsRight => "the_ice_is_right",
            Location::TheYFactor => "the_y_factor",
            Location::TreadLightly => "tread_lightly",
            Location::VirtueOrIce => "virtue_or_ice",
            Location::WhatchaColumn => "whatcha_column",
            Location::WreckedAngle => "wrecked_angle",
        }
    }
}

impl Default for Location {
    fn default() -> (r: Location)
        ensures
            r == Location::TheMap,
    {
        Location::TheMap
    }
}

/// The first location at or after `from` whose key is `word`, if any.
pub open spec fn location_with_key(word: Seq<char>, from: int) -> Option<Location>
    decreases Location::spec_all().len() - from,
{
    if from < 0 || from >= Location::spec_all().len() {
        None
    } else if Location::spec_all()[from].spec_key() == word {
        Some(Location::spec_all()[from])
    } else {
        location_with_key(word, from + 1)
    }
}

impl Location {
    /// The location that a saved value stands for: the one whose key the
    /// value holds, and the map for any other value.
    pub open spec fn from_model(m: Saved) -> Location {
        match m {
            Saved::Text(word) => match location_with_key(word, 0) {
                Some(location) => location,
                None => Location::TheMap,
            },
            _ => Location::TheMap,
        }
    }

    /// Returns the value that saves the location: its key.
    pub fn to_toml(self) -> (v: toml::Value)
        ensures
            value_model(v) == Saved::Text(self.spec_key()),
    {
        string_value(self.key())
    }

    /// Returns the location that `value` stands for: the one whose key the
    /// value holds, and the map for no value and for any other value.
    pub fn from_toml(value: Option<&toml::Value>) -> (r: Location)
        ensures
            r == (match value {
                Some(v) => Self::from_model(value_model(*v)),
                None => Location::TheMap,
            }),
    {
        let word = match value {
            Some(v) => match value_as_str(v) {
                Some(w) => w,
                None => {
                    return Location::TheMap;
                },
            },
            None => {
                return Location::TheMap;
            },
        };
        let all = Location::all();
        let mut i: usize = 0;
        while i < all.len()
            invariant
                all@ == Location::spec_all(),
                i <= all@.len(),
                value is Some,
                value_model(*value->0) == Saved::Text(word@),
                location_with_key(word@, 0) == location_with_key(word@, i as int),
            decreases all@.len() - i,
        {
            let location = all[i];
            if same_text(word, location.key()) {
                return location;
            }
            i += 1;
        }
        Location::TheMap
    }
}

} // verus!
