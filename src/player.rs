use vstd::prelude::*;

use crate::util::Transform;

verus! {

/// Registry id of the console pseudo-player.
pub const CONSOLE_UID: usize = 0;

/// A registered player: a client behind a connection, or the console.
pub struct Player {
    pub uid: usize,
    /// Account name.
    pub name: String,
    /// Name shown to others, possibly with a color prefix.
    pub display_name: String,
    /// Name of the world the player is in; empty before the first join.
    pub world: String,
    pub transform: Transform,
    pub console: bool,
}

/// What a player is, with its texts as character sequences.
pub struct PlayerView {
    pub uid: usize,
    pub name: Seq<char>,
    pub display_name: Seq<char>,
    pub world: Seq<char>,
    pub transform: Transform,
    pub console: bool,
}

impl View for Player {
    type V = PlayerView;

    open spec fn view(&self) -> PlayerView {
        PlayerView {
            uid: self.uid,
            name: self.name@,
            display_name: self.display_name@,
            world: self.world@,
            transform: self.transform,
            console: self.console,
        }
    }
}

impl Player {
    /// A freshly accepted client, before identification.
    pub fn new_network(uid: usize) -> (r: Player)
        ensures
            r.uid == uid,
            r.name@ == "Uninitialized Player"@,
            r.display_name@ == "Uninitialized Player"@,
            r.world@ == Seq::<char>::empty(),
            r.transform == Transform::default_spec(),
            !r.console,
    {
        Player {
            uid,
            name: String::from_str("Uninitialized Player"),
            display_name: String::from_str("Uninitialized Player"),
            world: String::new(),
            transform: Transform::default(),
            console: false,
        }
    }

    pub fn get_uid(&self) -> (r: usize)
        ensures
            r == self.uid,
    {
        self.uid
    }

    pub fn get_name(&self) -> (r: &str)
        ensures
            r@ == self.name@,
    {
        self.name.as_str()
    }

    pub fn get_display_name(&self) -> (r: &str)
        ensures
            r@ == self.display_name@,
    {
        self.display_name.as_str()
    }

    pub fn get_world(&self) -> (r: &str)
        ensures
            r@ == self.world@,
    {
        self.world.as_str()
    }

    pub fn get_transform(&self) -> (r: &Transform)
        ensures
            *r == self.transform,
    {
        &self.transform
    }

    pub fn is_console(&self) -> (r: bool)
        ensures
            r == self.console,
    {
        self.console
    }
}

/// The server's own pseudo-player: it holds id 0, receives chat into the
/// server log and drops every other packet.
pub struct Console {
    transform: Transform,
}

impl Console {
    pub fn new() -> (r: Console)
        ensures
            r.transform_spec() == Transform::default_spec(),
    {
        Console { transform: Transform::default() }
    }

    pub closed spec fn transform_spec(&self) -> Transform {
        self.transform
    }

    /// The registry entry that stands for the console.
    pub fn into_player(self) -> (r: Player)
        ensures
            r.uid == CONSOLE_UID,
            r.name@ == "Console"@,
            r.display_name@ == "&0Console"@,
            r.world@ == Seq::<char>::empty(),
            r.transform == self.transform_spec(),
            r.console,
    {
        Player {
            uid: CONSOLE_UID,
            name: String::from_str("Console"),
            display_name: String::from_str("&0Console"),
            world: String::new(),
            transform: self.transform,
            console: true,
        }
    }
}

} // verus!
