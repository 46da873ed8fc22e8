//! A registered player: the catalog identifier that a chat identity stands for.

use vstd::prelude::*;
use vstd::string::StringExecFns;

verus! {

/// The identifier of a player in the game catalog.
#[derive(Debug, Hash)]
pub struct User(String);

impl View for User {
    type V = Seq<char>;

    /// The identifier in the game catalog.
    closed spec fn view(&self) -> Seq<char> {
        self.0@
    }
}

impl Clone for User {
    fn clone(&self) -> (res: Self)
        ensures
            res@ == self@,
    {
        User(self.0.clone())
    }
}

impl PartialEq for User {
    fn eq(&self, other: &Self) -> (res: bool) {
        self.0 == other.0
    }
}

impl vstd::std_specs::cmp::PartialEqSpecImpl for User {
    open spec fn obeys_eq_spec() -> bool {
        true
    }

    open spec fn eq_spec(&self, other: &Self) -> bool {
        self@ == other@
    }
}

impl Eq for User {

}

/// The key under which the player of a chat identity is kept.
pub open spec fn persist_key(discord_id: Seq<char>) -> Seq<char> {
    "discord-user-"@ + discord_id
}

impl User {
    /// The player with the given catalog identifier.
    pub fn new(steam_id: String) -> (user: User)
        ensures
            user@ == steam_id@,
    {
        User(steam_id)
    }

    /// The player's catalog identifier.
    pub fn steam_id(&self) -> (id: &str)
        ensures
            id@ == self@,
    {
        self.0.as_str()
    }

    /// The key under which the player of the chat identity `discord_id` is
    /// kept.
    pub fn generate_persist_key(discord_id: &str) -> (key: String)
        ensures
            key@ == persist_key(discord_id@),
    {
        let mut key = "discord-user-".to_owned();
        key.append(discord_id);
        key
    }
}

} // verus!
