//! The command that shows the games that the members of the caller's voice
//! channel have in common.

use vstd::prelude::*;
use crate::commands::private_content;
use crate::commands::CommandDefinition;
use crate::commands::Reply;
use crate::commands::ReplyBody;
use crate::commands::ReplyKind;
use crate::decimal::decimal;
use crate::decimal::decimal_string;
use crate::intersection::chosen;
use crate::intersection::library_views;
use crate::intersection::views;
use crate::paging::page_of;
use crate::common_games::show_page;
use crate::common_games::shows_page;
use crate::common_games::CommonGamesButtonCustomId;
use crate::common_games::CommonGamesStore;
use crate::common_games::InteractionResponse;
use crate::steam::FetchError;
use crate::steam::Game;
use crate::steam::GameView;
use crate::user::User;

verus! {

pub const COMMAND: &'static str = "get-common-games";

/// What the command is announced as.
pub const DESCRIPTION: &'static str = "Register your steam id";

/// What the user is told when the command is given outside a guild.
pub const NOT_IN_GUILD: &'static str = "Please call at guild channel.";

/// What the user is told when nothing is known of the guild.
pub const GUILD_UNKNOWN: &'static str = "Internal error.";

/// What the user is told when they are in no voice channel.
pub const NOT_IN_VOICE: &'static str = "Please call when you joined voice channel.";

/// What the user is told when the result could not be stored.
pub const NOT_STORED: &'static str = "Internal error.";

/// What the user is told when no library of any member could be had.
pub const NO_DATA: &'static str = "No games could be fetched for the members of your voice channel.";

/// Whether `definition` is this command's.
pub open spec fn is_definition(definition: CommandDefinition) -> bool {
    &&& definition.name@ == COMMAND@
    &&& definition.description@ == DESCRIPTION@
    &&& definition.options@.len() == 0
}

/// The command, as it is announced to the chat platform.
pub fn register() -> (definition: CommandDefinition)
    ensures
        is_definition(definition),
{
    CommandDefinition {
        name: COMMAND.to_owned(),
        description: DESCRIPTION.to_owned(),
        options: Vec::new(),
    }
}

/// Where a member of a guild is heard: the member's chat identity, and the
/// voice channel that the member is in, if any.
#[derive(Clone, Copy, Debug, PartialEq, Eq, Structural)]
pub struct VoiceState {
    pub user: u64,
    pub channel: Option<u64>,
}

/// The voice channel of the first state that is `caller`'s, if there is
/// such a state and it names a channel.
pub open spec fn channel_of(states: Seq<VoiceState>, caller: u64) -> Option<u64>
    decreases states.len(),
{
    if states.len() == 0 {
        None
    } else if states.first().user == caller {
        states.first().channel
    } else {
        channel_of(states.drop_first(), caller)
    }
}

/// The chat identities, in decimal notation, of the members that are in
/// `channel`, in the order of the states.
pub open spec fn members_of(states: Seq<VoiceState>, channel: u64) -> Seq<Seq<char>>
    decreases states.len(),
{
    if states.len() == 0 {
        Seq::empty()
    } else if states.last().channel == Some(channel) {
        members_of(states.drop_last(), channel).push(decimal(states.last().user as nat))
    } else {
        members_of(states.drop_last(), channel)
    }
}

/// The texts that the strings hold.
pub open spec fn texts(strings: Seq<String>) -> Seq<Seq<char>> {
    strings.map_values(|s: String| s@)
}

/// The first step of the command: the voice channel of the caller, or the
/// reply that says why there is none. `in_guild` says whether the command
/// was given in a guild; `states` are the voice states of that guild, as far
/// as the guild is known.
pub fn voice_channel(in_guild: bool, states: Option<&Vec<VoiceState>>, caller: u64) -> (step:
    Result<u64, Reply>)
    ensures
        match step {
            Ok(channel) => in_guild && (states matches Some(known) && channel_of(known@, caller)
                == Some(channel)),
            Err(reply) => reply.kind == ReplyKind::UpdateMessage && reply.ephemeral && (
            reply.body matches ReplyBody::Content(text) && text@ == if !in_guild {
                NOT_IN_GUILD@
            } else if states is None {
                GUILD_UNKNOWN@
            } else {
                NOT_IN_VOICE@
            }) && (in_guild ==> (states matches Some(known) ==> channel_of(known@, caller)
                is None)),
        },
{
    if !in_guild {
        return Err(private_content(ReplyKind::UpdateMessage, NOT_IN_GUILD));
    }
    let known = match states {
        Some(known) => known,
        None => {
            return Err(private_content(ReplyKind::UpdateMessage, GUILD_UNKNOWN));
        },
    };
    let mut i: usize = 0;
    assert(known@.skip(0) =~= known@);
    while i < known.len()
        invariant
            i <= known.len(),
            in_guild,
            states == Some(known),
            channel_of(known@, caller) == channel_of(known@.skip(i as int), caller),
        decreases known.len() - i,
    {
        let ghost rest = known@.skip(i as int);
        assert(rest.first() == known@[i as int]);
        assert(rest.drop_first() =~= known@.skip(i + 1));
        if known[i].user == caller {
            return match known[i].channel {
                Some(channel) => Ok(channel),
                None => Err(private_content(ReplyKind::UpdateMessage, NOT_IN_VOICE)),
            };
        }
        i += 1;
    }
    Err(private_content(ReplyKind::UpdateMessage, NOT_IN_VOICE))
}

/// The chat identities of the members that are in `channel`.
pub fn participants(states: &Vec<VoiceState>, channel: u64) -> (ids: Vec<String>)
    ensures
        texts(ids@) == members_of(states@, channel),
{
    let mut ids: Vec<String> = Vec::new();
    let mut i: usize = 0;
    assert(texts(ids@) =~= members_of(states@.take(0), channel));
    while i < states.len()
        invariant
            i <= states.len(),
            texts(ids@) == members_of(states@.take(i as int), channel),
        decreases states.len() - i,
    {
        proof {
            assert(states@.take(i + 1).drop_last() =~= states@.take(i as int));
            assert(states@.take(i + 1).last() == states@[i as int]);
        }
        let ghost before = texts(ids@);
        match states[i].channel {
            Some(c) => {
                if c == channel {
                    ids.push(decimal_string(states[i].user));
                    assert(texts(ids@) =~= before.push(decimal(states@[i as int].user as nat)));
                }
            },
            None => {},
        }
        i += 1;
    }
    assert(states@.take(i as int) =~= states@);
    ids
}

/// The players of the lookups that found one, in the order of the lookups.
pub open spec fn found(lookups: Seq<Option<User>>) -> Seq<Seq<char>>
    decreases lookups.len(),
{
    if lookups.len() == 0 {
        Seq::empty()
    } else {
        match lookups.last() {
            Some(user) => found(lookups.drop_last()).push(user@),
            None => found(lookups.drop_last()),
        }
    }
}

/// The items of a sequence, each where it occurs first.
pub open spec fn distinct<T>(items: Seq<T>) -> Seq<T>
    decreases items.len(),
{
    if items.len() == 0 {
        Seq::empty()
    } else if distinct(items.drop_last()).contains(items.last()) {
        distinct(items.drop_last())
    } else {
        distinct(items.drop_last()).push(items.last())
    }
}

/// The players, as contracts see them.
pub open spec fn user_views(users: Seq<User>) -> Seq<Seq<char>> {
    users.map_values(|u: User| u@)
}

/// Whether `users` holds the player `user`.
fn holds(users: &Vec<User>, user: &User) -> (found: bool)
    ensures
        found == user_views(users@).contains(user@),
{
    let mut i: usize = 0;
    while i < users.len()
        invariant
            i <= users.len(),
            forall|k: int| 0 <= k < i ==> user_views(users@)[k] != user@,
        decreases users.len() - i,
    {
        if users[i] == *user {
            assert(user_views(users@)[i as int] == user@);
            return true;
        }
        i += 1;
    }
    false
}

/// The players to ask the catalog about: those that the lookups found, each
/// once. A chat identity without a registered player is left out.
pub fn registered(lookups: Vec<Option<User>>) -> (users: Vec<User>)
    ensures
        user_views(users@) == distinct(found(lookups@)),
{
    let mut users: Vec<User> = Vec::new();
    let mut i: usize = 0;
    assert(user_views(users@) =~= distinct(found(lookups@.take(0))));
    while i < lookups.len()
        invariant
            i <= lookups.len(),
            user_views(users@) == distinct(found(lookups@.take(i as int))),
        decreases lookups.len() - i,
    {
        proof {
            assert(lookups@.take(i + 1).drop_last() =~= lookups@.take(i as int));
            assert(lookups@.take(i + 1).last() == lookups@[i as int]);
        }
        let ghost before = user_views(users@);
        match &lookups[i] {
            Some(user) => {
                let ghost all = found(lookups@.take(i + 1));
                assert(all.drop_last() =~= found(lookups@.take(i as int)));
                assert(all.last() == user@);
                if !holds(&users, user) {
                    users.push(user.clone());
                    assert(user_views(users@) =~= before.push(user@));
                }
            },
            None => {},
        }
        i += 1;
    }
    assert(lookups@.take(i as int) =~= lookups@);
    users
}

/// What came of asking the catalog about each player of a batch.
#[derive(Debug)]
pub struct Batch {
    /// The libraries that were had, in the order of the players.
    pub libraries: Vec<Vec<Game>>,
    /// How many players' libraries could not be had.
    pub failed: usize,
}

/// The libraries of the answers that brought one, in the order of the answers.
pub open spec fn fetched_libraries(answers: Seq<Result<Vec<Game>, FetchError>>) -> Seq<
    Seq<GameView>,
>
    decreases answers.len(),
{
    if answers.len() == 0 {
        Seq::empty()
    } else {
        match answers.last() {
            Ok(library) => fetched_libraries(answers.drop_last()).push(
                views(library@),
            ),
            Err(_) => fetched_libraries(answers.drop_last()),
        }
    }
}

impl Batch {
    /// Whether a player's library is missing, so that the caller is to be
    /// warned that the result rests on fewer libraries than players.
    pub open spec fn is_degraded(&self) -> bool {
        self.failed > 0
    }

    /// Whether a player's library is missing.
    pub fn degraded(&self) -> (res: bool)
        ensures
            res == self.is_degraded(),
    {
        self.failed > 0
    }
}

/// Gathers the answers of the catalog: the libraries that were had are
/// kept, a failure only counts. No failure ends the batch.
pub fn collect(answers: Vec<Result<Vec<Game>, FetchError>>) -> (batch: Batch)
    ensures
        library_views(batch.libraries@) == fetched_libraries(answers@),
        batch.libraries@.len() + batch.failed == answers@.len(),
{
    let ghost all = answers@;
    let mut libraries: Vec<Vec<Game>> = Vec::new();
    let mut failed: usize = 0;
    let mut answers = answers;
    let mut i: usize = 0;
    let total = answers.len();
    assert(library_views(libraries@) =~= fetched_libraries(all.take(0)));
    while i < total
        invariant
            i <= total,
            total == all.len(),
            answers@.len() == total,
            forall|k: int| i <= k < total ==> answers@[k] == all[k],
            library_views(libraries@) == fetched_libraries(all.take(i as int)),
            libraries@.len() + failed == i,
        decreases total - i,
    {
        proof {
            assert(all.take(i + 1).drop_last() =~= all.take(i as int));
            assert(all.take(i + 1).last() == all[i as int]);
        }
        let ghost before = library_views(libraries@);
        let mut answer: Result<Vec<Game>, FetchError> = Err(FetchError::Transport);
        std::mem::swap(&mut answer, &mut answers[i]);
        match answer {
            Ok(library) => {
                libraries.push(library);
                assert(library_views(libraries@) =~= before.push(
                    views(library@),
                ));
            },
            Err(_) => {
                failed += 1;
            },
        }
        i += 1;
    }
    assert(all.take(i as int) =~= all);
    Batch { libraries, failed }
}

/// What the command ends in.
#[derive(Debug)]
pub enum Outcome {
    /// No library was had, so there is nothing to store or to page
    /// through: the caller is told so.
    NoData { reply: Reply },
    /// The games that all of the libraries list, to be stored under the
    /// caller's key before the reply, which shows their first page, is sent.
    Page { store: CommonGamesStore, response: InteractionResponse },
}

/// The last step of the command: reduces the libraries of the batch to the
/// games that all of them list, and shows the first page of these to the
/// caller alone. `key` is the caller's chat identity.
pub fn finish(key: String, libraries: Vec<Vec<Game>>) -> (outcome: Outcome)
    ensures
        libraries@.len() == 0 <==> outcome is NoData,
        outcome matches Outcome::NoData { reply } ==> reply.kind
            == ReplyKind::ChannelMessageWithSource && reply.ephemeral && (
        reply.body matches ReplyBody::Content(text) && text@ == NO_DATA@),
        outcome matches Outcome::Page { store, response } ==> store.wf() && (forall|g: GameView|
            store@.contains(g) <==> chosen(library_views(libraries@), libraries@.len(), g))
            && shows_page(response, 0, key@, page_of(store@, 0), true),
{
    if libraries.len() == 0 {
        return Outcome::NoData {
            reply: private_content(ReplyKind::ChannelMessageWithSource, NO_DATA),
        };
    }
    let store = CommonGamesStore::new(libraries);
    let custom_id = CommonGamesButtonCustomId::new(0, key);
    let response = show_page(custom_id, &store);
    Outcome::Page { store, response }
}

/// What is sent once the result was handed to the storage: the first page
/// if the result was stored, and else a reply that tells the caller of the
/// failure, since a page whose buttons lead nowhere must not be shown.
pub fn stored(kept: bool, response: InteractionResponse) -> (res: Result<InteractionResponse, Reply>)
    ensures
        match res {
            Ok(page) => kept && page == response,
            Err(reply) => !kept && reply.kind == ReplyKind::ChannelMessageWithSource
                && reply.ephemeral && (reply.body matches ReplyBody::Content(text) && text@
                == NOT_STORED@),
        },
{
    if kept {
        Ok(response)
    } else {
        Err(private_content(ReplyKind::ChannelMessageWithSource, NOT_STORED))
    }
}

} // verus!
