//! The command that tells a user which player is registered for them.

use vstd::prelude::*;
use vstd::string::StringExecFns;
use crate::commands::private_content;
use crate::commands::CommandDefinition;
use crate::commands::Reply;
use crate::commands::ReplyBody;
use crate::commands::ReplyKind;
use crate::user::User;

verus! {

pub const COMMAND: &'static str = "show";

/// What the command is announced as.
pub const DESCRIPTION: &'static str = "あなたが現在登録しているSteamのIDを返します。";

/// What the user is told when no player is registered for them.
pub const NOT_REGISTERED: &'static str = "あなたのSteamIDは未登録のようです。";

/// Whether `definition` is this command's.
pub open spec fn is_definition(definition: CommandDefinition) -> bool {
    &&& definition.name@ == COMMAND@
    &&& definition.description@ == DESCRIPTION@
    &&& definition.options@.len() == 0
}

/// What the user is told when the player `steam_id` is registered for
/// them: the identifier, linked to the player's profile.
pub open spec fn registered_text(steam_id: Seq<char>) -> Seq<char> {
    "あなたのSteamIDは["@ + steam_id + "](https://steamcommunity.com/profiles/"@ + steam_id
        + ")として登録されています。"@
}

/// The reply to the command, given the player that is registered for the
/// user, if any.
pub fn run(user: Option<&User>) -> (reply: Reply)
    ensures
        reply.kind == ReplyKind::ChannelMessageWithSource,
        reply.ephemeral,
        reply.body matches ReplyBody::Content(text) && text@ == match user {
            Some(u) => registered_text(u@),
            None => NOT_REGISTERED@,
        },
{
    match user {
        Some(u) => {
            let mut text = "あなたのSteamIDは[".to_owned();
            text.append(u.steam_id());
            text.append("](https://steamcommunity.com/profiles/");
            text.append(u.steam_id());
            text.append(")として登録されています。");
            private_content(ReplyKind::ChannelMessageWithSource, text.as_str())
        },
        None => private_content(ReplyKind::ChannelMessageWithSource, NOT_REGISTERED),
    }
}

/// The command, as it is announced to the chat platform.
pub fn register() -> (definition: CommandDefinition)
    ensures
        is_definition(definition),
{
    CommandDefinition {
        name: COMMAND.to_owned(),
        description: DESCRIPTION.to_owned(),
        options: Vec::new(),
    }
}

} // verus!
