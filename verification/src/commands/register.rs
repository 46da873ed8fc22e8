//! The command by which a user registers the player that they are in the
//! game catalog.

use vstd::prelude::*;
use crate::commands::private_content;
use crate::commands::CommandDefinition;
use crate::commands::OptionDefinition;
use crate::commands::OptionKind;
use crate::commands::Reply;
use crate::commands::ReplyBody;
use crate::commands::ReplyKind;
use crate::text::same_text;
use crate::user::User;

verus! {

pub const COMMAND: &'static str = "register";

/// What the command is announced as.
pub const DESCRIPTION: &'static str = "Register your steam id";

/// The name of the option that takes the player's identifier.
pub const OPTION: &'static str = "steam-id";

/// What the option is announced as.
pub const OPTION_DESCRIPTION: &'static str = "Steam ID for register";

/// What the user is told when the option is missing or holds no text.
pub const MISSING: &'static str = "Missing steam-id";

/// What the user is told when the player could not be kept.
pub const FAILED: &'static str = "Internal error";

/// What the user is told when the player is registered.
pub const DONE: &'static str = "OK";

/// An option as a user gave it: its name, and its value where that is a text.
#[derive(Debug)]
pub struct OptionValue {
    pub name: String,
    pub value: Option<String>,
}

/// Whether `definition` is this command's.
pub open spec fn is_definition(definition: CommandDefinition) -> bool {
    &&& definition.name@ == COMMAND@
    &&& definition.description@ == DESCRIPTION@
    &&& definition.options@.len() == 1
    &&& definition.options@[0].name@ == OPTION@
    &&& definition.options@[0].description@ == OPTION_DESCRIPTION@
    &&& definition.options@[0].kind == OptionKind::String
    &&& definition.options@[0].required
}

/// The text of the first option that goes by [`OPTION`], if there is such
/// an option and it holds a text.
pub open spec fn given_steam_id(options: Seq<OptionValue>) -> Option<Seq<char>>
    decreases options.len(),
{
    if options.len() == 0 {
        None
    } else if options.first().name@ == OPTION@ {
        match options.first().value {
            Some(text) => Some(text@),
            None => None,
        }
    } else {
        given_steam_id(options.drop_first())
    }
}

/// The first step of the command: the player to keep for the user, or the
/// reply that says what is missing.
pub fn run(options: &Vec<OptionValue>) -> (step: Result<User, Reply>)
    ensures
        match step {
            Ok(user) => given_steam_id(options@) == Some(user@),
            Err(reply) => given_steam_id(options@) is None && reply.kind
                == ReplyKind::ChannelMessageWithSource && reply.ephemeral && (
            reply.body matches ReplyBody::Content(text) && text@ == MISSING@),
        },
{
    let mut i: usize = 0;
    assert(options@.skip(0) =~= options@);
    while i < options.len()
        invariant
            i <= options.len(),
            given_steam_id(options@) == given_steam_id(options@.skip(i as int)),
        decreases options.len() - i,
    {
        let ghost rest = options@.skip(i as int);
        assert(rest.first() == options@[i as int]);
        assert(rest.drop_first() =~= options@.skip(i + 1));
        if same_text(options[i].name.as_str(), OPTION) {
            return match &options[i].value {
                Some(text) => Ok(User::new(text.clone())),
                None => Err(private_content(ReplyKind::ChannelMessageWithSource, MISSING)),
            };
        }
        i += 1;
    }
    Err(private_content(ReplyKind::ChannelMessageWithSource, MISSING))
}

/// The last step of the command: the reply, given whether the player was
/// kept.
pub fn saved(kept: bool) -> (reply: Reply)
    ensures
        reply.kind == ReplyKind::ChannelMessageWithSource,
        reply.ephemeral,
        reply.body matches ReplyBody::Content(text) && text@ == if kept {
            DONE@
        } else {
            FAILED@
        },
{
    if kept {
        private_content(ReplyKind::ChannelMessageWithSource, DONE)
    } else {
        private_content(ReplyKind::ChannelMessageWithSource, FAILED)
    }
}

/// The command, as it is announced to the chat platform.
pub fn register() -> (definition: CommandDefinition)
    ensures
        is_definition(definition),
{
    let mut options: Vec<OptionDefinition> = Vec::new();
    options.push(
        OptionDefinition {
            name: OPTION.to_owned(),
            description: OPTION_DESCRIPTION.to_owned(),
            kind: OptionKind::String,
            required: true,
        },
    );
    CommandDefinition { name: COMMAND.to_owned(), description: DESCRIPTION.to_owned(), options }
}

} // verus!
