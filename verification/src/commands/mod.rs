//! The slash commands: what each is called, what it asks for, and what it
//! answers.

pub mod get_common_games;
pub mod help;
pub mod register;
pub mod show;

use vstd::prelude::*;
use crate::text::same_text;

verus! {

/// The type of value that an option of a command takes.
#[derive(Clone, Copy, Debug, PartialEq, Eq, Structural)]
pub enum OptionKind {
    /// A text.
    String,
}

/// One option of a command, as it is announced to the chat platform.
#[derive(Debug)]
pub struct OptionDefinition {
    pub name: String,
    pub description: String,
    pub kind: OptionKind,
    pub required: bool,
}

/// A command, as it is announced to the chat platform.
#[derive(Debug)]
pub struct CommandDefinition {
    pub name: String,
    pub description: String,
    pub options: Vec<OptionDefinition>,
}

/// How a reply relates to the message that the command came from.
#[derive(Clone, Copy, Debug, PartialEq, Eq, Structural)]
pub enum ReplyKind {
    /// The reply is a new message in the channel.
    ChannelMessageWithSource,
    /// The reply takes the place of the message.
    UpdateMessage,
}

/// What a reply shows.
#[derive(Debug)]
pub enum ReplyBody {
    /// A plain text.
    Content(String),
    /// A titled block of text.
    Field { name: String, value: String, inline: bool },
}

/// A reply to a command that needs no buttons.
#[derive(Debug)]
pub struct Reply {
    pub kind: ReplyKind,
    /// Whether only the user who gave the command sees the reply.
    pub ephemeral: bool,
    pub body: ReplyBody,
}

/// The commands that the bot knows.
#[derive(Clone, Copy, Debug, PartialEq, Eq, Structural)]
pub enum CommandKind {
    Register,
    Show,
    GetCommonGames,
    Help,
}

/// The reply that shows `content` to the user alone.
pub(crate) fn private_content(kind: ReplyKind, content: &str) -> (reply: Reply)
    ensures
        reply.kind == kind,
        reply.ephemeral,
        reply.body matches ReplyBody::Content(text) && text@ == content@,
{
    Reply { kind, ephemeral: true, body: ReplyBody::Content(content.to_owned()) }
}

/// The command that goes by `name`, if the bot knows one.
pub fn route(name: &str) -> (kind: Option<CommandKind>)
    ensures
        kind == if name@ == register::COMMAND@ {
            Some(CommandKind::Register)
        } else if name@ == show::COMMAND@ {
            Some(CommandKind::Show)
        } else if name@ == get_common_games::COMMAND@ {
            Some(CommandKind::GetCommonGames)
        } else if name@ == help::COMMAND@ {
            Some(CommandKind::Help)
        } else {
            None
        },
{
    if same_text(name, register::COMMAND) {
        Some(CommandKind::Register)
    } else if same_text(name, show::COMMAND) {
        Some(CommandKind::Show)
    } else if same_text(name, get_common_games::COMMAND) {
        Some(CommandKind::GetCommonGames)
    } else if same_text(name, help::COMMAND) {
        Some(CommandKind::Help)
    } else {
        None
    }
}

/// The definitions of all commands, in the order in which they are
/// announced.
pub fn definitions() -> (all: Vec<CommandDefinition>)
    ensures
        all@.len() == 4,
        show::is_definition(all@[0]),
        register::is_definition(all@[1]),
        get_common_games::is_definition(all@[2]),
        help::is_definition(all@[3]),
{
    let mut all: Vec<CommandDefinition> = Vec::new();
    all.push(show::register());
    all.push(register::register());
    all.push(get_common_games::register());
    all.push(help::register());
    all
}

} // verus!
