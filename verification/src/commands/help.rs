//! The command that explains how the bot is used.

use vstd::prelude::*;
use crate::commands::CommandDefinition;
use crate::commands::Reply;
use crate::commands::ReplyBody;
use crate::commands::ReplyKind;

verus! {

pub const COMMAND: &'static str = "help";

/// The heading over the explanation.
pub const TITLE: &'static str = "使い方";

/// The explanation.
pub const HOW_TO_USE: &'static str = "\nこのbotは通話中のユーザーが共通して所持しているゲームを表示するためのものです。\n事前に登録の手順があります。\n1. [アカウント詳細](https://store.steampowered.com/account/)にアクセスして、左上にある*Steam ID*をコピーしておく\n1. このbotとのチャットを開き、`/register` を入力する。 `steam-id` にさきほどコピーした*Steam ID*を貼り付け送信する。\n1. 通話に参加し、そのサーバー内で `/get-common-games` を入力することで共通のゲーム一覧を取得できます。\n";

/// What the command is announced as.
pub const DESCRIPTION: &'static str = "使い方を表示します。";

/// Whether `definition` is this command's.
pub open spec fn is_definition(definition: CommandDefinition) -> bool {
    &&& definition.name@ == COMMAND@
    &&& definition.description@ == DESCRIPTION@
    &&& definition.options@.len() == 0
}

/// The reply to the command: the explanation, for the user alone.
pub fn run() -> (reply: Reply)
    ensures
        reply.kind == ReplyKind::ChannelMessageWithSource,
        reply.ephemeral,
        reply.body matches ReplyBody::Field { name, value, inline } && name@ == TITLE@ && value@
            == HOW_TO_USE@ && inline,
{
    Reply {
        kind: ReplyKind::ChannelMessageWithSource,
        ephemeral: true,
        body: ReplyBody::Field {
            name: TITLE.to_owned(),
            value: HOW_TO_USE.to_owned(),
            inline: true,
        },
    }
}

/// The command, as it is announced to the chat platform.
pub fn register() -> (definition: CommandDefinition)
    ensures
        is_definition(definition),
{
    CommandDefinition {
        name: COMMAND.to_owned(),
        description: DESCRIPTION.to_owned(),
        options: Vec::new(),
    }
}

} // verus!
