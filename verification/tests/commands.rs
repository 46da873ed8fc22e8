use steam_common_games::commands::definitions;
use steam_common_games::commands::get_common_games;
use steam_common_games::commands::help;
use steam_common_games::commands::register;
use steam_common_games::commands::route;
use steam_common_games::commands::show;
use steam_common_games::commands::CommandKind;
use steam_common_games::commands::OptionKind;
use steam_common_games::commands::Reply;
use steam_common_games::commands::ReplyBody;
use steam_common_games::commands::ReplyKind;
use steam_common_games::steam::FetchError;
use steam_common_games::steam::Game;
use steam_common_games::user::User;

fn content(reply: &Reply) -> &str {
    match &reply.body {
        ReplyBody::Content(text) => text,
        ReplyBody::Field { .. } => panic!("a plain text was expected"),
    }
}

fn library(ids: &[u64]) -> Vec<Game> {
    ids.iter().map(|id| Game { appid: *id, name: format!("G{}", id) }).collect()
}

#[test]
fn commands_go_by_their_names() {
    assert_eq!(route("register"), Some(CommandKind::Register));
    assert_eq!(route("show"), Some(CommandKind::Show));
    assert_eq!(route("get-common-games"), Some(CommandKind::GetCommonGames));
    assert_eq!(route("help"), Some(CommandKind::Help));
    assert_eq!(route("Help"), None);
    assert_eq!(route(""), None);
    assert_eq!(route("get_common_games"), None);
}

#[test]
fn the_commands_are_announced_in_order() {
    let all = definitions();
    let names: Vec<&str> = all.iter().map(|d| d.name.as_str()).collect();
    assert_eq!(names, vec!["show", "register", "get-common-games", "help"]);
}

#[test]
fn what_each_command_is_announced_as() {
    let d = get_common_games::register();
    assert_eq!(d.name, "get-common-games");
    assert_eq!(d.description, "Register your steam id");
    assert!(d.options.is_empty());
    let d = help::register();
    assert_eq!(d.name, "help");
    assert_eq!(d.description, "使い方を表示します。");
    assert!(d.options.is_empty());
    let d = show::register();
    assert_eq!(d.name, "show");
    assert_eq!(d.description, "あなたが現在登録しているSteamのIDを返します。");
    assert!(d.options.is_empty());
    let d = register::register();
    assert_eq!(d.name, "register");
    assert_eq!(d.description, "Register your steam id");
    assert_eq!(d.options.len(), 1);
    assert_eq!(d.options[0].name, "steam-id");
    assert_eq!(d.options[0].description, "Steam ID for register");
    assert_eq!(d.options[0].kind, OptionKind::String);
    assert!(d.options[0].required);
}

#[test]
fn help_explains() {
    let reply = help::run();
    assert_eq!(reply.kind, ReplyKind::ChannelMessageWithSource);
    assert!(reply.ephemeral);
    match reply.body {
        ReplyBody::Field { name, value, inline } => {
            assert_eq!(name, "使い方");
            assert_eq!(value, help::HOW_TO_USE);
            assert!(value.contains("/get-common-games"));
            assert!(inline);
        }
        ReplyBody::Content(_) => panic!("a field was expected"),
    }
}

#[test]
fn show_tells_the_registered_player() {
    let user = User::new("7656".to_string());
    let reply = show::run(Some(&user));
    assert_eq!(reply.kind, ReplyKind::ChannelMessageWithSource);
    assert!(reply.ephemeral);
    assert_eq!(
        content(&reply),
        "あなたのSteamIDは[7656](https://steamcommunity.com/profiles/7656)として登録されています。"
    );
    let reply = show::run(None);
    assert!(reply.ephemeral);
    assert_eq!(content(&reply), "あなたのSteamIDは未登録のようです。");
}

fn option(name: &str, value: Option<&str>) -> register::OptionValue {
    register::OptionValue { name: name.to_string(), value: value.map(|v| v.to_string()) }
}

#[test]
fn register_takes_the_steam_id() {
    let options = vec![option("other", Some("x")), option("steam-id", Some("7656")), option("steam-id", Some("1"))];
    let user = register::run(&options).expect("the option is there");
    assert_eq!(user.steam_id(), "7656");
}

#[test]
fn register_without_a_steam_id() {
    for options in [
        Vec::new(),
        vec![option("other", Some("x"))],
        vec![option("steam-id", None)],
        vec![option("steam-id", None), option("steam-id", Some("7656"))],
    ] {
        let reply = register::run(&options).expect_err("nothing to register");
        assert_eq!(reply.kind, ReplyKind::ChannelMessageWithSource);
        assert!(reply.ephemeral);
        assert_eq!(content(&reply), "Missing steam-id");
    }
}

#[test]
fn register_says_how_it_went() {
    assert_eq!(content(&register::saved(true)), "OK");
    assert_eq!(content(&register::saved(false)), "Internal error");
    assert!(register::saved(false).ephemeral);
}

fn state(user: u64, channel: Option<u64>) -> get_common_games::VoiceState {
    get_common_games::VoiceState { user, channel }
}

#[test]
fn the_caller_must_be_in_a_voice_channel_of_a_guild() {
    let states = vec![state(1, Some(10)), state(2, None), state(3, Some(11))];
    assert_eq!(get_common_games::voice_channel(true, Some(&states), 1).ok(), Some(10));
    assert_eq!(get_common_games::voice_channel(true, Some(&states), 3).ok(), Some(11));

    let reply = get_common_games::voice_channel(false, Some(&states), 1).expect_err("no guild");
    assert_eq!(reply.kind, ReplyKind::UpdateMessage);
    assert!(reply.ephemeral);
    assert_eq!(content(&reply), "Please call at guild channel.");
    let reply = get_common_games::voice_channel(false, None, 1).expect_err("no guild");
    assert_eq!(content(&reply), "Please call at guild channel.");

    let reply = get_common_games::voice_channel(true, None, 1).expect_err("guild unknown");
    assert_eq!(content(&reply), "Internal error.");

    for caller in [2u64, 4] {
        let reply = get_common_games::voice_channel(true, Some(&states), caller).expect_err("not in voice");
        assert_eq!(reply.kind, ReplyKind::UpdateMessage);
        assert_eq!(content(&reply), "Please call when you joined voice channel.");
    }
}

#[test]
fn the_members_of_the_channel() {
    let states = vec![state(30, Some(10)), state(2, None), state(3, Some(11)), state(18446744073709551615, Some(10))];
    assert_eq!(get_common_games::participants(&states, 10), vec!["30", "18446744073709551615"]);
    assert_eq!(get_common_games::participants(&states, 11), vec!["3"]);
    assert!(get_common_games::participants(&states, 12).is_empty());
    assert!(get_common_games::participants(&Vec::new(), 10).is_empty());
}

#[test]
fn unregistered_members_are_left_out() {
    let lookups = vec![
        Some(User::new("a".to_string())),
        None,
        Some(User::new("b".to_string())),
        Some(User::new("a".to_string())),
        None,
    ];
    let users = get_common_games::registered(lookups);
    let ids: Vec<&str> = users.iter().map(|u| u.steam_id()).collect();
    assert_eq!(ids, vec!["a", "b"]);
    assert!(get_common_games::registered(vec![None, None]).is_empty());
    assert!(get_common_games::registered(Vec::new()).is_empty());
}

#[test]
fn one_failure_does_not_end_the_batch() {
    let answers = vec![Ok(library(&[1, 2, 3])), Err(FetchError::NotPublic), Ok(library(&[2, 3, 4]))];
    let batch = get_common_games::collect(answers);
    assert_eq!(batch.libraries, vec![library(&[1, 2, 3]), library(&[2, 3, 4])]);
    assert_eq!(batch.failed, 1);
    assert!(batch.degraded());
    match get_common_games::finish("9".to_string(), batch.libraries) {
        get_common_games::Outcome::Page { store, response } => {
            let ids: Vec<u64> = store.get(0).iter().map(|g| g.appid).collect();
            assert_eq!(ids, vec![2, 3]);
            assert_eq!(
                response.text,
                "- [G2](https://store.steampowered.com/app/2)\n- [G3](https://store.steampowered.com/app/3)\n"
            );
        }
        get_common_games::Outcome::NoData { .. } => panic!("two libraries were had"),
    }
}

#[test]
fn a_batch_without_failures_is_not_degraded() {
    let batch = get_common_games::collect(vec![Ok(library(&[1])), Ok(library(&[]))]);
    assert_eq!(batch.libraries.len(), 2);
    assert_eq!(batch.failed, 0);
    assert!(!batch.degraded());
    let batch = get_common_games::collect(Vec::new());
    assert!(batch.libraries.is_empty());
    assert!(!batch.degraded());
}

#[test]
fn every_kind_of_failure_only_counts() {
    let answers =
        vec![Err(FetchError::Transport), Err(FetchError::Malformed), Err(FetchError::NotPublic)];
    let batch = get_common_games::collect(answers);
    assert!(batch.libraries.is_empty());
    assert_eq!(batch.failed, 3);
    assert!(batch.degraded());
}

#[test]
fn nothing_fetched_is_no_data() {
    match get_common_games::finish("9".to_string(), Vec::new()) {
        get_common_games::Outcome::NoData { reply } => {
            assert_eq!(reply.kind, ReplyKind::ChannelMessageWithSource);
            assert!(reply.ephemeral);
            assert_eq!(
                content(&reply),
                "No games could be fetched for the members of your voice channel."
            );
        }
        get_common_games::Outcome::Page { .. } => panic!("no library was had"),
    }
}

#[test]
fn the_command_ends_in_the_first_page() {
    let everything: Vec<u64> = (1..=12).collect();
    let outcome = get_common_games::finish("77".to_string(), vec![library(&everything), library(&everything)]);
    match outcome {
        get_common_games::Outcome::Page { store, response } => {
            assert_eq!(store.get(0).len(), 10);
            assert_eq!(store.get(1).len(), 2);
            assert!(response.ephemeral);
            assert_eq!(response.title, "Games: p0");
            assert!(response.text.starts_with("- [G1](https://store.steampowered.com/app/1)\n"));
            assert_eq!(response.text.lines().count(), 10);
            assert!(response.prev.disabled);
            assert_eq!(response.prev.custom_id, "Invalid");
            assert!(!response.next.disabled);
            assert_eq!(response.next.custom_id, "{\"page\":1,\"key\":\"77\"}");
        }
        get_common_games::Outcome::NoData { .. } => panic!("libraries were had"),
    }
}

#[test]
fn common_games_of_nobody_in_common() {
    let outcome = get_common_games::finish("77".to_string(), vec![library(&[1]), library(&[2])]);
    match outcome {
        get_common_games::Outcome::Page { store, response } => {
            assert!(store.get(0).is_empty());
            assert_eq!(response.text, "");
            assert!(response.next.disabled);
        }
        get_common_games::Outcome::NoData { .. } => panic!("libraries were had"),
    }
}

#[test]
fn a_result_that_was_not_stored_is_not_shown() {
    let page = match get_common_games::finish("5".to_string(), vec![library(&[1])]) {
        get_common_games::Outcome::Page { response, .. } => response,
        get_common_games::Outcome::NoData { .. } => panic!("a library was had"),
    };
    let reply = get_common_games::stored(false, page).expect_err("nothing was stored");
    assert_eq!(reply.kind, ReplyKind::ChannelMessageWithSource);
    assert!(reply.ephemeral);
    assert_eq!(content(&reply), "Internal error.");
}

#[test]
fn a_result_that_was_stored_is_shown() {
    let page = match get_common_games::finish("5".to_string(), vec![library(&[1])]) {
        get_common_games::Outcome::Page { response, .. } => response,
        get_common_games::Outcome::NoData { .. } => panic!("a library was had"),
    };
    let shown = get_common_games::stored(true, page).expect("the result was stored");
    assert_eq!(shown.text, "- [G1](https://store.steampowered.com/app/1)\n");
    assert_eq!(shown.next.custom_id, "{\"page\":1,\"key\":\"5\"}");
}
