use steam_common_games::common_games::create_interaction_response;
use steam_common_games::common_games::show_page;
use steam_common_games::common_games::CommonGamesButtonCustomId;
use steam_common_games::common_games::CommonGamesStore;
use steam_common_games::common_games::PAGE_SIZE;
use steam_common_games::steam::Game;

fn store_of(count: u64) -> CommonGamesStore {
    let library: Vec<Game> =
        (1..=count).rev().map(|id| Game { appid: id, name: format!("G{}", id) }).collect();
    CommonGamesStore::new(vec![library])
}

fn ids(page: &[&Game]) -> Vec<u64> {
    page.iter().map(|g| g.appid).collect()
}

#[test]
fn page_size_is_ten() {
    assert_eq!(PAGE_SIZE, 10);
}

#[test]
fn fifteen_games_make_two_pages() {
    let store = store_of(15);
    assert_eq!(ids(&store.get(0)), (1..=10).collect::<Vec<u64>>());
    assert_eq!(ids(&store.get(1)), (11..=15).collect::<Vec<u64>>());
    assert!(store.get(2).is_empty());
    assert!(store.get(usize::MAX).is_empty());
    assert!(store.get(usize::MAX / 10 + 1).is_empty());
}

#[test]
fn forward_is_enabled_only_on_a_full_page() {
    let store = store_of(15);
    let first = show_page(CommonGamesButtonCustomId::new(0, "7".to_string()), &store);
    assert!(!first.next.disabled);
    assert!(first.prev.disabled);
    let second = show_page(CommonGamesButtonCustomId::new(1, "7".to_string()), &store);
    assert!(second.next.disabled);
    assert!(!second.prev.disabled);
    let third = show_page(CommonGamesButtonCustomId::new(2, "7".to_string()), &store);
    assert!(third.next.disabled);
    assert_eq!(third.text, "");
}

#[test]
fn a_full_last_page_is_followed_by_an_empty_one() {
    let store = store_of(20);
    assert_eq!(store.get(1).len(), 10);
    assert!(store.get(2).is_empty());
}

#[test]
fn the_pages_put_together_are_the_whole_result() {
    for count in [0u64, 1, 9, 10, 11, 25, 30] {
        let store = store_of(count);
        let mut seen = Vec::new();
        let pages = (count as usize + PAGE_SIZE - 1) / PAGE_SIZE;
        for page in 0..pages {
            let games = store.get(page);
            assert!(!games.is_empty());
            assert!(games.len() <= PAGE_SIZE);
            seen.extend(ids(&games));
        }
        assert!(store.get(pages).is_empty());
        assert_eq!(seen, (1..=count).collect::<Vec<u64>>());
    }
}

#[test]
fn the_reply_lists_each_game_with_its_link() {
    let a = Game { appid: 440, name: "Team Fortress 2".to_string() };
    let b = Game { appid: 570, name: "Dota 2".to_string() };
    let reply = create_interaction_response(
        CommonGamesButtonCustomId::new(12, "42".to_string()),
        vec![&a, &b],
        true,
    );
    assert!(reply.ephemeral);
    assert_eq!(reply.title, "Games: p12");
    assert_eq!(
        reply.text,
        "- [Team Fortress 2](https://store.steampowered.com/app/440)\n- [Dota 2](https://store.steampowered.com/app/570)\n"
    );
    assert_eq!(reply.prev.label, "PREV");
    assert!(!reply.prev.disabled);
    assert_eq!(reply.prev.custom_id, "{\"page\":11,\"key\":\"42\"}");
    assert_eq!(reply.next.label, "NEXT");
    assert!(reply.next.disabled);
    assert_eq!(reply.next.custom_id, "{\"page\":13,\"key\":\"42\"}");
}

#[test]
fn the_first_page_has_no_way_back() {
    let reply =
        create_interaction_response(CommonGamesButtonCustomId::new(0, "42".to_string()), Vec::new(), false);
    assert!(!reply.ephemeral);
    assert_eq!(reply.title, "Games: p0");
    assert_eq!(reply.text, "");
    assert!(reply.prev.disabled);
    assert_eq!(reply.prev.custom_id, "Invalid");
    assert_eq!(reply.next.custom_id, "{\"page\":1,\"key\":\"42\"}");
}

#[test]
fn a_large_identifier_is_written_in_full() {
    let g = Game { appid: u64::MAX, name: String::new() };
    let reply =
        create_interaction_response(CommonGamesButtonCustomId::new(0, String::new()), vec![&g], true);
    assert_eq!(reply.text, "- [](https://store.steampowered.com/app/18446744073709551615)\n");
}
