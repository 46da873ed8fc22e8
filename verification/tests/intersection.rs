use std::collections::HashMap;

use steam_common_games::common_games::CommonGamesStore;
use steam_common_games::common_games::NotFound;
use steam_common_games::steam::Game;

fn game(appid: u64) -> Game {
    Game { appid, name: format!("Game {}", appid) }
}

fn library(ids: &[u64]) -> Vec<Game> {
    ids.iter().map(|id| game(*id)).collect()
}

fn all_ids(store: &CommonGamesStore) -> Vec<u64> {
    let mut ids = Vec::new();
    let mut page = 0;
    loop {
        let games = store.get(page);
        if games.is_empty() {
            return ids;
        }
        ids.extend(games.iter().map(|g| g.appid));
        page += 1;
    }
}

#[test]
fn three_users_all_owners() {
    let libraries = vec![library(&[1, 2, 3]), library(&[2, 3, 4]), library(&[2, 3])];
    let store = CommonGamesStore::compute(libraries, 3);
    assert_eq!(all_ids(&store), vec![2, 3]);
    let page = store.get(0);
    assert_eq!(*page[0], game(2));
    assert_eq!(*page[1], game(3));
}

#[test]
fn new_keeps_what_everyone_owns() {
    let libraries = vec![library(&[1, 2, 3]), library(&[2, 3, 4]), library(&[2, 3])];
    let store = CommonGamesStore::new(libraries);
    assert_eq!(all_ids(&store), vec![2, 3]);
}

#[test]
fn new_of_one_library_is_that_library() {
    let store = CommonGamesStore::new(vec![library(&[30, 10, 20])]);
    assert_eq!(all_ids(&store), vec![10, 20, 30]);
}

#[test]
fn no_library_gives_nothing_for_any_threshold() {
    for threshold in [0usize, 1, 2, usize::MAX] {
        let store = CommonGamesStore::compute(Vec::new(), threshold);
        assert!(all_ids(&store).is_empty());
        assert!(store.get(0).is_empty());
    }
    assert!(all_ids(&CommonGamesStore::new(Vec::new())).is_empty());
}

#[test]
fn threshold_zero_is_the_union() {
    let libraries = vec![library(&[5, 1]), library(&[]), library(&[9, 5, 7])];
    let store = CommonGamesStore::compute(libraries, 0);
    assert_eq!(all_ids(&store), vec![1, 5, 7, 9]);
}

#[test]
fn threshold_counts_owners() {
    let libraries = vec![library(&[1, 2, 3]), library(&[2, 3, 4]), library(&[3, 4, 5])];
    assert_eq!(all_ids(&CommonGamesStore::compute(libraries.clone(), 1)), vec![1, 2, 3, 4, 5]);
    assert_eq!(all_ids(&CommonGamesStore::compute(libraries.clone(), 2)), vec![2, 3, 4]);
    assert_eq!(all_ids(&CommonGamesStore::compute(libraries.clone(), 3)), vec![3]);
    assert!(all_ids(&CommonGamesStore::compute(libraries, 4)).is_empty());
}

#[test]
fn a_game_listed_twice_counts_once() {
    let libraries = vec![library(&[7, 7, 7]), library(&[8])];
    assert!(all_ids(&CommonGamesStore::compute(libraries.clone(), 2)).is_empty());
    assert_eq!(all_ids(&CommonGamesStore::compute(libraries, 1)), vec![7, 8]);
}

#[test]
fn identifiers_ascend_whatever_the_input_order() {
    let libraries = vec![library(&[9, 3, 7, 1, 5]), library(&[5, 1, 9, 7, 3])];
    let store = CommonGamesStore::new(libraries);
    let ids = all_ids(&store);
    assert_eq!(ids, vec![1, 3, 5, 7, 9]);
    assert!(ids.windows(2).all(|w| w[0] < w[1]));
}

#[test]
fn the_order_of_the_libraries_does_not_matter() {
    let a = vec![library(&[1, 2, 3]), library(&[3, 2]), library(&[2, 3, 9])];
    let b = vec![library(&[9, 3, 2]), library(&[3, 2, 1]), library(&[2, 3])];
    assert_eq!(all_ids(&CommonGamesStore::compute(a, 2)), all_ids(&CommonGamesStore::compute(b, 2)));
}

#[test]
fn a_name_is_part_of_a_game() {
    let one = vec![Game { appid: 1, name: "A".to_string() }];
    let other = vec![Game { appid: 1, name: "B".to_string() }];
    let store = CommonGamesStore::compute(vec![one.clone(), other.clone()], 2);
    assert!(all_ids(&store).is_empty());
    // each qualifies alone: the one that comes first in the input is kept
    let store = CommonGamesStore::compute(vec![one, other], 1);
    let page = store.get(0);
    assert_eq!(page.len(), 1);
    assert_eq!(page[0].name, "A");
}

#[test]
fn parts_round_trip() {
    let store = CommonGamesStore::new(vec![library(&[4, 2, 6]), library(&[6, 4, 2])]);
    let (games, ids) = store.into_parts();
    assert_eq!(ids, vec![2, 4, 6]);
    assert_eq!(games.len(), 3);
    assert_eq!(games[&4], game(4));
    let again = CommonGamesStore::from_parts(games, ids).expect("valid parts");
    assert_eq!(all_ids(&again), vec![2, 4, 6]);
}

fn parts(ids: &[u64]) -> HashMap<u64, Game> {
    ids.iter().map(|id| (*id, game(*id))).collect()
}

#[test]
fn parts_that_are_no_result_are_refused() {
    // identifiers out of order
    assert!(CommonGamesStore::from_parts(parts(&[1, 2]), vec![2, 1]).is_none());
    // an identifier twice
    assert!(CommonGamesStore::from_parts(parts(&[1, 2]), vec![1, 1]).is_none());
    assert!(CommonGamesStore::from_parts(parts(&[1]), vec![1, 1]).is_none());
    // an identifier without a game
    assert!(CommonGamesStore::from_parts(parts(&[1]), vec![1, 2]).is_none());
    // a game without an identifier
    assert!(CommonGamesStore::from_parts(parts(&[1, 2]), vec![1]).is_none());
    // a game under the key of another
    let mut wrong = HashMap::new();
    wrong.insert(1u64, game(2));
    assert!(CommonGamesStore::from_parts(wrong, vec![1]).is_none());
    // the empty result is a result
    assert!(CommonGamesStore::from_parts(HashMap::new(), Vec::new()).is_some());
}

#[test]
fn a_key_never_saved_is_not_found() {
    assert_eq!(CommonGamesStore::load(None).err(), Some(NotFound));
}

#[test]
fn a_broken_record_is_not_found() {
    assert_eq!(CommonGamesStore::load(Some((parts(&[1, 2]), vec![2, 1]))).err(), Some(NotFound));
}

#[test]
fn a_saved_record_is_loaded() {
    let store = CommonGamesStore::new(vec![library(&[3, 1])]);
    let loaded = CommonGamesStore::load(Some(store.into_parts())).expect("saved before");
    assert_eq!(all_ids(&loaded), vec![1, 3]);
}
