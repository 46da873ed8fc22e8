//! What it means for a game to be common to a batch of libraries.
//!
//! A library is a sequence of games that stands for the set of its games: a
//! game that it lists twice is owned once.

use vstd::prelude::*;
use crate::steam::Game;
use crate::steam::GameView;

verus! {

/// The games of one library, as contracts see them.
pub open spec fn views(library: Seq<Game>) -> Seq<GameView> {
    library.map_values(|g: Game| g@)
}

/// The libraries of a batch, as contracts see them.
pub open spec fn library_views(libraries: Seq<Vec<Game>>) -> Seq<Seq<GameView>> {
    libraries.map_values(|l: Vec<Game>| views(l@))
}

/// Every game of every library, in the order of the input.
pub open spec fn all_games(libraries: Seq<Seq<GameView>>) -> Seq<GameView>
    decreases libraries.len(),
{
    if libraries.len() == 0 {
        Seq::empty()
    } else {
        all_games(libraries.drop_last()) + libraries.last()
    }
}

/// In how many of the libraries the game occurs. A library that lists the
/// game twice counts once.
pub open spec fn owner_count(libraries: Seq<Seq<GameView>>, game: GameView) -> nat
    decreases libraries.len(),
{
    if libraries.len() == 0 {
        0
    } else {
        owner_count(libraries.drop_last(), game) + if libraries.last().contains(game) {
            1nat
        } else {
            0nat
        }
    }
}

/// The game occurs in some library, and in at least `min_owners` of them.
pub open spec fn qualifies(libraries: Seq<Seq<GameView>>, min_owners: nat, game: GameView) -> bool {
    all_games(libraries).contains(game) && owner_count(libraries, game) >= min_owners
}

/// Whether the game at place `k` of `games` qualifies and no game before it
/// with the same identifier does.
pub open spec fn first_qualifying_at(
    games: Seq<GameView>,
    libraries: Seq<Seq<GameView>>,
    min_owners: nat,
    k: int,
) -> bool {
    &&& 0 <= k < games.len()
    &&& owner_count(libraries, games[k]) >= min_owners
    &&& forall|e: int|
        0 <= e < k && (#[trigger] games[e]).appid == games[k].appid ==> owner_count(
            libraries,
            games[e],
        ) < min_owners
}

/// The game is the one that the result keeps for its identifier: it
/// qualifies, and among the qualifying games with that identifier it comes
/// first in the order of the input.
pub open spec fn chosen(libraries: Seq<Seq<GameView>>, min_owners: nat, game: GameView) -> bool {
    exists|k: int|
        #[trigger] first_qualifying_at(all_games(libraries), libraries, min_owners, k)
            && all_games(libraries)[k] == game
}

/// No two games of the libraries share an identifier under different names.
pub open spec fn identifiers_consistent(libraries: Seq<Seq<GameView>>) -> bool {
    forall|a: int, b: int|
        0 <= a < all_games(libraries).len() && 0 <= b < all_games(libraries).len() && (
        #[trigger] all_games(libraries)[a]).appid == (#[trigger] all_games(libraries)[b]).appid
            ==> all_games(libraries)[a] == all_games(libraries)[b]
}

/// Where an identifier always goes with one name, the result holds exactly
/// the games that occur in at least `min_owners` libraries, and no others.
pub proof fn lemma_threshold_exact(libraries: Seq<Seq<GameView>>, min_owners: nat, game: GameView)
    requires
        identifiers_consistent(libraries),
    ensures
        chosen(libraries, min_owners, game) <==> qualifies(libraries, min_owners, game),
{
    let flat = all_games(libraries);
    if flat.contains(game) && owner_count(libraries, game) >= min_owners {
        let k = choose|k: int| 0 <= k < flat.len() && flat[k] == game;
        lemma_first_occurrence(flat, libraries, min_owners, k);
        let f = choose|f: int|
            0 <= f <= k && #[trigger] first_qualifying_at(flat, libraries, min_owners, f)
                && flat[f].appid == flat[k].appid;
        assert(flat[f] == flat[k]);
    }
    if chosen(libraries, min_owners, game) {
        let k = choose|k: int| #[trigger]
            first_qualifying_at(flat, libraries, min_owners, k) && flat[k] == game;
        assert(flat.contains(game));
    }
}

/// With the threshold 0, and where an identifier always goes with one name,
/// the result is the union of the libraries.
pub proof fn lemma_threshold_zero(libraries: Seq<Seq<GameView>>, game: GameView)
    requires
        identifiers_consistent(libraries),
    ensures
        chosen(libraries, 0, game) <==> all_games(libraries).contains(game),
{
    lemma_threshold_exact(libraries, 0, game);
}

/// With no library there is nothing to keep, whatever the threshold.
pub proof fn lemma_no_library(min_owners: nat, game: GameView)
    ensures
        !chosen(Seq::<Seq<GameView>>::empty(), min_owners, game),
{
}

/// A game occurs among all games exactly if some library lists it.
pub proof fn lemma_all_games_is_union(libraries: Seq<Seq<GameView>>, game: GameView)
    ensures
        all_games(libraries).contains(game) <==> exists|i: int|
            0 <= i < libraries.len() && (#[trigger] libraries[i]).contains(game),
    decreases libraries.len(),
{
    if libraries.len() > 0 {
        let front = libraries.drop_last();
        lemma_all_games_is_union(front, game);
        let flat = all_games(libraries);
        if flat.contains(game) {
            let k = choose|k: int| 0 <= k < flat.len() && flat[k] == game;
            if k < all_games(front).len() {
                assert(all_games(front)[k] == game);
                let i = choose|i: int| 0 <= i < front.len() && (#[trigger] front[i]).contains(game);
                assert(libraries[i] == front[i]);
            } else {
                assert(libraries.last()[k - all_games(front).len()] == game);
                assert(libraries[libraries.len() - 1].contains(game));
            }
        }
        if exists|i: int| 0 <= i < libraries.len() && (#[trigger] libraries[i]).contains(game) {
            let i = choose|i: int| 0 <= i < libraries.len() && (#[trigger] libraries[i]).contains(game);
            if i < front.len() {
                assert(front[i] == libraries[i]);
                let k = choose|k: int| 0 <= k < all_games(front).len() && all_games(front)[k] == game;
                assert(flat[k] == game);
            } else {
                let j = choose|j: int| 0 <= j < libraries[i].len() && libraries[i][j] == game;
                assert(flat[all_games(front).len() + j] == game);
            }
        }
    }
}

/// The count over two batches put together is the sum of their counts.
pub proof fn lemma_owner_count_concat(
    first: Seq<Seq<GameView>>,
    second: Seq<Seq<GameView>>,
    game: GameView,
)
    ensures
        owner_count(first + second, game) == owner_count(first, game) + owner_count(second, game),
    decreases second.len(),
{
    if second.len() == 0 {
        assert(first + second =~= first);
    } else {
        lemma_owner_count_concat(first, second.drop_last(), game);
        assert((first + second).drop_last() =~= first + second.drop_last());
        assert((first + second).last() == second.last());
    }
}

/// In which order the libraries of a batch come in does not change which
/// games qualify: two batches put together either way give the same counts
/// and the same union.
pub proof fn lemma_order_of_batches(
    first: Seq<Seq<GameView>>,
    second: Seq<Seq<GameView>>,
    min_owners: nat,
    game: GameView,
)
    ensures
        owner_count(first + second, game) == owner_count(second + first, game),
        qualifies(first + second, min_owners, game) <==> qualifies(
            second + first,
            min_owners,
            game,
        ),
{
    lemma_owner_count_concat(first, second, game);
    lemma_owner_count_concat(second, first, game);
    lemma_all_games_is_union(first + second, game);
    lemma_all_games_is_union(second + first, game);
    let ab = first + second;
    let ba = second + first;
    if exists|i: int| 0 <= i < ab.len() && (#[trigger] ab[i]).contains(game) {
        let i = choose|i: int| 0 <= i < ab.len() && (#[trigger] ab[i]).contains(game);
        if i < first.len() {
            assert(ba[second.len() + i] == ab[i]);
        } else {
            assert(ba[i - first.len()] == ab[i]);
        }
    }
    if exists|i: int| 0 <= i < ba.len() && (#[trigger] ba[i]).contains(game) {
        let i = choose|i: int| 0 <= i < ba.len() && (#[trigger] ba[i]).contains(game);
        if i < second.len() {
            assert(ab[first.len() + i] == ba[i]);
        } else {
            assert(ab[i - second.len()] == ba[i]);
        }
    }
}

/// The libraries after the first `i` add to the count at least nothing and
/// at most one each.
pub proof fn lemma_owner_count_bounds(libraries: Seq<Seq<GameView>>, game: GameView, i: int)
    requires
        0 <= i <= libraries.len(),
    ensures
        owner_count(libraries.take(i), game) <= owner_count(libraries, game) <= owner_count(
            libraries.take(i),
            game,
        ) + (libraries.len() - i),
    decreases libraries.len() - i,
{
    if i < libraries.len() {
        lemma_owner_count_bounds(libraries, game, i + 1);
        assert(libraries.take(i + 1).drop_last() =~= libraries.take(i));
    } else {
        assert(libraries.take(i) =~= libraries);
    }
}

/// A qualifying game at place `k` has a first place among the qualifying
/// games with its identifier, at or before `k`.
proof fn lemma_first_occurrence(
    flat: Seq<GameView>,
    libraries: Seq<Seq<GameView>>,
    min_owners: nat,
    k: int,
)
    requires
        0 <= k < flat.len(),
        owner_count(libraries, flat[k]) >= min_owners,
    ensures
        exists|f: int|
            0 <= f <= k && #[trigger] first_qualifying_at(flat, libraries, min_owners, f)
                && flat[f].appid == flat[k].appid,
    decreases k,
{
    if first_qualifying_at(flat, libraries, min_owners, k) {
    } else {
        let e = choose|e: int|
            0 <= e < k && (#[trigger] flat[e]).appid == flat[k].appid && !(owner_count(
                libraries,
                flat[e],
            ) < min_owners);
        lemma_first_occurrence(flat, libraries, min_owners, e);
    }
}

} // verus!
