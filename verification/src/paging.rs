//! How a sequence of games falls into pages.

use vstd::prelude::*;
use crate::common_games::PAGE_SIZE;
use crate::steam::GameView;

verus! {

/// The slice that page `page_idx` shows of `games`: up to [`PAGE_SIZE`]
/// entries from place `page_idx * PAGE_SIZE` on, and nothing past the end.
pub open spec fn page_of<T>(games: Seq<T>, page_idx: int) -> Seq<T> {
    let start = page_idx * PAGE_SIZE;
    if 0 <= page_idx && start < games.len() {
        if start + PAGE_SIZE <= games.len() {
            games.subrange(start, start + PAGE_SIZE)
        } else {
            games.subrange(start, games.len() as int)
        }
    } else {
        Seq::empty()
    }
}

/// How many pages hold at least one of `len` games.
pub open spec fn page_count(len: nat) -> nat {
    ((len + PAGE_SIZE - 1) / (PAGE_SIZE as int)) as nat
}

/// The first `n` pages of `games`, one after the other.
pub open spec fn first_pages<T>(games: Seq<T>, n: nat) -> Seq<T>
    decreases n,
{
    if n == 0 {
        Seq::empty()
    } else {
        first_pages(games, (n - 1) as nat) + page_of(games, n - 1)
    }
}

/// The identifiers of the games ascend strictly along the sequence.
pub open spec fn ascending_by_id(games: Seq<GameView>) -> bool {
    forall|i: int, j: int| 0 <= i < j < games.len() ==> games[i].appid < games[j].appid
}

/// Every page holds at most [`PAGE_SIZE`] games; a page past the last is
/// empty; and the pages put one after the other in order give back the whole
/// sequence, each game once.
pub proof fn lemma_pages_partition<T>(games: Seq<T>)
    ensures
        forall|i: int| (#[trigger] page_of(games, i)).len() <= PAGE_SIZE,
        forall|i: int| i >= page_count(games.len()) ==> (#[trigger] page_of(games, i)).len() == 0,
        forall|i: int| 0 <= i < page_count(games.len()) ==> (#[trigger] page_of(games, i)).len() > 0,
        first_pages(games, page_count(games.len())) == games,
{
    lemma_first_pages(games, page_count(games.len()));
    assert(games.take(games.len() as int) =~= games);
}

/// A page of games that ascend by identifier ascends by identifier.
pub proof fn lemma_page_ascending(games: Seq<GameView>, page_idx: int)
    requires
        ascending_by_id(games),
    ensures
        ascending_by_id(page_of(games, page_idx)),
{
}

/// Two sequences that ascend by identifier and hold the same games are the
/// same sequence: what a result holds fixes the order of its pages.
pub proof fn lemma_same_games_same_pages(a: Seq<GameView>, b: Seq<GameView>)
    requires
        ascending_by_id(a),
        ascending_by_id(b),
        forall|g: GameView| a.contains(g) <==> b.contains(g),
    ensures
        a == b,
    decreases a.len(),
{
    if a.len() == 0 {
        if b.len() > 0 {
            assert(b.contains(b[0]));
        }
        assert(a =~= b);
    } else {
        assert(a.contains(a.last()));
        let j = choose|j: int| 0 <= j < b.len() && b[j] == a.last();
        assert(b.contains(b.last()));
        let i = choose|i: int| 0 <= i < a.len() && a[i] == b.last();
        assert(j == b.len() - 1);
        let front_a = a.drop_last();
        let front_b = b.drop_last();
        assert forall|g: GameView| front_a.contains(g) <==> front_b.contains(g) by {
            if front_a.contains(g) {
                let k = choose|k: int| 0 <= k < front_a.len() && front_a[k] == g;
                assert(a[k] == g);
                assert(b.contains(g));
                let m = choose|m: int| 0 <= m < b.len() && b[m] == g;
                assert(front_b[m] == g);
            }
            if front_b.contains(g) {
                let k = choose|k: int| 0 <= k < front_b.len() && front_b[k] == g;
                assert(b[k] == g);
                assert(a.contains(g));
                let m = choose|m: int| 0 <= m < a.len() && a[m] == g;
                assert(front_a[m] == g);
            }
        }
        lemma_same_games_same_pages(front_a, front_b);
        assert(a =~= front_a.push(a.last()));
        assert(b =~= front_b.push(b.last()));
    }
}

/// The first `n` pages are the games before place `n * PAGE_SIZE`.
proof fn lemma_first_pages<T>(games: Seq<T>, n: nat)
    ensures
        first_pages(games, n) == if n * PAGE_SIZE <= games.len() {
            games.take(n * PAGE_SIZE)
        } else {
            games
        },
    decreases n,
{
    if n > 0 {
        lemma_first_pages(games, (n - 1) as nat);
        let start = (n - 1) * PAGE_SIZE;
        if start < games.len() {
            if start + PAGE_SIZE <= games.len() {
                assert(games.take(start) + games.subrange(start, start + PAGE_SIZE)
                    =~= games.take(n * PAGE_SIZE));
            } else {
                assert(games.take(start) + games.subrange(start, games.len() as int) =~= games);
            }
        } else {
            assert(first_pages(games, n) =~= first_pages(games, (n - 1) as nat));
            if start == games.len() {
                assert(games.take(start) =~= games);
            }
        }
    } else {
        assert(games.take(0) =~= Seq::<T>::empty());
    }
}

} // verus!
