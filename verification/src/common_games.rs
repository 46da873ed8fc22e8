//! The games that a group of players have in common: how they are found, how
//! the result is kept and how it is read page by page.

use std::collections::HashMap;
use vstd::prelude::*;
use vstd::string::StringExecFns;
use crate::decimal::decimal;
use crate::decimal::decimal_string;
use crate::intersection::all_games;
use crate::intersection::chosen;
use crate::intersection::first_qualifying_at;
use crate::intersection::lemma_owner_count_bounds;
use crate::intersection::library_views;
use crate::intersection::owner_count;
use crate::intersection::views;
use crate::paging::ascending_by_id;
use crate::paging::page_of;
use crate::steam::Game;
use crate::steam::GameView;
use crate::token::decode;
use crate::token::encode;
use crate::token::lemma_token_text_injective;
use crate::token::token_text;

verus! {

/// The catalog's application identifier.
pub type AppId = u64;

/// How many games one page shows.
pub const PAGE_SIZE: usize = 10;

/// The identifiers grow from each entry to the next, so none occurs twice.
pub open spec fn strictly_ascending(ids: Seq<u64>) -> bool {
    forall|i: int, j: int| 0 <= i < j < ids.len() ==> ids[i] < ids[j]
}

/// The games of a map, as contracts see them.
pub open spec fn game_views(games: Map<u64, Game>) -> Map<u64, GameView> {
    games.map_values(|g: Game| g@)
}

/// What a mapping and a sequence of identifiers must meet to be a result:
/// the identifiers ascend strictly, they are exactly the keys of the mapping,
/// and each key is the identifier of its game.
pub open spec fn parts_valid(games: Map<u64, GameView>, ids: Seq<u64>) -> bool {
    &&& strictly_ascending(ids)
    &&& forall|id: u64| games.contains_key(id) <==> ids.contains(id)
    &&& forall|id: u64| games.contains_key(id) ==> (#[trigger] games[id]).appid == id
}

/// No result is stored under the key.
#[derive(Clone, Copy, Debug, PartialEq, Eq, Structural)]
pub struct NotFound;

/// The games that a batch of libraries has in common, in ascending order of
/// their identifiers.
#[derive(Clone, Debug)]
pub struct CommonGamesStore {
    games: HashMap<AppId, Game>,
    game_ids: Vec<AppId>,
}

impl View for CommonGamesStore {
    type V = Seq<GameView>;

    /// The games in page order.
    open spec fn view(&self) -> Seq<GameView> {
        self.ids().map_values(|id: u64| self.mapping()[id])
    }
}

impl CommonGamesStore {
    /// The identifiers in page order.
    pub closed spec fn ids(&self) -> Seq<u64> {
        self.game_ids@
    }

    /// The game kept for each identifier.
    pub closed spec fn mapping(&self) -> Map<u64, GameView> {
        game_views(self.games@)
    }

    /// The identifiers ascend strictly, they are exactly the keys of the
    /// mapping, and each key is the identifier of its game.
    pub open spec fn wf(&self) -> bool {
        parts_valid(self.mapping(), self.ids())
    }

    /// The games of a result stand in strictly ascending order of their
    /// identifiers, so no identifier occurs twice.
    pub proof fn lemma_ascending(&self)
        requires
            self.wf(),
        ensures
            self@.len() == self.ids().len(),
            forall|i: int| 0 <= i < self@.len() ==> (#[trigger] self@[i]).appid == self.ids()[i],
            ascending_by_id(self@),
            self.ids().no_duplicates(),
    {
        assert forall|i: int| 0 <= i < self@.len() implies (#[trigger] self@[i]).appid
            == self.ids()[i] by {
            assert(self.ids().contains(self.ids()[i]));
        }
    }

    /// Reduces the libraries to the games that at least `min_owners` of them
    /// list. With `min_owners` 0 every game of every library is kept; with no
    /// library the result is empty.
    ///
    /// Where two qualifying games share an identifier under different names,
    /// the one that comes first in the input is kept.
    pub fn compute(libraries: Vec<Vec<Game>>, min_owners: usize) -> (res: CommonGamesStore)
        ensures
            res.wf(),
            ascending_by_id(res@),
            forall|g: GameView|
                res@.contains(g) <==> chosen(library_views(libraries@), min_owners as nat, g),
            libraries@.len() == 0 ==> res@.len() == 0,
    {
        let ghost all = library_views(libraries@);
        let ghost m = min_owners as nat;
        let ghost mut done: Seq<GameView> = Seq::empty();
        let ghost mut place: Map<u64, int> = Map::empty();
        let mut games: HashMap<AppId, Game> = HashMap::new();
        let mut game_ids: Vec<AppId> = Vec::new();
        let mut i: usize = 0;
        while i < libraries.len()
            invariant
                i <= libraries.len(),
                all == library_views(libraries@),
                m == min_owners as nat,
                done == all_games(all.take(i as int)),
                strictly_ascending(game_ids@),
                forall|id: u64| games@.contains_key(id) <==> game_ids@.contains(id),
                forall|id: u64| #[trigger]
                    games@.contains_key(id) ==> games@[id].appid == id && place.contains_key(id)
                        && first_qualifying_at(done, all, m, place[id]) && done[place[id]]
                        == games@[id]@,
                forall|k: int|
                    0 <= k < done.len() && owner_count(all, #[trigger] done[k]) >= m
                        ==> games@.contains_key(done[k].appid),
            decreases libraries.len() - i,
        {
            let library = &libraries[i];
            let ghost before = done;
            let ghost lv = views(library@);
            let mut j: usize = 0;
            while j < library.len()
                invariant
                    j <= library.len(),
                    i < libraries.len(),
                    library == &libraries[i as int],
                    lv == views(library@),
                    all == library_views(libraries@),
                    m == min_owners as nat,
                    done == before + lv.take(j as int),
                    strictly_ascending(game_ids@),
                    forall|id: u64| games@.contains_key(id) <==> game_ids@.contains(id),
                    forall|id: u64| #[trigger]
                        games@.contains_key(id) ==> games@[id].appid == id && place.contains_key(
                            id,
                        ) && first_qualifying_at(done, all, m, place[id]) && done[place[id]]
                            == games@[id]@,
                    forall|k: int|
                        0 <= k < done.len() && owner_count(all, #[trigger] done[k]) >= m
                            ==> games@.contains_key(done[k].appid),
                decreases library.len() - j,
            {
                let game = &library[j];
                let ghost earlier = done;
                proof {
                    done = done.push(game@);
                    assert(lv.take(j + 1) =~= lv.take(j as int).push(game@));
                    assert(done =~= before + lv.take(j + 1));
                    assert forall|id: u64| #[trigger] games@.contains_key(id) implies first_qualifying_at(
                        done,
                        all,
                        m,
                        place[id],
                    ) && done[place[id]] == games@[id]@ by {
                        assert(first_qualifying_at(earlier, all, m, place[id]));
                        assert forall|e: int|
                            0 <= e < place[id] && (#[trigger] done[e]).appid == done[place[id]].appid implies owner_count(
                            all,
                            done[e],
                        ) < m by {
                            assert(earlier[e] == done[e]);
                        }
                    }
                }
                if !games.contains_key(&game.appid) && owned_by(&libraries, game, min_owners) {
                    let ghost old_games = games@;
                    let ghost old_place = place;
                    insert_ascending(&mut game_ids, game.appid);
                    games.insert(game.appid, game.clone());
                    proof {
                        place = place.insert(game.appid, earlier.len() as int);
                        assert forall|e: int|
                            0 <= e < earlier.len() && (#[trigger] done[e]).appid
                                == game.appid implies owner_count(all, done[e]) < m by {
                            assert(earlier[e] == done[e]);
                            if owner_count(all, earlier[e]) >= m {
                                assert(old_games.contains_key(earlier[e].appid));
                            }
                        }
                        assert(first_qualifying_at(done, all, m, earlier.len() as int));
                        assert forall|id: u64| #[trigger]
                            games@.contains_key(id) implies games@[id].appid == id
                            && place.contains_key(id) && first_qualifying_at(
                            done,
                            all,
                            m,
                            place[id],
                        ) && done[place[id]] == games@[id]@ by {
                            if id != game.appid {
                                assert(old_games.contains_key(id));
                                assert(place[id] == old_place[id]);
                            }
                        }
                        assert forall|k: int|
                            0 <= k < done.len() && owner_count(all, #[trigger] done[k])
                                >= m implies games@.contains_key(done[k].appid) by {
                            if k < earlier.len() {
                                assert(earlier[k] == done[k]);
                                assert(old_games.contains_key(done[k].appid));
                            }
                        }
                    }
                } else {
                    proof {
                        assert forall|k: int|
                            0 <= k < done.len() && owner_count(all, #[trigger] done[k])
                                >= m implies games@.contains_key(done[k].appid) by {
                            if k < earlier.len() {
                                assert(earlier[k] == done[k]);
                            }
                        }
                    }
                }
                j += 1;
            }
            proof {
                assert(lv.take(j as int) =~= lv);
                assert(all.take(i + 1).drop_last() =~= all.take(i as int));
                assert(all.take(i + 1).last() == lv);
            }
            i += 1;
        }
        let res = CommonGamesStore { games, game_ids };
        proof {
            assert(all.take(i as int) =~= all);
            assert(res.wf());
            assert forall|g: GameView| res@.contains(g) <==> chosen(all, m, g) by {
                if res@.contains(g) {
                    let n = choose|n: int| 0 <= n < res@.len() && res@[n] == g;
                    let id = res.ids()[n];
                    assert(res.ids().contains(id));
                    assert(games@.contains_key(id));
                    assert(first_qualifying_at(done, all, m, place[id]));
                }
                if chosen(all, m, g) {
                    let k = choose|k: int| #[trigger]
                        first_qualifying_at(done, all, m, k) && done[k] == g;
                    assert(games@.contains_key(done[k].appid));
                    let k2 = place[g.appid];
                    assert(first_qualifying_at(done, all, m, k2));
                    assert(done[k2].appid == g.appid);
                    assert(k2 == k);
                    assert(res.ids().contains(g.appid));
                    let n = choose|n: int| 0 <= n < res.ids().len() && res.ids()[n] == g.appid;
                    assert(res@[n] == g);
                }
            }
            res.lemma_ascending();
            if libraries@.len() == 0 && res@.len() > 0 {
                assert(res@.contains(res@[0]));
                assert(all_games(all).len() == 0);
            }
        }
        res
    }

    /// Takes a result apart into its mapping and its identifiers in page
    /// order, as a record of it is laid out.
    pub fn into_parts(self) -> (parts: (HashMap<AppId, Game>, Vec<AppId>))
        requires
            self.wf(),
        ensures
            game_views(parts.0@) == self.mapping(),
            parts.1@ == self.ids(),
            parts_valid(game_views(parts.0@), parts.1@),
    {
        (self.games, self.game_ids)
    }

    /// Puts a result together from the parts of a record, if they meet what
    /// a result must meet. A record that does not is refused, not repaired.
    pub fn from_parts(games: HashMap<AppId, Game>, game_ids: Vec<AppId>) -> (res: Option<
        CommonGamesStore,
    >)
        ensures
            res is Some <==> parts_valid(game_views(games@), game_ids@),
            res matches Some(store) ==> store.wf() && store.mapping() == game_views(games@)
                && store.ids() == game_ids@,
    {
        let ghost gv = game_views(games@);
        if games.len() != game_ids.len() {
            proof {
                if parts_valid(gv, game_ids@) {
                    lemma_valid_parts_same_size(gv, game_ids@);
                    assert(gv.dom() =~= games@.dom());
                }
            }
            return None;
        }
        let mut at: usize = 0;
        while at < game_ids.len()
            invariant
                at <= game_ids.len(),
                gv == game_views(games@),
                strictly_ascending(game_ids@.take(at as int)),
                forall|k: int|
                    0 <= k < at ==> gv.contains_key(#[trigger] game_ids@[k]) && gv[game_ids@[k]].appid
                        == game_ids@[k],
            decreases game_ids.len() - at,
        {
            let id = game_ids[at];
            if at > 0 && game_ids[at - 1] >= id {
                return None;
            }
            match games.get(&id) {
                Some(game) => {
                    if game.appid != id {
                        assert(gv[id].appid != id);
                        return None;
                    }
                },
                None => {
                    assert(game_ids@.contains(id));
                    return None;
                },
            }
            proof {
                let shorter = game_ids@.take(at as int);
                let longer = game_ids@.take(at + 1);
                assert forall|i: int, j: int| 0 <= i < j < longer.len() implies longer[i]
                    < longer[j] by {
                    if j == at {
                        if i < at - 1 {
                            assert(shorter[i] < shorter[at - 1]);
                        }
                    } else {
                        assert(shorter[i] < shorter[j]);
                    }
                }
            }
            at += 1;
        }
        proof {
            let ids = game_ids@;
            assert(ids.take(at as int) =~= ids);
            assert(ids.to_set().subset_of(gv.dom())) by {
                assert forall|id: u64| ids.to_set().contains(id) implies gv.dom().contains(id) by {
                    let k = choose|k: int| 0 <= k < ids.len() && ids[k] == id;
                    assert(gv.contains_key(ids[k]));
                }
            }
            assert(ids.no_duplicates());
            ids.unique_seq_to_set();
            assert(gv.dom() =~= games@.dom());
            vstd::set_lib::lemma_subset_equality(ids.to_set(), gv.dom());
            assert forall|id: u64| gv.contains_key(id) implies ids.contains(id) && (#[trigger] gv[id]).appid == id by {
                assert(ids.to_set().contains(id));
                let k = choose|k: int| 0 <= k < ids.len() && ids[k] == id;
                assert(gv.contains_key(ids[k]));
            }
        }
        Some(CommonGamesStore { games, game_ids })
    }

    /// The stored result for a key, given the record that the storage holds
    /// under that key, if it holds one. Where nothing was ever saved under
    /// the key there is no record, and the result is not found; a record
    /// whose parts do not make up a result counts as none.
    pub fn load(record: Option<(HashMap<AppId, Game>, Vec<AppId>)>) -> (res: Result<
        CommonGamesStore,
        NotFound,
    >)
        ensures
            res is Ok <==> (record matches Some(parts) && parts_valid(
                game_views(parts.0@),
                parts.1@,
            )),
            res matches Ok(store) ==> store.wf() && (record matches Some(parts)
                && store.mapping() == game_views(parts.0@) && store.ids() == parts.1@),
    {
        match record {
            Some((games, game_ids)) => match CommonGamesStore::from_parts(games, game_ids) {
                Some(store) => Ok(store),
                None => Err(NotFound),
            },
            None => Err(NotFound),
        }
    }

    /// The games that every one of the libraries lists: [`Self::compute`]
    /// with the number of libraries as the threshold.
    pub fn new(games: Vec<Vec<Game>>) -> (res: CommonGamesStore)
        ensures
            res.wf(),
            ascending_by_id(res@),
            forall|g: GameView|
                res@.contains(g) <==> chosen(library_views(games@), games@.len(), g),
            games@.len() == 0 ==> res@.len() == 0,
    {
        let everyone = games.len();
        CommonGamesStore::compute(games, everyone)
    }

    /// The games of page `page_idx`, in ascending order of their identifiers.
    /// A page past the last one is empty.
    pub fn get(&self, page_idx: usize) -> (page: Vec<&Game>)
        requires
            self.wf(),
        ensures
            page@.map_values(|g: &Game| g@) == page_of(self@, page_idx as int),
    {
        let mut page: Vec<&Game> = Vec::new();
        let len = self.game_ids.len();
        if page_idx > len / PAGE_SIZE {
            assert(page@.map_values(|g: &Game| g@) =~= page_of(self@, page_idx as int));
            return page;
        }
        let start = page_idx * PAGE_SIZE;
        if start >= len {
            assert(page@.map_values(|g: &Game| g@) =~= page_of(self@, page_idx as int));
            return page;
        }
        let end = if len - start < PAGE_SIZE {
            len
        } else {
            start + PAGE_SIZE
        };
        let mut at = start;
        while at < end
            invariant
                self.wf(),
                start <= at <= end <= len,
                len == self.game_ids@.len(),
                page@.map_values(|g: &Game| g@) == self@.subrange(start as int, at as int),
            decreases end - at,
        {
            let id = self.game_ids[at];
            assert(self.ids().contains(id));
            assert(self.mapping().contains_key(id));
            let found = self.games.get(&id);
            match found {
                Some(game) => {
                    let ghost shown = page@;
                    page.push(game);
                    assert(page@.map_values(|g: &Game| g@) =~= shown.map_values(|g: &Game| g@).push(
                        game@,
                    ));
                    assert(self@[at as int] == game@);
                    assert(self@.subrange(start as int, at + 1) =~= self@.subrange(
                        start as int,
                        at as int,
                    ).push(self@[at as int]));
                },
                None => {
                    assert(false);
                },
            }
            at += 1;
        }
        page
    }
}

/// Whether `library` lists `game`.
fn lists(library: &Vec<Game>, game: &Game) -> (found: bool)
    ensures
        found == views(library@).contains(game@),
{
    let mut i: usize = 0;
    while i < library.len()
        invariant
            i <= library.len(),
            forall|k: int| 0 <= k < i ==> views(library@)[k] != game@,
        decreases library.len() - i,
    {
        if library[i] == *game {
            assert(views(library@)[i as int] == game@);
            return true;
        }
        i += 1;
    }
    false
}

/// Whether at least `min_owners` of the libraries list `game`. The count
/// ends as soon as the answer is known.
fn owned_by(libraries: &Vec<Vec<Game>>, game: &Game, min_owners: usize) -> (enough: bool)
    ensures
        enough == (owner_count(library_views(libraries@), game@) >= min_owners),
{
    let ghost all = library_views(libraries@);
    let mut n: usize = 0;
    let mut i: usize = 0;
    while i < libraries.len()
        invariant
            i <= libraries.len(),
            n <= i,
            all == library_views(libraries@),
            n == owner_count(all.take(i as int), game@),
        decreases libraries.len() - i,
    {
        proof {
            lemma_owner_count_bounds(all, game@, i as int);
        }
        if n >= min_owners {
            return true;
        }
        if libraries.len() - i < min_owners - n {
            return false;
        }
        proof {
            assert(all.take(i + 1).drop_last() =~= all.take(i as int));
            assert(all.take(i + 1).last() == views(libraries@[i as int]@));
        }
        if lists(&libraries[i], game) {
            n += 1;
        }
        i += 1;
    }
    assert(all.take(i as int) =~= all);
    n >= min_owners
}

/// Puts `id` at its place in an ascending sequence that does not hold it yet.
fn insert_ascending(ids: &mut Vec<u64>, id: u64)
    requires
        strictly_ascending(old(ids)@),
        !old(ids)@.contains(id),
    ensures
        strictly_ascending(final(ids)@),
        final(ids)@.len() == old(ids)@.len() + 1,
        forall|x: u64| final(ids)@.contains(x) <==> (old(ids)@.contains(x) || x == id),
{
    let mut at: usize = 0;
    while at < ids.len() && ids[at] < id
        invariant
            at <= ids.len(),
            *ids == *old(ids),
            forall|k: int| 0 <= k < at ==> ids@[k] < id,
        decreases ids.len() - at,
    {
        at += 1;
    }
    assert(forall|k: int| at <= k < ids@.len() ==> id < ids@[k]) by {
        assert forall|k: int| at <= k < ids@.len() implies id < ids@[k] by {
            assert(ids@.contains(ids@[k]));
            assert(ids@[at as int] <= ids@[k]);
        }
    }
    ids.insert(at, id);
    proof {
        let before = old(ids)@;
        let after = ids@;
        assert forall|x: u64| after.contains(x) <==> (before.contains(x) || x == id) by {
            if after.contains(x) {
                let k = choose|k: int| 0 <= k < after.len() && after[k] == x;
                if k < at {
                    assert(before[k] == x);
                } else if k > at {
                    assert(before[k - 1] == x);
                }
            }
            if before.contains(x) {
                let k = choose|k: int| 0 <= k < before.len() && before[k] == x;
                if k < at {
                    assert(after[k] == x);
                } else {
                    assert(after[k + 1] == x);
                }
            }
            if x == id {
                assert(after[at as int] == x);
            }
        }
    }
}

/// Valid parts hold as many games as identifiers.
proof fn lemma_valid_parts_same_size(games: Map<u64, GameView>, ids: Seq<u64>)
    requires
        parts_valid(games, ids),
    ensures
        games.dom().finite(),
        games.dom().len() == ids.len(),
{
    assert(ids.no_duplicates());
    ids.unique_seq_to_set();
    assert(games.dom() =~= ids.to_set());
    vstd::seq_lib::seq_to_set_is_finite(ids);
}

/// The identifier that a page button carries: which page of which stored
/// result the button leads to.
#[derive(Debug)]
pub struct CommonGamesButtonCustomId {
    /// The index of the page to show.
    pub page: usize,
    /// The key of the store, which is the identity of the user who asked.
    pub key: String,
}

/// A text that is no cursor's.
#[derive(Clone, Copy, Debug, PartialEq, Eq, Structural)]
pub struct DecodeError;

impl CommonGamesButtonCustomId {
    /// The text that stands for this cursor.
    pub open spec fn text(&self) -> Seq<char> {
        token_text(self.page as nat, self.key@)
    }

    /// The cursor for page `page` of the result stored under `key`.
    pub fn new(page: usize, key: String) -> (id: CommonGamesButtonCustomId)
        ensures
            id.page == page,
            id.key == key,
    {
        CommonGamesButtonCustomId { page, key }
    }

    /// The cursor for the page before this one; none before page 0.
    pub fn prev(&self) -> (res: Option<CommonGamesButtonCustomId>)
        ensures
            self.page == 0 ==> res is None,
            self.page > 0 ==> (res matches Some(id) && id.page == self.page - 1 && id.key@
                == self.key@),
    {
        if self.page == 0 {
            None
        } else {
            Some(CommonGamesButtonCustomId::new(self.page - 1, self.key.clone()))
        }
    }

    /// The cursor for the page after this one, whether or not that page
    /// holds anything.
    pub fn next(&self) -> (id: CommonGamesButtonCustomId)
        requires
            self.page < usize::MAX,
        ensures
            id.page == self.page + 1,
            id.key@ == self.key@,
    {
        CommonGamesButtonCustomId::new(self.page + 1, self.key.clone())
    }

    /// Writes the cursor as a text that a button can carry.
    pub fn to_string(&self) -> (text: String)
        ensures
            text@ == self.text(),
    {
        encode(self.page, self.key.as_str())
    }

    /// Reads a cursor back from its text. A text that no cursor writes, such
    /// as the identifier of another control, is an error, and so is one whose
    /// page index is larger than an index can be on this machine.
    pub fn from_str(s: &str) -> (res: Result<CommonGamesButtonCustomId, DecodeError>)
        ensures
            res matches Ok(id) ==> s@ == id.text(),
            forall|page: nat, key: Seq<char>|
                page <= usize::MAX && s@ == #[trigger] token_text(page, key) ==> (res matches Ok(
                    id,
                ) && id.page == page && id.key@ == key),
    {
        match decode(s) {
            Some((page, key)) => Ok(CommonGamesButtonCustomId { page, key }),
            None => Err(DecodeError),
        }
    }
}

/// A cursor that is written and read back is the same cursor.
pub proof fn lemma_cursor_round_trip(
    written: CommonGamesButtonCustomId,
    read: CommonGamesButtonCustomId,
)
    requires
        read.text() == written.text(),
    ensures
        read.page == written.page,
        read.key@ == written.key@,
{
    lemma_token_text_injective(
        read.page as nat,
        read.key@,
        written.page as nat,
        written.key@,
    );
}

/// One button of a reply.
#[derive(Debug)]
pub struct Button {
    /// What the button shows.
    pub label: String,
    /// What the button carries back when it is pressed.
    pub custom_id: String,
    /// Whether the button is shown but cannot be pressed.
    pub disabled: bool,
}

/// The reply that shows one page: a titled list of games, and the two
/// buttons that lead to the pages before and after it.
#[derive(Debug)]
pub struct InteractionResponse {
    /// Whether only the user who asked sees the reply.
    pub ephemeral: bool,
    /// The heading over the list.
    pub title: String,
    /// The list, one line for each game.
    pub text: String,
    /// The button to the page before.
    pub prev: Button,
    /// The button to the page after.
    pub next: Button,
}

/// The heading over page `page`.
pub open spec fn page_title(page: nat) -> Seq<char> {
    "Games: p"@ + decimal(page)
}

/// The line that lists one game: its name, linked to its page in the shop.
pub open spec fn game_line(game: GameView) -> Seq<char> {
    "- ["@ + game.name + "](https://store.steampowered.com/app/"@ + decimal(game.appid as nat)
        + ")\n"@
}

/// The lines for the games, in their order.
pub open spec fn listing(games: Seq<GameView>) -> Seq<char>
    decreases games.len(),
{
    if games.len() == 0 {
        Seq::empty()
    } else {
        listing(games.drop_last()) + game_line(games.last())
    }
}

/// Whether `reply` shows `games` as page `page` of the result stored under
/// `key`: the heading names the page, the list holds one line for each game,
/// the button back carries the cursor of the page before and is disabled on
/// page 0, and the button forward carries the cursor of the page after and
/// is disabled unless the page is full.
pub open spec fn shows_page(
    reply: InteractionResponse,
    page: nat,
    key: Seq<char>,
    games: Seq<GameView>,
    ephemeral: bool,
) -> bool {
    &&& reply.ephemeral == ephemeral
    &&& reply.title@ == page_title(page)
    &&& reply.text@ == listing(games)
    &&& reply.prev.label@ == "PREV"@
    &&& reply.prev.disabled == (page == 0)
    &&& reply.prev.custom_id@ == if page == 0 {
        "Invalid"@
    } else {
        token_text((page - 1) as nat, key)
    }
    &&& reply.next.label@ == "NEXT"@
    &&& reply.next.disabled == (games.len() != PAGE_SIZE)
    &&& reply.next.custom_id@ == token_text(page + 1, key)
}

/// The reply for the page that `custom_id` names, which holds `games`.
///
/// The button back is disabled on page 0 and then carries no cursor; the
/// button forward is disabled when the page is not full, since no page can
/// follow a page that is not full.
pub fn create_interaction_response(
    custom_id: CommonGamesButtonCustomId,
    games: Vec<&Game>,
    ephemeral: bool,
) -> (res: InteractionResponse)
    requires
        custom_id.page < usize::MAX,
    ensures
        shows_page(
            res,
            custom_id.page as nat,
            custom_id.key@,
            games@.map_values(|g: &Game| g@),
            ephemeral,
        ),
{
    let ghost shown = games@.map_values(|g: &Game| g@);
    let mut text = String::new();
    let mut i: usize = 0;
    while i < games.len()
        invariant
            i <= games.len(),
            shown == games@.map_values(|g: &Game| g@),
            text@ == listing(shown.take(i as int)),
        decreases games.len() - i,
    {
        let game = games[i];
        let ghost before = text@;
        text.append("- [");
        text.append(game.name.as_str());
        text.append("](https://store.steampowered.com/app/");
        text.append(decimal_string(game.appid).as_str());
        text.append(")\n");
        proof {
            assert(shown.take(i + 1).drop_last() =~= shown.take(i as int));
            assert(shown.take(i + 1).last() == game@);
            assert(text@ =~= before + game_line(game@));
        }
        i += 1;
    }
    assert(shown.take(i as int) =~= shown);
    let mut title = "Games: p".to_owned();
    title.append(decimal_string(custom_id.page as u64).as_str());
    let prev = match custom_id.prev() {
        Some(id) => Button { label: "PREV".to_owned(), custom_id: id.to_string(), disabled: false },
        None => Button { label: "PREV".to_owned(), custom_id: "Invalid".to_owned(), disabled: true },
    };
    let next = Button {
        label: "NEXT".to_owned(),
        custom_id: custom_id.next().to_string(),
        disabled: games.len() != PAGE_SIZE,
    };
    InteractionResponse { ephemeral, title, text, prev, next }
}

/// The reply, for the user alone, that shows the page of `store` that
/// `custom_id` names.
pub fn show_page(custom_id: CommonGamesButtonCustomId, store: &CommonGamesStore) -> (res:
    InteractionResponse)
    requires
        store.wf(),
        custom_id.page < usize::MAX,
    ensures
        shows_page(
            res,
            custom_id.page as nat,
            custom_id.key@,
            page_of(store@, custom_id.page as int),
            true,
        ),
{
    let games = store.get(custom_id.page);
    create_interaction_response(custom_id, games, true)
}

} // verus!
