//! The game catalog's data: a game, and the client settings for the catalog's web API.

use vstd::prelude::*;
use vstd::string::StringExecFns;

verus! {

/// What a contract sees of a [`Game`]: its application identifier and its display name.
pub struct GameView {
    pub appid: u64,
    pub name: Seq<char>,
}

/// One owned game, as the catalog reports it with application details included.
///
/// Only the identifier and the name take part in equality, so the same game
/// fetched for two users compares equal.
#[derive(Debug, Hash)]
pub struct Game {
    pub appid: u64,
    pub name: String,
}

impl View for Game {
    type V = GameView;

    open spec fn view(&self) -> GameView {
        GameView { appid: self.appid, name: self.name@ }
    }
}

impl Clone for Game {
    fn clone(&self) -> (res: Self)
        ensures
            res == *self,
    {
        Game { appid: self.appid, name: self.name.clone() }
    }
}

impl PartialEq for Game {
    fn eq(&self, other: &Self) -> (res: bool) {
        self.appid == other.appid && self.name == other.name
    }
}

impl vstd::std_specs::cmp::PartialEqSpecImpl for Game {
    open spec fn obeys_eq_spec() -> bool {
        true
    }

    open spec fn eq_spec(&self, other: &Self) -> bool {
        self.appid == other.appid && self.name@ == other.name@
    }
}

impl Eq for Game {

}

/// Why the games of a player could not be had.
#[derive(Clone, Copy, Debug, PartialEq, Eq, Structural)]
pub enum FetchError {
    /// The request did not come through.
    Transport,
    /// The answer was not what the catalog is known to send.
    Malformed,
    /// The player's profile is not open to the public.
    NotPublic,
}

/// What the catalog answered to a request for a player's games: the two
/// members of the answer's `response` object, each as far as it was there.
#[derive(Debug)]
pub struct OwnedGamesResponse {
    pub game_count: Option<usize>,
    pub games: Option<Vec<Game>>,
}

/// A request to the catalog's web API, ready to be sent.
#[derive(Debug)]
pub struct ApiRequest {
    /// Where the request goes.
    pub url: String,
    /// The query parameters, in the order in which they are sent.
    pub query: Vec<(String, String)>,
}

/// The names and values of query parameters, as contracts see them.
pub open spec fn query_views(query: Seq<(String, String)>) -> Seq<(Seq<char>, Seq<char>)> {
    query.map_values(|p: (String, String)| (p.0@, p.1@))
}

/// The address of the catalog's web API.
pub const API_ROOT: &'static str = "http://api.steampowered.com";

/// The path of the method that lists the games a player owns.
pub const OWNED_GAMES_PATH: &'static str = "/IPlayerService/GetOwnedGames/v0001";

/// The settings of a client of the catalog's web API.
#[derive(Clone, Debug)]
pub struct SteamApiClient {
    api_key: String,
}

impl SteamApiClient {
    /// The key that every request carries.
    pub closed spec fn api_key(&self) -> Seq<char> {
        self.api_key@
    }

    /// A client that signs its requests with `api_key`.
    pub fn new(api_key: String) -> (client: SteamApiClient)
        ensures
            client.api_key() == api_key@,
    {
        SteamApiClient { api_key }
    }

    /// The request for `path` with the given query parameters, followed by
    /// the key and the format that every request carries.
    pub fn request(&self, path: &str, query: Vec<(String, String)>) -> (request: ApiRequest)
        ensures
            request.url@ == API_ROOT@ + path@,
            query_views(request.query@) == query_views(query@) + seq![
                ("key"@, self.api_key()),
                ("format"@, "json"@),
            ],
    {
        let mut url = API_ROOT.to_owned();
        url.append(path);
        let mut all = query;
        let ghost given = query_views(all@);
        all.push(("key".to_owned(), self.api_key.clone()));
        all.push(("format".to_owned(), "json".to_owned()));
        assert(query_views(all@) =~= given + seq![("key"@, self.api_key()), ("format"@, "json"@)]);
        ApiRequest { url, query: all }
    }

    /// The request for the games that the player `steam_id` owns, with the
    /// details of each game included.
    pub fn owned_games_request(&self, steam_id: &str) -> (request: ApiRequest)
        ensures
            request.url@ == API_ROOT@ + OWNED_GAMES_PATH@,
            query_views(request.query@) == seq![
                ("steamid"@, steam_id@),
                ("include_appinfo"@, "true"@),
                ("key"@, self.api_key()),
                ("format"@, "json"@),
            ],
    {
        let mut query: Vec<(String, String)> = Vec::new();
        query.push(("steamid".to_owned(), steam_id.to_owned()));
        query.push(("include_appinfo".to_owned(), "true".to_owned()));
        assert(query_views(query@) =~= seq![("steamid"@, steam_id@), ("include_appinfo"@, "true"@)]);
        let request = self.request(OWNED_GAMES_PATH, query);
        assert(query_views(request.query@) =~= seq![
            ("steamid"@, steam_id@),
            ("include_appinfo"@, "true"@),
            ("key"@, self.api_key()),
            ("format"@, "json"@),
        ]);
        request
    }

    /// The games that an answer of the catalog holds. An answer without
    /// either member comes from a profile that is not public; one with only
    /// one of them is malformed.
    pub fn owned_games(response: OwnedGamesResponse) -> (res: Result<Vec<Game>, FetchError>)
        ensures
            res == match (response.game_count, response.games) {
                (Some(_), Some(games)) => Ok::<Vec<Game>, FetchError>(games),
                (None, None) => Err(FetchError::NotPublic),
                _ => Err(FetchError::Malformed),
            },
    {
        match (response.game_count, response.games) {
            (Some(_), Some(games)) => Ok(games),
            (None, None) => Err(FetchError::NotPublic),
            _ => Err(FetchError::Malformed),
        }
    }
}

} // verus!
