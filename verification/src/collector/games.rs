//! How the profiles of the members change the clan games scores that the
//! store holds.

use crate::collector::{PlayerAchievement, PlayerInfo};
use crate::storage::{
    bundle_or_empty, lemma_bundle_or_empty_wf, lemma_store_stays_wf, store_wf, with_bundle,
    ClanStorageView, PlayerGamesStats, Roster, Season, Storage, StorageView,
};
use crate::table::{distinct_keys, has_key, lemma_with_entry_distinct, value_of, with_entry, Table};
use crate::tags::{ClanTag, PlayerTag};
use crate::text::{eq_ignoring_case, same_ignoring_case};
use vstd::prelude::*;
use vstd::string::*;

verus! {

/// `name` names the achievement that counts the points of the clan games:
/// `Games Champion`, in whatever case.
pub open spec fn counts_clan_games(name: Seq<char>) -> bool {
    same_ignoring_case(vstd::utf8::encode_utf8(name), vstd::utf8::encode_utf8("Games Champion"@))
}

/// The scores with `value` seen for `player`: it is the score seen last, and
/// the score at the start where none was held.
pub open spec fn with_games_value(games: Roster<PlayerGamesStats>, player: Seq<char>, value: usize)
    -> Roster<PlayerGamesStats> {
    with_entry(
        games,
        player,
        match value_of(games, player) {
            Some(held) => PlayerGamesStats {
                start_score: match held.start_score {
                    Some(start) => Some(start),
                    None => Some(value),
                },
                end_score: value,
            },
            None => PlayerGamesStats { start_score: Some(value), end_score: value },
        },
    )
}

/// The scores after the achievements of `player` were read, one after
/// another: each one that counts the points of the clan games is seen with
/// its value.
pub open spec fn with_achievements(
    games: Roster<PlayerGamesStats>,
    player: Seq<char>,
    achievements: Seq<PlayerAchievement>,
) -> Roster<PlayerGamesStats>
    decreases achievements.len(),
{
    if achievements.len() == 0 {
        games
    } else {
        let before = with_achievements(games, player, achievements.drop_last());
        if counts_clan_games(achievements.last().name@) {
            with_games_value(before, player, achievements.last().value)
        } else {
            before
        }
    }
}

/// The scores after the profiles `players` were read, one after another,
/// each for the member under whose tag it was fetched.
pub open spec fn with_profiles(
    games: Roster<PlayerGamesStats>,
    players: Seq<(PlayerTag, PlayerInfo)>,
) -> Roster<PlayerGamesStats>
    decreases players.len(),
{
    if players.len() == 0 {
        games
    } else {
        with_achievements(
            with_profiles(games, players.drop_last()),
            players.last().0@,
            players.last().1.achievements@,
        )
    }
}

/// The store with the clan games scores of the profiles `players` recorded
/// for `clan` in the bundle of `season`.
pub open spec fn with_clan_games(
    store: StorageView,
    clan: Seq<char>,
    season: Season,
    players: Seq<(PlayerTag, PlayerInfo)>,
) -> StorageView {
    let bundle = bundle_or_empty(store, clan, season);
    with_bundle(
        store,
        clan,
        season,
        ClanStorageView { games: with_profiles(bundle.games, players), ..bundle },
    )
}

/// Whether `name` names the achievement that counts the points of the clan
/// games.
pub fn is_clan_games_achievement(name: &str) -> (counts: bool)
    ensures
        counts == counts_clan_games(name@),
{
    eq_ignoring_case(name.as_bytes(), "Games Champion".as_bytes())
}

/// Sees the score `value` for `player`.
fn record_games_value(games: &mut Table<PlayerTag, PlayerGamesStats>, player: &PlayerTag, value: usize)
    ensures
        final(games)@ == with_games_value(old(games)@, player@, value),
{
    let player_entry = games.get_or_insert(
        player.clone(),
        PlayerGamesStats { start_score: Some(value), end_score: value },
    );
    if player_entry.start_score.is_none() {
        player_entry.start_score = Some(value);
    }
    player_entry.end_score = value;
}

/// Reads the achievements of one profile.
fn record_achievements(
    games: &mut Table<PlayerTag, PlayerGamesStats>,
    player: &PlayerTag,
    achievements: &Vec<PlayerAchievement>,
)
    ensures
        final(games)@ == with_achievements(old(games)@, player@, achievements@),
{
    let mut i: usize = 0;
    assert(achievements@.subrange(0, 0) =~= Seq::<PlayerAchievement>::empty());
    while i < achievements.len()
        invariant
            i <= achievements@.len(),
            games@ == with_achievements(old(games)@, player@, achievements@.subrange(0, i as int)),
        decreases achievements@.len() - i,
    {
        let achievement = &achievements[i];
        proof {
            assert(achievements@.subrange(0, i + 1).drop_last() =~= achievements@.subrange(
                0,
                i as int,
            ));
        }
        if is_clan_games_achievement(achievement.name.as_str()) {
            record_games_value(games, player, achievement.value);
        }
        i = i + 1;
    }
    assert(achievements@.subrange(0, i as int) =~= achievements@);
}

/// Reads the profiles one after another.
fn record_profiles(
    games: &mut Table<PlayerTag, PlayerGamesStats>,
    players: &Vec<(PlayerTag, PlayerInfo)>,
)
    ensures
        final(games)@ == with_profiles(old(games)@, players@),
{
    let mut i: usize = 0;
    assert(players@.subrange(0, 0) =~= Seq::<(PlayerTag, PlayerInfo)>::empty());
    while i < players.len()
        invariant
            i <= players@.len(),
            games@ == with_profiles(old(games)@, players@.subrange(0, i as int)),
        decreases players@.len() - i,
    {
        proof {
            assert(players@.subrange(0, i + 1).drop_last() =~= players@.subrange(0, i as int));
        }
        record_achievements(games, &players[i].0, &players[i].1.achievements);
        i = i + 1;
    }
    assert(players@.subrange(0, i as int) =~= players@);
}

/// Records the clan games scores of the profiles `players` for the clan
/// `clan_tag`, which is registered, in the bundle of `season`. Each profile
/// stands with the tag of the member for whom it was fetched. The score of a
/// player is the value of the achievement `Games Champion`; the first value
/// seen in a season stays as the score at its start.
pub fn record_clan_games(
    players: &Vec<(PlayerTag, PlayerInfo)>,
    season: &Season,
    clan_tag: &ClanTag,
    storage: &mut Storage,
)
    requires
        has_key(old(storage)@, clan_tag@),
    ensures
        final(storage)@ == with_clan_games(old(storage)@, clan_tag@, *season, players@),
        store_wf(old(storage)@) ==> store_wf(final(storage)@),
{
    proof {
        if store_wf(storage@) {
            lemma_with_clan_games_wf(storage@, clan_tag@, *season, players@);
        }
    }
    match storage.get_mut(clan_tag, season) {
        Some(clan_stats) => {
            record_profiles(&mut clan_stats.games, players);
        },
        None => {},
    }
}

/// Records the clan games scores of the profiles `players` for the clan
/// `clan_tag`, which is registered, in the bundle of the season that is
/// running now, and says which season that was. Where the clock of this
/// machine shows no date, nothing is recorded.
pub fn update_clan_games(
    players: &Vec<(PlayerTag, PlayerInfo)>,
    clan_tag: &ClanTag,
    storage: &mut Storage,
) -> (r: Option<Season>)
    requires
        has_key(old(storage)@, clan_tag@),
    ensures
        match r {
            Some(season) => {
                &&& 1 <= season.month <= 12
                &&& final(storage)@ == with_clan_games(
                    old(storage)@,
                    clan_tag@,
                    season,
                    players@,
                )
            },
            None => final(storage)@ == old(storage)@,
        },
        store_wf(old(storage)@) ==> store_wf(final(storage)@),
{
    match Season::current() {
        Some(season) => {
            record_clan_games(players, &season, clan_tag, storage);
            Some(season)
        },
        None => None,
    }
}

/// Seeing clan games scores keeps the players of the scores distinct.
pub proof fn lemma_with_profiles_wf(
    games: Roster<PlayerGamesStats>,
    players: Seq<(PlayerTag, PlayerInfo)>,
)
    requires
        distinct_keys(games),
    ensures
        distinct_keys(with_profiles(games, players)),
    decreases players.len(),
{
    if players.len() > 0 {
        lemma_with_profiles_wf(games, players.drop_last());
        lemma_with_achievements_wf(
            with_profiles(games, players.drop_last()),
            players.last().0@,
            players.last().1.achievements@,
        );
    }
}

/// Reading achievements keeps the players of the scores distinct.
pub proof fn lemma_with_achievements_wf(
    games: Roster<PlayerGamesStats>,
    player: Seq<char>,
    achievements: Seq<PlayerAchievement>,
)
    requires
        distinct_keys(games),
    ensures
        distinct_keys(with_achievements(games, player, achievements)),
    decreases achievements.len(),
{
    if achievements.len() > 0 {
        lemma_with_achievements_wf(games, player, achievements.drop_last());
        let before = with_achievements(games, player, achievements.drop_last());
        let value = achievements.last().value;
        lemma_with_entry_distinct(
            before,
            player,
            match value_of(before, player) {
                Some(held) => PlayerGamesStats {
                    start_score: match held.start_score {
                        Some(start) => Some(start),
                        None => Some(value),
                    },
                    end_score: value,
                },
                None => PlayerGamesStats { start_score: Some(value), end_score: value },
            },
        );
    }
}

/// Recording clan games scores keeps a store well-formed.
pub proof fn lemma_with_clan_games_wf(
    store: StorageView,
    clan: Seq<char>,
    season: Season,
    players: Seq<(PlayerTag, PlayerInfo)>,
)
    requires
        store_wf(store),
    ensures
        store_wf(with_clan_games(store, clan, season, players)),
{
    let bundle = bundle_or_empty(store, clan, season);
    lemma_bundle_or_empty_wf(store, clan, season);
    lemma_with_profiles_wf(bundle.games, players);
    lemma_store_stays_wf(
        store,
        clan,
        season,
        ClanStorageView { games: with_profiles(bundle.games, players), ..bundle },
    );
}

} // verus!
