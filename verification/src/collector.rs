//! What the game's interface reports, and how a report changes the store.

pub mod cwl;
pub mod games;
pub mod league;
pub mod time;
pub mod update;
pub mod warclient;

pub use cwl::{
    ClanWarLeagueAttack, ClanWarLeagueClan, ClanWarLeagueClanMember, ClanWarLeagueGroup,
    ClanWarLeagueRound, ClanWarLeagueSeason, ClanWarLeagueWar, ClanWarLeagueWarClan,
    ClanWarLeagueWarMember, ClanWarLeagueWarState,
};
pub use time::Time;
pub use games::{is_clan_games_achievement, record_clan_games, update_clan_games};
pub use league::{league_wars_to_fetch, update_cwl};
pub use update::{
    has_weekend_to_record, update_names, update_raids, update_war, war_update, WarUpdate,
};
pub use warclient::{CurrentWar, CurrentWarState, WarClan, WarClanMember, WarClanMemberAttack};

use crate::tags::{ClanTag, PlayerTag};
use vstd::prelude::*;

verus! {

/// The addresses of a clan's badge in three sizes.
#[derive(Debug)]
pub struct ClanBadges {
    pub large: String,
    pub medium: String,
    pub small: String,
}

/// The profile of a player.
#[derive(Debug)]
pub struct PlayerInfo {
    pub role: String,
    pub war_preference: String,
    pub attack_wins: usize,
    pub defense_wins: usize,
    pub town_hall_level: usize,
    pub tag: PlayerTag,
    pub name: String,
    pub exp_level: usize,
    pub trophies: usize,
    pub best_trophies: usize,
    pub donations: usize,
    pub donations_received: usize,
    pub war_stars: usize,
    pub achievements: Vec<PlayerAchievement>,
    pub clan_capital_contributions: usize,
}

/// One achievement of a player, with the value reached so far.
#[derive(Debug)]
pub struct PlayerAchievement {
    pub stars: usize,
    pub value: usize,
    pub name: String,
    pub target: usize,
    pub info: String,
    pub completion_info: Option<String>,
    pub village: String,
}

/// A clan and the list of its members.
#[derive(Debug)]
pub struct ClanInfo {
    pub member_list: Vec<ClanMember>,
    pub tag: ClanTag,
    pub clan_level: usize,
    pub war_wins: usize,
    pub clan_points: usize,
    pub name: String,
    pub members: usize,
    pub description: String,
    pub badge_urls: ClanBadges,
}

/// A member of a clan.
#[derive(Debug)]
pub struct ClanMember {
    pub tag: PlayerTag,
    pub name: String,
    pub exp_level: usize,
    pub clan_rank: usize,
    pub previous_clan_rank: usize,
    pub donations: usize,
    pub donations_received: usize,
    pub trophies: usize,
}

/// One raid weekend of the clan capital.
#[derive(Debug)]
pub struct CapitalRaidWeekend {
    pub state: String,
    pub start_time: Time,
    pub end_time: String,
    pub capital_total_loot: usize,
    pub raids_completed: usize,
    pub total_attacks: usize,
    pub enemy_districts_destroyed: usize,
    pub offensive_reward: usize,
    pub defensive_reward: usize,
    pub members: Option<Vec<CapitalRaidWeekendMember>>,
}

/// What one member did on a raid weekend.
#[derive(Debug)]
pub struct CapitalRaidWeekendMember {
    pub attack_limit: usize,
    pub attacks: usize,
    pub bonus_attack_limit: usize,
    pub capital_resources_looted: usize,
    pub name: String,
    pub tag: PlayerTag,
}

/// The raid weekends that the game still lists, the latest first.
#[derive(Debug)]
pub struct CapitalRaidWeekendLogs {
    pub items: Vec<CapitalRaidWeekend>,
}

} // verus!
