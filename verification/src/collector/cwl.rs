//! What the game reports of a clan war league: the group, its rounds and
//! the wars of a round.

use crate::collector::ClanBadges;
use crate::error::StoreError;
use crate::tags::{ClanTag, PlayerTag, WarTag};
use crate::text::{parse_year_month, year_month_of};
use vstd::prelude::*;
use vstd::string::*;

verus! {

/// The season of a league group, as the game names it: `YYYY-MM`.
#[derive(Debug, PartialEq, Eq, Structural, Clone, Copy)]
pub struct ClanWarLeagueSeason {
    pub year: usize,
    pub month: usize,
}

impl ClanWarLeagueSeason {
    /// Reads a league season from `YYYY-MM`.
    pub fn parse(raw: &str) -> (r: Result<ClanWarLeagueSeason, StoreError>)
        ensures
            match r {
                Ok(season) => year_month_of(raw.spec_bytes()) == Some((season.year, season.month)),
                Err(e) => year_month_of(raw.spec_bytes()) is None && e == StoreError::ConfigError,
            },
    {
        match parse_year_month(raw) {
            Some((year, month)) => Ok(ClanWarLeagueSeason { year, month }),
            None => Err(StoreError::ConfigError),
        }
    }
}

/// A league group: the clans that meet in one season, and the rounds in
/// which they do.
#[derive(Debug)]
pub struct ClanWarLeagueGroup {
    pub tag: Option<String>,
    pub state: Option<String>,
    pub season: ClanWarLeagueSeason,
    pub clans: Vec<ClanWarLeagueClan>,
    pub rounds: Vec<ClanWarLeagueRound>,
}

/// One round of a league group: the tags of its wars.
#[derive(Debug)]
pub struct ClanWarLeagueRound {
    pub war_tags: Vec<WarTag>,
}

/// A clan of a league group.
#[derive(Debug)]
pub struct ClanWarLeagueClan {
    pub tag: ClanTag,
    pub clan_level: usize,
    pub name: String,
    pub members: Vec<ClanWarLeagueClanMember>,
    pub badge_urls: ClanBadges,
}

/// A member of a clan of a league group.
#[derive(Debug)]
pub struct ClanWarLeagueClanMember {
    pub tag: PlayerTag,
    pub town_hall_level: usize,
    pub name: String,
}

/// One war of a league round.
#[derive(Debug)]
pub struct ClanWarLeagueWar {
    pub state: ClanWarLeagueWarState,
    pub team_size: usize,
    pub preparation_start_time: String,
    pub start_time: String,
    pub end_time: String,
    pub clan: ClanWarLeagueWarClan,
    pub opponent: ClanWarLeagueWarClan,
    pub war_start_time: String,
}

/// How far a league war has come.
#[derive(Debug, PartialEq, Eq, Structural, Clone, Copy)]
pub enum ClanWarLeagueWarState {
    GroupNotFound,
    NotInWar,
    Preparation,
    War,
    Ended,
}

/// One side of a league war.
#[derive(Debug)]
pub struct ClanWarLeagueWarClan {
    pub badge_urls: ClanBadges,
    pub attacks: usize,
    pub clan_level: usize,
    pub members: Vec<ClanWarLeagueWarMember>,
    pub name: String,
    pub stars: usize,
    pub tag: ClanTag,
}

/// A member of one side of a league war, with the attacks made so far.
#[derive(Debug)]
pub struct ClanWarLeagueWarMember {
    pub tag: PlayerTag,
    pub name: String,
    pub map_position: usize,
    pub townhall_level: usize,
    pub opponent_attacks: usize,
    pub best_opponent_attack: Option<ClanWarLeagueAttack>,
    pub attacks: Option<Vec<ClanWarLeagueAttack>>,
}

/// One attack of a league war.
#[derive(Debug)]
pub struct ClanWarLeagueAttack {
    pub attacker_tag: PlayerTag,
    pub defender_tag: PlayerTag,
    pub destruction_percentage: usize,
    pub duration: usize,
    pub order: usize,
    pub stars: usize,
}

} // verus!
