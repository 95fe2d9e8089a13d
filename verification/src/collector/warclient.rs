//! What the game reports of the war that a clan is in.

use crate::collector::time::Time;
use crate::collector::ClanBadges;
use crate::tags::{ClanTag, PlayerTag};
use vstd::prelude::*;

verus! {

/// The war that a clan is in, if it is in one.
#[derive(Debug)]
pub struct CurrentWar {
    pub state: CurrentWarState,
    pub clan: WarClan,
    pub opponent: WarClan,
    pub team_size: Option<usize>,
    pub attacks_per_member: Option<usize>,
    pub start_time: Option<Time>,
    pub end_time: Option<String>,
    pub preparation_start_time: Option<String>,
}

/// How far the war of a clan has come.
#[derive(Debug, PartialEq, Eq, Structural, Clone, Copy)]
pub enum CurrentWarState {
    ClanNotFound,
    AccessDenied,
    NotInWar,
    InMatchmaking,
    EnterWar,
    Matched,
    Preparation,
    War,
    InWar,
    Ended,
}

/// One side of a war.
#[derive(Debug)]
pub struct WarClan {
    pub tag: Option<ClanTag>,
    pub name: Option<String>,
    pub attacks: usize,
    pub badge_urls: ClanBadges,
    pub clan_level: usize,
    pub stars: usize,
    pub members: Option<Vec<WarClanMember>>,
}

/// A member of one side of a war, with the attacks made so far.
#[derive(Debug)]
pub struct WarClanMember {
    pub map_position: usize,
    pub name: String,
    pub opponent_attacks: usize,
    pub tag: PlayerTag,
    pub townhall_level: usize,
    pub attacks: Vec<WarClanMemberAttack>,
}

/// One attack of a war.
#[derive(Debug)]
pub struct WarClanMemberAttack {
    pub attacker_tag: PlayerTag,
    pub defender_tag: PlayerTag,
    pub destruction_percentage: usize,
    pub duration: usize,
    pub order: usize,
    pub stars: usize,
}

} // verus!
