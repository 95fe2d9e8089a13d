//! How the reports of the members, of the current war and of the raid
//! weekends change what the store holds.

use crate::collector::{
    CapitalRaidWeekend, CapitalRaidWeekendLogs, CapitalRaidWeekendMember, ClanInfo, ClanMember,
    CurrentWar, CurrentWarState, Time, WarClanMember, WarClanMemberAttack,
};
use crate::storage::{
    bundle_or_empty, bundle_wf, lemma_bundle_or_empty_wf, lemma_store_stays_wf, raid_wf, store_wf,
    war_wf, with_bundle, ClanStorage, ClanStorageView, MemberWarStats, RaidMember,
    RaidWeekendStats, RaidWeekendStatsView, Season, Storage, StorageView, WarAttack, WarStats,
    WarStatsView,
};
use crate::table::{
    collected, has_key, lemma_collected_distinct, lemma_with_entry_distinct,
    lemma_with_entry_keys, lemma_with_entry_values, with_entry, Table,
};
use crate::tags::{ClanTag, PlayerTag};
use vstd::prelude::*;

verus! {

/// The tag and the name of each member, in the order of the list.
pub open spec fn member_names(members: Seq<ClanMember>) -> Seq<(Seq<char>, Seq<char>)> {
    Seq::new(members.len(), |i: int| (members[i].tag@, members[i].name@))
}

/// Replaces the names of the players by those of the members that `info`
/// lists. Nothing else of the bundle changes.
pub fn update_names(info: &ClanInfo, clan_season_stats: &mut ClanStorage)
    ensures
        final(clan_season_stats)@ == (ClanStorageView {
            player_names: collected(member_names(info.member_list@)),
            ..old(clan_season_stats)@
        }),
        bundle_wf(old(clan_season_stats)@) ==> bundle_wf(final(clan_season_stats)@),
{
    let ghost pairs = member_names(info.member_list@);
    proof {
        lemma_collected_distinct(pairs);
    }
    clan_season_stats.player_names.clear();
    let mut i: usize = 0;
    assert(pairs.subrange(0, 0) =~= Seq::<(Seq<char>, Seq<char>)>::empty());
    while i < info.member_list.len()
        invariant
            i <= info.member_list@.len(),
            pairs == member_names(info.member_list@),
            clan_season_stats@ == (ClanStorageView {
                player_names: collected(pairs.subrange(0, i as int)),
                ..old(clan_season_stats)@
            }),
        decreases info.member_list@.len() - i,
    {
        let member = &info.member_list[i];
        clan_season_stats.player_names.insert(member.tag.clone(), member.name.clone());
        proof {
            assert(pairs.subrange(0, i + 1).drop_last() =~= pairs.subrange(0, i as int));
        }
        i = i + 1;
    }
    assert(pairs.subrange(0, i as int) =~= pairs);
}

/// The season in which `day` lies.
pub open spec fn season_of(day: Time) -> Season {
    Season { year: day.year, month: day.month }
}

/// An attack as the store keeps it.
pub open spec fn war_attack(raw: WarClanMemberAttack) -> WarAttack {
    WarAttack {
        destruction: raw.destruction_percentage,
        stars: raw.stars,
        duration: raw.duration,
    }
}

/// The attacks as the store keeps them, in the order in which they are
/// reported.
pub open spec fn war_attacks(raw: Seq<WarClanMemberAttack>) -> Seq<WarAttack> {
    Seq::new(raw.len(), |i: int| war_attack(raw[i]))
}

/// The tag and the attacks of each member, in the order of the report.
pub open spec fn war_members(members: Seq<WarClanMember>) -> Seq<(Seq<char>, Seq<WarAttack>)> {
    Seq::new(members.len(), |i: int| (members[i].tag@, war_attacks(members[i].attacks@)))
}

/// What became of a report of the current war.
#[derive(Debug, PartialEq, Eq, Structural, Clone, Copy)]
pub enum WarUpdate {
    /// The war was recorded.
    Recorded,
    /// The clan is not in a war that has begun and not ended.
    NotInWar,
    /// The report names no members of the clan.
    MissingMembers,
    /// The report does not say when the war began.
    MissingStartTime,
}

/// What becomes of the report `war`.
pub open spec fn war_update_of(war: CurrentWar) -> WarUpdate {
    if war.state != CurrentWarState::InWar {
        WarUpdate::NotInWar
    } else if war.clan.members is None {
        WarUpdate::MissingMembers
    } else if war.start_time is None {
        WarUpdate::MissingStartTime
    } else {
        WarUpdate::Recorded
    }
}

/// The store with the war that began on `start` recorded for `clan`: in the
/// bundle of the season of `start`, the war under `start` is replaced by
/// `members`, or added.
pub open spec fn with_war(
    store: StorageView,
    clan: Seq<char>,
    start: Time,
    members: Seq<(Seq<char>, Seq<WarAttack>)>,
) -> StorageView {
    let bundle = bundle_or_empty(store, clan, season_of(start));
    let war = WarStatsView { start_time: start, members: collected(members) };
    with_bundle(
        store,
        clan,
        season_of(start),
        ClanStorageView { wars: with_entry(bundle.wars, start, war), ..bundle },
    )
}

/// Recording a war keeps a store well-formed.
pub proof fn lemma_with_war_wf(
    store: StorageView,
    clan: Seq<char>,
    start: Time,
    members: Seq<(Seq<char>, Seq<WarAttack>)>,
)
    requires
        store_wf(store),
    ensures
        store_wf(with_war(store, clan, start, members)),
{
    let bundle = bundle_or_empty(store, clan, season_of(start));
    let war = WarStatsView { start_time: start, members: collected(members) };
    lemma_bundle_or_empty_wf(store, clan, season_of(start));
    lemma_collected_distinct(members);
    lemma_with_entry_distinct(bundle.wars, start, war);
    lemma_with_entry_values(bundle.wars, start, war, |war: WarStatsView| war_wf(war));
    lemma_store_stays_wf(
        store,
        clan,
        season_of(start),
        ClanStorageView { wars: with_entry(bundle.wars, start, war), ..bundle },
    );
}

/// The attacks as the store keeps them.
fn convert_war_attacks(raw: &Vec<WarClanMemberAttack>) -> (attacks: Vec<WarAttack>)
    ensures
        attacks@ == war_attacks(raw@),
{
    let mut attacks: Vec<WarAttack> = Vec::new();
    let mut i: usize = 0;
    while i < raw.len()
        invariant
            i <= raw@.len(),
            attacks@ == war_attacks(raw@).subrange(0, i as int),
        decreases raw@.len() - i,
    {
        let attack = &raw[i];
        attacks.push(
            WarAttack {
                destruction: attack.destruction_percentage,
                stars: attack.stars,
                duration: attack.duration,
            },
        );
        assert(attacks@ =~= war_attacks(raw@).subrange(0, i + 1));
        i = i + 1;
    }
    assert(attacks@ =~= war_attacks(raw@));
    attacks
}

/// The members of a war with their attacks, as the store keeps them.
fn collect_war_members(members: &Vec<WarClanMember>) -> (table: Table<PlayerTag, MemberWarStats>)
    ensures
        table@ == collected(war_members(members@)),
{
    let ghost pairs = war_members(members@);
    let mut table: Table<PlayerTag, MemberWarStats> = Table::new();
    let mut i: usize = 0;
    assert(pairs.subrange(0, 0) =~= Seq::<(Seq<char>, Seq<WarAttack>)>::empty());
    while i < members.len()
        invariant
            i <= members@.len(),
            pairs == war_members(members@),
            table@ == collected(pairs.subrange(0, i as int)),
        decreases members@.len() - i,
    {
        let member = &members[i];
        table.insert(
            member.tag.clone(),
            MemberWarStats { attacks: convert_war_attacks(&member.attacks) },
        );
        proof {
            assert(pairs.subrange(0, i + 1).drop_last() =~= pairs.subrange(0, i as int));
        }
        i = i + 1;
    }
    assert(pairs.subrange(0, i as int) =~= pairs);
    table
}

/// What becomes of the report `war`: whether it is recorded, and if not,
/// why not.
pub fn war_update(war: &CurrentWar) -> (outcome: WarUpdate)
    ensures
        outcome == war_update_of(*war),
{
    match war.state {
        CurrentWarState::InWar => {},
        _ => {
            return WarUpdate::NotInWar;
        },
    }
    if war.clan.members.is_none() {
        WarUpdate::MissingMembers
    } else if war.start_time.is_none() {
        WarUpdate::MissingStartTime
    } else {
        WarUpdate::Recorded
    }
}

/// Records the war that `war` reports for the clan `clan_tag`. A war is
/// recorded only while it is being fought, and only from a report that
/// names the members of the clan and the day on which the war began; it is
/// filed under the season of that day and replaces what was recorded for
/// that day before. From any other report nothing changes, whether the clan
/// is registered or not; a report that is recorded needs the clan to be
/// registered.
pub fn update_war(war: &CurrentWar, clan_tag: &ClanTag, storage: &mut Storage) -> (outcome:
    WarUpdate)
    requires
        war_update_of(*war) == WarUpdate::Recorded ==> has_key(old(storage)@, clan_tag@),
    ensures
        outcome == war_update_of(*war),
        final(storage)@ == if outcome == WarUpdate::Recorded {
            with_war(
                old(storage)@,
                clan_tag@,
                war.start_time->0,
                war_members(war.clan.members->0@),
            )
        } else {
            old(storage)@
        },
        store_wf(old(storage)@) ==> store_wf(final(storage)@),
{
    proof {
        if store_wf(storage@) && war_update_of(*war) == WarUpdate::Recorded {
            lemma_with_war_wf(
                storage@,
                clan_tag@,
                war.start_time->0,
                war_members(war.clan.members->0@),
            );
        }
    }
    match war.state {
        CurrentWarState::InWar => {},
        _ => {
            return WarUpdate::NotInWar;
        },
    }
    let members = match &war.clan.members {
        Some(members) => members,
        None => {
            return WarUpdate::MissingMembers;
        },
    };
    let start_time = match war.start_time {
        Some(start_time) => start_time,
        None => {
            return WarUpdate::MissingStartTime;
        },
    };
    let season = Season::from(start_time);
    let war_stats = WarStats { start_time, members: collect_war_members(members) };
    match storage.get_mut(clan_tag, &season) {
        Some(clan_season_stats) => {
            clan_season_stats.wars.insert(start_time, war_stats);
        },
        None => {},
    }
    WarUpdate::Recorded
}

/// The tag and the loot of each member, in the order of the report.
pub open spec fn raid_members(members: Seq<CapitalRaidWeekendMember>) -> Seq<
    (Seq<char>, RaidMember),
> {
    Seq::new(
        members.len(),
        |i: int| (members[i].tag@, RaidMember { looted: members[i].capital_resources_looted }),
    )
}

/// The store with the raid weekend `raid` recorded for `clan`: in the bundle
/// of the season in which the weekend began, the weekend under the day of its
/// beginning is replaced, or added. A weekend that is reported without
/// members changes nothing.
pub open spec fn with_raid(store: StorageView, clan: Seq<char>, raid: CapitalRaidWeekend)
    -> StorageView {
    match raid.members {
        None => store,
        Some(members) => {
            let bundle = bundle_or_empty(store, clan, season_of(raid.start_time));
            let weekend = RaidWeekendStatsView {
                start_time: raid.start_time,
                members: collected(raid_members(members@)),
            };
            with_bundle(
                store,
                clan,
                season_of(raid.start_time),
                ClanStorageView {
                    raid_weekend: with_entry(bundle.raid_weekend, raid.start_time, weekend),
                    ..bundle
                },
            )
        },
    }
}

/// The store with the raid weekends `raids` recorded for `clan`, one after
/// another.
pub open spec fn with_raids(store: StorageView, clan: Seq<char>, raids: Seq<CapitalRaidWeekend>)
    -> StorageView
    decreases raids.len(),
{
    if raids.len() == 0 {
        store
    } else {
        with_raid(with_raids(store, clan, raids.drop_last()), clan, raids.last())
    }
}

/// Recording raid weekends keeps a store well-formed.
pub proof fn lemma_with_raids_wf(store: StorageView, clan: Seq<char>, raids: Seq<CapitalRaidWeekend>)
    requires
        store_wf(store),
    ensures
        store_wf(with_raids(store, clan, raids)),
    decreases raids.len(),
{
    if raids.len() > 0 {
        lemma_with_raids_wf(store, clan, raids.drop_last());
        let before = with_raids(store, clan, raids.drop_last());
        let raid = raids.last();
        match raid.members {
            Some(members) => {
                let season = season_of(raid.start_time);
                let bundle = bundle_or_empty(before, clan, season);
                let weekend = RaidWeekendStatsView {
                    start_time: raid.start_time,
                    members: collected(raid_members(members@)),
                };
                lemma_bundle_or_empty_wf(before, clan, season);
                lemma_collected_distinct(raid_members(members@));
                lemma_with_entry_distinct(bundle.raid_weekend, raid.start_time, weekend);
                lemma_with_entry_values(
                    bundle.raid_weekend,
                    raid.start_time,
                    weekend,
                    |raid: RaidWeekendStatsView| raid_wf(raid),
                );
                lemma_store_stays_wf(
                    before,
                    clan,
                    season,
                    ClanStorageView {
                        raid_weekend: with_entry(bundle.raid_weekend, raid.start_time, weekend),
                        ..bundle
                    },
                );
            },
            None => {},
        }
    }
}

/// Recording a bundle keeps every registered clan registered.
pub proof fn lemma_with_bundle_keeps_clans(
    store: StorageView,
    clan: Seq<char>,
    season: Season,
    bundle: ClanStorageView,
    other: Seq<char>,
)
    ensures
        has_key(with_bundle(store, clan, season, bundle), other) == has_key(store, other),
{
    match crate::table::value_of(store, clan) {
        Some(seasons) => {
            lemma_with_entry_keys(store, clan, with_entry(seasons, season, bundle), other);
        },
        None => {},
    }
}

/// The members of a raid weekend with their loot, as the store keeps them.
fn collect_raid_members(members: &Vec<CapitalRaidWeekendMember>) -> (table: Table<
    PlayerTag,
    RaidMember,
>)
    ensures
        table@ == collected(raid_members(members@)),
{
    let ghost pairs = raid_members(members@);
    let mut table: Table<PlayerTag, RaidMember> = Table::new();
    let mut i: usize = 0;
    assert(pairs.subrange(0, 0) =~= Seq::<(Seq<char>, RaidMember)>::empty());
    while i < members.len()
        invariant
            i <= members@.len(),
            pairs == raid_members(members@),
            table@ == collected(pairs.subrange(0, i as int)),
        decreases members@.len() - i,
    {
        let member = &members[i];
        table.insert(member.tag.clone(), RaidMember { looted: member.capital_resources_looted });
        proof {
            assert(pairs.subrange(0, i + 1).drop_last() =~= pairs.subrange(0, i as int));
        }
        i = i + 1;
    }
    assert(pairs.subrange(0, i as int) =~= pairs);
    table
}

/// One of `raids` is listed with its members, and so is recorded.
pub open spec fn records_a_weekend(raids: Seq<CapitalRaidWeekend>) -> bool {
    exists|i: int| 0 <= i < raids.len() && (#[trigger] raids[i]).members is Some
}

/// Whether one of the raid weekends that `log` lists is listed with its
/// members, and so is recorded.
pub fn has_weekend_to_record(log: &CapitalRaidWeekendLogs) -> (records: bool)
    ensures
        records == records_a_weekend(log.items@),
{
    let mut i: usize = 0;
    while i < log.items.len()
        invariant
            i <= log.items@.len(),
            forall|j: int| 0 <= j < i ==> (#[trigger] log.items@[j]).members is None,
        decreases log.items@.len() - i,
    {
        if log.items[i].members.is_some() {
            return true;
        }
        i = i + 1;
    }
    false
}

/// Records the raid weekends that `log` lists for the clan `clan_tag`, each
/// under the season in which it began. A weekend that is listed without
/// members is passed over, whether the clan is registered or not; a weekend
/// that is recorded needs the clan to be registered.
pub fn update_raids(log: &CapitalRaidWeekendLogs, clan_tag: &ClanTag, storage: &mut Storage)
    requires
        records_a_weekend(log.items@) ==> has_key(old(storage)@, clan_tag@),
    ensures
        final(storage)@ == with_raids(old(storage)@, clan_tag@, log.items@),
        store_wf(old(storage)@) ==> store_wf(final(storage)@),
{
    let ghost raids = log.items@;
    proof {
        if store_wf(storage@) {
            lemma_with_raids_wf(storage@, clan_tag@, raids);
        }
    }
    let mut i: usize = 0;
    assert(raids.subrange(0, 0) =~= Seq::<CapitalRaidWeekend>::empty());
    while i < log.items.len()
        invariant
            i <= log.items@.len(),
            raids == log.items@,
            records_a_weekend(raids) ==> has_key(storage@, clan_tag@),
            storage@ == with_raids(old(storage)@, clan_tag@, raids.subrange(0, i as int)),
        decreases log.items@.len() - i,
    {
        let raid = &log.items[i];
        let ghost before = storage@;
        proof {
            assert(raids.subrange(0, i + 1).drop_last() =~= raids.subrange(0, i as int));
        }
        match &raid.members {
            Some(members) => {
                let start_time = raid.start_time;
                let season = Season::from(start_time);
                let weekend = RaidWeekendStats {
                    start_time,
                    members: collect_raid_members(members),
                };
                proof {
                    assert(raids[i as int].members is Some);
                    let bundle = bundle_or_empty(before, clan_tag@, season);
                    lemma_with_bundle_keeps_clans(
                        before,
                        clan_tag@,
                        season,
                        ClanStorageView {
                            raid_weekend: with_entry(bundle.raid_weekend, start_time, weekend@),
                            ..bundle
                        },
                        clan_tag@,
                    );
                }
                match storage.get_mut(clan_tag, &season) {
                    Some(clan_season_stats) => {
                        clan_season_stats.raid_weekend.insert(start_time, weekend);
                    },
                    None => {},
                }
            },
            None => {},
        }
        i = i + 1;
    }
    assert(raids.subrange(0, i as int) =~= raids);
}

} // verus!
