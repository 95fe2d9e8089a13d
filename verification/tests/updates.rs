use gold_pass_bot::{
    has_weekend_to_record, war_update, is_clan_games_achievement, league_wars_to_fetch, record_clan_games, update_clan_games,
    update_cwl, update_names, update_raids, update_war, CapitalRaidWeekend,
    CapitalRaidWeekendLogs, CapitalRaidWeekendMember, ClanBadges, ClanInfo, ClanMember,
    ClanStorage, ClanTag, ClanWarLeagueAttack, ClanWarLeagueGroup, ClanWarLeagueRound,
    ClanWarLeagueSeason, ClanWarLeagueWar, ClanWarLeagueWarClan, ClanWarLeagueWarMember,
    ClanWarLeagueWarState, CurrentWar, CurrentWarState, PlayerAchievement, PlayerGamesStats,
    PlayerInfo, PlayerTag, RaidMember, Season, Storage, Time, WarAttack, WarClan, WarClanMember,
    WarClanMemberAttack, WarTag, WarUpdate,
};

fn clan(text: &str) -> ClanTag {
    ClanTag(text.to_string())
}

fn player(text: &str) -> PlayerTag {
    PlayerTag(text.to_string())
}

fn badges() -> ClanBadges {
    ClanBadges { large: String::new(), medium: String::new(), small: String::new() }
}

fn store_with(tag: &str) -> Storage {
    let mut store = Storage::empty();
    store.register_clan(clan(tag));
    store
}

fn clan_info(members: Vec<(&str, &str)>) -> ClanInfo {
    ClanInfo {
        member_list: members
            .into_iter()
            .map(|(tag, name)| ClanMember {
                tag: player(tag),
                name: name.to_string(),
                exp_level: 1,
                clan_rank: 1,
                previous_clan_rank: 1,
                donations: 0,
                donations_received: 0,
                trophies: 0,
            })
            .collect(),
        tag: clan("#A"),
        clan_level: 1,
        war_wins: 0,
        clan_points: 0,
        name: "Alfie".to_string(),
        members: 0,
        description: String::new(),
        badge_urls: badges(),
    }
}

fn war_attack(stars: usize) -> WarClanMemberAttack {
    WarClanMemberAttack {
        attacker_tag: player("#P"),
        defender_tag: player("#X"),
        destruction_percentage: 30 * stars,
        duration: 100 + stars,
        order: 1,
        stars,
    }
}

fn war_member(tag: &str, stars: Vec<usize>) -> WarClanMember {
    WarClanMember {
        map_position: 1,
        name: "name".to_string(),
        opponent_attacks: 0,
        tag: player(tag),
        townhall_level: 10,
        attacks: stars.into_iter().map(war_attack).collect(),
    }
}

fn war_clan(members: Option<Vec<WarClanMember>>) -> WarClan {
    WarClan {
        tag: Some(clan("#A")),
        name: None,
        attacks: 0,
        badge_urls: badges(),
        clan_level: 1,
        stars: 0,
        members,
    }
}

fn current_war(
    state: CurrentWarState,
    members: Option<Vec<WarClanMember>>,
    start_time: Option<Time>,
) -> CurrentWar {
    CurrentWar {
        state,
        clan: war_clan(members),
        opponent: war_clan(None),
        team_size: None,
        attacks_per_member: None,
        start_time,
        end_time: None,
        preparation_start_time: None,
    }
}

fn converted(stars: usize) -> WarAttack {
    WarAttack { destruction: 30 * stars, stars, duration: 100 + stars }
}

fn league_member(tag: &str, stars: Option<Vec<usize>>) -> ClanWarLeagueWarMember {
    ClanWarLeagueWarMember {
        tag: player(tag),
        name: "name".to_string(),
        map_position: 1,
        townhall_level: 10,
        opponent_attacks: 0,
        best_opponent_attack: None,
        attacks: stars.map(|stars| {
            stars
                .into_iter()
                .map(|stars| ClanWarLeagueAttack {
                    attacker_tag: player(tag),
                    defender_tag: player("#X"),
                    destruction_percentage: 30 * stars,
                    duration: 100 + stars,
                    order: 1,
                    stars,
                })
                .collect()
        }),
    }
}

fn league_side(tag: &str, members: Vec<ClanWarLeagueWarMember>) -> ClanWarLeagueWarClan {
    ClanWarLeagueWarClan {
        badge_urls: badges(),
        attacks: 0,
        clan_level: 1,
        members,
        name: "name".to_string(),
        stars: 0,
        tag: clan(tag),
    }
}

fn league_war(clan: ClanWarLeagueWarClan, opponent: ClanWarLeagueWarClan) -> ClanWarLeagueWar {
    ClanWarLeagueWar {
        state: ClanWarLeagueWarState::War,
        team_size: 15,
        preparation_start_time: String::new(),
        start_time: String::new(),
        end_time: String::new(),
        clan,
        opponent,
        war_start_time: String::new(),
    }
}

fn league_group(rounds: Vec<Vec<&str>>) -> ClanWarLeagueGroup {
    ClanWarLeagueGroup {
        tag: None,
        state: None,
        season: ClanWarLeagueSeason { year: 2023, month: 8 },
        clans: Vec::new(),
        rounds: rounds
            .into_iter()
            .map(|tags| ClanWarLeagueRound {
                war_tags: tags.into_iter().map(|tag| WarTag(tag.to_string())).collect(),
            })
            .collect(),
    }
}

fn profile(achievements: Vec<(&str, usize)>) -> PlayerInfo {
    PlayerInfo {
        role: String::new(),
        war_preference: String::new(),
        attack_wins: 0,
        defense_wins: 0,
        town_hall_level: 10,
        tag: player("#other"),
        name: "name".to_string(),
        exp_level: 1,
        trophies: 0,
        best_trophies: 0,
        donations: 0,
        donations_received: 0,
        war_stars: 0,
        achievements: achievements
            .into_iter()
            .map(|(name, value)| PlayerAchievement {
                stars: 0,
                value,
                name: name.to_string(),
                target: 0,
                info: String::new(),
                completion_info: None,
                village: String::new(),
            })
            .collect(),
        clan_capital_contributions: 0,
    }
}

fn weekend(day: usize, members: Option<Vec<(&str, usize)>>) -> CapitalRaidWeekend {
    CapitalRaidWeekend {
        state: String::new(),
        start_time: Time { year: 2023, month: if day > 31 { 9 } else { 8 }, day },
        end_time: String::new(),
        capital_total_loot: 0,
        raids_completed: 0,
        total_attacks: 0,
        enemy_districts_destroyed: 0,
        offensive_reward: 0,
        defensive_reward: 0,
        members: members.map(|members| {
            members
                .into_iter()
                .map(|(tag, looted)| CapitalRaidWeekendMember {
                    attack_limit: 5,
                    attacks: 5,
                    bonus_attack_limit: 1,
                    capital_resources_looted: looted,
                    name: "name".to_string(),
                    tag: player(tag),
                })
                .collect()
        }),
    }
}

#[test]
fn names_are_replaced() {
    let mut bundle = ClanStorage::default();
    bundle.player_names.insert(player("#old"), "Gone".to_string());
    bundle.games.insert(
        player("#old"),
        PlayerGamesStats { start_score: None, end_score: 7 },
    );
    let games_before = bundle.games.clone();

    update_names(
        &clan_info(vec![("#P", "Bob"), ("#Q", "Eve"), ("#P", "Robert")]),
        &mut bundle,
    );

    assert_eq!(bundle.player_names.len(), 2);
    assert_eq!(*bundle.player_names.key_at(0), player("#P"));
    assert_eq!(bundle.player_names.get(&player("#P")), Some(&"Robert".to_string()));
    assert_eq!(bundle.player_names.get(&player("#Q")), Some(&"Eve".to_string()));
    assert_eq!(bundle.player_names.get(&player("#old")), None);
    assert_eq!(bundle.games, games_before);

    update_names(&clan_info(vec![]), &mut bundle);
    assert!(bundle.player_names.is_empty());
}

#[test]
fn war_is_recorded_under_the_season_of_its_start() {
    let mut store = store_with("#A");
    let start = Time { year: 2023, month: 8, day: 4 };
    let war = current_war(
        CurrentWarState::InWar,
        Some(vec![war_member("#P", vec![3, 2]), war_member("#Q", vec![])]),
        Some(start),
    );

    assert_eq!(update_war(&war, &clan("#A"), &mut store), WarUpdate::Recorded);

    let bundle = store.get(&clan("#A"), &Season { year: 2023, month: 8 }).unwrap();
    assert_eq!(bundle.wars.len(), 1);
    let recorded = bundle.wars.get(&start).unwrap();
    assert_eq!(recorded.start_time, start);
    assert_eq!(recorded.members.len(), 2);
    assert_eq!(
        recorded.members.get(&player("#P")).unwrap().attacks,
        vec![converted(3), converted(2)]
    );
    assert_eq!(recorded.members.get(&player("#Q")).unwrap().attacks, vec![]);
    assert!(store.get(&clan("#A"), &Season { year: 2023, month: 9 }).is_none());
}

#[test]
fn later_report_of_a_war_replaces_the_earlier() {
    let mut store = store_with("#A");
    let start = Time { year: 2023, month: 8, day: 4 };
    let first = current_war(
        CurrentWarState::InWar,
        Some(vec![war_member("#P", vec![1]), war_member("#Q", vec![2])]),
        Some(start),
    );
    let second = current_war(
        CurrentWarState::InWar,
        Some(vec![war_member("#P", vec![1, 3])]),
        Some(start),
    );
    let other = current_war(
        CurrentWarState::InWar,
        Some(vec![war_member("#R", vec![2])]),
        Some(Time { year: 2023, month: 8, day: 6 }),
    );
    update_war(&first, &clan("#A"), &mut store);
    update_war(&other, &clan("#A"), &mut store);
    update_war(&second, &clan("#A"), &mut store);

    let bundle = store.get(&clan("#A"), &Season { year: 2023, month: 8 }).unwrap();
    assert_eq!(bundle.wars.len(), 2);
    assert_eq!(*bundle.wars.key_at(0), start);
    let recorded = bundle.wars.get(&start).unwrap();
    assert_eq!(recorded.members.len(), 1);
    assert_eq!(
        recorded.members.get(&player("#P")).unwrap().attacks,
        vec![converted(1), converted(3)]
    );
}

#[test]
fn war_that_is_not_fought_changes_nothing() {
    let start = Some(Time { year: 2023, month: 8, day: 4 });
    for state in [
        CurrentWarState::ClanNotFound,
        CurrentWarState::AccessDenied,
        CurrentWarState::NotInWar,
        CurrentWarState::InMatchmaking,
        CurrentWarState::EnterWar,
        CurrentWarState::Matched,
        CurrentWarState::Preparation,
        CurrentWarState::War,
        CurrentWarState::Ended,
    ] {
        let mut store = store_with("#A");
        let war = current_war(state, Some(vec![war_member("#P", vec![3])]), start);
        assert_eq!(update_war(&war, &clan("#A"), &mut store), WarUpdate::NotInWar);
        assert_eq!(store, store_with("#A"));
    }
    let mut store = store_with("#A");
    let war = current_war(CurrentWarState::InWar, None, start);
    assert_eq!(update_war(&war, &clan("#A"), &mut store), WarUpdate::MissingMembers);
    assert_eq!(store, store_with("#A"));
    let war = current_war(CurrentWarState::InWar, Some(vec![]), None);
    assert_eq!(update_war(&war, &clan("#A"), &mut store), WarUpdate::MissingStartTime);
    assert_eq!(store, store_with("#A"));
    let war = current_war(CurrentWarState::Ended, None, None);
    assert_eq!(update_war(&war, &clan("#A"), &mut store), WarUpdate::NotInWar);
}

#[test]
fn wars_to_fetch_leave_out_the_unassigned() {
    let group = league_group(vec![
        vec!["#W1", "#W2"],
        vec!["#0", "#W3", "#0"],
        vec![],
        vec!["#0"],
        vec!["#W4"],
    ]);
    assert_eq!(
        league_wars_to_fetch(&group),
        vec![
            (0, WarTag("#W1".to_string())),
            (0, WarTag("#W2".to_string())),
            (1, WarTag("#W3".to_string())),
            (4, WarTag("#W4".to_string())),
        ]
    );
    assert_eq!(league_wars_to_fetch(&league_group(vec![])), vec![]);
}

#[test]
fn league_war_is_recorded_in_its_round() {
    let mut store = store_with("#A");
    let group = league_group(vec![vec!["#W1"], vec!["#W2"]]);
    let wars = vec![
        (
            0,
            league_war(
                league_side("#A", vec![league_member("#P", Some(vec![3])), league_member("#Q", None)]),
                league_side("#B", vec![league_member("#X", Some(vec![1]))]),
            ),
        ),
        (
            1,
            league_war(
                league_side("#C", vec![league_member("#Y", Some(vec![2]))]),
                league_side("#A", vec![league_member("#P", Some(vec![2, 1]))]),
            ),
        ),
        (
            1,
            league_war(
                league_side("#B", vec![league_member("#X", Some(vec![3]))]),
                league_side("#C", vec![league_member("#Y", Some(vec![3]))]),
            ),
        ),
    ];

    update_cwl(&group, &wars, &clan("#A"), &mut store);

    let bundle = store.get(&clan("#A"), &Season { year: 2023, month: 8 }).unwrap();
    assert_eq!(bundle.cwl.wars.len(), 2);
    let first = &bundle.cwl.wars[0].members;
    assert_eq!(first.len(), 2);
    assert_eq!(first.get(&player("#P")).unwrap().attacks, vec![converted(3)]);
    assert_eq!(first.get(&player("#Q")).unwrap().attacks, vec![]);
    assert_eq!(first.get(&player("#X")), None);
    let second = &bundle.cwl.wars[1].members;
    assert_eq!(second.len(), 1);
    assert_eq!(
        second.get(&player("#P")).unwrap().attacks,
        vec![converted(2), converted(1)]
    );
}

#[test]
fn later_round_first_fills_the_gap_with_empty_rounds() {
    let mut store = store_with("#A");
    let group = league_group(vec![vec!["#0"], vec!["#0"], vec!["#W3"]]);
    let wars = vec![(
        2,
        league_war(
            league_side("#A", vec![league_member("#P", Some(vec![3]))]),
            league_side("#B", vec![]),
        ),
    )];
    update_cwl(&group, &wars, &clan("#A"), &mut store);
    {
        let bundle = store.get(&clan("#A"), &Season { year: 2023, month: 8 }).unwrap();
        assert_eq!(bundle.cwl.wars.len(), 3);
        assert!(bundle.cwl.wars[0].members.is_empty());
        assert!(bundle.cwl.wars[1].members.is_empty());
        assert_eq!(
            bundle.cwl.wars[2].members.get(&player("#P")).unwrap().attacks,
            vec![converted(3)]
        );
    }

    let wars = vec![(
        0,
        league_war(
            league_side("#A", vec![league_member("#P", Some(vec![1]))]),
            league_side("#B", vec![]),
        ),
    )];
    update_cwl(&group, &wars, &clan("#A"), &mut store);
    let bundle = store.get(&clan("#A"), &Season { year: 2023, month: 8 }).unwrap();
    assert_eq!(bundle.cwl.wars.len(), 3);
    assert_eq!(
        bundle.cwl.wars[0].members.get(&player("#P")).unwrap().attacks,
        vec![converted(1)]
    );
    assert_eq!(
        bundle.cwl.wars[2].members.get(&player("#P")).unwrap().attacks,
        vec![converted(3)]
    );
}

#[test]
fn member_without_attacks_keeps_what_was_recorded() {
    let mut store = store_with("#A");
    let group = league_group(vec![vec!["#W1"]]);
    let first = vec![(
        0,
        league_war(
            league_side("#A", vec![league_member("#P", Some(vec![3]))]),
            league_side("#B", vec![]),
        ),
    )];
    let second = vec![(
        0,
        league_war(
            league_side("#A", vec![league_member("#P", None), league_member("#Q", Some(vec![]))]),
            league_side("#B", vec![]),
        ),
    )];
    update_cwl(&group, &first, &clan("#A"), &mut store);
    update_cwl(&group, &second, &clan("#A"), &mut store);
    let bundle = store.get(&clan("#A"), &Season { year: 2023, month: 8 }).unwrap();
    assert_eq!(bundle.cwl.wars.len(), 1);
    assert_eq!(
        bundle.cwl.wars[0].members.get(&player("#P")).unwrap().attacks,
        vec![converted(3)]
    );
    assert_eq!(bundle.cwl.wars[0].members.get(&player("#Q")).unwrap().attacks, vec![]);
}

#[test]
fn league_group_without_wars_opens_the_season() {
    let mut store = store_with("#A");
    update_cwl(&league_group(vec![]), &vec![], &clan("#A"), &mut store);
    assert_eq!(
        store.get(&clan("#A"), &Season { year: 2023, month: 8 }),
        Some(&ClanStorage::default())
    );
}

#[test]
fn clan_games_achievement_in_any_case() {
    assert!(is_clan_games_achievement("Games Champion"));
    assert!(is_clan_games_achievement("games champion"));
    assert!(is_clan_games_achievement("GAMES CHAMPION"));
    assert!(!is_clan_games_achievement("Games Champions"));
    assert!(!is_clan_games_achievement("Games_Champion"));
    assert!(!is_clan_games_achievement("Games Champio"));
    assert!(!is_clan_games_achievement(""));
    assert!(!is_clan_games_achievement("Gam\u{e9}s Champion"));
    assert!(!is_clan_games_achievement("Games`Champion"));
    assert!(!is_clan_games_achievement("Games@Champion"));
}

#[test]
fn clan_games_scores_are_recorded() {
    let mut store = store_with("#A");
    let season = Season { year: 2023, month: 8 };
    let first = vec![
        (
            player("#P"),
            profile(vec![("Gold Grab", 9), ("Games Champion", 1000), ("War Hero", 5)]),
        ),
        (player("#Q"), profile(vec![("Gold Grab", 9)])),
        (player("#R"), profile(vec![("games champion", 10), ("GAMES CHAMPION", 20)])),
    ];
    record_clan_games(&first, &season, &clan("#A"), &mut store);
    {
        let games = &store.get(&clan("#A"), &season).unwrap().games;
        assert_eq!(games.len(), 2);
        assert_eq!(
            games.get(&player("#P")),
            Some(&PlayerGamesStats { start_score: Some(1000), end_score: 1000 })
        );
        assert_eq!(games.get(&player("#Q")), None);
        assert_eq!(
            games.get(&player("#R")),
            Some(&PlayerGamesStats { start_score: Some(10), end_score: 20 })
        );
    }

    let second = vec![(player("#P"), profile(vec![("Games Champion", 4500)]))];
    record_clan_games(&second, &season, &clan("#A"), &mut store);
    let games = &store.get(&clan("#A"), &season).unwrap().games;
    assert_eq!(
        games.get(&player("#P")),
        Some(&PlayerGamesStats { start_score: Some(1000), end_score: 4500 })
    );
}

#[test]
fn clan_games_score_without_a_start_gets_one() {
    let mut store = store_with("#A");
    let season = Season { year: 2023, month: 8 };
    store.get_mut(&clan("#A"), &season).unwrap().games.insert(
        player("#P"),
        PlayerGamesStats { start_score: None, end_score: 300 },
    );
    let players = vec![(player("#P"), profile(vec![("Games Champion", 700)]))];
    record_clan_games(&players, &season, &clan("#A"), &mut store);
    assert_eq!(
        store.get(&clan("#A"), &season).unwrap().games.get(&player("#P")),
        Some(&PlayerGamesStats { start_score: Some(700), end_score: 700 })
    );
}

#[test]
fn clan_games_scores_go_to_the_running_season() {
    let mut store = store_with("#A");
    let players = vec![(player("#P"), profile(vec![("Games Champion", 700)]))];
    let season = update_clan_games(&players, &clan("#A"), &mut store).unwrap();
    assert!(1 <= season.month && season.month <= 12);
    assert!(season.year >= 2024);
    assert_eq!(
        store.get(&clan("#A"), &season).unwrap().games.get(&player("#P")),
        Some(&PlayerGamesStats { start_score: Some(700), end_score: 700 })
    );
}

#[test]
fn raid_weekends_are_recorded_under_their_seasons() {
    let mut store = store_with("#A");
    let log = CapitalRaidWeekendLogs {
        items: vec![
            weekend(32, Some(vec![("#P", 9000)])),
            weekend(25, Some(vec![("#P", 500), ("#Q", 700), ("#P", 600)])),
            weekend(18, None),
            weekend(11, Some(vec![])),
        ],
    };

    update_raids(&log, &clan("#A"), &mut store);

    let august = store.get(&clan("#A"), &Season { year: 2023, month: 8 }).unwrap();
    assert_eq!(august.raid_weekend.len(), 2);
    let late = august.raid_weekend.get(&Time { year: 2023, month: 8, day: 25 }).unwrap();
    assert_eq!(late.start_time, Time { year: 2023, month: 8, day: 25 });
    assert_eq!(late.members.len(), 2);
    assert_eq!(late.members.get(&player("#P")), Some(&RaidMember { looted: 600 }));
    assert_eq!(late.members.get(&player("#Q")), Some(&RaidMember { looted: 700 }));
    assert!(august.raid_weekend.get(&Time { year: 2023, month: 8, day: 18 }).is_none());
    assert!(august
        .raid_weekend
        .get(&Time { year: 2023, month: 8, day: 11 })
        .unwrap()
        .members
        .is_empty());
    let september = store.get(&clan("#A"), &Season { year: 2023, month: 9 }).unwrap();
    assert_eq!(september.raid_weekend.len(), 1);

    update_raids(
        &CapitalRaidWeekendLogs { items: vec![weekend(25, Some(vec![("#Q", 1)]))] },
        &clan("#A"),
        &mut store,
    );
    let august = store.get(&clan("#A"), &Season { year: 2023, month: 8 }).unwrap();
    assert_eq!(august.raid_weekend.len(), 2);
    assert_eq!(
        august
            .raid_weekend
            .get(&Time { year: 2023, month: 8, day: 25 })
            .unwrap()
            .members
            .len(),
        1
    );
}

#[test]
fn report_that_records_nothing_needs_no_registered_clan() {
    let start = Some(Time { year: 2023, month: 8, day: 4 });
    for war in [
        current_war(CurrentWarState::NotInWar, Some(vec![war_member("#P", vec![3])]), start),
        current_war(CurrentWarState::Ended, None, None),
        current_war(CurrentWarState::InWar, None, start),
        current_war(CurrentWarState::InWar, Some(vec![]), None),
    ] {
        let mut store = Storage::empty();
        let outcome = war_update(&war);
        assert_ne!(outcome, WarUpdate::Recorded);
        assert_eq!(update_war(&war, &clan("#A"), &mut store), outcome);
        assert_eq!(store, Storage::empty());

        let mut store = store_with("#B");
        assert_eq!(update_war(&war, &clan("#A"), &mut store), outcome);
        assert_eq!(store, store_with("#B"));
    }
    let war = current_war(CurrentWarState::InWar, Some(vec![]), start);
    assert_eq!(war_update(&war), WarUpdate::Recorded);
    assert_eq!(
        war_update(&current_war(CurrentWarState::InWar, None, None)),
        WarUpdate::MissingMembers
    );
}

#[test]
fn weekends_without_members_need_no_registered_clan() {
    let log = CapitalRaidWeekendLogs { items: vec![weekend(25, None), weekend(18, None)] };
    assert!(!has_weekend_to_record(&log));
    let mut store = Storage::empty();
    update_raids(&log, &clan("#A"), &mut store);
    assert_eq!(store, Storage::empty());

    assert!(!has_weekend_to_record(&CapitalRaidWeekendLogs { items: vec![] }));
    update_raids(&CapitalRaidWeekendLogs { items: vec![] }, &clan("#A"), &mut store);
    assert_eq!(store, Storage::empty());

    let log = CapitalRaidWeekendLogs {
        items: vec![weekend(25, None), weekend(18, Some(vec![])), weekend(11, None)],
    };
    assert!(has_weekend_to_record(&log));
}
