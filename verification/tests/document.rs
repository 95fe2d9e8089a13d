use gold_pass_bot::{
    ClanDocument, ClanStorage, ClanTag, CwlWarStats, MemberWarStats, PlayerGamesStats, PlayerTag,
    RaidMember, RaidWeekendDocument, RaidWeekendStats, Season, Storage, StorageDocument,
    StoreError, Table, Time, WarAttack, WarDocument, WarStats,
};

fn clan(text: &str) -> ClanTag {
    ClanTag(text.to_string())
}

fn player(text: &str) -> PlayerTag {
    PlayerTag(text.to_string())
}

fn attack(stars: usize) -> WarAttack {
    WarAttack { destruction: 33 * stars, stars, duration: 120 }
}

fn members(entries: Vec<(&str, Vec<usize>)>) -> Table<PlayerTag, MemberWarStats> {
    let mut table = Table::new();
    for (tag, stars) in entries {
        table.insert(
            player(tag),
            MemberWarStats { attacks: stars.into_iter().map(attack).collect() },
        );
    }
    table
}

fn populated() -> Storage {
    let mut store = Storage::empty();
    store.register_clan(clan("#2L99VLJ9P"));
    store.register_clan(clan("#EMPTY"));
    let bundle = store
        .get_mut(&clan("#2L99VLJ9P"), &Season { year: 2023, month: 8 })
        .unwrap();
    bundle.player_names.insert(player("#P"), "Bob".to_string());
    bundle.player_names.insert(player("#Q"), "Eve \u{1f600}".to_string());
    bundle.cwl.wars.push(CwlWarStats { members: members(vec![("#P", vec![2])]) });
    bundle.cwl.wars.push(CwlWarStats { members: members(vec![]) });
    bundle.cwl.wars.push(CwlWarStats { members: members(vec![("#Q", vec![]), ("#P", vec![1, 3])]) });
    let start_time = Time { year: 2023, month: 8, day: 4 };
    bundle.wars.insert(
        start_time,
        WarStats { start_time, members: members(vec![("#P", vec![3])]) },
    );
    let start_time = Time { year: 2023, month: 8, day: 5 };
    let mut looters = Table::new();
    looters.insert(player("#P"), RaidMember { looted: 500 });
    bundle.raid_weekend.insert(start_time, RaidWeekendStats { start_time, members: looters });
    bundle.games.insert(
        player("#P"),
        PlayerGamesStats { start_score: Some(10), end_score: 40 },
    );
    bundle.games.insert(player("#Q"), PlayerGamesStats { start_score: None, end_score: 0 });
    store
        .get_mut(&clan("#2L99VLJ9P"), &Season { year: 2023, month: 9 })
        .unwrap();
    store
}

fn document_of_one_bundle(bundle: ClanDocument) -> StorageDocument {
    vec![("#A".to_string(), vec![("2023-08".to_string(), bundle)])]
}

fn empty_bundle() -> ClanDocument {
    ClanDocument {
        cwl: vec![],
        wars: vec![],
        games: vec![],
        raid_weekend: vec![],
        player_names: vec![],
    }
}

#[test]
fn store_is_read_back_from_its_document() {
    let store = populated();
    let document = store.to_document();
    assert_eq!(Storage::from_document(&document), Ok(store));
    assert_eq!(
        Storage::from_document(&Storage::empty().to_document()),
        Ok(Storage::empty())
    );
}

#[test]
fn document_of_a_store() {
    let document = populated().to_document();
    assert_eq!(document.len(), 2);
    assert_eq!(document[0].0, "#2L99VLJ9P");
    assert_eq!(document[1], ("#EMPTY".to_string(), vec![]));
    let seasons = &document[0].1;
    assert_eq!(seasons.len(), 2);
    assert_eq!(seasons[1], ("2023-09".to_string(), empty_bundle()));
    assert_eq!(seasons[0].0, "2023-08");
    let bundle = &seasons[0].1;
    assert_eq!(
        bundle.cwl,
        vec![
            vec![("#P".to_string(), vec![attack(2)])],
            vec![],
            vec![
                ("#Q".to_string(), vec![]),
                ("#P".to_string(), vec![attack(1), attack(3)])
            ],
        ]
    );
    assert_eq!(
        bundle.wars,
        vec![(
            "20230804T000000.000Z".to_string(),
            WarDocument {
                start_time: "20230804T000000.000Z".to_string(),
                members: vec![("#P".to_string(), vec![attack(3)])],
            }
        )]
    );
    assert_eq!(
        bundle.raid_weekend,
        vec![(
            "20230805T000000.000Z".to_string(),
            RaidWeekendDocument {
                start_time: "20230805T000000.000Z".to_string(),
                members: vec![("#P".to_string(), RaidMember { looted: 500 })],
            }
        )]
    );
    assert_eq!(
        bundle.games,
        vec![
            ("#P".to_string(), PlayerGamesStats { start_score: Some(10), end_score: 40 }),
            ("#Q".to_string(), PlayerGamesStats { start_score: None, end_score: 0 }),
        ]
    );
    assert_eq!(
        bundle.player_names,
        vec![
            ("#P".to_string(), "Bob".to_string()),
            ("#Q".to_string(), "Eve \u{1f600}".to_string())
        ]
    );
}

#[test]
fn document_with_a_key_twice_keeps_the_later_value() {
    let mut bundle = empty_bundle();
    bundle.player_names = vec![
        ("#P".to_string(), "Bob".to_string()),
        ("#Q".to_string(), "Eve".to_string()),
        ("#P".to_string(), "Robert".to_string()),
    ];
    let store = Storage::from_document(&document_of_one_bundle(bundle)).unwrap();
    let names = &store
        .get(&clan("#A"), &Season { year: 2023, month: 8 })
        .unwrap()
        .player_names;
    assert_eq!(names.len(), 2);
    assert_eq!(*names.key_at(0), player("#P"));
    assert_eq!(names.get(&player("#P")), Some(&"Robert".to_string()));
}

#[test]
fn document_with_a_time_in_another_form_is_read() {
    let mut bundle = empty_bundle();
    bundle.wars = vec![(
        "20230804T070000.000Z".to_string(),
        WarDocument { start_time: "20230806T193000.000Z".to_string(), members: vec![] },
    )];
    let store = Storage::from_document(&document_of_one_bundle(bundle)).unwrap();
    let wars = &store.get(&clan("#A"), &Season { year: 2023, month: 8 }).unwrap().wars;
    assert_eq!(
        wars.get(&Time { year: 2023, month: 8, day: 4 }).unwrap().start_time,
        Time { year: 2023, month: 8, day: 6 }
    );
}

#[test]
fn document_with_a_bad_key_is_refused() {
    let good = document_of_one_bundle(empty_bundle());
    assert!(Storage::from_document(&good).is_ok());

    let mut bad = good.clone();
    bad[0].0 = "A".to_string();
    assert_eq!(Storage::from_document(&bad), Err(StoreError::DeserializeError));

    let mut bad = good.clone();
    bad[0].1[0].0 = "2023".to_string();
    assert_eq!(Storage::from_document(&bad), Err(StoreError::DeserializeError));

    let mut bundle = empty_bundle();
    bundle.player_names = vec![("P".to_string(), "Bob".to_string())];
    assert_eq!(
        Storage::from_document(&document_of_one_bundle(bundle)),
        Err(StoreError::DeserializeError)
    );

    let mut bundle = empty_bundle();
    bundle.games = vec![("".to_string(), PlayerGamesStats { start_score: None, end_score: 1 })];
    assert_eq!(
        Storage::from_document(&document_of_one_bundle(bundle)),
        Err(StoreError::DeserializeError)
    );

    let mut bundle = empty_bundle();
    bundle.cwl = vec![vec![], vec![("P".to_string(), vec![])]];
    assert_eq!(
        Storage::from_document(&document_of_one_bundle(bundle)),
        Err(StoreError::DeserializeError)
    );

    let mut bundle = empty_bundle();
    bundle.wars = vec![(
        "2023-08-04".to_string(),
        WarDocument { start_time: "20230804T000000.000Z".to_string(), members: vec![] },
    )];
    assert_eq!(
        Storage::from_document(&document_of_one_bundle(bundle)),
        Err(StoreError::DeserializeError)
    );

    let mut bundle = empty_bundle();
    bundle.wars = vec![(
        "20230804T000000.000Z".to_string(),
        WarDocument { start_time: "yesterday".to_string(), members: vec![] },
    )];
    assert_eq!(
        Storage::from_document(&document_of_one_bundle(bundle)),
        Err(StoreError::DeserializeError)
    );

    let mut bundle = empty_bundle();
    bundle.raid_weekend = vec![(
        "20230804T000000.000Z".to_string(),
        RaidWeekendDocument {
            start_time: "20230804T000000.000Z".to_string(),
            members: vec![("#P".to_string(), RaidMember { looted: 1 }), ("Q".to_string(), RaidMember { looted: 1 })],
        },
    )];
    assert_eq!(
        Storage::from_document(&document_of_one_bundle(bundle)),
        Err(StoreError::DeserializeError)
    );
}

#[test]
fn store_with_a_five_digit_year_is_not_read_back() {
    let mut store = Storage::empty();
    store.register_clan(clan("#A"));
    let start_time = Time { year: 12345, month: 1, day: 2 };
    store
        .get_mut(&clan("#A"), &Season::from(start_time))
        .unwrap()
        .wars
        .insert(start_time, WarStats { start_time, members: Table::new() });
    let read = Storage::from_document(&store.to_document()).unwrap();
    assert_ne!(read, store);
}

#[test]
fn store_with_a_tag_without_hash_is_not_read_back() {
    let mut store = Storage::empty();
    store.register_clan(clan("A"));
    assert_eq!(
        Storage::from_document(&store.to_document()),
        Err(StoreError::DeserializeError)
    );
    assert_eq!(ClanStorage::default().player_names.len(), 0);
}
