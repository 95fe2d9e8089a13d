use gold_pass_bot::{
    ClanStorage, ClanTag, PlayerGamesStats, PlayerTag, Season, Storage, Table, Time,
};

fn clan(text: &str) -> ClanTag {
    ClanTag(text.to_string())
}

fn player(text: &str) -> PlayerTag {
    PlayerTag(text.to_string())
}

#[test]
fn read_what_was_written() {
    let mut store = Storage::empty();
    let tag = clan("#2L99VLJ9P");
    let season = Season { year: 2023, month: 8 };
    store.register_clan(tag.clone());

    let mut written = ClanStorage::default();
    written.player_names.insert(player("#P"), "Bob".to_string());
    written.games.insert(
        player("#P"),
        PlayerGamesStats { start_score: Some(10), end_score: 40 },
    );

    let bundle = store.get_mut(&tag, &season).unwrap();
    *bundle = written.clone();

    assert_eq!(store.get(&tag, &season), Some(&written));
}

#[test]
fn unregistered_clan_has_no_bundle() {
    let mut store = Storage::empty();
    let tag = clan("#A");
    let season = Season { year: 2023, month: 8 };
    assert!(store.get_mut(&tag, &season).is_none());
    assert!(store.get(&tag, &season).is_none());
    assert_eq!(store, Storage::empty());
    assert!(!store.has_clan(&tag));
}

#[test]
fn first_access_creates_an_empty_bundle() {
    let mut store = Storage::empty();
    let tag = clan("#A");
    let season = Season { year: 2023, month: 8 };
    store.register_clan(tag.clone());
    assert!(store.has_clan(&tag));
    assert!(store.get(&tag, &season).is_none());

    let bundle = store.get_mut(&tag, &season).unwrap();
    assert_eq!(*bundle, ClanStorage::default());
    assert!(bundle.cwl.wars.is_empty());
    assert!(bundle.wars.is_empty());
    assert!(bundle.games.is_empty());
    assert!(bundle.raid_weekend.is_empty());
    assert!(bundle.player_names.is_empty());

    assert_eq!(store.get(&tag, &season), Some(&ClanStorage::default()));
}

#[test]
fn get_never_creates() {
    let mut store = Storage::empty();
    let tag = clan("#A");
    store.register_clan(tag.clone());
    let before = store.clone();
    assert!(store.get(&tag, &Season { year: 2023, month: 8 }).is_none());
    assert_eq!(store, before);
}

#[test]
fn registering_twice_keeps_the_bundles() {
    let mut store = Storage::empty();
    let tag = clan("#A");
    let season = Season { year: 2023, month: 8 };
    store.register_clan(tag.clone());
    store
        .get_mut(&tag, &season)
        .unwrap()
        .player_names
        .insert(player("#P"), "Bob".to_string());
    let before = store.clone();

    store.register_clan(clan("#A"));

    assert_eq!(store, before);
    assert_eq!(
        store.get(&tag, &season).unwrap().player_names.get(&player("#P")),
        Some(&"Bob".to_string())
    );
}

#[test]
fn seasons_and_clans_are_kept_apart() {
    let mut store = Storage::empty();
    let first = clan("#A");
    let second = clan("#B");
    let august = Season { year: 2023, month: 8 };
    let september = Season { year: 2023, month: 9 };
    store.register_clan(first.clone());
    store.register_clan(second.clone());

    store
        .get_mut(&first, &august)
        .unwrap()
        .player_names
        .insert(player("#P"), "Bob".to_string());
    store
        .get_mut(&second, &august)
        .unwrap()
        .player_names
        .insert(player("#Q"), "Eve".to_string());
    store.get_mut(&first, &september).unwrap();

    assert_eq!(store.get(&first, &august).unwrap().player_names.len(), 1);
    assert_eq!(
        store.get(&first, &august).unwrap().player_names.get(&player("#P")),
        Some(&"Bob".to_string())
    );
    assert_eq!(
        store.get(&second, &august).unwrap().player_names.get(&player("#Q")),
        Some(&"Eve".to_string())
    );
    assert_eq!(store.get(&first, &september), Some(&ClanStorage::default()));
    assert!(store.get(&second, &september).is_none());
}

#[test]
fn second_access_finds_what_the_first_left() {
    let mut store = Storage::empty();
    let tag = clan("#A");
    let season = Season { year: 2023, month: 8 };
    store.register_clan(tag.clone());
    store
        .get_mut(&tag, &season)
        .unwrap()
        .player_names
        .insert(player("#P"), "Bob".to_string());
    let again = store.get_mut(&tag, &season).unwrap();
    assert_eq!(again.player_names.len(), 1);
    again.player_names.insert(player("#P"), "Robert".to_string());
    assert_eq!(
        store.get(&tag, &season).unwrap().player_names.get(&player("#P")),
        Some(&"Robert".to_string())
    );
}

#[test]
fn table_keeps_one_entry_for_each_key() {
    let mut table: Table<Time, usize> = Table::new();
    assert!(table.is_empty());
    let first = Time { year: 2023, month: 8, day: 4 };
    let second = Time { year: 2023, month: 8, day: 6 };
    table.insert(first, 1);
    table.insert(second, 2);
    table.insert(first, 3);
    assert_eq!(table.len(), 2);
    assert_eq!(table.get(&first), Some(&3));
    assert_eq!(table.get(&second), Some(&2));
    assert_eq!(*table.key_at(0), first);
    assert_eq!(*table.value_at(0), 3);
    assert_eq!(*table.key_at(1), second);
    assert!(table.contains_key(&second));
    assert!(!table.contains_key(&Time { year: 2023, month: 8, day: 5 }));
    assert_eq!(table.get(&Time { year: 2023, month: 8, day: 5 }), None);
}

#[test]
fn table_values_are_changed_in_place() {
    let mut table: Table<PlayerTag, usize> = Table::new();
    assert!(table.get_mut(&player("#P")).is_none());
    *table.get_or_insert(player("#P"), 5) += 1;
    assert_eq!(table.get(&player("#P")), Some(&6));
    *table.get_or_insert(player("#P"), 100) += 1;
    assert_eq!(table.get(&player("#P")), Some(&7));
    *table.get_mut(&player("#P")).unwrap() = 9;
    assert_eq!(table.get(&player("#P")), Some(&9));
    assert_eq!(table.len(), 1);
    table.clear();
    assert!(table.is_empty());
    assert_eq!(table.get(&player("#P")), None);
}
