use gold_pass_bot::{
    generate_batches, ClanStorage, CwlWarStats, ExcelStats, MemberWarStats, PlayerGamesStats,
    PlayerSummary, PlayerTag, RaidMember, RaidWeekendStats, SheetRow, Table, Time, WarAttack,
    WarStats,
};

fn player(text: &str) -> PlayerTag {
    PlayerTag(text.to_string())
}

fn members(entries: Vec<(&str, Vec<usize>)>) -> Table<PlayerTag, MemberWarStats> {
    let mut table = Table::new();
    for (tag, stars) in entries {
        table.insert(
            player(tag),
            MemberWarStats {
                attacks: stars
                    .into_iter()
                    .map(|stars| WarAttack { destruction: 50, stars, duration: 90 })
                    .collect(),
            },
        );
    }
    table
}

fn bundle() -> ClanStorage {
    let mut bundle = ClanStorage::default();
    bundle.player_names.insert(player("#Q"), "Eve".to_string());
    bundle.player_names.insert(player("#P"), "Bob".to_string());
    for round in 0..9 {
        bundle.cwl.wars.push(CwlWarStats {
            members: members(vec![("#P", vec![round % 4]), ("#Q", vec![1, 1])]),
        });
    }
    for day in [4, 6] {
        let start_time = Time { year: 2023, month: 8, day };
        bundle.wars.insert(
            start_time,
            WarStats { start_time, members: members(vec![("#P", vec![3, day - 4])]) },
        );
    }
    for day in [5, 12, 19] {
        let start_time = Time { year: 2023, month: 8, day };
        let mut looters = Table::new();
        looters.insert(player("#Q"), RaidMember { looted: 100 * day });
        bundle.raid_weekend.insert(start_time, RaidWeekendStats { start_time, members: looters });
    }
    bundle.games.insert(
        player("#P"),
        PlayerGamesStats { start_score: Some(0), end_score: 4000 },
    );
    bundle
}

/// The messages as `format!` writes them.
fn expected_batches(
    player_count: usize,
    header_padding_width: usize,
    padding_width: usize,
    summaries: &[(String, PlayerSummary)],
    timestamp: u64,
) -> Vec<String> {
    let mut lines = summaries.iter().map(|(name, sum)| {
        format!(
            "{:width$}|  {:2} |   {:2} | {:5} |    {:2}",
            name,
            sum.cwl_stars,
            sum.war_stars,
            sum.raid_loot,
            sum.games_score,
            width = padding_width
        )
    });
    let line_width = format!(
        "{:width$}|  {:2} |   {:2} | {:5} |    {:2}",
        "",
        0,
        0,
        0,
        0,
        width = padding_width
    )
    .len();
    let players_per_line = 1800 / line_width;
    let count = player_count / players_per_line + 1;
    let mut batches = Vec::new();
    for batch in 0..count {
        let mut text = format!(
            "```Player Tag {:width$}| CWL | Wars | Raids | Games",
            ' ',
            width = header_padding_width
        );
        text.push('\n');
        text.push_str(&"-".repeat(40 + padding_width.saturating_sub(11)));
        for line in lines.by_ref().take(players_per_line) {
            text.push('\n');
            text.push_str(&line);
        }
        text.push_str("\n```");
        text.push_str(&format!("\nTimestamp: {}\n{}/{}", timestamp, batch + 1, count));
        batches.push(text);
    }
    batches
}

fn summaries(count: usize) -> Vec<(String, PlayerSummary)> {
    (0..count)
        .map(|i| {
            (
                format!("Player {}", "x".repeat(i % 7)),
                PlayerSummary {
                    cwl_stars: i % 22,
                    war_stars: (7 * i) % 120,
                    raid_loot: (i * 9973) % 1_300_000,
                    games_score: (i * 331) % 5001,
                },
            )
        })
        .collect()
}

#[test]
fn head_of_the_sheet() {
    let head = ExcelStats::new().header(&bundle());
    assert_eq!(
        head,
        vec![
            "Name", "CWL 1", "CWL 2", "CWL 3", "CWL 4", "CWL 5", "CWL 6", "CWL 7", "CWL Score",
            "War 1", "War 2", "War Score", "Raid 1", "Raid 2", "Raid 3", "Raid Score",
            "Total Score",
        ]
    );
    assert_eq!(
        ExcelStats::new().header(&ClanStorage::default()),
        vec![
            "Name", "CWL 1", "CWL 2", "CWL 3", "CWL 4", "CWL 5", "CWL 6", "CWL 7", "CWL Score",
            "War Score", "Raid Score", "Total Score",
        ]
    );
}

#[test]
fn head_numbers_beyond_nine() {
    let mut stats = ClanStorage::default();
    for day in 1..=12 {
        let start_time = Time { year: 2023, month: 8, day };
        stats.wars.insert(start_time, WarStats { start_time, members: Table::new() });
    }
    let head = ExcelStats::new().header(&stats);
    assert_eq!(head[9], "War 1");
    assert_eq!(head[18], "War 10");
    assert_eq!(head[20], "War 12");
    assert_eq!(head[21], "War Score");
}

#[test]
fn rows_of_the_sheet() {
    let stats = bundle();
    let rows = ExcelStats::new().rows(&stats).unwrap();
    assert_eq!(
        rows,
        vec![
            SheetRow {
                name: "Eve".to_string(),
                tag: player("#Q"),
                cwl_stars: vec![2, 2, 2, 2, 2, 2, 2],
                war_stars: vec![0, 0],
                raid_loot: vec![500, 1200, 1900],
                summary: PlayerSummary {
                    cwl_stars: 18,
                    war_stars: 0,
                    raid_loot: 3600,
                    games_score: 0
                },
            },
            SheetRow {
                name: "Bob".to_string(),
                tag: player("#P"),
                cwl_stars: vec![0, 1, 2, 3, 0, 1, 2],
                war_stars: vec![3, 5],
                raid_loot: vec![0, 0, 0],
                summary: PlayerSummary {
                    cwl_stars: 12,
                    war_stars: 8,
                    raid_loot: 0,
                    games_score: 4000
                },
            },
        ]
    );
    assert_eq!(ExcelStats::new().row(&stats, 1), Some(rows[1].clone()));
}

#[test]
fn rows_with_fewer_rounds_than_the_sheet_shows() {
    let mut stats = ClanStorage::default();
    stats.player_names.insert(player("#P"), "Bob".to_string());
    stats.cwl.wars.push(CwlWarStats { members: members(vec![("#P", vec![3])]) });
    stats.cwl.wars.push(CwlWarStats { members: members(vec![]) });
    let rows = ExcelStats::new().rows(&stats).unwrap();
    assert_eq!(rows[0].cwl_stars, vec![3, 0, 0, 0, 0, 0, 0]);
    assert_eq!(rows[0].war_stars, Vec::<usize>::new());
    assert_eq!(ExcelStats::new().rows(&ClanStorage::default()), Some(vec![]));
}

#[test]
fn rows_with_a_total_that_does_not_fit() {
    let mut stats = ClanStorage::default();
    stats.player_names.insert(player("#P"), "Bob".to_string());
    for day in [5, 12] {
        let start_time = Time { year: 2023, month: 8, day };
        let mut looters = Table::new();
        looters.insert(player("#P"), RaidMember { looted: usize::MAX });
        stats.raid_weekend.insert(start_time, RaidWeekendStats { start_time, members: looters });
    }
    assert_eq!(ExcelStats::new().rows(&stats), None);
    assert_eq!(ExcelStats::new().row(&stats, 0), None);
}

#[test]
fn one_batch() {
    let players = vec![
        (
            "Bob".to_string(),
            PlayerSummary { cwl_stars: 3, war_stars: 3, raid_loot: 500, games_score: 40 },
        ),
        (
            "Evelyn of the long name".to_string(),
            PlayerSummary { cwl_stars: 21, war_stars: 112, raid_loot: 1234567, games_score: 5000 },
        ),
    ];
    let batches = generate_batches(2, 12, 23, &players, 1691132400);
    assert_eq!(
        batches,
        vec![[
            "```Player Tag             | CWL | Wars | Raids | Games",
            "----------------------------------------------------",
            "Bob                    |   3 |    3 |   500 |    40",
            "Evelyn of the long name|  21 |   112 | 1234567 |    5000",
            "```",
            "Timestamp: 1691132400",
            "1/1",
        ]
        .join("\n")]
    );
    assert_eq!(batches, expected_batches(2, 12, 23, &players, 1691132400));
}

#[test]
fn batches_are_as_long_as_a_message_allows() {
    for (count, padding_width) in [(0, 11), (1, 11), (45, 11), (46, 11), (47, 11), (100, 17), (7, 1772), (3, 872), (3, 873)] {
        let players = summaries(count);
        let header_padding_width = padding_width - 11usize.min(padding_width);
        let batches = generate_batches(count, header_padding_width, padding_width, &players, 0);
        assert_eq!(
            batches,
            expected_batches(count, header_padding_width, padding_width, &players, 0),
            "{} {}",
            count,
            padding_width
        );
    }
    assert_eq!(generate_batches(46, 0, 11, &summaries(46), 5).len(), 2);
    assert_eq!(generate_batches(45, 0, 11, &summaries(45), 5).len(), 1);
    assert_eq!(generate_batches(0, 0, 11, &summaries(0), 5).len(), 1);
}

#[test]
fn batches_with_names_in_other_scripts() {
    let players = vec![
        (
            "J\u{fc}rgen".to_string(),
            PlayerSummary { cwl_stars: 0, war_stars: 0, raid_loot: 0, games_score: 0 },
        ),
        (
            "\u{5f20}\u{4f1f}".to_string(),
            PlayerSummary { cwl_stars: 1, war_stars: 2, raid_loot: 3, games_score: 4 },
        ),
    ];
    assert_eq!(
        generate_batches(2, 0, 8, &players, u64::MAX),
        expected_batches(2, 0, 8, &players, u64::MAX)
    );
}

#[test]
fn batches_count_the_players_that_are_announced() {
    let players = summaries(3);
    assert_eq!(
        generate_batches(200, 0, 11, &players, 9),
        expected_batches(200, 0, 11, &players, 9)
    );
    assert_eq!(generate_batches(200, 0, 11, &players, 9).len(), 5);
    let players = summaries(100);
    assert_eq!(
        generate_batches(2, 0, 11, &players, 9),
        expected_batches(2, 0, 11, &players, 9)
    );
}

fn named(names: Vec<&str>) -> ClanStorage {
    let mut stats = ClanStorage::default();
    for (i, name) in names.into_iter().enumerate() {
        stats.player_names.insert(player(&format!("#P{}", i)), name.to_string());
        stats.games.insert(
            player(&format!("#P{}", i)),
            PlayerGamesStats { start_score: None, end_score: 100 + i },
        );
    }
    stats
}

#[test]
fn texts_in_the_order_of_their_bytes() {
    let texts = ["", "A", "Ab", "B", "Zoe", "a", "ab", "abc", "b", "\u{e9}", "\u{5f20}"];
    for (i, first) in texts.iter().enumerate() {
        for (j, second) in texts.iter().enumerate() {
            assert_eq!(
                gold_pass_bot::bytes_precede(first.as_bytes(), second.as_bytes()),
                i < j,
                "{:?} {:?}",
                first,
                second
            );
            assert_eq!(
                gold_pass_bot::bytes_precede(first.as_bytes(), second.as_bytes()),
                first.to_string() < second.to_string()
            );
        }
    }
}

#[test]
fn names_in_order() {
    let stats = named(vec!["Eve", "bob", "Bob", "Eve", "", "Adam", "Eve", "adam"]);
    assert_eq!(
        gold_pass_bot::name_order(&stats.player_names),
        vec![4, 5, 2, 0, 3, 6, 7, 1]
    );
    assert_eq!(gold_pass_bot::name_order(&named(vec![]).player_names), Vec::<usize>::new());
    assert_eq!(gold_pass_bot::name_order(&named(vec!["x"]).player_names), vec![0]);
}

#[test]
fn rows_in_the_order_of_the_names() {
    let stats = named(vec!["Eve", "bob", "Bob", "Eve", "Adam"]);
    let rows = ExcelStats::new().rows_by_name(&stats).unwrap();
    let shown: Vec<(&str, &str)> = rows
        .iter()
        .map(|row| (row.name.as_str(), row.tag.0.as_str()))
        .collect();
    assert_eq!(
        shown,
        vec![("Adam", "#P4"), ("Bob", "#P2"), ("Eve", "#P0"), ("Eve", "#P3"), ("bob", "#P1")]
    );
    assert_eq!(rows[3], ExcelStats::new().row(&stats, 3).unwrap());
    assert_eq!(rows[0].summary.games_score, 104);

    let mut expected = ExcelStats::new().rows(&stats).unwrap();
    expected.sort_by(|first, second| first.name.cmp(&second.name));
    assert_eq!(rows, expected);
}

#[test]
fn summaries_in_the_order_of_the_names() {
    let stats = named(vec!["Eve", "bob", "Bob", "Eve", "Adam", "Eve"]);
    let lines = gold_pass_bot::summaries_by_name(&stats).unwrap();
    let shown: Vec<(&str, usize)> = lines
        .iter()
        .map(|(name, summary)| (name.as_str(), summary.games_score))
        .collect();
    assert_eq!(shown, vec![("Adam", 104), ("Bob", 102), ("Eve", 105), ("bob", 101)]);

    let by_name: std::collections::BTreeMap<String, PlayerSummary> = stats
        .players_summary()
        .into_iter()
        .map(|(tag, summary)| (stats.player_names.get(&tag).unwrap().clone(), summary))
        .collect();
    assert_eq!(lines, by_name.into_iter().collect::<Vec<_>>());
    assert_eq!(gold_pass_bot::summaries_by_name(&ClanStorage::default()), Some(vec![]));
}

#[test]
fn summaries_by_name_with_a_total_that_does_not_fit() {
    let mut stats = named(vec!["Eve", "Eve"]);
    for day in [5, 12] {
        let start_time = Time { year: 2023, month: 8, day };
        let mut looters = Table::new();
        looters.insert(player("#P0"), RaidMember { looted: usize::MAX });
        stats.raid_weekend.insert(start_time, RaidWeekendStats { start_time, members: looters });
    }
    assert_eq!(gold_pass_bot::summaries_by_name(&stats), None);
    assert_eq!(ExcelStats::new().rows_by_name(&stats), None);
}

#[test]
fn width_of_the_names() {
    assert_eq!(gold_pass_bot::name_column_width(&vec![]), 11);
    assert_eq!(gold_pass_bot::name_column_width(&summaries(7)), 13);
    let long = vec![
        (
            "J\u{fc}rgen the second".to_string(),
            PlayerSummary { cwl_stars: 0, war_stars: 0, raid_loot: 0, games_score: 0 },
        ),
        (
            "Bob".to_string(),
            PlayerSummary { cwl_stars: 0, war_stars: 0, raid_loot: 0, games_score: 0 },
        ),
    ];
    assert_eq!(gold_pass_bot::name_column_width(&long), 18);
}
