use gold_pass_bot::{ClanWarLeagueSeason, Season, StoreError, Time};

#[test]
fn parse() {
    let content = "{ \"time\": \"20230804T070000.000Z\" }";

    let document: serde_json::Value = serde_json::from_str(content).unwrap();
    let result = Time::parse(document["time"].as_str().unwrap()).unwrap();

    assert_eq!(
        Time {
            year: 2023,
            month: 8,
            day: 4,
        },
        result
    );
}

#[test]
fn ordering() {
    let first = Time {
        year: 2023,
        month: 6,
        day: 10,
    };
    let second = Time {
        year: 2023,
        month: 6,
        day: 12,
    };
    let third = Time {
        year: 2023,
        month: 7,
        day: 10,
    };

    assert!(first < second);
    assert!(first < third);
    assert!(second < third);
}

#[test]
fn ordering_is_by_year_then_month_then_day() {
    let early = Time { year: 2022, month: 12, day: 31 };
    let late = Time { year: 2023, month: 1, day: 1 };
    assert!(early < late);
    assert!(late > early);
    assert!(!(late < early));
    assert!(early <= early);
    assert!(early >= early);
    assert_eq!(early.partial_cmp(&early), Some(std::cmp::Ordering::Equal));
    assert_eq!(early.partial_cmp(&late), Some(std::cmp::Ordering::Less));
    assert_eq!(late.partial_cmp(&early), Some(std::cmp::Ordering::Greater));
    assert_eq!(early.cmp(&late), std::cmp::Ordering::Less);
}

#[test]
fn equal_times_from_different_texts() {
    let morning = Time::parse("20230804T070000.000Z").unwrap();
    let evening = Time::parse("20230804T193000.000Z").unwrap();
    assert_eq!(morning, evening);
}

#[test]
fn time_shorter_than_a_timestamp_is_refused() {
    assert_eq!(Time::parse(""), Err(StoreError::ConfigError));
    assert_eq!(Time::parse("20230804"), Err(StoreError::ConfigError));
    assert_eq!(Time::parse("20230804T070000.000"), Err(StoreError::ConfigError));
}

#[test]
fn time_with_a_bad_group_is_refused() {
    assert_eq!(Time::parse("2o230804T070000.000Z"), Err(StoreError::ConfigError));
    assert_eq!(Time::parse("2023x804T070000.000Z"), Err(StoreError::ConfigError));
    assert_eq!(Time::parse("202308 4T070000.000Z"), Err(StoreError::ConfigError));
    assert_eq!(Time::parse("-0230804T070000.000Z"), Err(StoreError::ConfigError));
    assert_eq!(Time::parse("\u{e9}0230804T070000.000Z"), Err(StoreError::ConfigError));
}

#[test]
fn time_reads_only_its_first_eight_bytes() {
    assert_eq!(
        Time::parse("00010203 anything else"),
        Ok(Time { year: 1, month: 2, day: 3 })
    );
    assert_eq!(
        Time::parse("+0230804T070000.000Z"),
        Ok(Time { year: 23, month: 8, day: 4 })
    );
}

#[test]
fn time_is_written_as_midnight() {
    let time = Time { year: 2023, month: 8, day: 4 };
    assert_eq!(time.to_text(), "20230804T000000.000Z");
    assert_eq!(Time { year: 7, month: 12, day: 31 }.to_text(), "00071231T000000.000Z");
    assert_eq!(Time { year: 0, month: 0, day: 0 }.to_text(), "00000000T000000.000Z");
}

#[test]
fn time_text_round_trip() {
    for time in [
        Time { year: 2023, month: 8, day: 4 },
        Time { year: 0, month: 0, day: 0 },
        Time { year: 9999, month: 99, day: 99 },
        Time { year: 1, month: 10, day: 9 },
    ] {
        assert_eq!(Time::parse(&time.to_text()), Ok(time));
    }
}

#[test]
fn time_with_a_five_digit_year_is_not_read_back() {
    let time = Time { year: 12345, month: 1, day: 2 };
    assert_eq!(time.to_text(), "123450102T000000.000Z");
    assert_eq!(
        Time::parse(&time.to_text()),
        Ok(Time { year: 1234, month: 50, day: 10 })
    );
}

#[test]
fn season_of_a_time() {
    let season = Season::from(Time { year: 2023, month: 8, day: 4 });
    assert_eq!(season, Season { year: 2023, month: 8 });
    assert_eq!(season.to_text(), "2023-08");
}

#[test]
fn season_of_a_league_season() {
    let league = ClanWarLeagueSeason::parse("2023-08").unwrap();
    assert_eq!(league, ClanWarLeagueSeason { year: 2023, month: 8 });
    assert_eq!(
        Season::from(league),
        Season::from(Time { year: 2023, month: 8, day: 27 })
    );
}

#[test]
fn season_is_read_from_text() {
    assert_eq!(Season::parse("2023-08"), Ok(Season { year: 2023, month: 8 }));
    assert_eq!(Season::parse("2023-8"), Ok(Season { year: 2023, month: 8 }));
    assert_eq!(Season::parse("0-0"), Ok(Season { year: 0, month: 0 }));
    assert_eq!(Season::parse("+2023-+8"), Ok(Season { year: 2023, month: 8 }));
}

#[test]
fn season_without_two_numbers_is_refused() {
    for text in ["", "2023", "2023-", "-08", "-", "2023-08-01", "2023 -08", "2023/08", "a-b", "+-1"] {
        assert_eq!(Season::parse(text), Err(StoreError::ConfigError), "{}", text);
        assert_eq!(ClanWarLeagueSeason::parse(text), Err(StoreError::ConfigError), "{}", text);
    }
}

#[test]
fn season_with_a_number_too_large_is_refused() {
    assert_eq!(
        Season::parse("340282366920938463463374607431768211456-1"),
        Err(StoreError::ConfigError)
    );
    assert_eq!(
        Season::parse("1-340282366920938463463374607431768211456"),
        Err(StoreError::ConfigError)
    );
    let largest = format!("{}-{}", usize::MAX, usize::MAX);
    assert_eq!(
        Season::parse(&largest),
        Ok(Season { year: usize::MAX, month: usize::MAX })
    );
}

#[test]
fn season_text_round_trip() {
    for season in [
        Season { year: 2023, month: 8 },
        Season { year: 0, month: 0 },
        Season { year: 123456, month: 123 },
        Season { year: usize::MAX, month: usize::MAX },
    ] {
        assert_eq!(Season::parse(&season.to_text()), Ok(season));
    }
    assert_eq!(Season { year: 5, month: 123 }.to_text(), "0005-123");
}

#[test]
fn season_before() {
    assert_eq!(
        Season { year: 2023, month: 8 }.previous(),
        Season { year: 2023, month: 7 }
    );
    assert_eq!(
        Season { year: 2023, month: 1 }.previous(),
        Season { year: 2022, month: 12 }
    );
    assert_eq!(Season { year: 0, month: 1 }.previous(), Season { year: 0, month: 1 });
}

#[test]
fn season_of_the_calendar() {
    assert_eq!(Season::from_calendar(2023, 8), Season { year: 2023, month: 8 });
    assert_eq!(
        Season::from_calendar(-1, 8),
        Season { year: usize::MAX, month: 8 }
    );
}

#[test]
fn season_running_now() {
    let season = Season::current().unwrap();
    assert!(1 <= season.month && season.month <= 12);
    assert!(season.year >= 2024);
    assert!(season.year < 10000);
}
