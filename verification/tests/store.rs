use series_troxide::database::{Database, WriteOp};
use series_troxide::episode_list::{EpisodeInfo, EpisodeList};
use series_troxide::key::{parse_key, series_key};
use series_troxide::record::{decode_series, encode_series, RecordError};
use series_troxide::season::AddResult;
use series_troxide::series::Series;
use series_troxide::summation::checked_sum;

fn catalogue(series_id: u32, season: u32, aired: u32, listed: u32) -> EpisodeList {
    let mut episodes = Vec::new();
    for number in 1..=listed {
        episodes.push(EpisodeInfo { season, number: Some(number), watchable: Some(number <= aired) });
    }
    EpisodeList::new(series_id, episodes)
}

/// A store with series 5 (two seasons, 3 and 2 episodes), series 40 (one
/// season, 4 episodes) and series 300 (no season).
fn filled_store() -> Database {
    let mut db = Database::new();
    let mut first = Series::new("Dark".to_string(), 5);
    first.add_episodes(&mut db, &catalogue(5, 1, 3, 3), 1, 1..=3);
    first.add_episodes(&mut db, &catalogue(5, 2, 2, 2), 2, 1..=2);
    let mut second = Series::new("Severance".to_string(), 40);
    second.add_episodes(&mut db, &catalogue(40, 1, 4, 9), 1, 1..=9);
    let third = Series::new("Andor".to_string(), 300);
    db.track_series(300, &third);
    db
}

#[test]
fn untracked_series_is_not_found() {
    let mut db = filled_store();
    assert!(db.get_series(40).is_some());
    db.untrack_series(40);
    assert!(db.get_series(40).is_none());
    assert!(db.get_series(5).is_some());
    assert_eq!(db.get_total_series(), 2);
    db.untrack_series(40);
    assert_eq!(db.get_total_series(), 2);
}

#[test]
fn tracked_series_is_found_as_stored() {
    let mut db = Database::new();
    assert_eq!(db.get_total_series(), 0);
    assert!(db.get_series(1).is_none());
    let series = Series::new("Dark".to_string(), 1);
    db.track_series(1, &series);
    let found = db.get_series(1).unwrap();
    assert_eq!(found.get_name(), "Dark");
    assert_eq!(found.get_total_seasons(), 0);
    let renamed = Series::new("Dark (2017)".to_string(), 1);
    db.track_series(1, &renamed);
    assert_eq!(db.get_total_series(), 1);
    assert_eq!(db.get_series(1).unwrap().get_name(), "Dark (2017)");
}

#[test]
fn collections_hold_every_record_once() {
    let db = filled_store();
    let mut names: Vec<String> =
        db.get_series_collection().iter().map(|s| s.get_name().to_string()).collect();
    names.sort();
    assert_eq!(names, vec!["Andor", "Dark", "Severance"]);
    let mut keys = db.get_series_id_collection();
    keys.sort();
    assert_eq!(keys, vec!["300", "40", "5"]);
    let mut records: Vec<(String, String, usize)> = db
        .get_ids_and_series()
        .iter()
        .map(|(key, s)| (key.clone(), s.get_name().to_string(), s.get_total_episodes()))
        .collect();
    records.sort();
    assert_eq!(
        records,
        vec![
            ("300".to_string(), "Andor".to_string(), 0),
            ("40".to_string(), "Severance".to_string(), 4),
            ("5".to_string(), "Dark".to_string(), 5),
        ]
    );
    assert!(Database::new().get_series_collection().is_empty());
}

#[test]
fn totals_are_sums_over_the_store() {
    let db = filled_store();
    assert_eq!(db.get_total_series(), 3);
    assert_eq!(db.get_total_seasons(), 3);
    assert_eq!(db.get_total_episodes(), 9);
    assert_eq!(db.checked_total_seasons(), Some(3));
    assert_eq!(db.checked_total_episodes(), Some(9));
    let empty = Database::new();
    assert_eq!(empty.get_total_seasons(), 0);
    assert_eq!(empty.get_total_episodes(), 0);
}

#[test]
fn toggling_an_episode_tracks_then_untracks_it() {
    let mut db = filled_store();
    let list = catalogue(40, 1, 6, 9);
    assert_eq!(db.toggle_episode(&list, 40, 1, 5), Some(true));
    assert_eq!(db.get_series(40).unwrap().get_total_episodes(), 5);
    assert_eq!(db.toggle_episode(&list, 40, 1, 5), Some(false));
    assert_eq!(db.get_series(40).unwrap().get_total_episodes(), 4);
    assert_eq!(db.toggle_episode(&list, 40, 1, 8), Some(false));
    assert_eq!(db.get_series(40).unwrap().get_total_episodes(), 4);
    assert_eq!(db.toggle_episode(&list, 41, 1, 5), None);
    assert_eq!(db.get_total_series(), 3);
}

#[test]
fn toggling_a_season_tracks_it_or_forgets_it() {
    let mut db = filled_store();
    let list = catalogue(300, 1, 6, 8);
    assert_eq!(db.toggle_season(&list, 300, 1, 8), Some(AddResult::Partial));
    assert_eq!(db.get_series(300).unwrap().get_total_episodes(), 6);
    assert_eq!(db.toggle_season(&list, 300, 1, 8), Some(AddResult::Nothing));
    assert_eq!(db.get_series(300).unwrap().get_total_seasons(), 0);
    assert_eq!(db.toggle_season(&list, 300, 1, 6), Some(AddResult::Full));
    assert_eq!(db.get_series(300).unwrap().get_total_episodes(), 6);
    assert_eq!(db.toggle_season(&list, 300, 2, 0), Some(AddResult::Full));
    assert_eq!(db.get_series(300).unwrap().get_total_seasons(), 2);
    assert_eq!(db.toggle_season(&list, 301, 1, 8), None);
}

#[test]
fn keys_are_decimal_identifiers() {
    assert_eq!(series_key(0), "0");
    assert_eq!(series_key(7), "7");
    assert_eq!(series_key(10), "10");
    assert_eq!(series_key(82715), "82715");
    assert_eq!(series_key(u32::MAX), "4294967295");
}

#[test]
fn keys_are_read_back_strictly() {
    assert_eq!(parse_key("0"), Some(0));
    assert_eq!(parse_key("82715"), Some(82715));
    assert_eq!(parse_key("4294967295"), Some(u32::MAX));
    assert_eq!(parse_key("4294967296"), None);
    assert_eq!(parse_key("99999999999"), None);
    assert_eq!(parse_key(""), None);
    assert_eq!(parse_key("007"), None);
    assert_eq!(parse_key("+7"), None);
    assert_eq!(parse_key("7a"), None);
    assert_eq!(parse_key(" 7"), None);
    assert_eq!(parse_key("٧"), None);
    for id in [1u32, 9, 10, 99, 100, 4096, 1_000_000_000] {
        assert_eq!(parse_key(&series_key(id)), Some(id));
    }
}

#[test]
fn record_has_the_expected_bytes() {
    let mut db = Database::new();
    let mut series = Series::new("Ab".to_string(), 7);
    let list = EpisodeList::new(
        7,
        vec![EpisodeInfo { season: 2, number: Some(3), watchable: Some(true) }],
    );
    assert!(series.add_episode(&mut db, &list, 2, 3));
    let record = encode_series(&series).unwrap();
    let expected: Vec<u8> = vec![
        7, 0, 0, 0, // identifier
        2, 0, 0, 0, 0, 0, 0, 0, b'A', b'b', // name
        1, 0, 0, 0, 0, 0, 0, 0, // one season
        2, 0, 0, 0, // its number
        1, 0, 0, 0, 0, 0, 0, 0, // one episode
        3, 0, 0, 0, // its number
    ];
    assert_eq!(record, expected);
}

#[test]
fn record_gives_the_series_back() {
    let db = filled_store();
    let series = db.get_series(5).unwrap();
    let record = encode_series(&series).unwrap();
    let decoded = decode_series(&record).unwrap();
    assert_eq!(decoded.get_id(), 5);
    assert_eq!(decoded.get_name(), "Dark");
    assert_eq!(decoded.get_total_seasons(), 2);
    let mut first = decoded.get_season(1).unwrap().episodes();
    first.sort();
    assert_eq!(first, vec![1, 2, 3]);
    let mut second = decoded.get_season(2).unwrap().episodes();
    second.sort();
    assert_eq!(second, vec![1, 2]);
}

#[test]
fn record_with_repeated_entries_is_read_like_a_map() {
    let bytes: Vec<u8> = vec![
        9, 0, 0, 0, // identifier
        1, 0, 0, 0, 0, 0, 0, 0, b'X', // name
        2, 0, 0, 0, 0, 0, 0, 0, // two seasons listed
        1, 0, 0, 0, 2, 0, 0, 0, 0, 0, 0, 0, 5, 0, 0, 0, 5, 0, 0, 0, // season 1: 5, 5
        1, 0, 0, 0, 1, 0, 0, 0, 0, 0, 0, 0, 8, 0, 0, 0, // season 1 again: 8
    ];
    let series = decode_series(&bytes).unwrap();
    assert_eq!(series.get_id(), 9);
    assert_eq!(series.get_total_seasons(), 1);
    assert_eq!(series.get_season(1).unwrap().episodes(), vec![8]);
}

#[test]
fn broken_record_is_refused() {
    assert_eq!(decode_series(&[]).err(), Some(RecordError::Decode));
    assert_eq!(decode_series(&[1, 0, 0]).err(), Some(RecordError::Decode));
    let truncated: Vec<u8> = vec![7, 0, 0, 0, 5, 0, 0, 0, 0, 0, 0, 0, b'A'];
    assert_eq!(decode_series(&truncated).err(), Some(RecordError::Decode));
    let not_text: Vec<u8> =
        vec![7, 0, 0, 0, 1, 0, 0, 0, 0, 0, 0, 0, 0xff, 0, 0, 0, 0, 0, 0, 0, 0];
    assert_eq!(decode_series(&not_text).err(), Some(RecordError::Decode));
}

#[test]
fn write_op_says_what_to_write() {
    let db = filled_store();
    match db.write_op(300).unwrap() {
        WriteOp::Put { key, value } => {
            assert_eq!(key, "300");
            let expected: Vec<u8> = vec![
                44, 1, 0, 0, 5, 0, 0, 0, 0, 0, 0, 0, b'A', b'n', b'd', b'o', b'r', 0, 0, 0, 0, 0,
                0, 0, 0,
            ];
            assert_eq!(value, expected);
        }
        WriteOp::Delete { .. } => panic!("series 300 is tracked"),
    }
    match db.write_op(301).unwrap() {
        WriteOp::Delete { key } => assert_eq!(key, "301"),
        WriteOp::Put { .. } => panic!("series 301 is not tracked"),
    }
}

#[test]
fn load_record_takes_a_record_into_the_store() {
    let source = filled_store();
    let mut db = Database::new();
    for id in [5u32, 40, 300] {
        match source.write_op(id).unwrap() {
            WriteOp::Put { key, value } => assert_eq!(db.load_record(&key, &value), Ok(())),
            WriteOp::Delete { .. } => panic!("series {} is tracked", id),
        }
    }
    assert_eq!(db.get_total_series(), 3);
    assert_eq!(db.get_total_seasons(), 3);
    assert_eq!(db.get_total_episodes(), 9);
    assert_eq!(db.get_series(40).unwrap().get_name(), "Severance");
}

#[test]
fn load_record_refuses_what_it_cannot_read() {
    let source = filled_store();
    let value = match source.write_op(5).unwrap() {
        WriteOp::Put { value, .. } => value,
        WriteOp::Delete { .. } => panic!("series 5 is tracked"),
    };
    let mut db = Database::new();
    assert_eq!(db.load_record("five", &value), Err(RecordError::Key));
    assert_eq!(db.load_record("05", &value), Err(RecordError::Key));
    assert_eq!(db.load_record("5", &value[..6]), Err(RecordError::Decode));
    assert_eq!(db.load_record("x", &value[..6]), Err(RecordError::Key));
    assert_eq!(db.get_total_series(), 0);
    assert_eq!(db.load_record("6", &value), Ok(()));
    assert_eq!(db.get_series(6).unwrap().get_id(), 5);
}

#[test]
fn series_is_found_by_name() {
    let db = filled_store();
    assert_eq!(db.find_by_name("Severance").unwrap().get_id(), 40);
    assert_eq!(db.find_by_name("Andor").unwrap().get_total_seasons(), 0);
    assert!(db.find_by_name("severance").is_none());
    assert!(Database::new().find_by_name("Dark").is_none());
}

#[test]
fn series_is_built_from_plain_values() {
    let series = Series::from_parts(
        11,
        "Lost".to_string(),
        vec![(1, vec![1, 2, 2]), (3, vec![]), (1, vec![7])],
    );
    assert_eq!(series.get_id(), 11);
    assert_eq!(series.get_name(), "Lost");
    assert_eq!(series.get_total_seasons(), 2);
    assert_eq!(series.get_season(1).unwrap().episodes(), vec![7]);
    assert_eq!(series.get_season(3).unwrap().get_total_episodes(), 0);
    let mut listed = series.seasons_listing();
    listed.sort();
    assert_eq!(listed, vec![(1, vec![7]), (3, vec![])]);
}

#[test]
fn counts_are_summed_with_care() {
    assert_eq!(checked_sum(&vec![]), Some(0));
    assert_eq!(checked_sum(&vec![3, 0, 4]), Some(7));
    assert_eq!(checked_sum(&vec![usize::MAX - 1, 1]), Some(usize::MAX));
    assert_eq!(checked_sum(&vec![usize::MAX, 1]), None);
    assert_eq!(checked_sum(&vec![1, usize::MAX, 0]), None);
}

#[test]
fn tracked_series_always_has_a_record() {
    let db = filled_store();
    for id in [5u32, 40, 300] {
        assert!(matches!(db.write_op(id), Ok(WriteOp::Put { .. })));
        assert!(encode_series(&db.get_series(id).unwrap()).is_ok());
    }
    assert!(matches!(db.write_op(6), Ok(WriteOp::Delete { .. })));
}
