use series_troxide::database::Database;
use series_troxide::episode_list::{EpisodeInfo, EpisodeList};
use series_troxide::season::{AddResult, Season};
use series_troxide::series::Series;

const SERIES_ID: u32 = 82;

/// A catalogue of one season that lists the episodes `1..=listed`, of which
/// `1..=aired` have aired.
fn catalogue(season: u32, aired: u32, listed: u32) -> EpisodeList {
    let mut episodes = Vec::new();
    for number in 1..=listed {
        episodes.push(EpisodeInfo { season, number: Some(number), watchable: Some(number <= aired) });
    }
    EpisodeList::new(SERIES_ID, episodes)
}

fn new_series() -> Series {
    Series::new("Westworld".to_string(), SERIES_ID)
}

#[test]
fn add_episodes_on_empty_season_is_full() {
    let mut db = Database::new();
    let mut series = new_series();
    let list = catalogue(1, 10, 10);
    let result = series.add_episodes(&mut db, &list, 1, 1..=10);
    assert_eq!(result, AddResult::Full);
    assert_eq!(series.get_season(1).unwrap().get_total_episodes(), 10);
}

#[test]
fn add_episodes_again_adds_nothing() {
    let mut db = Database::new();
    let mut series = new_series();
    let list = catalogue(1, 10, 10);
    series.add_episodes(&mut db, &list, 1, 1..=10);
    let result = series.add_episodes(&mut db, &list, 1, 1..=10);
    assert_eq!(result, AddResult::Nothing);
    assert_eq!(series.get_season(1).unwrap().get_total_episodes(), 10);
}

#[test]
fn add_episodes_overlapping_is_partial() {
    let mut db = Database::new();
    let mut series = new_series();
    let list = catalogue(1, 15, 15);
    series.add_episodes(&mut db, &list, 1, 1..=10);
    let result = series.add_episodes(&mut db, &list, 1, 5..=15);
    assert_eq!(result, AddResult::Partial);
    assert_eq!(series.get_season(1).unwrap().get_total_episodes(), 15);
}

#[test]
fn add_episodes_stops_at_unaired_episodes() {
    let mut db = Database::new();
    let mut series = new_series();
    let list = catalogue(1, 4, 10);
    let result = series.add_episodes(&mut db, &list, 1, 1..=10);
    assert_eq!(result, AddResult::Partial);
    let season = series.get_season(1).unwrap();
    assert_eq!(season.get_total_episodes(), 4);
    assert!(season.is_episode_watched(4));
    assert!(!season.is_episode_watched(5));
    assert_eq!(season.get_last_episode(), Some(4));
}

#[test]
fn add_episodes_of_unaired_season_adds_nothing_but_keeps_the_season() {
    let mut db = Database::new();
    let mut series = new_series();
    let list = catalogue(1, 0, 10);
    let result = series.add_episodes(&mut db, &list, 1, 1..=10);
    assert_eq!(result, AddResult::Nothing);
    assert_eq!(series.get_total_seasons(), 1);
    assert_eq!(series.get_season(1).unwrap().get_total_episodes(), 0);
}

#[test]
fn add_episodes_of_empty_range_is_full() {
    let mut db = Database::new();
    let mut series = new_series();
    let list = catalogue(1, 10, 10);
    #[allow(clippy::reversed_empty_ranges)]
    let result = series.add_episodes(&mut db, &list, 1, 5..=4);
    assert_eq!(result, AddResult::Full);
    assert_eq!(series.get_season(1).unwrap().get_total_episodes(), 0);
}

#[test]
fn add_episodes_of_exhausted_range_is_full() {
    let mut db = Database::new();
    let mut series = new_series();
    let list = catalogue(1, 10, 10);
    let mut range = 3..=3;
    assert_eq!(range.next(), Some(3));
    let result = series.add_episodes(&mut db, &list, 1, range);
    assert_eq!(result, AddResult::Full);
    assert_eq!(series.get_season(1).unwrap().get_total_episodes(), 0);
}

#[test]
fn add_episodes_up_to_the_highest_number() {
    let mut db = Database::new();
    let mut series = new_series();
    let episodes = vec![EpisodeInfo { season: 1, number: Some(u32::MAX), watchable: Some(true) }];
    let list = EpisodeList::new(SERIES_ID, episodes);
    let result = series.add_episodes(&mut db, &list, 1, (u32::MAX - 2)..=u32::MAX);
    assert_eq!(result, AddResult::Partial);
    assert_eq!(series.get_season(1).unwrap().get_last_episode(), Some(u32::MAX));
}

#[test]
fn unaired_episode_is_never_tracked() {
    let mut db = Database::new();
    let mut series = new_series();
    let list = catalogue(1, 3, 6);
    assert!(!series.add_episode(&mut db, &list, 1, 4));
    assert!(!series.get_season(1).unwrap().is_episode_watched(4));
    assert!(!series.add_episode(&mut db, &list, 1, 4));
    assert_eq!(series.get_total_episodes(), 0);
}

#[test]
fn undeterminable_or_unlisted_episode_is_not_tracked() {
    let mut db = Database::new();
    let mut series = new_series();
    let episodes = vec![
        EpisodeInfo { season: 1, number: Some(1), watchable: None },
        EpisodeInfo { season: 1, number: None, watchable: Some(true) },
        EpisodeInfo { season: 2, number: Some(2), watchable: Some(true) },
    ];
    let list = EpisodeList::new(SERIES_ID, episodes);
    assert!(!series.add_episode(&mut db, &list, 1, 1));
    assert!(!series.add_episode(&mut db, &list, 1, 2));
    assert!(series.add_episode(&mut db, &list, 2, 2));
    assert_eq!(series.get_total_episodes(), 1);
}

#[test]
fn catalogue_of_another_series_resolves_nothing() {
    let mut db = Database::new();
    let mut series = Series::new("Dark".to_string(), SERIES_ID + 1);
    let list = catalogue(1, 10, 10);
    assert!(!series.add_episode(&mut db, &list, 1, 1));
    assert!(!list.is_watchable(SERIES_ID + 1, 1, 1));
    assert!(list.is_watchable(SERIES_ID, 1, 1));
}

#[test]
fn first_listing_of_an_episode_decides() {
    let episodes = vec![
        EpisodeInfo { season: 1, number: Some(1), watchable: Some(false) },
        EpisodeInfo { season: 1, number: Some(1), watchable: Some(true) },
    ];
    let list = EpisodeList::new(SERIES_ID, episodes);
    assert_eq!(list.series_id(), SERIES_ID);
    let found = list.get_episode(1, 1).unwrap();
    assert_eq!(EpisodeList::is_episode_watchable(found), Some(false));
    assert!(!list.is_watchable(SERIES_ID, 1, 1));
    assert!(list.get_episode(1, 2).is_none());
}

#[test]
fn aired_episode_is_added_exactly_once() {
    let mut db = Database::new();
    let mut series = new_series();
    let list = catalogue(1, 3, 6);
    assert!(series.add_episode(&mut db, &list, 1, 2));
    assert!(series.get_season(1).unwrap().is_episode_watched(2));
    assert!(!series.add_episode(&mut db, &list, 1, 2));
    assert_eq!(series.get_season(1).unwrap().get_total_episodes(), 1);
}

#[test]
fn last_season_skips_unwatched_seasons() {
    let mut db = Database::new();
    let mut series = new_series();
    let list = catalogue(2, 5, 5);
    series.add_season(&mut db, 1);
    series.add_episodes(&mut db, &list, 2, 1..=5);
    series.add_season(&mut db, 3);
    let (number, season) = series.get_last_season().unwrap();
    assert_eq!(number, 2);
    assert_eq!(season.get_total_episodes(), 5);
}

#[test]
fn last_season_of_unwatched_series_is_none() {
    let mut db = Database::new();
    let mut series = new_series();
    assert!(series.get_last_season().is_none());
    series.add_season(&mut db, 4);
    assert!(series.get_last_season().is_none());
}

#[test]
fn total_episodes_is_the_sum_over_seasons() {
    let mut db = Database::new();
    let mut series = new_series();
    let first = catalogue(1, 10, 10);
    let second = catalogue(2, 7, 8);
    series.add_episodes(&mut db, &first, 1, 1..=10);
    series.add_episodes(&mut db, &second, 2, 1..=8);
    series.add_season(&mut db, 3);
    assert_eq!(series.get_total_seasons(), 3);
    assert_eq!(series.get_total_episodes(), 17);
    assert_eq!(series.checked_total_episodes(), Some(17));
    let by_season: usize =
        (1..=3).map(|n| series.get_season(n).unwrap().get_total_episodes()).sum();
    assert_eq!(series.get_total_episodes(), by_season);
}

#[test]
fn add_season_replaces_an_existing_season() {
    let mut db = Database::new();
    let mut series = new_series();
    let list = catalogue(1, 10, 10);
    series.add_episodes(&mut db, &list, 1, 1..=10);
    series.add_season(&mut db, 1);
    assert_eq!(series.get_total_seasons(), 1);
    assert_eq!(series.get_season(1).unwrap().get_total_episodes(), 0);
}

#[test]
fn remove_season_and_remove_episode() {
    let mut db = Database::new();
    let mut series = new_series();
    let list = catalogue(1, 10, 10);
    series.add_episodes(&mut db, &list, 1, 1..=10);
    series.remove_episode(&mut db, 1, 10);
    series.remove_episode(&mut db, 9, 1);
    assert_eq!(series.get_season(1).unwrap().get_total_episodes(), 9);
    assert_eq!(series.get_season(1).unwrap().get_last_episode(), Some(9));
    assert!(series.get_season(9).is_none());
    series.remove_season(&mut db, 1);
    assert!(series.get_season(1).is_none());
    assert_eq!(series.get_total_seasons(), 0);
}

#[test]
fn every_mutation_is_written_to_the_store() {
    let mut db = Database::new();
    let mut series = new_series();
    let list = catalogue(1, 10, 10);
    series.add_season(&mut db, 1);
    assert_eq!(db.get_series(SERIES_ID).unwrap().get_total_seasons(), 1);
    series.add_episode(&mut db, &list, 1, 1);
    assert_eq!(db.get_series(SERIES_ID).unwrap().get_total_episodes(), 1);
    series.add_episodes(&mut db, &list, 1, 1..=4);
    assert_eq!(db.get_series(SERIES_ID).unwrap().get_total_episodes(), 4);
    series.remove_episode(&mut db, 1, 4);
    assert_eq!(db.get_series(SERIES_ID).unwrap().get_total_episodes(), 3);
    series.remove_season(&mut db, 1);
    assert_eq!(db.get_series(SERIES_ID).unwrap().get_total_seasons(), 0);
}

#[test]
fn season_changed_in_place_is_not_written_until_update() {
    let mut db = Database::new();
    let mut series = new_series();
    let list = catalogue(1, 10, 10);
    series.add_episodes(&mut db, &list, 1, 1..=3);
    series.get_season_mut(1).unwrap().untrack_episode(2);
    assert!(series.get_season_mut(2).is_none());
    assert_eq!(series.get_total_episodes(), 2);
    assert_eq!(db.get_series(SERIES_ID).unwrap().get_total_episodes(), 3);
    series.update(&mut db);
    assert_eq!(db.get_series(SERIES_ID).unwrap().get_total_episodes(), 2);
}

#[test]
fn season_tracks_and_untracks() {
    let list = catalogue(1, 2, 3);
    let mut season = Season::new();
    assert_eq!(season.get_total_episodes(), 0);
    assert_eq!(season.get_last_episode(), None);
    assert!(season.track_episode(&list, SERIES_ID, 1, 2));
    assert!(!season.track_episode(&list, SERIES_ID, 1, 2));
    assert!(!season.track_episode(&list, SERIES_ID, 1, 3));
    assert!(!season.track_episode(&list, SERIES_ID, 2, 1));
    assert_eq!(season.track_episodes(&list, SERIES_ID, 1, 1..=3), AddResult::Partial);
    assert_eq!(season.track_episodes(&list, SERIES_ID, 1, 1..=2), AddResult::Nothing);
    assert_eq!(season.get_total_episodes(), 2);
    season.untrack_episode(1);
    season.untrack_episode(7);
    assert!(!season.is_episode_watched(1));
    assert!(season.is_episode_watched(2));
    assert_eq!(season.track_episodes(&list, SERIES_ID, 1, 1..=1), AddResult::Full);
}

#[test]
fn season_listing_and_copies() {
    let season = Season::from_episodes(&vec![4, 2, 4, 9]);
    assert_eq!(season.get_total_episodes(), 3);
    let mut listed = season.episodes();
    listed.sort();
    assert_eq!(listed, vec![2, 4, 9]);
    let mut copy = season.clone();
    copy.untrack_episode(9);
    assert_eq!(season.get_last_episode(), Some(9));
    assert_eq!(copy.get_last_episode(), Some(4));
    assert_eq!(Season::default().get_total_episodes(), 0);
}

#[test]
fn series_are_the_same_by_identifier() {
    let first = Series::new("Westworld".to_string(), 82);
    let renamed = Series::new("West World".to_string(), 82);
    let other = Series::new("Westworld".to_string(), 83);
    assert!(first == renamed);
    assert!(first != other);
    assert_eq!(first.get_name(), "Westworld");
    assert_eq!(first.get_id(), 82);
}
