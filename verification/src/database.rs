//! The tracking store: one record per tracked series, found by the series'
//! identifier.  The store is held in memory; what of it has to reach the
//! disk, and how it comes back from there, is said record by record.

use crate::episode_list::EpisodeList;
use crate::key::{decimal, key_id, parse_key, series_key};
use crate::record::{decode_series, decoded_series, encode_series, is_record_of, RecordError};
use crate::season::{add_result, range_episodes, AddResult, Episode};
use crate::series::{Series, SeriesView};
use crate::summation::{checked_sum, listed_keys, map_sum};
use crate::summation::{lemma_listing_of_entries, lemma_sum_of_listing, lemma_weight_le_sum};
use std::collections::HashMap;
use std::ops::RangeInclusive;
use vstd::prelude::*;
use vstd::std_specs::hash::*;
use vstd::std_specs::iter::IteratorSpec;

verus! {

broadcast use group_hash_axioms;

/// Whether `ids` names every record of the store exactly once, in whatever
/// order.
pub open spec fn is_listing(ids: Seq<u32>, store: Map<u32, SeriesView>) -> bool {
    ids.no_duplicates() && ids.to_set() == store.dom()
}

/// Whether `collection` holds every series of the store exactly once, in
/// whatever order.
pub open spec fn lists_series(collection: Seq<SeriesView>, store: Map<u32, SeriesView>) -> bool {
    exists|ids: Seq<u32>| #[trigger]
        is_listing(ids, store) && collection == ids.map_values(|id: u32| store[id])
}

/// Whether `keys` holds the key of every record of the store exactly once,
/// in whatever order.
pub open spec fn lists_keys(keys: Seq<Seq<char>>, store: Map<u32, SeriesView>) -> bool {
    exists|ids: Seq<u32>| #[trigger]
        is_listing(ids, store) && keys == ids.map_values(|id: u32| decimal(id as nat))
}

/// Whether `records` holds every record of the store exactly once, key and
/// series, in whatever order.
pub open spec fn lists_records(
    records: Seq<(Seq<char>, SeriesView)>,
    store: Map<u32, SeriesView>,
) -> bool {
    exists|ids: Seq<u32>| #[trigger]
        is_listing(ids, store) && records == ids.map_values(
            |id: u32| (decimal(id as nat), store[id]),
        )
}

/// The number of seasons of each series of the store.
pub open spec fn season_counts(store: Map<u32, SeriesView>) -> Map<u32, nat> {
    store.map_values(|series: SeriesView| series.total_seasons())
}

/// The number of watched episodes of each series of the store.
pub open spec fn episode_counts(store: Map<u32, SeriesView>) -> Map<u32, nat> {
    store.map_values(|series: SeriesView| series.total_episodes())
}

/// The sum, over all series of the store, of the series' number of seasons.
pub open spec fn total_seasons(store: Map<u32, SeriesView>) -> nat {
    map_sum(season_counts(store))
}

/// The sum, over all series of the store, of the series' number of watched
/// episodes.
pub open spec fn total_episodes(store: Map<u32, SeriesView>) -> nat {
    map_sum(episode_counts(store))
}

/// A series that was untracked is no longer found, and every other record
/// stays as it was.
pub proof fn lemma_untracked_series_is_absent(store: Map<u32, SeriesView>, series_id: u32)
    ensures
        !store.remove(series_id).contains_key(series_id),
        store.remove(series_id).get(series_id) is None,
        forall|other: u32|
            other != series_id ==> store.remove(series_id).get(other) == #[trigger] store.get(
                other,
            ),
{
}

/// A series that was tracked is found under its identifier, as it was
/// stored.
pub proof fn lemma_tracked_series_is_found(
    store: Map<u32, SeriesView>,
    series_id: u32,
    series: SeriesView,
)
    ensures
        store.insert(series_id, series).get(series_id) == Some(series),
{
}

/// The episodes `1..=total_episodes` of a season.
pub open spec fn season_run(total_episodes: u32) -> Set<Episode> {
    Set::new(|episode: Episode| 1 <= episode <= total_episodes)
}

/// A series after its user pressed the mark on one episode: the episode is
/// tracked if that is new and allowed, and untracked otherwise.
pub open spec fn after_episode_toggle(
    series: SeriesView,
    watchable: bool,
    season_number: u32,
    episode: Episode,
) -> SeriesView {
    if series.adds_episode(watchable, season_number, episode) {
        series.add_episode(watchable, season_number, episode)
    } else {
        series.add_episode(watchable, season_number, episode).remove_episode(
            season_number,
            episode,
        )
    }
}

/// A series after its user pressed the mark on a whole season: the aired
/// episodes of the season are tracked, unless that adds nothing new, in
/// which case the season is forgotten.
pub open spec fn after_season_toggle(
    series: SeriesView,
    watchable: Set<Episode>,
    season_number: u32,
    total_episodes: u32,
) -> SeriesView {
    let requested = season_run(total_episodes);
    if add_result(series.season_episodes(season_number), watchable, requested)
        == AddResult::Nothing {
        series.add_episodes(watchable, season_number, requested).remove_season(season_number)
    } else {
        series.add_episodes(watchable, season_number, requested)
    }
}

/// What has to be done to the durable copy of the store so that its record
/// of one series agrees with the store.
#[derive(Debug)]
pub enum WriteOp {
    /// Write the value under the key, in place of whatever is there.
    Put { key: String, value: Vec<u8> },
    /// Remove the key and its value, if it is there.
    Delete { key: String },
}

/// The store of tracked series.
pub struct Database {
    records: HashMap<u32, Series>,
}

impl View for Database {
    type V = Map<u32, SeriesView>;

    closed spec fn view(&self) -> Map<u32, SeriesView> {
        self.records@.map_values(|series: Series| series@)
    }
}

impl Database {
    /// A store that tracks nothing.
    pub fn new() -> (db: Self)
        ensures
            db@ == Map::<u32, SeriesView>::empty(),
    {
        let db = Self { records: HashMap::new() };
        assert(db@ =~= Map::<u32, SeriesView>::empty());
        db
    }

    /// Stores the series under the given identifier, in place of whatever was
    /// stored there.
    pub fn track_series(&mut self, series_id: u32, series: &Series)
        ensures
            final(self)@ == old(self)@.insert(series_id, series@),
    {
        self.records.insert(series_id, series.clone());
        assert(self@ =~= old(self)@.insert(series_id, series@));
    }

    /// Removes the record of the given identifier; where there is none,
    /// nothing changes.
    pub fn untrack_series(&mut self, series_id: u32)
        ensures
            final(self)@ == old(self)@.remove(series_id),
    {
        self.records.remove(&series_id);
        assert(self@ =~= old(self)@.remove(series_id));
    }

    /// The series stored under the given identifier, if there is one.
    pub fn get_series(&self, series_id: u32) -> (found: Option<Series>)
        ensures
            match found {
                Some(series) => self@.contains_key(series_id) && series@ == self@[series_id],
                None => !self@.contains_key(series_id),
            },
    {
        match self.records.get(&series_id) {
            Some(series) => Some(series.clone()),
            None => None,
        }
    }

    /// The number of tracked series.
    pub fn get_total_series(&self) -> (total: usize)
        ensures
            total == self@.len(),
    {
        assert(self@.dom() =~= self.records@.dom());
        self.records.len()
    }
    /// What the store hands out names every record once, each with its
    /// series.
    proof fn lemma_listing(&self, handed: Seq<(&u32, &Series)>)
        requires
            handed.no_duplicates(),
            handed.unref().to_set() == self.records@.kv_pairs(),
        ensures
            listed_keys(handed.unref()).len() == handed.len(),
            is_listing(listed_keys(handed.unref()), self@),
            forall|i: int|
                0 <= i < handed.len() ==> self@.contains_key(#[trigger] handed.unref()[i].0)
                    && self@[handed.unref()[i].0] == handed.unref()[i].1@,
    {
        let listed = handed.unref();
        lemma_listing_of_entries(self.records@, handed);
        assert(self@.dom() =~= self.records@.dom());
        assert forall|i: int| 0 <= i < listed.len() implies self@.contains_key(
            #[trigger] listed[i].0,
        ) && self@[listed[i].0] == listed[i].1@ by {
            assert(self.records@.contains_key(listed[i].0));
        }
    }

    /// Every tracked series, in whatever order the store hands them out.
    pub fn get_series_collection(&self) -> (collection: Vec<Series>)
        ensures
            lists_series(collection@.map_values(|series: Series| series@), self@),
    {
        let entries = self.records.iter();
        let ghost listed: Seq<(u32, Series)> = entries.remaining().unref();
        let ghost ids = listed_keys(listed);
        proof {
            self.lemma_listing(entries.remaining());
        }
        let mut collection: Vec<Series> = Vec::new();
        for entry in it: entries
            invariant
                it.seq().unref() == listed,
                collection@.len() == it.index(),
                forall|i: int|
                    0 <= i < collection@.len() ==> (#[trigger] collection@[i])@ == listed[i].1@,
        {
            let (_, series) = entry;
            assert(listed[it.index()].1 == *series);
            collection.push(series.clone());
        }
        proof {
            let views = collection@.map_values(|series: Series| series@);
            assert(views =~= ids.map_values(|id: u32| self@[id]));
            assert(is_listing(ids, self@));
        }
        collection
    }

    /// The key of every record, in whatever order the store hands them out.
    pub fn get_series_id_collection(&self) -> (keys: Vec<String>)
        ensures
            lists_keys(keys@.map_values(|key: String| key@), self@),
    {
        let entries = self.records.iter();
        let ghost listed: Seq<(u32, Series)> = entries.remaining().unref();
        let ghost ids = listed_keys(listed);
        proof {
            self.lemma_listing(entries.remaining());
        }
        let mut keys: Vec<String> = Vec::new();
        for entry in it: entries
            invariant
                it.seq().unref() == listed,
                keys@.len() == it.index(),
                forall|i: int|
                    0 <= i < keys@.len() ==> (#[trigger] keys@[i])@ == decimal(listed[i].0 as nat),
        {
            let (series_id, _) = entry;
            assert(listed[it.index()].0 == *series_id);
            keys.push(series_key(*series_id));
        }
        proof {
            let views = keys@.map_values(|key: String| key@);
            assert(views =~= ids.map_values(|id: u32| decimal(id as nat)));
            assert(is_listing(ids, self@));
        }
        keys
    }

    /// Every record, key and series, in whatever order the store hands them
    /// out.
    pub fn get_ids_and_series(&self) -> (records: Vec<(String, Series)>)
        ensures
            lists_records(
                records@.map_values(|record: (String, Series)| (record.0@, record.1@)),
                self@,
            ),
    {
        let entries = self.records.iter();
        let ghost listed: Seq<(u32, Series)> = entries.remaining().unref();
        let ghost ids = listed_keys(listed);
        proof {
            self.lemma_listing(entries.remaining());
        }
        let mut records: Vec<(String, Series)> = Vec::new();
        for entry in it: entries
            invariant
                it.seq().unref() == listed,
                records@.len() == it.index(),
                forall|i: int|
                    0 <= i < records@.len() ==> (#[trigger] records@[i]).0@ == decimal(
                        listed[i].0 as nat,
                    ) && records@[i].1@ == listed[i].1@,
        {
            let (series_id, series) = entry;
            assert(listed[it.index()] == (*series_id, *series));
            records.push((series_key(*series_id), series.clone()));
        }
        proof {
            let views = records@.map_values(|record: (String, Series)| (record.0@, record.1@));
            assert(views =~= ids.map_values(|id: u32| (decimal(id as nat), self@[id])));
            assert(is_listing(ids, self@));
        }
        records
    }
    /// A stored series of the given name, if there is one; where several
    /// series share the name, any one of them.
    pub fn find_by_name(&self, name: &str) -> (found: Option<Series>)
        ensures
            match found {
                Some(series) => series@.name == name@ && exists|series_id: u32|
                    self@.contains_key(series_id) && #[trigger] self@[series_id] == series@,
                None => forall|series_id: u32|
                    self@.contains_key(series_id) ==> (#[trigger] self@[series_id]).name != name@,
            },
    {
        let entries = self.records.iter();
        let ghost listed: Seq<(u32, Series)> = entries.remaining().unref();
        let ghost ids = listed_keys(listed);
        proof {
            self.lemma_listing(entries.remaining());
        }
        let ghost mut seen: int = 0;
        for entry in it: entries
            invariant
                it.seq().unref() == listed,
                forall|i: int|
                    0 <= i < listed.len() ==> self@.contains_key(#[trigger] listed[i].0)
                        && self@[listed[i].0] == listed[i].1@,
                seen == it.index(),
                0 <= seen <= listed.len(),
                forall|i: int| 0 <= i < seen ==> (#[trigger] listed[i]).1@.name != name@,
        {
            let (series_id, series) = entry;
            assert(listed[seen] == (*series_id, *series));
            assert(self@.contains_key(listed[seen].0));
            if series.get_name().eq(name) {
                let found = series.clone();
                assert(self@[*series_id] == found@);
                return Some(found);
            }
            proof {
                seen = seen + 1;
            }
        }
        proof {
            assert(seen == listed.len());
            assert forall|series_id: u32| self@.contains_key(series_id) implies (
            #[trigger] self@[series_id]).name != name@ by {
                assert(ids.to_set().contains(series_id));
                let i = choose|i: int| 0 <= i < ids.len() && ids[i] == series_id;
                assert(listed[i].0 == series_id);
            }
        }
        None
    }

    /// The number of seasons over all tracked series, or `None` where that
    /// number is too large for the machine to hold.
    pub fn checked_total_seasons(&self) -> (total: Option<usize>)
        ensures
            match total {
                Some(count) => count == total_seasons(self@),
                None => total_seasons(self@) > usize::MAX,
            },
    {
        let entries = self.records.iter();
        let ghost listed: Seq<(u32, Series)> = entries.remaining().unref();
        proof {
            self.lemma_listing(entries.remaining());
        }
        let mut counts: Vec<usize> = Vec::new();
        for entry in it: entries
            invariant
                it.seq().unref() == listed,
                counts@.len() == it.index(),
                forall|i: int|
                    0 <= i < counts@.len() ==> #[trigger] counts@[i]
                        == listed[i].1@.total_seasons(),
        {
            let (_, series) = entry;
            assert(listed[it.index()].1 == *series);
            counts.push(series.get_total_seasons());
        }
        proof {
            let weights = season_counts(self@);
            assert(weights.dom() =~= self@.dom());
            assert forall|i: int| 0 <= i < listed.len() implies #[trigger] counts@[i]
                == weights[listed_keys(listed)[i]] by {
                assert(self@.contains_key(listed[i].0));
            }
            lemma_sum_of_listing(weights, listed_keys(listed), counts@);
        }
        checked_sum(&counts)
    }

    /// The number of seasons over all tracked series.
    pub fn get_total_seasons(&self) -> (total: usize)
        requires
            total_seasons(self@) <= usize::MAX,
        ensures
            total == total_seasons(self@),
    {
        match self.checked_total_seasons() {
            Some(total) => total,
            None => 0,
        }
    }

    /// The number of watched episodes over all tracked series, or `None`
    /// where that number is too large for the machine to hold.
    pub fn checked_total_episodes(&self) -> (total: Option<usize>)
        ensures
            match total {
                Some(count) => count == total_episodes(self@),
                None => total_episodes(self@) > usize::MAX,
            },
    {
        let entries = self.records.iter();
        let ghost listed: Seq<(u32, Series)> = entries.remaining().unref();
        let ghost weights = episode_counts(self@);
        proof {
            self.lemma_listing(entries.remaining());
            assert(weights.dom() =~= self@.dom());
        }
        let mut counts: Vec<usize> = Vec::new();
        for entry in it: entries
            invariant
                it.seq().unref() == listed,
                weights == episode_counts(self@),
                forall|i: int|
                    0 <= i < listed.len() ==> self@.contains_key(#[trigger] listed[i].0)
                        && self@[listed[i].0] == listed[i].1@,
                counts@.len() == it.index(),
                forall|i: int|
                    0 <= i < counts@.len() ==> #[trigger] counts@[i]
                        == listed[i].1@.total_episodes(),
        {
            let (series_id, series) = entry;
            assert(listed[it.index()] == (*series_id, *series));
            match series.checked_total_episodes() {
                Some(episodes) => {
                    counts.push(episodes);
                },
                None => {
                    proof {
                        assert(self@.contains_key(listed[it.index()].0));
                        lemma_weight_le_sum(weights, *series_id);
                    }
                    return None;
                },
            }
        }
        proof {
            assert forall|i: int| 0 <= i < listed.len() implies #[trigger] counts@[i]
                == weights[listed_keys(listed)[i]] by {
                assert(self@.contains_key(listed[i].0));
            }
            lemma_sum_of_listing(weights, listed_keys(listed), counts@);
        }
        checked_sum(&counts)
    }

    /// The number of watched episodes over all tracked series.
    pub fn get_total_episodes(&self) -> (total: usize)
        requires
            total_episodes(self@) <= usize::MAX,
        ensures
            total == total_episodes(self@),
    {
        match self.checked_total_episodes() {
            Some(total) => total,
            None => 0,
        }
    }
    /// What to do to the durable copy of the store for one series: write its
    /// record under its key if the store tracks it, remove the key if not.
    pub fn write_op(&self, series_id: u32) -> (op: Result<WriteOp, RecordError>)
        ensures
            match op {
                Ok(WriteOp::Put { key, value }) => {
                    &&& self@.contains_key(series_id)
                    &&& key@ == decimal(series_id as nat)
                    &&& is_record_of(value@, self@[series_id])
                    &&& decoded_series(value@) == Some(self@[series_id])
                },
                Ok(WriteOp::Delete { key }) => {
                    &&& !self@.contains_key(series_id)
                    &&& key@ == decimal(series_id as nat)
                },
                Err(_) => false,
            },
    {
        let key = series_key(series_id);
        match self.records.get(&series_id) {
            Some(series) => {
                match encode_series(series) {
                    Ok(value) => Ok(WriteOp::Put { key, value }),
                    Err(error) => Err(error),
                }
            },
            None => Ok(WriteOp::Delete { key }),
        }
    }

    /// Takes a record of the durable copy into the store: the series that
    /// the value holds, under the identifier that the key stands for.  A
    /// key or a value that cannot be read leaves the store as it was.
    pub fn load_record(&mut self, key: &str, value: &[u8]) -> (loaded: Result<(), RecordError>)
        ensures
            match loaded {
                Ok(_) => {
                    &&& key_id(key@) is Some
                    &&& decoded_series(value@) is Some
                    &&& final(self)@ == old(self)@.insert(
                        key_id(key@).unwrap(),
                        decoded_series(value@).unwrap(),
                    )
                },
                Err(error) => {
                    &&& final(self)@ == old(self)@
                    &&& error == if key_id(key@) is None {
                        RecordError::Key
                    } else {
                        RecordError::Decode
                    }
                    &&& key_id(key@) is None || decoded_series(value@) is None
                },
            },
    {
        let series_id = match parse_key(key) {
            Some(series_id) => series_id,
            None => {
                return Err(RecordError::Key);
            },
        };
        match decode_series(value) {
            Ok(series) => {
                self.track_series(series_id, &series);
                Ok(())
            },
            Err(error) => Err(error),
        }
    }
    /// Presses the mark on one episode of a stored series: tracks the
    /// episode, or untracks it where tracking it added nothing.  Returns
    /// whether the episode was newly tracked, or `None` where no series is
    /// stored under the identifier.
    pub fn toggle_episode(
        &mut self,
        episode_list: &EpisodeList,
        series_id: u32,
        season_number: u32,
        episode_number: Episode,
    ) -> (newly_tracked: Option<bool>)
        ensures
            match newly_tracked {
                Some(added) => {
                    let series = old(self)@[series_id];
                    let watchable = episode_list@.is_watchable(
                        series.id,
                        season_number,
                        episode_number,
                    );
                    &&& old(self)@.contains_key(series_id)
                    &&& added == series.adds_episode(watchable, season_number, episode_number)
                    &&& final(self)@ == old(self)@.insert(
                        series.id,
                        after_episode_toggle(series, watchable, season_number, episode_number),
                    )
                },
                None => !old(self)@.contains_key(series_id) && final(self)@ == old(self)@,
            },
    {
        let mut series = match self.get_series(series_id) {
            Some(series) => series,
            None => {
                return None;
            },
        };
        let newly_tracked = series.add_episode(self, episode_list, season_number, episode_number);
        if !newly_tracked {
            series.remove_episode(self, season_number, episode_number);
        }
        assert(self@ =~= old(self)@.insert(series@.id, series@));
        Some(newly_tracked)
    }

    /// Presses the mark on a whole season of a stored series: asks for the
    /// episodes `1..=total_episodes`, and forgets the season where that
    /// added nothing.  Returns the outcome of the request, or `None` where
    /// no series is stored under the identifier.
    pub fn toggle_season(
        &mut self,
        episode_list: &EpisodeList,
        series_id: u32,
        season_number: u32,
        total_episodes: u32,
    ) -> (outcome: Option<AddResult>)
        ensures
            match outcome {
                Some(result) => {
                    let series = old(self)@[series_id];
                    let watchable = episode_list@.watchable_episodes(series.id, season_number);
                    &&& old(self)@.contains_key(series_id)
                    &&& result == add_result(
                        series.season_episodes(season_number),
                        watchable,
                        season_run(total_episodes),
                    )
                    &&& final(self)@ == old(self)@.insert(
                        series.id,
                        after_season_toggle(series, watchable, season_number, total_episodes),
                    )
                },
                None => !old(self)@.contains_key(series_id) && final(self)@ == old(self)@,
            },
    {
        let mut series = match self.get_series(series_id) {
            Some(series) => series,
            None => {
                return None;
            },
        };
        let episodes_range = RangeInclusive::new(1, total_episodes);
        assert(range_episodes(episodes_range@) =~= season_run(total_episodes));
        let result = series.add_episodes(self, episode_list, season_number, episodes_range);
        match result {
            AddResult::Nothing => {
                series.remove_season(self, season_number);
            },
            _ => {},
        }
        assert(self@ =~= old(self)@.insert(series@.id, series@));
        Some(result)
    }
}

} // verus!
