//! A tracked series: its identifier, its name, and the seasons in which
//! something has been watched.

use crate::database::Database;
use crate::episode_list::EpisodeList;
use crate::season::{add_result, range_episodes, tracked_after, tracked_after_one};
use crate::season::{AddResult, Episode, Season};
use crate::summation::{checked_sum, key_space, listed_keys, map_sum, sum_below, weight_of};
use crate::summation::{lemma_listing_of_entries, lemma_sum_insert, lemma_sum_of_listing};
use std::collections::hash_map::Entry;
use std::collections::HashMap;
use std::ops::RangeInclusive;
use vstd::prelude::*;
use vstd::std_specs::hash::*;
use vstd::std_specs::iter::IteratorSpec;

verus! {

broadcast use group_hash_axioms;

/// The mathematical content of a [`Series`].
#[verifier::ext_equal]
pub struct SeriesView {
    /// The identifier under which the catalogue knows the series.
    pub id: u32,
    /// The name shown to the user; it plays no part in identity.
    pub name: Seq<char>,
    /// The watched episodes of every season that was ever touched.
    pub seasons: Map<u32, Set<Episode>>,
}

impl SeriesView {
    /// Every season is a finite set, and there are finitely many of them.
    pub open spec fn wf(self) -> bool {
        &&& self.seasons.dom().finite()
        &&& forall|season_number: u32| #[trigger]
            self.seasons.contains_key(season_number) ==> self.seasons[season_number].finite()
    }

    /// A series of which nothing has been watched.
    pub open spec fn new(name: Seq<char>, id: u32) -> SeriesView {
        SeriesView { id, name, seasons: Map::empty() }
    }

    /// The watched episodes of a season; none where the season is absent.
    pub open spec fn season_episodes(self, season_number: u32) -> Set<Episode> {
        if self.seasons.contains_key(season_number) {
            self.seasons[season_number]
        } else {
            Set::empty()
        }
    }

    /// Whether the episode of the season is marked as watched.
    pub open spec fn is_episode_watched(self, season_number: u32, episode: Episode) -> bool {
        self.season_episodes(season_number).contains(episode)
    }

    /// The series with the given season replaced by the given episodes.
    pub open spec fn with_season(self, season_number: u32, episodes: Set<Episode>) -> SeriesView {
        SeriesView { seasons: self.seasons.insert(season_number, episodes), ..self }
    }

    /// Adding a season puts an empty season in its place, whatever was there.
    pub open spec fn add_season(self, season_number: u32) -> SeriesView {
        self.with_season(season_number, Set::empty())
    }

    /// Removing a season forgets it and all its episodes.
    pub open spec fn remove_season(self, season_number: u32) -> SeriesView {
        SeriesView { seasons: self.seasons.remove(season_number), ..self }
    }

    /// Asking for one episode: the season exists afterwards, and holds the
    /// episode too if it may be watched.
    pub open spec fn add_episode(
        self,
        watchable: bool,
        season_number: u32,
        episode: Episode,
    ) -> SeriesView {
        self.with_season(
            season_number,
            tracked_after_one(self.season_episodes(season_number), watchable, episode),
        )
    }

    /// Whether asking for one episode tracks it newly.
    pub open spec fn adds_episode(
        self,
        watchable: bool,
        season_number: u32,
        episode: Episode,
    ) -> bool {
        watchable && !self.is_episode_watched(season_number, episode)
    }

    /// Asking for a set of episodes: the season exists afterwards, and holds
    /// those of them too that may be watched.
    pub open spec fn add_episodes(
        self,
        watchable: Set<Episode>,
        season_number: u32,
        requested: Set<Episode>,
    ) -> SeriesView {
        self.with_season(
            season_number,
            tracked_after(self.season_episodes(season_number), watchable, requested),
        )
    }

    /// Removing an episode takes it out of its season, if the season exists.
    pub open spec fn remove_episode(self, season_number: u32, episode: Episode) -> SeriesView {
        if self.seasons.contains_key(season_number) {
            self.with_season(season_number, self.seasons[season_number].remove(episode))
        } else {
            self
        }
    }

    /// The number of seasons, empty ones included.
    pub open spec fn total_seasons(self) -> nat {
        self.seasons.dom().len()
    }

    /// The number of watched episodes of each season.
    pub open spec fn episode_counts(self) -> Map<u32, nat> {
        self.seasons.map_values(|episodes: Set<Episode>| episodes.len())
    }

    /// The sum, over all seasons, of the season's number of watched episodes.
    pub open spec fn total_episodes(self) -> nat {
        map_sum(self.episode_counts())
    }

    /// The sum of the numbers of watched episodes of the seasons whose
    /// number lies below `bound`.
    pub open spec fn episodes_below(self, bound: nat) -> nat
        decreases bound,
    {
        if bound == 0 {
            0
        } else {
            self.episodes_below((bound - 1) as nat) + self.season_episodes(
                (bound - 1) as u32,
            ).len()
        }
    }

    /// Whether a season has watched episodes.
    pub open spec fn is_watched_season(self, season_number: u32) -> bool {
        self.seasons.contains_key(season_number) && self.seasons[season_number].len() != 0
    }

    /// Whether a season is the highest-numbered one with watched episodes.
    pub open spec fn is_last_season(self, season_number: u32) -> bool {
        &&& self.is_watched_season(season_number)
        &&& forall|other: u32| #[trigger] self.is_watched_season(other) ==> other <= season_number
    }
}

/// The seasons that a listing of seasons builds up when its entries are
/// put into an empty series one after the other: a season listed again
/// replaces the earlier one, and an episode listed twice counts once.
pub open spec fn seasons_of(listed: Seq<(u32, Seq<Episode>)>) -> Map<u32, Set<Episode>>
    decreases listed.len(),
{
    if listed.len() == 0 {
        Map::empty()
    } else {
        seasons_of(listed.drop_last()).insert(listed.last().0, listed.last().1.to_set())
    }
}

/// Whether a listing holds every season once, and with each season every
/// one of its episodes once, in whatever order.
pub open spec fn lists_seasons(
    listed: Seq<(u32, Seq<Episode>)>,
    seasons: Map<u32, Set<Episode>>,
) -> bool {
    &&& listed_keys(listed).no_duplicates()
    &&& listed_keys(listed).to_set() == seasons.dom()
    &&& forall|i: int|
        0 <= i < listed.len() ==> (#[trigger] listed[i]).1.no_duplicates() && listed[i].1.to_set()
            == seasons[listed[i].0]
}

/// A listing of the seasons of a series builds up those very seasons.
pub proof fn lemma_listing_builds_seasons(
    listed: Seq<(u32, Seq<Episode>)>,
    seasons: Map<u32, Set<Episode>>,
)
    requires
        lists_seasons(listed, seasons),
    ensures
        seasons_of(listed) == seasons,
    decreases listed.len(),
{
    if listed.len() == 0 {
        assert(listed_keys(listed).to_set() =~= Set::<u32>::empty());
        assert(seasons =~= Map::<u32, Set<Episode>>::empty());
    } else {
        let front = listed.drop_last();
        let last = listed.last();
        let keys = listed_keys(listed);
        assert(listed_keys(front) =~= keys.drop_last());
        assert(keys.last() == last.0);
        let rest = seasons.remove(last.0);
        assert(lists_seasons(front, rest)) by {
            let front_keys = listed_keys(front);
            assert forall|key: u32| front_keys.to_set().contains(key) implies rest.dom().contains(
                key,
            ) by {
                let i = choose|i: int| 0 <= i < front_keys.len() && front_keys[i] == key;
                assert(keys[i] == key);
                assert(keys.to_set().contains(key));
                assert(keys[i] != keys[keys.len() - 1]);
            }
            assert forall|key: u32| rest.dom().contains(key) implies front_keys.to_set().contains(
                key,
            ) by {
                assert(keys.to_set().contains(key));
                let i = choose|i: int| 0 <= i < keys.len() && keys[i] == key;
                assert(front_keys[i] == key);
            }
            assert(front_keys.to_set() =~= rest.dom());
            assert forall|i: int| 0 <= i < front.len() implies (#[trigger] front[i]).1.no_duplicates()
                && front[i].1.to_set() == rest[front[i].0] by {
                assert(front[i] == listed[i]);
                assert(keys[i] == listed[i].0);
                assert(keys[i] != keys[keys.len() - 1]);
            }
        }
        lemma_listing_builds_seasons(front, rest);
        assert(keys.to_set().contains(last.0)) by {
            assert(keys[keys.len() - 1] == last.0);
        }
        assert(listed[listed.len() - 1] == last);
        assert(seasons_of(listed) =~= seasons);
    }
}

/// An episode that has not aired is never tracked: asking for it reports
/// that nothing was added, and leaves every episode watched or not as it
/// was.
pub proof fn lemma_unaired_episode_stays_out(
    series: SeriesView,
    season_number: u32,
    episode: Episode,
)
    ensures
        !series.adds_episode(false, season_number, episode),
        forall|other_season: u32, other: Episode|
            #![trigger series.add_episode(false, season_number, episode).is_episode_watched(other_season, other)]
            series.add_episode(false, season_number, episode).is_episode_watched(
                other_season,
                other,
            ) == series.is_episode_watched(other_season, other),
{
}

/// An aired episode that is not yet tracked is added exactly once: the
/// first request reports it as newly tracked, the same request made again
/// does not, and changes nothing further.
pub proof fn lemma_aired_episode_is_added_once(
    series: SeriesView,
    season_number: u32,
    episode: Episode,
)
    requires
        !series.is_episode_watched(season_number, episode),
    ensures
        series.adds_episode(true, season_number, episode),
        series.add_episode(true, season_number, episode).is_episode_watched(
            season_number,
            episode,
        ),
        !series.add_episode(true, season_number, episode).adds_episode(
            true,
            season_number,
            episode,
        ),
        series.add_episode(true, season_number, episode).add_episode(
            true,
            season_number,
            episode,
        ) == series.add_episode(true, season_number, episode),
{
    let once = series.add_episode(true, season_number, episode);
    let twice = once.add_episode(true, season_number, episode);
    assert(once.seasons[season_number].insert(episode) =~= once.seasons[season_number]);
    assert(twice.seasons =~= once.seasons);
}

/// The total of watched episodes of a series is the sum, over every season
/// number, of the number of watched episodes of that season; a season that
/// the series does not hold adds nothing.
pub proof fn lemma_total_is_sum_over_seasons(series: SeriesView)
    ensures
        series.total_episodes() == series.episodes_below(key_space()),
{
    lemma_counts_below(series, key_space());
}

proof fn lemma_counts_below(series: SeriesView, bound: nat)
    requires
        bound <= key_space(),
    ensures
        sum_below(series.episode_counts(), bound) == series.episodes_below(bound),
    decreases bound,
{
    if bound > 0 {
        lemma_counts_below(series, (bound - 1) as nat);
        let season_number = (bound - 1) as u32;
        assert(weight_of(series.episode_counts(), season_number) == series.season_episodes(
            season_number,
        ).len());
    }
}

/// The total of watched episodes counts every episode once: a newly
/// tracked episode raises it by one, a request that adds nothing leaves it.
pub proof fn lemma_total_counts_each_episode(
    series: SeriesView,
    watchable: bool,
    season_number: u32,
    episode: Episode,
)
    requires
        series.wf(),
    ensures
        series.add_episode(watchable, season_number, episode).total_episodes()
            == series.total_episodes() + if series.adds_episode(
            watchable,
            season_number,
            episode,
        ) {
            1nat
        } else {
            0nat
        },
{
    let after = series.add_episode(watchable, season_number, episode);
    let before_set = series.season_episodes(season_number);
    let after_set = tracked_after_one(before_set, watchable, episode);
    assert(before_set.finite());
    assert(after.episode_counts() =~= series.episode_counts().insert(
        season_number,
        after_set.len(),
    ));
    lemma_sum_insert(series.episode_counts(), season_number, after_set.len());
    assert(weight_of(series.episode_counts(), season_number) == before_set.len());
    if watchable && before_set.contains(episode) {
        assert(before_set.insert(episode) =~= before_set);
    }
}

/// A tracked series.
#[derive(Debug)]
pub struct Series {
    id: u32,
    name: String,
    seasons: HashMap<u32, Season>,
}

impl View for Series {
    type V = SeriesView;

    closed spec fn view(&self) -> SeriesView {
        SeriesView {
            id: self.id,
            name: self.name@,
            seasons: self.seasons@.map_values(|season: Season| season@),
        }
    }
}

impl Clone for Series {
    fn clone(&self) -> (copy: Self)
        ensures
            copy@ == self@,
    {
        Self { id: self.id, name: self.name.clone(), seasons: self.seasons.clone() }
    }
}

impl PartialEq for Series {
    /// Two series are the same series when their identifiers agree,
    /// whatever their names and seasons.
    fn eq(&self, other: &Self) -> (equal: bool) {
        self.id == other.id
    }
}

impl vstd::std_specs::cmp::PartialEqSpecImpl for Series {
    open spec fn obeys_eq_spec() -> bool {
        true
    }

    open spec fn eq_spec(&self, other: &Self) -> bool {
        self@.id == other@.id
    }
}

impl Eq for Series {

}

impl Series {
    /// The content of a series is well formed.
    pub proof fn lemma_wf(&self)
        ensures
            self@.wf(),
    {
        assert(self@.seasons.dom() =~= self.seasons@.dom());
        assert forall|season_number: u32| #[trigger]
            self@.seasons.contains_key(season_number) implies self@.seasons[season_number].finite() by {
            self.seasons@[season_number].lemma_finite();
        }
    }

    /// A series with the given name and identifier, with no season yet.
    pub fn new(name: String, id: u32) -> (series: Self)
        ensures
            series@ == SeriesView::new(name@, id),
    {
        let series = Self { id, name, seasons: HashMap::new() };
        assert(series@.seasons =~= Map::<u32, Set<Episode>>::empty());
        series
    }

    /// The name of the series.
    pub fn get_name(&self) -> (name: &str)
        ensures
            name@ == self@.name,
    {
        self.name.as_str()
    }

    /// The identifier of the series.
    pub fn get_id(&self) -> (id: u32)
        ensures
            id == self@.id,
    {
        self.id
    }

    /// Writes the series to the store under its identifier.
    pub fn update(&self, db: &mut Database)
        ensures
            final(db)@ == old(db)@.insert(self@.id, self@),
    {
        db.track_series(self.id, self);
    }

    /// Puts an empty season under the given number, replacing any season
    /// that was there, and writes the series to the store.
    pub fn add_season(&mut self, db: &mut Database, season_number: u32)
        ensures
            final(self)@ == old(self)@.add_season(season_number),
            final(db)@ == old(db)@.insert(final(self)@.id, final(self)@),
    {
        self.seasons.insert(season_number, Season::new());
        assert(self@.seasons =~= old(self)@.add_season(season_number).seasons);
        self.update(db);
    }

    /// Forgets a season and writes the series to the store.
    pub fn remove_season(&mut self, db: &mut Database, season_number: u32)
        ensures
            final(self)@ == old(self)@.remove_season(season_number),
            final(db)@ == old(db)@.insert(final(self)@.id, final(self)@),
    {
        self.seasons.remove(&season_number);
        assert(self@.seasons =~= old(self)@.remove_season(season_number).seasons);
        self.update(db);
    }

    /// The season under the given number, if there is one.
    pub fn get_season(&self, season_number: u32) -> (found: Option<&Season>)
        ensures
            match found {
                Some(season) => self@.seasons.contains_key(season_number) && season@
                    == self@.seasons[season_number],
                None => !self@.seasons.contains_key(season_number),
            },
    {
        self.seasons.get(&season_number)
    }

    /// The number of seasons, empty ones included.
    pub fn get_total_seasons(&self) -> (total: usize)
        ensures
            total == self@.total_seasons(),
    {
        assert(self@.seasons.dom() =~= self.seasons@.dom());
        self.seasons.len()
    }
    /// The seasons as plain values: every season once with its number, and
    /// with it every one of its episodes once, in no particular order.
    pub fn seasons_listing(&self) -> (listed: Vec<(u32, Vec<Episode>)>)
        ensures
            lists_seasons(listed.deep_view(), self@.seasons),
    {
        let entries = self.seasons.iter();
        let ghost handed: Seq<(u32, Season)> = entries.remaining().unref();
        proof {
            lemma_listing_of_entries(self.seasons@, entries.remaining());
        }
        let mut listed: Vec<(u32, Vec<Episode>)> = Vec::new();
        for entry in it: entries
            invariant
                it.seq().unref() == handed,
                forall|i: int|
                    0 <= i < handed.len() ==> self.seasons@.contains_key(#[trigger] handed[i].0)
                        && self.seasons@[handed[i].0] == handed[i].1,
                listed@.len() == it.index(),
                forall|i: int|
                    0 <= i < listed@.len() ==> (#[trigger] listed@[i]).0 == handed[i].0
                        && listed@[i].1@.no_duplicates() && listed@[i].1@.to_set()
                        == handed[i].1@,
        {
            let (season_number, season) = entry;
            assert(handed[it.index()] == (*season_number, *season));
            listed.push((*season_number, season.episodes()));
        }
        proof {
            let plain = listed.deep_view();
            assert(listed_keys(plain) =~= listed_keys(handed));
            assert(self@.seasons.dom() =~= self.seasons@.dom());
            assert forall|i: int| 0 <= i < plain.len() implies (#[trigger] plain[i]).1.no_duplicates()
                && plain[i].1.to_set() == self@.seasons[plain[i].0] by {
                assert(plain[i] == (listed@[i].0, listed@[i].1@));
                assert(self.seasons@.contains_key(handed[i].0));
            }
        }
        listed
    }

    /// The series with the given identifier and name whose seasons are
    /// those that the listing builds up.
    pub fn from_parts(id: u32, name: String, seasons: Vec<(u32, Vec<Episode>)>) -> (series: Self)
        ensures
            series@ == (SeriesView { id, name: name@, seasons: seasons_of(seasons.deep_view()) }),
    {
        let ghost plain = seasons.deep_view();
        let mut built: HashMap<u32, Season> = HashMap::new();
        let mut index: usize = 0;
        assert(plain.take(0) =~= Seq::<(u32, Seq<Episode>)>::empty());
        while index < seasons.len()
            invariant
                index <= seasons@.len(),
                plain == seasons.deep_view(),
                built@.map_values(|season: Season| season@) =~= seasons_of(
                    plain.take(index as int),
                ),
            decreases seasons@.len() - index,
        {
            let season = Season::from_episodes(&seasons[index].1);
            built.insert(seasons[index].0, season);
            proof {
                let longer = plain.take(index + 1);
                assert(longer.drop_last() =~= plain.take(index as int));
                assert(longer.last() == (seasons@[index as int].0, seasons@[index as int].1@));
            }
            index += 1;
        }
        assert(plain.take(index as int) =~= plain);
        Self { id, name, seasons: built }
    }

    /// The season under the given number, for changing it in place.  What is
    /// changed through it is not written to the store: that is left to the
    /// caller.
    pub fn get_season_mut(&mut self, season_number: u32) -> (found: Option<&mut Season>)
        ensures
            match found {
                Some(season) => {
                    &&& old(self)@.seasons.contains_key(season_number)
                    &&& season@ == old(self)@.seasons[season_number]
                    &&& final(self)@ =~= old(self)@.with_season(season_number, final(season)@)
                },
                None => {
                    &&& !old(self)@.seasons.contains_key(season_number)
                    &&& final(self)@ =~= old(self)@
                },
            },
    {
        match self.seasons.entry(season_number) {
            Entry::Occupied(entry) => Some(entry.into_mut()),
            Entry::Vacant(_) => None,
        }
    }
    /// The number of watched episodes over all seasons, or `None` where that
    /// number is too large for the machine to hold.
    pub fn checked_total_episodes(&self) -> (total: Option<usize>)
        ensures
            match total {
                Some(count) => count == self@.total_episodes(),
                None => self@.total_episodes() > usize::MAX,
            },
    {
        let entries = self.seasons.iter();
        let ghost listed: Seq<(u32, Season)> = entries.remaining().unref();
        proof {
            lemma_listing_of_entries(self.seasons@, entries.remaining());
        }
        let mut counts: Vec<usize> = Vec::new();
        for entry in it: entries
            invariant
                it.seq().unref() == listed,
                counts@.len() == it.index(),
                forall|i: int| 0 <= i < counts@.len() ==> #[trigger] counts@[i] == listed[i].1@.len(),
        {
            let (_, season) = entry;
            assert(listed[it.index()].1 == *season);
            counts.push(season.get_total_episodes());
        }
        proof {
            let weights = self@.episode_counts();
            assert(weights.dom() =~= self.seasons@.dom());
            assert forall|i: int| 0 <= i < listed.len() implies #[trigger] counts@[i]
                == weights[listed_keys(listed)[i]] by {
                assert(self.seasons@.contains_key(listed[i].0));
            }
            lemma_sum_of_listing(weights, listed_keys(listed), counts@);
        }
        checked_sum(&counts)
    }

    /// The number of watched episodes over all seasons.
    pub fn get_total_episodes(&self) -> (total: usize)
        requires
            self@.total_episodes() <= usize::MAX,
        ensures
            total == self@.total_episodes(),
    {
        match self.checked_total_episodes() {
            Some(total) => total,
            None => 0,
        }
    }
    /// Asks for one episode of a season.  The season is created if it is
    /// missing; the episode joins it if the catalogue says that it has aired.
    /// The series is written to the store in either case.  Returns whether
    /// the episode was newly tracked.
    pub fn add_episode(
        &mut self,
        db: &mut Database,
        episode_list: &EpisodeList,
        season_number: u32,
        episode: Episode,
    ) -> (newly_tracked: bool)
        ensures
            final(self)@ == old(self)@.add_episode(
                episode_list@.is_watchable(old(self)@.id, season_number, episode),
                season_number,
                episode,
            ),
            newly_tracked == old(self)@.adds_episode(
                episode_list@.is_watchable(old(self)@.id, season_number, episode),
                season_number,
                episode,
            ),
            final(db)@ == old(db)@.insert(final(self)@.id, final(self)@),
    {
        if self.get_season(season_number).is_none() {
            self.add_season(db, season_number);
        }
        let series_id = self.id;
        let newly_tracked = match self.get_season_mut(season_number) {
            Some(season) => season.track_episode(episode_list, series_id, season_number, episode),
            None => false,
        };
        self.update(db);
        assert(self@ =~= old(self)@.add_episode(
            episode_list@.is_watchable(old(self)@.id, season_number, episode),
            season_number,
            episode,
        ));
        assert(db@ =~= old(db)@.insert(self@.id, self@));
        newly_tracked
    }

    /// Asks for every episode of a range in a season.  The season is created
    /// if it is missing; the episodes that the catalogue says have aired join
    /// it.  The series is written to the store in either case.  Returns
    /// whether all, some or none of the requested episodes were newly tracked.
    pub fn add_episodes(
        &mut self,
        db: &mut Database,
        episode_list: &EpisodeList,
        season_number: u32,
        episodes_range: RangeInclusive<Episode>,
    ) -> (result: AddResult)
        ensures
            final(self)@ == old(self)@.add_episodes(
                episode_list@.watchable_episodes(old(self)@.id, season_number),
                season_number,
                range_episodes(episodes_range@),
            ),
            result == add_result(
                old(self)@.season_episodes(season_number),
                episode_list@.watchable_episodes(old(self)@.id, season_number),
                range_episodes(episodes_range@),
            ),
            final(db)@ == old(db)@.insert(final(self)@.id, final(self)@),
    {
        if self.get_season(season_number).is_none() {
            self.add_season(db, season_number);
        }
        let series_id = self.id;
        let result = match self.get_season_mut(season_number) {
            Some(season) => season.track_episodes(
                episode_list,
                series_id,
                season_number,
                episodes_range,
            ),
            None => AddResult::Full,
        };
        self.update(db);
        assert(self@ =~= old(self)@.add_episodes(
            episode_list@.watchable_episodes(old(self)@.id, season_number),
            season_number,
            range_episodes(episodes_range@),
        ));
        assert(db@ =~= old(db)@.insert(self@.id, self@));
        result
    }

    /// Takes an episode out of its season, if the season exists, and writes
    /// the series to the store in either case.
    pub fn remove_episode(&mut self, db: &mut Database, season_number: u32, episode_number: Episode)
        ensures
            final(self)@ == old(self)@.remove_episode(season_number, episode_number),
            final(db)@ == old(db)@.insert(final(self)@.id, final(self)@),
    {
        match self.get_season_mut(season_number) {
            Some(season) => {
                season.untrack_episode(episode_number);
            },
            None => {},
        }
        self.update(db);
        assert(self@ =~= old(self)@.remove_episode(season_number, episode_number));
    }

    /// The highest-numbered season in which something has been watched,
    /// with its number; seasons without watched episodes are passed over.
    pub fn get_last_season(&self) -> (last: Option<(u32, &Season)>)
        ensures
            match last {
                Some((season_number, season)) => self@.is_last_season(season_number) && season@
                    == self@.seasons[season_number],
                None => forall|season_number: u32| !self@.is_watched_season(season_number),
            },
    {
        let entries = self.seasons.iter();
        let ghost listed: Seq<(u32, Season)> = entries.remaining().unref();
        proof {
            lemma_listing_of_entries(self.seasons@, entries.remaining());
        }
        let mut last: Option<(u32, &Season)> = None;
        let ghost mut seen: int = 0;
        for entry in it: entries
            invariant
                it.seq().unref() == listed,
                forall|i: int|
                    0 <= i < listed.len() ==> self.seasons@.contains_key(#[trigger] listed[i].0)
                        && self.seasons@[listed[i].0] == listed[i].1,
                seen == it.index(),
                0 <= seen <= listed.len(),
                match last {
                    Some((best, season)) => {
                        &&& self.seasons@.contains_key(best)
                        &&& self.seasons@[best] == *season
                        &&& season@.len() != 0
                        &&& forall|i: int|
                            0 <= i < seen && (#[trigger] listed[i]).1@.len() != 0 ==> listed[i].0
                                <= best
                    },
                    None => forall|i: int| 0 <= i < seen ==> (#[trigger] listed[i]).1@.len() == 0,
                },
        {
            let (season_number, season) = entry;
            assert(listed[seen] == (*season_number, *season));
            assert(self.seasons@.contains_key(listed[seen].0));
            if season.get_total_episodes() != 0 {
                let higher = match last {
                    Some((best, _)) => *season_number > best,
                    None => true,
                };
                if higher {
                    last = Some((*season_number, season));
                }
            }
            proof {
                seen = seen + 1;
            }
        }
        proof {
            assert(seen == listed.len());
            let keys = listed_keys(listed);
            assert forall|other: u32| #[trigger] self@.is_watched_season(other) implies (match last {
                Some((best, _)) => other <= best,
                None => false,
            }) by {
                assert(keys.to_set().contains(other));
                let i = choose|i: int| 0 <= i < keys.len() && keys[i] == other;
                assert(listed[i].0 == other);
                assert(self.seasons@[listed[i].0] == listed[i].1);
            }
        }
        last
    }
}

} // verus!
