//! What the metadata catalogue knows about the episodes of one series, as
//! plain values: which episodes exist and whether each has aired.

use vstd::prelude::*;

verus! {

/// The catalogue's entry for one episode.
#[derive(Clone, Copy, Debug, PartialEq, Eq, Structural)]
pub struct EpisodeInfo {
    /// The season the episode belongs to.
    pub season: u32,
    /// The episode's number within its season; specials carry none.
    pub number: Option<u32>,
    /// Whether the episode has aired; `None` where the catalogue cannot tell.
    pub watchable: Option<bool>,
}

impl EpisodeInfo {
    /// Whether this entry stands for the given episode of the given season.
    pub open spec fn names(self, season_number: u32, episode_number: u32) -> bool {
        self.season == season_number && self.number == Some(episode_number)
    }
}

/// The first entry of `episodes` that stands for the given episode.
pub open spec fn find_episode(
    episodes: Seq<EpisodeInfo>,
    season_number: u32,
    episode_number: u32,
) -> Option<EpisodeInfo>
    decreases episodes.len(),
{
    if episodes.len() == 0 {
        None
    } else if episodes[0].names(season_number, episode_number) {
        Some(episodes[0])
    } else {
        find_episode(episodes.drop_first(), season_number, episode_number)
    }
}

/// The mathematical content of an [`EpisodeList`].
pub struct EpisodeListView {
    pub series_id: u32,
    pub episodes: Seq<EpisodeInfo>,
}

impl EpisodeListView {
    /// The catalogue's answer for an episode of a series: its entry, if the
    /// list belongs to that series and holds one.
    pub open spec fn resolve(
        self,
        series_id: u32,
        season_number: u32,
        episode_number: u32,
    ) -> Option<EpisodeInfo> {
        if self.series_id == series_id {
            find_episode(self.episodes, season_number, episode_number)
        } else {
            None
        }
    }

    /// An episode may be tracked only if the catalogue resolves it and says
    /// that it has aired; an undeterminable answer counts as not aired.
    pub open spec fn is_watchable(
        self,
        series_id: u32,
        season_number: u32,
        episode_number: u32,
    ) -> bool {
        self.resolve(series_id, season_number, episode_number) matches Some(info)
            && info.watchable == Some(true)
    }

    /// The episodes of a season that may be tracked.
    pub open spec fn watchable_episodes(self, series_id: u32, season_number: u32) -> Set<u32> {
        Set::new(|episode: u32| self.is_watchable(series_id, season_number, episode))
    }
}

/// The episodes of one series as the metadata catalogue lists them.
pub struct EpisodeList {
    series_id: u32,
    episodes: Vec<EpisodeInfo>,
}

impl View for EpisodeList {
    type V = EpisodeListView;

    closed spec fn view(&self) -> EpisodeListView {
        EpisodeListView { series_id: self.series_id, episodes: self.episodes@ }
    }
}

impl EpisodeList {
    /// The list of the given series, holding the given entries in order.
    pub fn new(series_id: u32, episodes: Vec<EpisodeInfo>) -> (list: Self)
        ensures
            list@ == (EpisodeListView { series_id, episodes: episodes@ }),
    {
        Self { series_id, episodes }
    }

    /// The series whose episodes are listed.
    pub fn series_id(&self) -> (id: u32)
        ensures
            id == self@.series_id,
    {
        self.series_id
    }

    /// Looks an episode up by season and number; the first entry that names
    /// it is the answer.
    pub fn get_episode(&self, season_number: u32, episode_number: u32) -> (found: Option<
        &EpisodeInfo,
    >)
        ensures
            match found {
                Some(info) => find_episode(self@.episodes, season_number, episode_number)
                    == Some(*info),
                None => find_episode(self@.episodes, season_number, episode_number) is None,
            },
    {
        let mut index: usize = 0;
        assert(self.episodes@.skip(0) == self.episodes@);
        while index < self.episodes.len()
            invariant
                index <= self.episodes@.len(),
                find_episode(self.episodes@, season_number, episode_number) == find_episode(
                    self.episodes@.skip(index as int),
                    season_number,
                    episode_number,
                ),
            decreases self.episodes@.len() - index,
        {
            let info = &self.episodes[index];
            let rest = Ghost(self.episodes@.skip(index as int));
            assert(rest@[0] == *info);
            assert(rest@.drop_first() == self.episodes@.skip(index + 1));
            if info.season == season_number && info.number == Some(episode_number) {
                return Some(info);
            }
            index += 1;
        }
        assert(self.episodes@.skip(index as int).len() == 0);
        None
    }

    /// Whether the catalogue says that the episode has aired.
    pub fn is_episode_watchable(episode: &EpisodeInfo) -> (answer: Option<bool>)
        ensures
            answer == episode.watchable,
    {
        episode.watchable
    }

    /// Whether the given episode of the given series may be tracked.
    pub fn is_watchable(&self, series_id: u32, season_number: u32, episode_number: u32) -> (yes:
        bool)
        ensures
            yes == self@.is_watchable(series_id, season_number, episode_number),
    {
        if self.series_id != series_id {
            return false;
        }
        match self.get_episode(season_number, episode_number) {
            Some(info) => Self::is_episode_watchable(info) == Some(true),
            None => false,
        }
    }
}

} // verus!
