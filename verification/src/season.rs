//! A season of a series, held as the set of its watched episode numbers, and
//! the rule that only aired episodes can be marked as watched.

use crate::episode_list::EpisodeList;
use std::collections::HashSet;
use std::ops::RangeInclusive;
use vstd::prelude::*;
use vstd::std_specs::hash::*;
use vstd::std_specs::iter::IteratorSpec;
use vstd::std_specs::range::RangeInclusiveView;

verus! {

broadcast use group_hash_axioms;

/// An episode is known by its number within a season.
pub type Episode = u32;

/// How a request to track a range of episodes ended.
#[derive(Debug, Clone, Copy, PartialEq, Eq, Structural)]
pub enum AddResult {
    /// Every requested episode was newly tracked.
    Full,
    /// Some requested episodes were newly tracked and some were not.
    Partial,
    /// No requested episode was newly tracked.
    Nothing,
}

/// The episode numbers that iterating over a range yields.
pub open spec fn range_episodes(range: RangeInclusiveView<Episode>) -> Set<Episode> {
    Set::new(|episode: Episode| !range.exhausted && range.start <= episode <= range.end)
}

/// The watched episodes after one episode was asked for: it joins them only
/// if it may be watched.
pub open spec fn tracked_after_one(
    before: Set<Episode>,
    watchable: bool,
    episode: Episode,
) -> Set<Episode> {
    if watchable {
        before.insert(episode)
    } else {
        before
    }
}

/// The watched episodes after the `requested` ones were asked for: those
/// that may be watched join them.
pub open spec fn tracked_after(
    before: Set<Episode>,
    watchable: Set<Episode>,
    requested: Set<Episode>,
) -> Set<Episode> {
    before.union(requested.intersect(watchable))
}

/// Whether asking for the episode tracks it newly: it may be watched and was
/// not tracked before.
pub open spec fn is_newly_tracked(
    before: Set<Episode>,
    watchable: Set<Episode>,
    episode: Episode,
) -> bool {
    watchable.contains(episode) && !before.contains(episode)
}

/// The outcome of asking for the `requested` episodes.  An episode is newly
/// tracked when it may be watched and was not tracked before.  With nothing
/// requested the outcome is `Full`.
pub open spec fn add_result(
    before: Set<Episode>,
    watchable: Set<Episode>,
    requested: Set<Episode>,
) -> AddResult {
    if requested.subset_of(watchable.difference(before)) {
        AddResult::Full
    } else if requested.intersect(watchable).subset_of(before) {
        AddResult::Nothing
    } else {
        AddResult::Partial
    }
}

/// Asking for episodes none of which was tracked and all of which may be
/// watched tracks them all: the outcome is `Full`.
pub proof fn lemma_fresh_request_is_full(
    before: Set<Episode>,
    watchable: Set<Episode>,
    requested: Set<Episode>,
)
    requires
        requested.subset_of(watchable),
        requested.disjoint(before),
    ensures
        add_result(before, watchable, requested) == AddResult::Full,
        tracked_after(before, watchable, requested) == before.union(requested),
{
    assert(tracked_after(before, watchable, requested) =~= before.union(requested));
}

/// Asking again for the same episodes tracks nothing new: unless nothing
/// was requested, the outcome is `Nothing`, and the season stays as it is.
pub proof fn lemma_repeated_request_adds_nothing(
    before: Set<Episode>,
    watchable: Set<Episode>,
    requested: Set<Episode>,
)
    ensures
        tracked_after(tracked_after(before, watchable, requested), watchable, requested)
            == tracked_after(before, watchable, requested),
        add_result(tracked_after(before, watchable, requested), watchable, requested) == if requested
            == Set::<Episode>::empty() {
            AddResult::Full
        } else {
            AddResult::Nothing
        },
{
    let after = tracked_after(before, watchable, requested);
    assert(tracked_after(after, watchable, requested) =~= after);
    if requested =~= Set::<Episode>::empty() {
    } else {
        let episode = choose|episode: Episode| requested.contains(episode);
        assert(requested.contains(episode));
        assert(!watchable.difference(after).contains(episode));
    }
}

/// The outcome is `Partial` exactly when some requested episode is newly
/// tracked and some other is not.
pub proof fn lemma_partial_result(
    before: Set<Episode>,
    watchable: Set<Episode>,
    requested: Set<Episode>,
)
    ensures
        add_result(before, watchable, requested) == AddResult::Partial <==> (exists|
            episode: Episode,
        |
            requested.contains(episode) && #[trigger] is_newly_tracked(before, watchable, episode))
            && (exists|episode: Episode|
            requested.contains(episode) && !#[trigger] is_newly_tracked(
                before,
                watchable,
                episode,
            )),
{
    if add_result(before, watchable, requested) == AddResult::Partial {
        let skipped = choose|episode: Episode|
            requested.contains(episode) && !watchable.difference(before).contains(episode);
        assert(!is_newly_tracked(before, watchable, skipped));
        let added = choose|episode: Episode|
            requested.intersect(watchable).contains(episode) && !before.contains(episode);
        assert(is_newly_tracked(before, watchable, added));
    } else if add_result(before, watchable, requested) == AddResult::Full {
        assert forall|episode: Episode| requested.contains(episode) implies #[trigger] is_newly_tracked(
            before,
            watchable,
            episode,
        ) by {
            assert(watchable.difference(before).contains(episode));
        }
    } else {
        assert forall|episode: Episode| requested.contains(episode) implies !#[trigger] is_newly_tracked(
            before,
            watchable,
            episode,
        ) by {
            if watchable.contains(episode) {
                assert(requested.intersect(watchable).contains(episode));
            }
        }
    }
}

/// `RangeInclusive::is_empty`: a range yields nothing once it has been
/// iterated to its end, or when its start lies above its end.
#[verifier::external_body]
fn range_is_empty(range: &RangeInclusive<Episode>) -> (empty: bool)
    ensures
        empty == (range@.exhausted || range@.start > range@.end),
{
    range.is_empty()
}

/// `RangeInclusive::start`: the lower bound of a range that has not been
/// iterated to its end.
#[verifier::external_body]
fn range_start(range: &RangeInclusive<Episode>) -> (start: Episode)
    ensures
        !range@.exhausted ==> start == range@.start,
{
    *range.start()
}

/// `RangeInclusive::end`: the upper bound of a range that has not been
/// iterated to its end.
#[verifier::external_body]
fn range_end(range: &RangeInclusive<Episode>) -> (end: Episode)
    ensures
        !range@.exhausted ==> end == range@.end,
{
    *range.end()
}

/// The watched episodes of one season.
#[derive(Debug)]
pub struct Season {
    episodes: HashSet<Episode>,
}

impl View for Season {
    type V = Set<Episode>;

    closed spec fn view(&self) -> Set<Episode> {
        self.episodes@
    }
}

impl Season {
    /// A season in which nothing has been watched.
    pub fn new() -> (season: Self)
        ensures
            season@ == Set::<Episode>::empty(),
    {
        Self { episodes: HashSet::new() }
    }

    /// Whether the episode is among the watched ones.
    pub fn is_episode_watched(&self, episode: Episode) -> (watched: bool)
        ensures
            watched == self@.contains(episode),
    {
        self.episodes.contains(&episode)
    }

    /// Forgets that the episode was watched.
    pub fn untrack_episode(&mut self, episode: Episode)
        ensures
            final(self)@ == old(self)@.remove(episode),
    {
        self.episodes.remove(&episode);
    }

    /// The number of watched episodes.
    pub fn get_total_episodes(&self) -> (total: usize)
        ensures
            total == self@.len(),
    {
        self.episodes.len()
    }

    /// The watched episode with the highest number, whatever was left
    /// unwatched below it.
    pub fn get_last_episode(&self) -> (last: Option<Episode>)
        ensures
            match last {
                Some(episode) => self@.contains(episode) && forall|other: Episode|
                    self@.contains(other) ==> other <= episode,
                None => self@ == Set::<Episode>::empty(),
            },
    {
        let mut last: Option<Episode> = None;
        let ghost listed: Seq<Episode> = self.episodes.iter().remaining().unref();
        let ghost mut seen: int = 0;
        for episode in it: self.episodes.iter()
            invariant
                it.seq().unref() == listed,
                listed.to_set() == self.episodes@,
                seen == it.index(),
                match last {
                    Some(best) => self.episodes@.contains(best) && forall|i: int|
                        0 <= i < seen ==> #[trigger] listed[i] <= best,
                    None => seen == 0,
                },
        {
            assert(listed[seen] == *episode);
            assert(listed.to_set().contains(*episode));
            let better = match last {
                Some(best) => *episode > best,
                None => true,
            };
            if better {
                last = Some(*episode);
            }
            proof {
                seen = seen + 1;
            }
        }
        proof {
            assert(seen == listed.len());
            match last {
                Some(best) => {
                    assert forall|other: Episode| self@.contains(other) implies other <= best by {
                        assert(listed.to_set().contains(other));
                        let i = choose|i: int| 0 <= i < listed.len() && listed[i] == other;
                        assert(listed[i] <= best);
                    }
                },
                None => {
                    assert(self@ =~= Set::<Episode>::empty());
                },
            }
        }
        last
    }

    /// A season holds finitely many episodes.
    pub proof fn lemma_finite(&self)
        ensures
            self@.finite(),
    {
        let listed = self.episodes.iter().remaining().unref();
        vstd::seq_lib::seq_to_set_is_finite(listed);
    }

    /// The watched episodes, each once, in no particular order.
    pub fn episodes(&self) -> (listed: Vec<Episode>)
        ensures
            listed@.no_duplicates(),
            listed@.to_set() == self@,
    {
        let watched = self.episodes.iter();
        let ghost handed: Seq<Episode> = watched.remaining().unref();
        assert(handed.no_duplicates()) by {
            assert forall|i: int, j: int|
                0 <= i < handed.len() && 0 <= j < handed.len() && i != j implies handed[i]
                != handed[j] by {
                assert(watched.remaining()[i] != watched.remaining()[j]);
            }
        }
        let mut listed: Vec<Episode> = Vec::new();
        for episode in it: watched
            invariant
                it.seq().unref() == handed,
                listed@ =~= handed.take(it.index()),
        {
            listed.push(*episode);
        }
        assert(handed.take(handed.len() as int) =~= handed);
        listed
    }

    /// The season in which exactly the given episodes are watched; an
    /// episode given twice counts once.
    pub fn from_episodes(episodes: &Vec<Episode>) -> (season: Self)
        ensures
            season@ == episodes@.to_set(),
    {
        let mut watched: HashSet<Episode> = HashSet::new();
        let mut index: usize = 0;
        assert(episodes@.take(0) =~= Seq::<Episode>::empty());
        while index < episodes.len()
            invariant
                index <= episodes@.len(),
                watched@ =~= episodes@.take(index as int).to_set(),
            decreases episodes@.len() - index,
        {
            watched.insert(episodes[index]);
            proof {
                let shorter = episodes@.take(index as int);
                assert(episodes@.take(index + 1) =~= shorter.push(episodes@[index as int]));
                shorter.lemma_push_to_set_commute(episodes@[index as int]);
            }
            index += 1;
        }
        assert(episodes@.take(index as int) =~= episodes@);
        Self { episodes: watched }
    }

    /// Marks an episode as watched, provided the catalogue resolves it for
    /// the given series and season and says that it has aired.  Returns
    /// whether the episode was newly tracked; otherwise nothing changes.
    pub fn track_episode(
        &mut self,
        episode_list: &EpisodeList,
        series_id: u32,
        season_number: u32,
        episode_number: Episode,
    ) -> (newly_tracked: bool)
        ensures
            final(self)@ == tracked_after_one(
                old(self)@,
                episode_list@.is_watchable(series_id, season_number, episode_number),
                episode_number,
            ),
            newly_tracked == (episode_list@.is_watchable(series_id, season_number, episode_number)
                && !old(self)@.contains(episode_number)),
    {
        if episode_list.is_watchable(series_id, season_number, episode_number) {
            return self.episodes.insert(episode_number);
        }
        false
    }

    /// Asks for every episode of a range in turn, from its start to its end,
    /// and reports how many of them were newly tracked: all, some or none.
    pub fn track_episodes(
        &mut self,
        episode_list: &EpisodeList,
        series_id: u32,
        season_number: u32,
        episodes_range: RangeInclusive<Episode>,
    ) -> (result: AddResult)
        ensures
            final(self)@ == tracked_after(
                old(self)@,
                episode_list@.watchable_episodes(series_id, season_number),
                range_episodes(episodes_range@),
            ),
            result == add_result(
                old(self)@,
                episode_list@.watchable_episodes(series_id, season_number),
                range_episodes(episodes_range@),
            ),
    {
        let ghost before = self@;
        let ghost watchable = episode_list@.watchable_episodes(series_id, season_number);
        let ghost requested = range_episodes(episodes_range@);
        if range_is_empty(&episodes_range) {
            assert(requested =~= Set::<Episode>::empty());
            assert(self@ =~= tracked_after(before, watchable, requested));
            return AddResult::Full;
        }
        let first = range_start(&episodes_range);
        let last = range_end(&episodes_range);
        let mut next: u64 = first as u64;
        let mut already_added_items: u64 = 0;
        while next <= last as u64
            invariant
                first <= last,
                first <= next <= last + 1,
                watchable == episode_list@.watchable_episodes(series_id, season_number),
                requested == Set::new(|episode: Episode| first <= episode <= last),
                self@ =~= before.union(
                    Set::new(|episode: Episode| first <= episode < next).intersect(watchable),
                ),
                already_added_items <= next - first,
                already_added_items == 0 ==> forall|episode: Episode|
                    first <= episode < next ==> #[trigger] is_newly_tracked(
                        before,
                        watchable,
                        episode,
                    ),
                already_added_items > 0 ==> exists|episode: Episode|
                    first <= episode < next && !#[trigger] is_newly_tracked(
                        before,
                        watchable,
                        episode,
                    ),
                already_added_items == next - first ==> forall|episode: Episode|
                    first <= episode < next ==> !#[trigger] is_newly_tracked(
                        before,
                        watchable,
                        episode,
                    ),
                already_added_items < next - first ==> exists|episode: Episode|
                    first <= episode < next && #[trigger] is_newly_tracked(
                        before,
                        watchable,
                        episode,
                    ),
            decreases last + 1 - next,
        {
            let episode_number = next as Episode;
            let ghost current = self@;
            assert(current.contains(episode_number) == before.contains(episode_number));
            let newly_tracked = self.track_episode(
                episode_list,
                series_id,
                season_number,
                episode_number,
            );
            assert(newly_tracked == is_newly_tracked(before, watchable, episode_number));
            if !newly_tracked {
                already_added_items += 1;
            }
            next += 1;
        }
        let requested_items: u64 = last as u64 - first as u64 + 1;
        proof {
            assert(next == last + 1);
            assert(Set::new(|episode: Episode| first <= episode < next) =~= requested);
            assert(requested.contains(first));
            if already_added_items == 0 {
                assert forall|episode: Episode| requested.contains(episode) implies
                    watchable.difference(before).contains(episode) by {
                    assert(is_newly_tracked(before, watchable, episode));
                }
            } else {
                let skipped = choose|episode: Episode|
                    first <= episode < next && !#[trigger] is_newly_tracked(
                        before,
                        watchable,
                        episode,
                    );
                assert(requested.contains(skipped));
                assert(!watchable.difference(before).contains(skipped));
                if already_added_items == requested_items {
                    assert forall|episode: Episode|
                        requested.intersect(watchable).contains(episode) implies before.contains(
                        episode,
                    ) by {
                        assert(!is_newly_tracked(before, watchable, episode));
                    }
                } else {
                    let added = choose|episode: Episode|
                        first <= episode < next && #[trigger] is_newly_tracked(
                            before,
                            watchable,
                            episode,
                        );
                    assert(requested.intersect(watchable).contains(added));
                    assert(!before.contains(added));
                }
            }
        }
        if already_added_items == 0 {
            AddResult::Full
        } else if already_added_items == requested_items {
            AddResult::Nothing
        } else {
            AddResult::Partial
        }
    }
}

impl Clone for Season {
    fn clone(&self) -> (copy: Self)
        ensures
            copy@ == self@,
    {
        let episodes = self.episodes();
        Self::from_episodes(&episodes)
    }
}

impl Default for Season {
    fn default() -> (season: Self)
        ensures
            season@ == Set::<Episode>::empty(),
    {
        Self::new()
    }
}

} // verus!
