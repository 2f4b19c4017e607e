//! Watch tracking for television series.
//!
//! A [`series::Series`] holds, season by season, the episodes that have been
//! watched.  An episode can be marked as watched only if the catalogue's
//! [`episode_list::EpisodeList`] says that it has aired.  The
//! [`database::Database`] is the store of tracked series: every change to a
//! series is written to it, and the statistics are sums over it.  The store
//! lives in memory; [`database::Database::write_op`] and
//! [`database::Database::load_record`] say what a program has to write to
//! disk and how it reads it back, in the form that [`record`] and [`key`]
//! define.

pub mod assets;
pub mod database;
pub mod episode_list;
pub mod key;
pub mod record;
pub mod season;
pub mod series;
pub mod series_information;
pub mod summation;
pub mod text;
