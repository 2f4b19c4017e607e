//! The stored form of a series: the binary record that is written under the
//! series' key, and the way back from a record to the series.

use crate::season::Episode;
use crate::series::{lemma_listing_builds_seasons, lists_seasons, seasons_of};
use crate::series::{Series, SeriesView};
use vstd::prelude::*;

verus! {

/// The kinds of error that bincode reports.
#[verifier::external_type_specification]
#[verifier::external_body]
pub struct ExErrorKind(bincode::ErrorKind);

/// Why a record could not be written or read.
#[derive(Debug, Clone, Copy, PartialEq, Eq, Structural)]
pub enum RecordError {
    /// The encoder reported an error.
    Encode,
    /// The bytes are not the binary form of a series.
    Decode,
    /// The key is not the decimal form of an identifier.
    Key,
}

/// The bytes that bincode writes for an identifier, a name and a listing of
/// seasons, in its default configuration.
pub uninterp spec fn record_bytes(
    id: u32,
    name: Seq<char>,
    seasons: Seq<(u32, Seq<Episode>)>,
) -> Seq<u8>;

/// The identifier, name and listing of seasons that bincode reads from
/// bytes, in its default configuration; `None` where it reports an error.
pub uninterp spec fn record_parts(bytes: Seq<u8>) -> Option<
    (u32, Seq<char>, Seq<(u32, Seq<Episode>)>),
>;

/// `bincode::serialize` on an identifier, a name and a listing of seasons.
/// For values of these types the call always succeeds: the default
/// configuration sets no size limit, every sequence among them knows its
/// length, and the bytes go into a vector.  The bytes depend on the three
/// values alone, and reading them gives the three back, as the crate's
/// documentation promises of what it has written.
#[verifier::external_body]
fn serialize_record(id: u32, name: &String, seasons: &Vec<(u32, Vec<Episode>)>) -> (written:
    Result<Vec<u8>, bincode::Error>)
    ensures
        written is Ok,
        written matches Ok(bytes) ==> bytes@ == record_bytes(id, name@, seasons.deep_view())
            && record_parts(bytes@) == Some((id, name@, seasons.deep_view())),
{
    bincode::serialize(&(id, name, seasons))
}

/// `bincode::deserialize` to an identifier, a name and a listing of
/// seasons.  What is read, or that nothing can be read, depends on the bytes
/// alone.
#[verifier::external_body]
fn deserialize_record(bytes: &[u8]) -> (read: Result<
    (u32, String, Vec<(u32, Vec<Episode>)>),
    bincode::Error,
>)
    ensures
        match read {
            Ok(parts) => record_parts(bytes@) == Some((parts.0, parts.1@, parts.2.deep_view())),
            Err(_) => record_parts(bytes@) is None,
        },
{
    bincode::deserialize(bytes)
}

/// The series that a record holds, if the bytes are a record: the seasons
/// are those that the listing in the record builds up.
pub open spec fn decoded_series(bytes: Seq<u8>) -> Option<SeriesView> {
    match record_parts(bytes) {
        Some((id, name, seasons)) => Some(SeriesView { id, name, seasons: seasons_of(seasons) }),
        None => None,
    }
}

/// Whether the bytes are a record of the series: what bincode writes for
/// the series' identifier, its name and some listing of its seasons.
pub open spec fn is_record_of(bytes: Seq<u8>, series: SeriesView) -> bool {
    exists|listed: Seq<(u32, Seq<Episode>)>| #[trigger]
        lists_seasons(listed, series.seasons) && bytes == record_bytes(
            series.id,
            series.name,
            listed,
        )
}

/// Turns what the encoder answered into the record, or into the library's
/// own error.
pub fn record_from_encoding(written: Result<Vec<u8>, bincode::Error>) -> (record: Result<
    Vec<u8>,
    RecordError,
>)
    ensures
        match written {
            Ok(bytes) => record == Ok::<Vec<u8>, RecordError>(bytes),
            Err(_) => record == Err::<Vec<u8>, RecordError>(RecordError::Encode),
        },
{
    match written {
        Ok(bytes) => Ok(bytes),
        Err(_) => Err(RecordError::Encode),
    }
}

/// Turns what the decoder answered into the series that the parts build
/// up, or into the library's own error.
pub fn series_from_decoding(
    read: Result<(u32, String, Vec<(u32, Vec<Episode>)>), bincode::Error>,
) -> (series: Result<Series, RecordError>)
    ensures
        match read {
            Ok(parts) => series matches Ok(built) && built@ == (SeriesView {
                id: parts.0,
                name: parts.1@,
                seasons: seasons_of(parts.2.deep_view()),
            }),
            Err(_) => series matches Err(error) && error == RecordError::Decode,
        },
{
    match read {
        Ok(parts) => Ok(Series::from_parts(parts.0, parts.1, parts.2)),
        Err(_) => Err(RecordError::Decode),
    }
}

/// The record of a series: what bincode writes for the series' identifier,
/// its name and a listing of its seasons.  A series always has a record,
/// and reading the record gives the series back.
pub fn encode_series(series: &Series) -> (record: Result<Vec<u8>, RecordError>)
    ensures
        record matches Ok(bytes) && is_record_of(bytes@, series@) && decoded_series(bytes@)
            == Some(series@),
{
    let id = series.get_id();
    let name = series.get_name().to_owned();
    let seasons = series.seasons_listing();
    let written = serialize_record(id, &name, &seasons);
    proof {
        lemma_listing_builds_seasons(seasons.deep_view(), series@.seasons);
        assert(lists_seasons(seasons.deep_view(), series@.seasons));
        assert(decoded_series(written->Ok_0@).unwrap() =~= series@);
    }
    record_from_encoding(written)
}

/// The series that a record holds; `Decode` where the bytes are no record.
pub fn decode_series(bytes: &[u8]) -> (series: Result<Series, RecordError>)
    ensures
        match series {
            Ok(decoded) => decoded_series(bytes@) == Some(decoded@),
            Err(error) => error == RecordError::Decode && decoded_series(bytes@) is None,
        },
{
    series_from_decoding(deserialize_record(bytes))
}

} // verus!
