//! The decisions of the transfer: which tracks are looked up, what is asked
//! of the remote catalogue, and what becomes of a track once the catalogue or
//! the operator has answered, or once the cache could not be written. The
//! caller does the outside work: it searches, waits between two searches, asks
//! the operator and writes the cache.

use crate::cache::{
    carries, holds, inserted, known, same_identity, Cache, CacheTrack, Key, Record, TrackID,
};
use crate::itunes::{Track, TrackView};
use crate::resolver::{artist_line, artists_match, does_result_match, pick_candidate, presented};
use crate::spotify::Candidate;
use vstd::prelude::*;
use vstd::string::StringExecFns;

verus! {

/// How many results a search asks for.
pub const SEARCH_LIMIT: u32 = 25;

/// The least time, in milliseconds, between the start of one search and the
/// start of the next.
pub const SUBMISSION_INTERVAL_MS: u64 = 650;

/// Whether the cache holds the persistent identifier of the track.
pub open spec fn cached(records: Seq<Record>, t: TrackView) -> bool {
    holds(records, Key::ItunesID(t.persistent_id))
}

/// Whether the cache holds the persistent identifier of the track.
pub fn is_cached(cache: &Cache, track: &Track) -> (r: bool)
    ensures
        r == cached(cache@, track@),
{
    cache.contains(TrackID::ItunesID(track.persistent_id()))
}

/// The tracks that the cache does not hold, in their order.
pub fn cache_absent_tracks<'a>(tracks: &'a Vec<Track>, cache: &Cache) -> (r: Vec<&'a Track>)
    ensures
        r@.map_values(|t: &Track| *t) == tracks@.filter(|t: Track| !cached(cache@, t@)),
{
    let ghost absent = |t: Track| !cached(cache@, t@);
    let mut out: Vec<&'a Track> = Vec::new();
    let mut i: usize = 0;
    while i < tracks.len()
        invariant
            i <= tracks.len(),
            absent == |t: Track| !cached(cache@, t@),
            out@.map_values(|t: &Track| *t) == tracks@.take(i as int).filter(absent),
        decreases tracks.len() - i,
    {
        proof {
            assert(tracks@.take(i + 1).drop_last() == tracks@.take(i as int));
            reveal(Seq::filter);
        }
        let ghost before = out@;
        if !is_cached(cache, &tracks[i]) {
            out.push(&tracks[i]);
            assert(out@.map_values(|t: &Track| *t) == before.map_values(|t: &Track| *t).push(
                tracks@[i as int],
            ));
        }
        i = i + 1;
    }
    assert(tracks@.take(tracks.len() as int) == tracks@);
    out
}

/// What is asked of the remote catalogue for a track: its name, a space, its
/// artist.
pub open spec fn query(t: TrackView) -> Seq<char> {
    t.name + " "@ + t.artist
}

/// What is asked of the remote catalogue for the track.
pub fn search_query(track: &Track) -> (r: String)
    ensures
        r@ == query(track@),
{
    let mut out = track.name();
    out.append(" ");
    let artist = track.artist();
    out.append(artist.as_str());
    out
}

/// The record that associates the track with the candidate.
pub open spec fn association(t: TrackView, c: Candidate) -> Record {
    Record { name: t.name, spotify_id: Some(c.id@), itunes_id: Some(t.persistent_id) }
}

/// The record that associates the track with the candidate.
pub fn associate(track: &Track, candidate: &Candidate) -> (r: CacheTrack)
    ensures
        r@ == association(track@, *candidate),
{
    CacheTrack::new(track.name(), Some(candidate.id.clone()), Some(track.persistent_id()))
}

/// Once the association of a track with a candidate was offered to the cache,
/// the cache holds the track, provided that it held no record with the
/// identifier of the candidate: such a record would have the offer dropped.
/// Where it did not hold the track before either, it now holds the identifier
/// of the candidate too.
pub proof fn lemma_stored_track_is_cached(records: Seq<Record>, t: TrackView, c: Candidate)
    requires
        !holds(records, Key::SpotifyID(c.id@)),
    ensures
        cached(inserted(records, association(t, c)), t),
        !cached(records, t) ==> holds(inserted(records, association(t, c)), Key::SpotifyID(c.id@)),
{
    let r = association(t, c);
    let after = inserted(records, r);
    if known(records, r) {
        let i = choose|i: int| 0 <= i < records.len() && same_identity(#[trigger] records[i], r);
        assert(!carries(records[i], Key::SpotifyID(c.id@)));
        assert(carries(records[i], Key::ItunesID(t.persistent_id)));
    } else {
        assert(carries(after[records.len() as int], Key::ItunesID(t.persistent_id)));
        assert(carries(after[records.len() as int], Key::SpotifyID(c.id@)));
    }
}

/// None of the tracks to look up is a track that the cache holds.
pub proof fn lemma_absent_tracks_are_not_cached(records: Seq<Record>, tracks: Seq<Track>, k: int)
    requires
        0 <= k < tracks.filter(|t: Track| !cached(records, t@)).len(),
    ensures
        !cached(records, tracks.filter(|t: Track| !cached(records, t@))[k]@),
{
    tracks.lemma_filter_pred(|t: Track| !cached(records, t@), k);
}

/// Whether the track is matched without the operator: there is a candidate,
/// and the artists of the first one match the artist of the track.
pub open spec fn auto_matched(t: TrackView, found: Seq<Candidate>) -> bool {
    found.len() > 0 && artists_match(t.artist, artist_line(found[0]))
}

/// The candidate at the position that the operator selected among those
/// shown, if there is one.
pub open spec fn picked(found: Seq<Candidate>, selection: Option<usize>) -> Option<Candidate> {
    match selection {
        Some(i) if i < presented(found).len() => Some(found[i as int]),
        _ => None,
    }
}

/// How far a track has come.
pub enum State {
    /// The cache does not hold the track, and nothing was done yet.
    Uncached,
    /// The search for the track is under way.
    Fetching,
    /// The first candidate matched; its record is being stored.
    AutoMatched,
    /// No candidate matched by itself; the track waits for the operator, with
    /// the candidates that were found.
    NeedsManualResolution(Vec<Candidate>),
    /// The match of the track is accepted, and its record is in the cache and
    /// written: at once where the state came without a store to carry out,
    /// else as soon as that store is done. Final.
    Cached,
    /// The operator declined. Final for this run; nothing remembers it.
    Skipped,
}

/// What happened outside.
pub enum Event {
    /// The track was taken up.
    Submitted,
    /// The search ended with these candidates, best first.
    Fetched(Vec<Candidate>),
    /// The search failed. It is not tried again in this run, and counts as a
    /// search that found nothing.
    SearchFailed,
    /// The record was inserted and the cache written.
    Persisted,
    /// The cache could not be written.
    PersistFailed,
    /// The operator selected the candidate at this position, or none.
    Answered(Option<usize>),
}

/// What the caller has to do next for the track.
pub enum Action {
    /// Search the remote catalogue for the text, asking for so many results.
    Search(String, u32),
    /// Insert the record into the cache and write the cache, before anything
    /// else is decided.
    Store(CacheTrack),
    /// End the run, for this track and for every other: nothing more is
    /// searched, asked or stored. What was written before stays written.
    Abort,
    /// Nothing.
    Nothing,
}

/// The next state of a track and what the caller has to do, given what
/// happened. A cache that could not be written ends the run, whatever the
/// state. Any other event that the state does not wait for changes nothing.
pub fn step(track: &Track, state: State, event: Event) -> (r: (State, Action))
    ensures
        match (state, event) {
            (_, Event::PersistFailed) => r.0 == state && r.1 is Abort,
            (State::Uncached, Event::Submitted) => {
                &&& r.0 is Fetching
                &&& r.1 matches Action::Search(text, limit)
                &&& text@ == query(track@)
                &&& limit == SEARCH_LIMIT
            },
            (State::Fetching, Event::Fetched(found)) => if auto_matched(track@, found@) {
                &&& r.0 is AutoMatched
                &&& r.1 matches Action::Store(record)
                &&& record@ == association(track@, found@[0])
            } else {
                &&& r.0 == State::NeedsManualResolution(found)
                &&& r.1 is Nothing
            },
            (State::Fetching, Event::SearchFailed) => {
                &&& r.0 matches State::NeedsManualResolution(found)
                &&& found@ == Seq::<Candidate>::empty()
                &&& r.1 is Nothing
            },
            (State::AutoMatched, Event::Persisted) => r.0 is Cached && r.1 is Nothing,
            (State::NeedsManualResolution(found), Event::Answered(selection)) => match picked(
                found@,
                selection,
            ) {
                Some(c) => {
                    &&& r.0 is Cached
                    &&& r.1 matches Action::Store(record)
                    &&& record@ == association(track@, c)
                },
                None => r.0 is Skipped && r.1 is Nothing,
            },
            _ => r.0 == state && r.1 is Nothing,
        },
{
    if let Event::PersistFailed = event {
        return (state, Action::Abort);
    }
    match state {
        State::Uncached => match event {
            Event::Submitted => (State::Fetching, Action::Search(search_query(track), SEARCH_LIMIT)),
            _ => (State::Uncached, Action::Nothing),
        },
        State::Fetching => match event {
            Event::Fetched(found) => {
                if found.len() > 0 && does_result_match(track, &found[0]) {
                    (State::AutoMatched, Action::Store(associate(track, &found[0])))
                } else {
                    (State::NeedsManualResolution(found), Action::Nothing)
                }
            },
            Event::SearchFailed => (State::NeedsManualResolution(Vec::new()), Action::Nothing),
            _ => (State::Fetching, Action::Nothing),
        },
        State::AutoMatched => match event {
            Event::Persisted => (State::Cached, Action::Nothing),
            _ => (State::AutoMatched, Action::Nothing),
        },
        State::NeedsManualResolution(found) => match event {
            Event::Answered(selection) => match pick_candidate(&found, selection) {
                Some(c) => (State::Cached, Action::Store(associate(track, c))),
                None => (State::Skipped, Action::Nothing),
            },
            _ => (State::NeedsManualResolution(found), Action::Nothing),
        },
        State::Cached => (State::Cached, Action::Nothing),
        State::Skipped => (State::Skipped, Action::Nothing),
    }
}

} // verus!
