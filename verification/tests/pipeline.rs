use music_librarian::cache::{Cache, TrackID};
use music_librarian::itunes::Track;
use music_librarian::pipeline::{
    associate, cache_absent_tracks, is_cached, search_query, step, Action, Event, State,
    SEARCH_LIMIT, SUBMISSION_INTERVAL_MS,
};
use music_librarian::spotify::Candidate;

fn s(text: &str) -> String {
    text.to_string()
}

fn track(name: &str, artist: &str, persistent_id: &str) -> Track {
    Track::new(s(name), s(artist), 1, s(persistent_id))
}

fn candidate(id: &str, name: &str, artists: &[&str]) -> Candidate {
    Candidate::new(s(id), s(name), artists.iter().map(|a| s(a)).collect(), None)
}

fn yesterday() -> Track {
    track("Yesterday", "The Beatles", "ABC123")
}

#[test]
fn the_limits_are_as_documented() {
    assert_eq!(SEARCH_LIMIT, 25);
    assert_eq!(SUBMISSION_INTERVAL_MS, 650);
}

#[test]
fn the_query_is_name_space_artist() {
    assert_eq!(search_query(&yesterday()), "Yesterday The Beatles");
    assert_eq!(search_query(&track("", "", "P")), " ");
    assert_eq!(search_query(&track("Déjà vu", "Beyoncé", "P")), "Déjà vu Beyoncé");
}

#[test]
fn a_matched_track_is_cached_and_left_out_of_the_next_run() {
    let library = vec![yesterday(), track("Help!", "The Beatles", "DEF456")];
    let mut cache = Cache::new();
    assert_eq!(cache_absent_tracks(&library, &cache).len(), 2);

    let local = &library[0];
    let (state, action) = step(local, State::Uncached, Event::Submitted);
    assert!(matches!(state, State::Fetching));
    match action {
        Action::Search(text, limit) => {
            assert_eq!(text, "Yesterday The Beatles");
            assert_eq!(limit, 25);
        }
        _ => panic!("no search"),
    }

    let found = vec![
        candidate("spotify:track:1", "Yesterday - Remastered", &["The Beatles"]),
        candidate("spotify:track:2", "Yesterday", &["Someone Else"]),
    ];
    let (state, action) = step(local, state, Event::Fetched(found));
    assert!(matches!(state, State::AutoMatched));
    match action {
        Action::Store(record) => {
            assert_eq!(record.name(), "Yesterday");
            assert_eq!(record.spotify_id(), &Some(s("spotify:track:1")));
            assert_eq!(record.itunes_id(), &Some(s("ABC123")));
            cache.insert(record);
        }
        _ => panic!("nothing to store"),
    }
    let (state, action) = step(local, state, Event::Persisted);
    assert!(matches!(state, State::Cached));
    assert!(matches!(action, Action::Nothing));

    assert_eq!(cache.len(), 1);
    assert!(cache.contains(TrackID::ItunesID(s("ABC123"))));
    assert!(cache.contains(TrackID::SpotifyID(s("spotify:track:1"))));
    assert!(is_cached(&cache, local));
    let absent = cache_absent_tracks(&library, &cache);
    assert_eq!(absent.len(), 1);
    assert_eq!(absent[0].persistent_id(), "DEF456");
}

#[test]
fn only_the_first_candidate_is_compared() {
    let found = vec![
        candidate("spotify:track:2", "Yesterday", &["Someone Else"]),
        candidate("spotify:track:1", "Yesterday", &["The Beatles"]),
    ];
    let (state, action) = step(&yesterday(), State::Fetching, Event::Fetched(found));
    match state {
        State::NeedsManualResolution(kept) => {
            assert_eq!(kept.len(), 2);
            assert_eq!(kept[0].id, "spotify:track:2");
            assert_eq!(kept[1].id, "spotify:track:1");
        }
        _ => panic!("not queued"),
    }
    assert!(matches!(action, Action::Nothing));
}

#[test]
fn a_track_without_candidates_waits_for_the_operator() {
    let (state, action) = step(&yesterday(), State::Fetching, Event::Fetched(vec![]));
    match &state {
        State::NeedsManualResolution(kept) => assert!(kept.is_empty()),
        _ => panic!("not queued"),
    }
    assert!(matches!(action, Action::Nothing));
    let (state, action) = step(&yesterday(), state, Event::Answered(Some(0)));
    assert!(matches!(state, State::Skipped));
    assert!(matches!(action, Action::Nothing));
}

#[test]
fn a_failed_search_counts_as_a_search_that_found_nothing() {
    let (state, action) = step(&yesterday(), State::Fetching, Event::SearchFailed);
    match &state {
        State::NeedsManualResolution(kept) => assert!(kept.is_empty()),
        _ => panic!("not queued"),
    }
    assert!(matches!(action, Action::Nothing));
    let (state, _) = step(&yesterday(), State::Uncached, Event::SearchFailed);
    assert!(matches!(state, State::Uncached));
}

#[test]
fn a_cache_that_cannot_be_written_ends_the_run() {
    let t = yesterday();
    let found = vec![candidate("spotify:track:1", "Yesterday", &["The Beatles"])];
    let (state, action) = step(&t, State::Fetching, Event::Fetched(found));
    assert!(matches!(action, Action::Store(_)));
    let (state, action) = step(&t, state, Event::PersistFailed);
    assert!(matches!(state, State::AutoMatched));
    assert!(matches!(action, Action::Abort));

    let waiting = State::NeedsManualResolution(vec![candidate("id", "n", &["a"])]);
    let (state, action) = step(&t, waiting, Event::Answered(Some(0)));
    assert!(matches!(action, Action::Store(_)));
    let (_, action) = step(&t, state, Event::PersistFailed);
    assert!(matches!(action, Action::Abort));

    for state in [State::Uncached, State::Fetching, State::Cached, State::Skipped] {
        let (_, action) = step(&t, state, Event::PersistFailed);
        assert!(matches!(action, Action::Abort));
    }
    let waiting = State::NeedsManualResolution(vec![candidate("id", "n", &["a"])]);
    let (state, action) = step(&t, waiting, Event::PersistFailed);
    match state {
        State::NeedsManualResolution(kept) => assert_eq!(kept.len(), 1),
        _ => panic!("changed"),
    }
    assert!(matches!(action, Action::Abort));
}

#[test]
fn the_pick_of_the_operator_is_stored() {
    let found = vec![
        candidate("spotify:track:2", "Yesterday", &["Someone Else"]),
        candidate("spotify:track:1", "Yesterday", &["The Fab Four"]),
    ];
    let (state, _) = step(&yesterday(), State::Fetching, Event::Fetched(found));
    let (state, action) = step(&yesterday(), state, Event::Answered(Some(1)));
    assert!(matches!(state, State::Cached));
    match action {
        Action::Store(record) => {
            assert_eq!(record.name(), "Yesterday");
            assert_eq!(record.spotify_id(), &Some(s("spotify:track:1")));
            assert_eq!(record.itunes_id(), &Some(s("ABC123")));
        }
        _ => panic!("nothing to store"),
    }
}

#[test]
fn a_decline_leaves_no_trace() {
    let found = vec![candidate("spotify:track:2", "Yesterday", &["Someone Else"])];
    let cache = Cache::new();
    let (state, _) = step(&yesterday(), State::Fetching, Event::Fetched(found));
    let (state, action) = step(&yesterday(), state, Event::Answered(None));
    assert!(matches!(state, State::Skipped));
    assert!(matches!(action, Action::Nothing));
    assert!(!is_cached(&cache, &yesterday()));
    assert_eq!(cache_absent_tracks(&vec![yesterday()], &cache).len(), 1);
}

#[test]
fn a_pick_beyond_the_candidates_shown_is_a_decline() {
    let mut found = Vec::new();
    for i in 0..8 {
        found.push(candidate(&format!("spotify:track:{}", i), "Yesterday", &["Someone Else"]));
    }
    let (state, _) = step(&yesterday(), State::Fetching, Event::Fetched(found));
    let (state, action) = step(&yesterday(), state, Event::Answered(Some(5)));
    assert!(matches!(state, State::Skipped));
    assert!(matches!(action, Action::Nothing));
}

#[test]
fn an_event_out_of_place_changes_nothing() {
    let t = yesterday();
    let (state, action) = step(&t, State::Uncached, Event::Persisted);
    assert!(matches!(state, State::Uncached));
    assert!(matches!(action, Action::Nothing));
    let (state, action) = step(&t, State::Uncached, Event::Fetched(vec![]));
    assert!(matches!(state, State::Uncached));
    assert!(matches!(action, Action::Nothing));
    let (state, action) = step(&t, State::Fetching, Event::Submitted);
    assert!(matches!(state, State::Fetching));
    assert!(matches!(action, Action::Nothing));
    let (state, action) = step(&t, State::AutoMatched, Event::Answered(Some(0)));
    assert!(matches!(state, State::AutoMatched));
    assert!(matches!(action, Action::Nothing));
    let waiting = State::NeedsManualResolution(vec![candidate("id", "n", &["a"])]);
    let (state, action) = step(&t, waiting, Event::Persisted);
    match state {
        State::NeedsManualResolution(kept) => assert_eq!(kept.len(), 1),
        _ => panic!("changed"),
    }
    assert!(matches!(action, Action::Nothing));
}

#[test]
fn the_final_states_stay() {
    let t = yesterday();
    let events = || {
        vec![
            Event::Submitted,
            Event::Fetched(vec![candidate("id", "Yesterday", &["The Beatles"])]),
            Event::SearchFailed,
            Event::Persisted,
            Event::Answered(Some(0)),
            Event::Answered(None),
        ]
    };
    for event in events() {
        let (state, action) = step(&t, State::Cached, event);
        assert!(matches!(state, State::Cached));
        assert!(matches!(action, Action::Nothing));
    }
    for event in events() {
        let (state, action) = step(&t, State::Skipped, event);
        assert!(matches!(state, State::Skipped));
        assert!(matches!(action, Action::Nothing));
    }
}

#[test]
fn the_tracks_that_the_cache_lacks_keep_their_order() {
    let library = vec![
        track("a", "x", "PID-1"),
        track("b", "x", "PID-2"),
        track("c", "x", "PID-3"),
        track("d", "x", "PID-4"),
    ];
    let mut cache = Cache::new();
    cache.cache_track(s("b"), Some(s("R2")), Some(s("PID-2")));
    cache.cache_track(s("d"), None, Some(s("PID-4")));
    cache.cache_track(s("remote only"), Some(s("PID-1")), None);
    let absent = cache_absent_tracks(&library, &cache);
    assert_eq!(absent.len(), 2);
    assert_eq!(absent[0].name(), "a");
    assert_eq!(absent[1].name(), "c");
    assert!(cache_absent_tracks(&vec![], &cache).is_empty());
}

#[test]
fn the_association_carries_both_identifiers() {
    let record = associate(&yesterday(), &candidate("spotify:track:1", "Other title", &["x"]));
    assert_eq!(record.name(), "Yesterday");
    assert_eq!(record.spotify_id(), &Some(s("spotify:track:1")));
    assert_eq!(record.itunes_id(), &Some(s("ABC123")));
}

#[test]
fn a_second_track_matched_to_a_stored_remote_id_is_not_cached() {
    let mut cache = Cache::new();
    let first = yesterday();
    let second = track("Yesterday (mono)", "The Beatles", "XYZ789");
    let same = candidate("spotify:track:1", "Yesterday", &["The Beatles"]);
    cache.insert(associate(&first, &same));
    cache.insert(associate(&second, &same));
    assert_eq!(cache.len(), 1);
    assert!(is_cached(&cache, &first));
    assert!(!is_cached(&cache, &second));
}
