use music_librarian::cache::{Cache, CacheTrack, TrackID};
use serde_json::Value;
use std::sync::{Arc, Mutex};

fn s(text: &str) -> String {
    text.to_string()
}

fn remote(id: &str) -> TrackID {
    TrackID::SpotifyID(s(id))
}

fn local(id: &str) -> TrackID {
    TrackID::ItunesID(s(id))
}

fn id_value(id: &Option<String>) -> Value {
    match id {
        Some(text) => Value::String(text.clone()),
        None => Value::Null,
    }
}

fn id_of(value: &Value) -> Option<String> {
    value.as_str().map(|text| text.to_string())
}

fn to_json(cache: &Cache) -> String {
    let mut list = Vec::new();
    for track in cache.tracks() {
        let mut entry = serde_json::Map::new();
        entry.insert(s("name"), Value::String(track.name().clone()));
        entry.insert(s("spotify_id"), id_value(track.spotify_id()));
        entry.insert(s("itunes_id"), id_value(track.itunes_id()));
        list.push(Value::Object(entry));
    }
    let mut root = serde_json::Map::new();
    root.insert(s("tracks"), Value::Array(list));
    serde_json::to_string_pretty(&Value::Object(root)).unwrap()
}

fn from_json(text: &str) -> Cache {
    let root: Value = serde_json::from_str(text).unwrap();
    let mut records = Vec::new();
    for entry in root["tracks"].as_array().unwrap() {
        records.push(CacheTrack::new(
            entry["name"].as_str().unwrap().to_string(),
            id_of(&entry["spotify_id"]),
            id_of(&entry["itunes_id"]),
        ));
    }
    Cache::from_records(records)
}

#[test]
fn empty_cache_contains_nothing() {
    let cache = Cache::new();
    assert_eq!(cache.len(), 0);
    assert!(!cache.contains(remote("spotify:track:1")));
    assert!(!cache.contains(local("ABC123")));
    assert_eq!(Cache::default().len(), 0);
}

#[test]
fn lookup_by_remote_id_holds_after_insert_and_after_unrelated_inserts() {
    let mut cache = Cache::new();
    cache.cache_track(s("Yesterday"), Some(s("spotify:track:1")), Some(s("ABC123")));
    assert!(cache.contains(remote("spotify:track:1")));
    for i in 0..50 {
        cache.cache_track(
            format!("Song {}", i),
            Some(format!("spotify:track:other{}", i)),
            Some(format!("LOCAL{}", i)),
        );
        assert!(cache.contains(remote("spotify:track:1")));
    }
    assert_eq!(cache.len(), 51);
    assert!(cache.contains(local("ABC123")));
}

#[test]
fn lookup_goes_by_namespace() {
    let mut cache = Cache::new();
    cache.cache_track(s("Yesterday"), Some(s("R1")), Some(s("L1")));
    assert!(cache.contains(remote("R1")));
    assert!(cache.contains(local("L1")));
    assert!(!cache.contains(remote("L1")));
    assert!(!cache.contains(local("R1")));
    assert!(!cache.contains(remote("r1")));
    assert!(!cache.contains(remote("R1 ")));
}

#[test]
fn inserting_the_same_pair_twice_keeps_the_size() {
    let mut cache = Cache::new();
    cache.cache_track(s("Yesterday"), Some(s("R1")), Some(s("L1")));
    assert_eq!(cache.len(), 1);
    cache.cache_track(s("Yesterday"), Some(s("R1")), Some(s("L1")));
    assert_eq!(cache.len(), 1);
}

#[test]
fn a_record_that_shares_one_identifier_is_not_added_and_the_first_stays() {
    let mut cache = Cache::new();
    cache.cache_track(s("Yesterday"), Some(s("R1")), Some(s("L1")));
    cache.cache_track(s("Yesterday (remaster)"), Some(s("R2")), Some(s("L1")));
    cache.cache_track(s("Yesterday (live)"), Some(s("R1")), Some(s("L9")));
    assert_eq!(cache.len(), 1);
    assert_eq!(cache.tracks()[0].name(), "Yesterday");
    assert_eq!(cache.tracks()[0].spotify_id(), &Some(s("R1")));
    assert_eq!(cache.tracks()[0].itunes_id(), &Some(s("L1")));
    assert!(!cache.contains(remote("R2")));
    assert!(!cache.contains(local("L9")));
}

#[test]
fn remote_only_and_local_only_records_are_not_the_same_identity() {
    let remote_only = CacheTrack::new(s("a"), Some(s("X")), None);
    let local_only = CacheTrack::new(s("b"), None, Some(s("X")));
    assert!(!remote_only.same_identity(&local_only));
    assert!(!local_only.same_identity(&remote_only));
    assert!(remote_only != local_only);

    let mut cache = Cache::new();
    cache.insert(remote_only);
    cache.insert(local_only);
    assert_eq!(cache.len(), 2);
    assert!(cache.contains(remote("X")));
    assert!(cache.contains(local("X")));
}

#[test]
fn same_identity_needs_a_shared_identifier_that_is_present() {
    let both = CacheTrack::new(s("a"), Some(s("R")), Some(s("L")));
    let same_remote = CacheTrack::new(s("b"), Some(s("R")), None);
    let same_local = CacheTrack::new(s("c"), None, Some(s("L")));
    let other = CacheTrack::new(s("a"), Some(s("R2")), Some(s("L2")));
    let bare = CacheTrack::new(s("a"), None, None);
    assert!(both.same_identity(&same_remote));
    assert!(both.same_identity(&same_local));
    assert!(both == same_remote);
    assert!(!both.same_identity(&other));
    assert!(!both.same_identity(&bare));
    assert!(!bare.same_identity(&bare));
    assert!(!same_remote.same_identity(&same_local));
}

#[test]
fn a_record_without_identifiers_is_added_every_time() {
    let mut cache = Cache::new();
    cache.cache_track(s("nameless"), None, None);
    cache.cache_track(s("nameless"), None, None);
    assert_eq!(cache.len(), 2);
}

#[test]
fn an_empty_identifier_is_an_identifier() {
    let mut cache = Cache::new();
    cache.cache_track(s("a"), Some(s("")), None);
    cache.cache_track(s("b"), Some(s("")), None);
    assert_eq!(cache.len(), 1);
    assert!(cache.contains(remote("")));
    assert!(!cache.contains(local("")));
}

#[test]
fn distinct_records_are_all_kept_in_the_order_of_the_inserts() {
    let n = 200;
    let mut cache = Cache::new();
    for i in 0..n {
        cache.cache_track(format!("Song {}", i), Some(format!("R{}", i)), Some(format!("L{}", i)));
    }
    assert_eq!(cache.len(), n);
    for i in 0..n {
        assert!(cache.contains(remote(&format!("R{}", i))));
        assert!(cache.contains(local(&format!("L{}", i))));
        assert_eq!(cache.tracks()[i].name(), &format!("Song {}", i));
    }
}

#[test]
fn distinct_records_are_all_kept_whatever_the_order() {
    let n = 60;
    let mut forward = Cache::new();
    let mut backward = Cache::new();
    for i in 0..n {
        forward.cache_track(s("x"), Some(format!("R{}", i)), Some(format!("L{}", i)));
        let j = n - 1 - i;
        backward.cache_track(s("x"), Some(format!("R{}", j)), Some(format!("L{}", j)));
    }
    assert_eq!(forward.len(), n);
    assert_eq!(backward.len(), n);
    for i in 0..n {
        assert!(forward.contains(remote(&format!("R{}", i))));
        assert!(backward.contains(remote(&format!("R{}", i))));
    }
}

#[test]
fn from_records_drops_records_of_a_known_identity() {
    let records = vec![
        CacheTrack::new(s("one"), Some(s("R1")), Some(s("L1"))),
        CacheTrack::new(s("two"), Some(s("R2")), None),
        CacheTrack::new(s("one again"), None, Some(s("L1"))),
        CacheTrack::new(s("three"), None, Some(s("L3"))),
        CacheTrack::new(s("two again"), Some(s("R2")), Some(s("L4"))),
    ];
    let cache = Cache::from_records(records);
    assert_eq!(cache.len(), 3);
    assert_eq!(cache.tracks()[0].name(), "one");
    assert_eq!(cache.tracks()[1].name(), "two");
    assert_eq!(cache.tracks()[2].name(), "three");
    assert!(!cache.contains(local("L4")));
}

#[test]
fn insert_all_offers_the_records_in_turn() {
    let mut cache = Cache::new();
    cache.cache_track(s("zero"), Some(s("R0")), Some(s("L0")));
    cache.insert_all(vec![
        CacheTrack::new(s("one"), Some(s("R1")), Some(s("L1"))),
        CacheTrack::new(s("zero again"), Some(s("R0")), None),
        CacheTrack::new(s("two"), None, Some(s("L2"))),
        CacheTrack::new(s("one again"), Some(s("R9")), Some(s("L1"))),
    ]);
    assert_eq!(cache.len(), 3);
    assert_eq!(cache.tracks()[0].name(), "zero");
    assert_eq!(cache.tracks()[1].name(), "one");
    assert_eq!(cache.tracks()[2].name(), "two");
    cache.insert_all(vec![]);
    assert_eq!(cache.len(), 3);
}

#[test]
fn reloading_the_records_of_a_cache_restores_it() {
    let mut cache = Cache::new();
    cache.cache_track(s("one"), Some(s("R1")), Some(s("L1")));
    cache.cache_track(s("two"), Some(s("R2")), None);
    cache.cache_track(s("three"), None, Some(s("L3")));
    cache.cache_track(s("bare"), None, None);
    let mut copies = Vec::new();
    for track in cache.tracks() {
        copies.push(CacheTrack::new(
            track.name().clone(),
            track.spotify_id().clone(),
            track.itunes_id().clone(),
        ));
    }
    let reloaded = Cache::from_records(copies);
    assert_eq!(reloaded.len(), 4);
    for (a, b) in cache.tracks().iter().zip(reloaded.tracks().iter()) {
        assert_eq!(a.name(), b.name());
        assert_eq!(a.spotify_id(), b.spotify_id());
        assert_eq!(a.itunes_id(), b.itunes_id());
    }
}

#[test]
fn a_cache_written_as_json_and_read_again_finds_every_record() {
    let n = 25;
    let mut cache = Cache::new();
    for i in 0..n {
        let spotify_id = if i % 3 == 1 { None } else { Some(format!("spotify:track:{}", i)) };
        let itunes_id = if i % 3 == 2 { None } else { Some(format!("PID{}", i)) };
        cache.cache_track(format!("Song \"{}\"", i), spotify_id, itunes_id);
    }
    assert_eq!(cache.len(), n);
    let text = to_json(&cache);
    let reloaded = from_json(&text);
    assert_eq!(reloaded.len(), n);
    for track in cache.tracks() {
        let by_remote = match track.spotify_id() {
            Some(id) => reloaded.contains(TrackID::SpotifyID(id.clone())),
            None => false,
        };
        let by_local = match track.itunes_id() {
            Some(id) => reloaded.contains(TrackID::ItunesID(id.clone())),
            None => false,
        };
        assert!(by_remote || by_local);
    }
}

#[test]
fn knows_tells_whether_an_insert_would_be_dropped() {
    let mut cache = Cache::new();
    cache.cache_track(s("one"), Some(s("R1")), Some(s("L1")));
    assert!(cache.knows(&CacheTrack::new(s("x"), Some(s("R1")), None)));
    assert!(cache.knows(&CacheTrack::new(s("x"), None, Some(s("L1")))));
    assert!(!cache.knows(&CacheTrack::new(s("one"), Some(s("L1")), Some(s("R1")))));
    assert!(!cache.knows(&CacheTrack::new(s("one"), None, None)));
}

#[test]
fn a_record_carries_its_identifiers() {
    let record = CacheTrack::new(s("one"), Some(s("R1")), None);
    assert!(record.carries(&remote("R1")));
    assert!(!record.carries(&remote("R2")));
    assert!(!record.carries(&local("R1")));
}

#[test]
fn distinct_records_inserted_side_by_side_are_all_kept() {
    let n = 64;
    let cache = Arc::new(Mutex::new(Cache::new()));
    let runtime = tokio::runtime::Builder::new_multi_thread().worker_threads(4).build().unwrap();
    runtime.block_on(async {
        let mut handles = Vec::new();
        for i in 0..n {
            let cache = Arc::clone(&cache);
            handles.push(tokio::spawn(async move {
                let mut guard = cache.lock().unwrap();
                guard.cache_track(
                    format!("Song {}", i),
                    Some(format!("R{}", i)),
                    Some(format!("L{}", i)),
                );
            }));
        }
        for handle in handles {
            handle.await.unwrap();
        }
    });
    let cache = cache.lock().unwrap();
    assert_eq!(cache.len(), n);
    for i in 0..n {
        assert!(cache.contains(remote(&format!("R{}", i))));
        assert!(cache.contains(local(&format!("L{}", i))));
    }
}
