use beatstar::cache::{beatstar_retrieve_database, DatabaseCache};
use beatstar::database::{parse_beatstar, BeatStarDataFile};
use beatstar::error::DatabaseError;
use beatstar::maps::CharacteristicMap;
use beatstar::records::BeatStarSong;
use beatstar::text::RustCStringWrapper;
use std::cell::Cell;

fn handle(text: &str) -> RustCStringWrapper {
    RustCStringWrapper::from_text(text).unwrap()
}

fn database_of_one(hash: &str) -> BeatStarDataFile {
    parse_beatstar(vec![BeatStarSong {
        bpm: 0,
        upvotes: 0,
        downvotes: 0,
        duration_secs: 0,
        key: handle(""),
        song_name: handle(""),
        song_sub_name: handle(""),
        song_author_name: handle(""),
        level_author_name: handle(""),
        diffs: Vec::new(),
        uploaded: handle(""),
        uploaded_unix_time: 0,
        hash: handle(hash),
        characteristics: CharacteristicMap::new(),
        heat: 0,
        rating: 0,
    }])
}

fn empty_database() -> BeatStarDataFile {
    parse_beatstar(Vec::new())
}

#[test]
fn a_new_cache_is_empty() {
    let cache = DatabaseCache::new();
    assert!(!cache.is_populated());
    assert!(cache.get().is_none());
}

#[test]
fn the_first_fetch_fills_the_cache() {
    let mut cache = DatabaseCache::new();
    let calls = Cell::new(0u32);
    let outcome: Result<(), DatabaseError> = cache.get_or_try_init(|| {
        calls.set(calls.get() + 1);
        Ok(empty_database())
    });
    assert_eq!(outcome, Ok(()));
    assert_eq!(calls.get(), 1);
    assert!(cache.is_populated());
    assert!(cache.get().is_some());
}

#[test]
fn a_filled_cache_fetches_no_more() {
    let mut cache = DatabaseCache::new();
    let calls = Cell::new(0u32);
    for _ in 0..5 {
        let outcome: Result<(), DatabaseError> = cache.get_or_try_init(|| {
            calls.set(calls.get() + 1);
            Ok(empty_database())
        });
        assert_eq!(outcome, Ok(()));
    }
    assert_eq!(calls.get(), 1);
    let outcome: Result<(), DatabaseError> = cache.get_or_try_init(|| {
        calls.set(calls.get() + 1);
        Err(DatabaseError::Transport)
    });
    assert_eq!(outcome, Ok(()));
    assert_eq!(calls.get(), 1);
    assert!(cache.is_populated());
}

#[test]
fn the_first_database_is_never_replaced() {
    let mut cache = DatabaseCache::new();
    let _: Result<(), DatabaseError> = cache.get_or_try_init(|| Ok(database_of_one("AA")));
    assert!(cache.get().unwrap().songs.get_text("AA").is_some());
    let _: Result<(), DatabaseError> = cache.get_or_try_init(|| Ok(database_of_one("BB")));
    let kept = cache.get().unwrap();
    assert_eq!(kept.songs.len(), 1);
    assert!(kept.songs.get_text("AA").is_some());
    assert!(kept.songs.get_text("BB").is_none());
}

#[test]
fn a_failed_fetch_leaves_the_cache_empty_and_the_next_call_fetches_again() {
    let mut cache = DatabaseCache::new();
    let calls = Cell::new(0u32);
    let outcome = cache.get_or_try_init(|| {
        calls.set(calls.get() + 1);
        Err(DatabaseError::Transport)
    });
    assert_eq!(outcome, Err(DatabaseError::Transport));
    assert!(!cache.is_populated());
    assert!(cache.get().is_none());

    let outcome = cache.get_or_try_init(|| {
        calls.set(calls.get() + 1);
        Err(DatabaseError::Archive)
    });
    assert_eq!(outcome, Err(DatabaseError::Archive));
    assert!(!cache.is_populated());

    let outcome: Result<(), DatabaseError> = cache.get_or_try_init(|| {
        calls.set(calls.get() + 1);
        Ok(empty_database())
    });
    assert_eq!(outcome, Ok(()));
    assert_eq!(calls.get(), 3);
    assert!(cache.is_populated());
}

#[test]
fn a_failure_of_any_kind_is_handed_on() {
    let mut cache = DatabaseCache::new();
    let outcome: Result<(), String> =
        cache.get_or_try_init(|| Err(String::from("status 404")));
    assert_eq!(outcome, Err(String::from("status 404")));
    assert!(!cache.is_populated());
}

#[test]
fn retrieving_fetches_once_and_hands_out_the_database() {
    let mut cache = DatabaseCache::new();
    let calls = Cell::new(0u32);
    {
        let database: Result<&BeatStarDataFile, DatabaseError> =
            beatstar_retrieve_database(&mut cache, || {
                calls.set(calls.get() + 1);
                Ok(empty_database())
            });
        assert_eq!(database.unwrap().songs.len(), 0);
    }
    {
        let database: Result<&BeatStarDataFile, DatabaseError> =
            beatstar_retrieve_database(&mut cache, || {
                calls.set(calls.get() + 1);
                Err(DatabaseError::Parse)
            });
        assert!(database.is_ok());
    }
    assert_eq!(calls.get(), 1);
}

#[test]
fn retrieving_hands_on_the_failure_of_the_fetch() {
    let mut cache = DatabaseCache::new();
    let database: Result<&BeatStarDataFile, DatabaseError> =
        beatstar_retrieve_database(&mut cache, || Err(DatabaseError::MissingContentLength));
    assert_eq!(database.err(), Some(DatabaseError::MissingContentLength));
    assert!(!cache.is_populated());
}
