//! The slot that holds the database once it has been built.
//!
//! The slot is filled at most once. An attempt that fails leaves it empty,
//! so that the next attempt starts afresh; an attempt on a filled slot does
//! no work.
use crate::database::BeatStarDataFile;
use crate::records::BeatStarSong;
use vstd::prelude::*;

verus! {

/// What the slot holds after an attempt to fill it with the outcome of a
/// fetch: what it held before, if it held a database; else the database
/// that was fetched, or nothing where the fetch failed.
pub open spec fn slot_after<E>(
    slot: Option<BeatStarDataFile>,
    outcome: Result<BeatStarDataFile, E>,
) -> Option<BeatStarDataFile> {
    match slot {
        Some(database) => Some(database),
        None => match outcome {
            Ok(database) => Some(database),
            Err(_) => None,
        },
    }
}

/// Once the slot holds a database, a further attempt changes nothing,
/// whatever its fetch would have given.
pub proof fn lemma_filled_slot_stays<E>(
    slot: Option<BeatStarDataFile>,
    first: Result<BeatStarDataFile, E>,
    second: Result<BeatStarDataFile, E>,
)
    requires
        slot is Some || first is Ok,
    ensures
        slot_after(slot, first) is Some,
        slot_after(slot_after(slot, first), second) == slot_after(slot, first),
{
}

/// A failed attempt leaves an empty slot empty, and the attempt after it
/// keeps what its own fetch gives.
pub proof fn lemma_failure_is_not_kept<E>(
    first: Result<BeatStarDataFile, E>,
    second: Result<BeatStarDataFile, E>,
)
    requires
        first is Err,
    ensures
        slot_after(None, first) is None,
        slot_after(slot_after(None, first), second) == slot_after(None, second),
        second matches Ok(database) ==> slot_after(slot_after(None, first), second) == Some(
            database,
        ),
{
}

/// The owner of the database, once there is one.
#[derive(Debug)]
pub struct DatabaseCache {
    slot: Option<BeatStarDataFile>,
}

impl View for DatabaseCache {
    type V = Option<BeatStarDataFile>;

    closed spec fn view(&self) -> Option<BeatStarDataFile> {
        self.slot
    }
}

impl DatabaseCache {
    /// A cache with an empty slot.
    pub fn new() -> (r: DatabaseCache)
        ensures
            r@ is None,
    {
        DatabaseCache { slot: None }
    }

    /// Whether the slot holds a database.
    pub fn is_populated(&self) -> (r: bool)
        ensures
            r == (self@ is Some),
    {
        self.slot.is_some()
    }

    /// The database, if the slot holds one.
    pub fn get(&self) -> (r: Option<&BeatStarDataFile>)
        ensures
            r is Some <==> self@ is Some,
            r matches Some(database) ==> self@ == Some(*database),
    {
        self.slot.as_ref()
    }

    /// Fills the slot, unless it is filled. On a filled slot nothing is
    /// done: `fetch` is not called and the database stays. On an empty slot
    /// `fetch` is called once; the database it gives is kept, and its
    /// failure is handed on and leaves the slot empty.
    pub fn get_or_try_init<E, F: FnOnce() -> Result<BeatStarDataFile, E>>(
        &mut self,
        fetch: F,
    ) -> (r: Result<(), E>)
        requires
            old(self)@ is None ==> fetch.requires(()),
        ensures
            old(self)@ is Some ==> r is Ok && final(self)@ == old(self)@,
            old(self)@ is None ==> exists|outcome: Result<BeatStarDataFile, E>|
                {
                    &&& fetch.ensures((), outcome)
                    &&& final(self)@ == slot_after(old(self)@, outcome)
                    &&& match outcome {
                        Ok(_) => r is Ok,
                        Err(e) => r == Err::<(), E>(e),
                    }
                },
            r is Ok <==> final(self)@ is Some,
    {
        if self.slot.is_some() {
            return Ok(());
        }
        let outcome = fetch();
        match outcome {
            Ok(database) => {
                self.slot = Some(database);
                assert(self@ == slot_after(old(self)@, outcome));
                Ok(())
            },
            Err(e) => {
                assert(self@ == slot_after(old(self)@, outcome));
                Err(e)
            },
        }
    }
}

/// The database of the cache, which is fetched first where the cache has
/// none yet.
pub fn beatstar_retrieve_database<E, F: FnOnce() -> Result<BeatStarDataFile, E>>(
    cache: &mut DatabaseCache,
    fetch: F,
) -> (r: Result<&BeatStarDataFile, E>)
    requires
        old(cache)@ is None ==> fetch.requires(()),
    ensures
        old(cache)@ is Some ==> final(cache)@ == old(cache)@,
        old(cache)@ is None ==> exists|outcome: Result<BeatStarDataFile, E>|
            {
                &&& fetch.ensures((), outcome)
                &&& final(cache)@ == slot_after(old(cache)@, outcome)
                &&& outcome matches Err(e) ==> r == Err::<&BeatStarDataFile, E>(e)
            },
        r is Ok <==> final(cache)@ is Some,
        r matches Ok(database) ==> final(cache)@ == Some(*database),
{
    match cache.get_or_try_init(fetch) {
        Err(e) => Err(e),
        Ok(()) => match cache.get() {
            Some(database) => Ok(database),
            None => vstd::pervasive::unreached(),
        },
    }
}

/// The song with this hash in the database of the cache, which is fetched
/// first where the cache has none yet. A hash that the database lacks is no
/// failure: it gives no song.
pub fn beatstar_get_song<'a, E, F: FnOnce() -> Result<BeatStarDataFile, E>>(
    cache: &'a mut DatabaseCache,
    hash: &str,
    fetch: F,
) -> (r: Result<Option<&'a BeatStarSong>, E>)
    requires
        old(cache)@ is None ==> fetch.requires(()),
    ensures
        old(cache)@ is Some ==> final(cache)@ == old(cache)@,
        old(cache)@ is None ==> exists|outcome: Result<BeatStarDataFile, E>|
            {
                &&& fetch.ensures((), outcome)
                &&& final(cache)@ == slot_after(old(cache)@, outcome)
                &&& outcome matches Err(e) ==> r == Err::<Option<&BeatStarSong>, E>(e)
            },
        r is Ok <==> final(cache)@ is Some,
        r matches Ok(found) ==> {
            let songs = final(cache)@->0.songs.as_map();
            &&& found is Some <==> songs.contains_key(hash@)
            &&& found matches Some(song) ==> *song == songs[hash@]
        },
{
    match beatstar_retrieve_database(cache, fetch) {
        Err(e) => Err(e),
        Ok(database) => Ok(database.get_song(hash)),
    }
}

} // verus!
