//! The database: every song, kept by the text of its hash.
use crate::error::DatabaseError;
use crate::data::{characteristic_of, BeatStarCharacteristics};
use crate::ingest::{
    batch_fits,
    grouping_of,
    ingest_songs,
    ingested_difficulty,
    is_ingested,
    times_parse,
    SongMetrics,
};
use crate::maps::TextMap;
use crate::records::{BeatStarSong, DifficultyStatsView};
use vstd::prelude::*;

verus! {

/// The songs of one archive, by the text of their hashes.
#[derive(Debug)]
pub struct BeatStarDataFile {
    pub songs: TextMap<BeatStarSong>,
}

/// The index of a list of songs: each song at the text of its hash, where it
/// takes the place of an earlier song with the same hash.
pub open spec fn index_of_songs(songs: Seq<BeatStarSong>) -> Map<Seq<char>, BeatStarSong>
    decreases songs.len(),
{
    if songs.len() == 0 {
        Map::empty()
    } else {
        index_of_songs(songs.drop_last()).insert(songs.last().hash.text(), songs.last())
    }
}

/// The song is the last of the list with its hash.
pub open spec fn last_with_its_hash(songs: Seq<BeatStarSong>, i: int) -> bool {
    forall|j: int| i < j < songs.len() ==> (#[trigger] songs[j]).hash.text() != songs[i].hash.text()
}

/// Whatever the index holds at a hash is a song of the list: the last one
/// with that hash.
pub proof fn lemma_index_sound(songs: Seq<BeatStarSong>, hash: Seq<char>) -> (i: int)
    requires
        index_of_songs(songs).contains_key(hash),
    ensures
        0 <= i < songs.len(),
        index_of_songs(songs)[hash] == songs[i],
        songs[i].hash.text() == hash,
        last_with_its_hash(songs, i),
    decreases songs.len(),
{
    let before = songs.drop_last();
    let last = songs.len() - 1;
    if songs.last().hash.text() == hash {
        last
    } else {
        let i = lemma_index_sound(before, hash);
        assert forall|j: int| i < j < songs.len() implies (#[trigger] songs[j]).hash.text()
            != songs[i].hash.text() by {
            if j < last {
                assert(before[j] == songs[j]);
            }
        }
        i
    }
}

/// Every song of the list is found at its hash, unless a later song of the
/// list has the same hash: of two such songs the later one wins.
pub proof fn lemma_index_last_wins(songs: Seq<BeatStarSong>, i: int)
    requires
        0 <= i < songs.len(),
    ensures
        index_of_songs(songs).contains_key(songs[i].hash.text()),
        last_with_its_hash(songs, i) ==> index_of_songs(songs)[songs[i].hash.text()] == songs[i],
    decreases songs.len(),
{
    let before = songs.drop_last();
    let last = songs.len() - 1;
    if i < last {
        assert(before[i] == songs[i]);
        lemma_index_last_wins(before, i);
        if last_with_its_hash(songs, i) {
            assert forall|j: int| i < j < before.len() implies (#[trigger] before[j]).hash.text()
                != before[i].hash.text() by {
                assert(before[j] == songs[j]);
            }
            assert(songs[last] == songs.last());
        }
    }
}

/// Indexes the songs by hash. Of two songs with the same hash the later one
/// stays.
pub fn parse_beatstar(songs: Vec<BeatStarSong>) -> (r: BeatStarDataFile)
    ensures
        r.songs.wf(),
        r.songs.as_map() == index_of_songs(songs@),
{
    let mut index: TextMap<BeatStarSong> = TextMap::new();
    let ghost all = songs@;
    for song in iter: songs
        invariant
            index.wf(),
            iter.seq() == all,
            index.as_map() == index_of_songs(all.take(iter.index() as int)),
    {
        let key = song.hash.from_copy();
        proof {
            let next = all.take(iter.index() + 1);
            assert(next.drop_last() =~= all.take(iter.index() as int));
            assert(next.last() == song);
        }
        index.insert(key, song);
    }
    assert(all.take(all.len() as int) =~= all);
    BeatStarDataFile { songs: index }
}

/// From end to end: a song with two charts, whose labels name two different
/// characteristics, is taken in and indexed alone. It is then found at its
/// hash with both charts and with two groups, one for each of the two
/// characteristics; and the second chart is found in the group of its
/// characteristic at its difficulty label, with the performance points that
/// were supplied for it, whatever it held when it came.
pub proof fn lemma_song_with_two_characteristics(
    song: BeatStarSong,
    approximate_pp: Seq<u32>,
    heat: u32,
    rating: u32,
    taken: BeatStarSong,
    first: BeatStarCharacteristics,
    second: BeatStarCharacteristics,
)
    requires
        song.diffs@.len() == 2,
        characteristic_of(song.diffs@[0].char.text()) == Some(first),
        characteristic_of(song.diffs@[1].char.text()) == Some(second),
        first != second,
        is_ingested(song, approximate_pp, heat, rating, taken),
    ensures
        index_of_songs(seq![taken]).contains_key(song.hash.text()),
        index_of_songs(seq![taken])[song.hash.text()] == taken,
        taken.hash == song.hash,
        taken.diffs@.len() == 2,
        taken.grouped().dom() == set![first, second],
        taken.characteristics.grouping().dom() == set![first, second],
        taken.characteristics.grouping().dom().len() == 2,
        taken.grouped()[second].contains_key(song.diffs@[1].diff.text()),
        taken.grouped()[second][song.diffs@[1].diff.text()] == taken.diffs@[1]@,
        taken.diffs@[1].diff == song.diffs@[1].diff,
        taken.diffs@[1].char == song.diffs@[1].char,
        taken.diffs@[1].diff_characteristics == second,
        taken.diffs@[1].approximate_pp_value == approximate_pp[1],
{
    let alone = seq![taken];
    assert(alone.drop_last() =~= Seq::<BeatStarSong>::empty());
    assert(alone.last() == taken);
    assert(index_of_songs(alone.drop_last()) =~= Map::<Seq<char>, BeatStarSong>::empty());

    let views = taken.diff_views();
    assert(ingested_difficulty(song.diffs@[0], approximate_pp[0]) == Some(
        taken.diffs@[0],
    ));
    assert(ingested_difficulty(song.diffs@[1], approximate_pp[1]) == Some(
        taken.diffs@[1],
    ));
    assert(views[0] == taken.diffs@[0]@);
    assert(views[1] == taken.diffs@[1]@);
    let one = views.drop_last();
    assert(one.len() == 1);
    assert(one.last() == views[0]);
    assert(one.drop_last() =~= Seq::<DifficultyStatsView>::empty());
    assert(grouping_of(one.drop_last()) =~= Map::empty());
    assert(views.last() == views[1]);
    reveal_with_fuel(grouping_of, 3);
    assert(grouping_of(one).dom() =~= set![first]);
    assert(grouping_of(views).dom() =~= set![first, second]);
    assert(taken.characteristics.grouping().dom() =~= taken.grouped().dom());
    assert(set![first, second].len() == 2) by {
        assert(set![first, second] =~= Set::<BeatStarCharacteristics>::empty().insert(
            first,
        ).insert(second));
    }
}

/// Builds the database of a batch of songs as they were published: each
/// song is taken in with the metrics at its position, and the songs are
/// indexed by hash. Metrics that do not fit the songs, or one song that is
/// refused, fail the batch, and no database is built.
pub fn build_database(songs: Vec<BeatStarSong>, metrics: &Vec<SongMetrics>) -> (r: Result<
    BeatStarDataFile,
    DatabaseError,
>)
    ensures
        r is Ok <==> batch_fits(songs@, metrics@) && forall|i: int|
            0 <= i < songs@.len() ==> times_parse(#[trigger] songs@[i]),
        r matches Err(e) ==> e == (if batch_fits(songs@, metrics@) {
            DatabaseError::TimeParse
        } else {
            DatabaseError::Metrics
        }),
        r matches Ok(database) ==> exists|taken: Seq<BeatStarSong>|
            {
                &&& taken.len() == songs@.len()
                &&& forall|i: int|
                    0 <= i < taken.len() ==> is_ingested(
                        #[trigger] songs@[i],
                        metrics@[i].approximate_pp@,
                        metrics@[i].heat,
                        metrics@[i].rating,
                        taken[i],
                    )
                &&& database.songs.wf()
                &&& database.songs.as_map() == index_of_songs(taken)
            },
{
    match ingest_songs(songs, metrics) {
        Err(e) => Err(e),
        Ok(taken) => Ok(parse_beatstar(taken)),
    }
}

impl BeatStarDataFile {
    /// The song with this hash, if the database has one.
    pub fn get_song(&self, hash: &str) -> (r: Option<&BeatStarSong>)
        ensures
            r is Some <==> self.songs.as_map().contains_key(hash@),
            r matches Some(song) ==> *song == self.songs.as_map()[hash@],
    {
        self.songs.get_text(hash)
    }
}

} // verus!
