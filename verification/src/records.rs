//! The record schema: a song, and the statistics of each of its charts.
//!
//! A quantity that is measured in fractions (tempo, star rating, jump speed
//! and the metrics derived from them) is carried as the bit pattern of its
//! single-precision value, which the records hand on untouched.
use crate::data::BeatStarCharacteristics;
use crate::maps::CharacteristicMap;
use crate::text::RustCStringWrapper;
use crate::time::UnixTime;
use vstd::prelude::*;

verus! {

/// The statistics of one chart of a song.
#[derive(Debug)]
pub struct BeatStarSongDifficultyStats {
    /// The difficulty label.
    pub diff: RustCStringWrapper,
    /// Derived: the approximate performance points, as a bit pattern.
    pub approximate_pp_value: u32,
    /// The star rating, as a bit pattern.
    pub stars: u32,
    pub ranked: bool,
    /// The note jump speed, as a bit pattern.
    pub njs: u32,
    /// The offset of the note jump speed, as a bit pattern.
    pub njs_offset: u32,
    pub bombs: u32,
    pub notes: u32,
    pub obstacles: u32,
    /// The characteristic's label as it was published.
    pub char: RustCStringWrapper,
    /// Derived: the characteristic that the label names.
    pub diff_characteristics: BeatStarCharacteristics,
    pub requirements: Vec<RustCStringWrapper>,
    /// The time of the last change of the ranking, as it was published.
    pub ranked_update_time: RustCStringWrapper,
    /// Derived: that time as seconds since the Unix epoch.
    pub ranked_update_time_unix_epoch: UnixTime,
}

/// What the statistics of a chart hold, with each text as its bytes.
pub struct DifficultyStatsView {
    pub diff: Seq<u8>,
    pub approximate_pp_value: u32,
    pub stars: u32,
    pub ranked: bool,
    pub njs: u32,
    pub njs_offset: u32,
    pub bombs: u32,
    pub notes: u32,
    pub obstacles: u32,
    pub char: Seq<u8>,
    pub diff_characteristics: BeatStarCharacteristics,
    pub requirements: Seq<Seq<u8>>,
    pub ranked_update_time: Seq<u8>,
    pub ranked_update_time_unix_epoch: UnixTime,
}

impl View for BeatStarSongDifficultyStats {
    type V = DifficultyStatsView;

    open spec fn view(&self) -> DifficultyStatsView {
        DifficultyStatsView {
            diff: self.diff@,
            approximate_pp_value: self.approximate_pp_value,
            stars: self.stars,
            ranked: self.ranked,
            njs: self.njs,
            njs_offset: self.njs_offset,
            bombs: self.bombs,
            notes: self.notes,
            obstacles: self.obstacles,
            char: self.char@,
            diff_characteristics: self.diff_characteristics,
            requirements: Seq::new(
                self.requirements@.len(),
                |i: int| self.requirements@[i]@,
            ),
            ranked_update_time: self.ranked_update_time@,
            ranked_update_time_unix_epoch: self.ranked_update_time_unix_epoch,
        }
    }
}

/// Independent copies of the handles of a list.
pub fn copy_handles(handles: &Vec<RustCStringWrapper>) -> (r: Vec<RustCStringWrapper>)
    ensures
        r@.len() == handles@.len(),
        forall|i: int| 0 <= i < r@.len() ==> r@[i]@ == handles@[i]@,
{
    let mut copies: Vec<RustCStringWrapper> = Vec::with_capacity(handles.len());
    let mut i: usize = 0;
    while i < handles.len()
        invariant
            i <= handles.len(),
            copies@.len() == i,
            forall|j: int| 0 <= j < i ==> copies@[j]@ == handles@[j]@,
        decreases handles.len() - i,
    {
        copies.push(handles[i].from_copy());
        i = i + 1;
    }
    copies
}

impl Clone for BeatStarSongDifficultyStats {
    fn clone(&self) -> (r: Self)
        ensures
            r@ == self@,
    {
        let r = BeatStarSongDifficultyStats {
            diff: self.diff.from_copy(),
            approximate_pp_value: self.approximate_pp_value,
            stars: self.stars,
            ranked: self.ranked,
            njs: self.njs,
            njs_offset: self.njs_offset,
            bombs: self.bombs,
            notes: self.notes,
            obstacles: self.obstacles,
            char: self.char.from_copy(),
            diff_characteristics: self.diff_characteristics,
            requirements: copy_handles(&self.requirements),
            ranked_update_time: self.ranked_update_time.from_copy(),
            ranked_update_time_unix_epoch: self.ranked_update_time_unix_epoch,
        };
        assert(r@.requirements =~= self@.requirements);
        r
    }
}

/// One chart package.
#[derive(Debug)]
pub struct BeatStarSong {
    /// The tempo, as a bit pattern.
    pub bpm: u32,
    pub upvotes: u32,
    pub downvotes: u32,
    pub duration_secs: u32,
    pub key: RustCStringWrapper,
    pub song_name: RustCStringWrapper,
    pub song_sub_name: RustCStringWrapper,
    pub song_author_name: RustCStringWrapper,
    pub level_author_name: RustCStringWrapper,
    /// The statistics of every chart, in the order in which they were
    /// published.
    pub diffs: Vec<BeatStarSongDifficultyStats>,
    /// The time of the upload, as it was published.
    pub uploaded: RustCStringWrapper,
    /// Derived: that time as seconds since the Unix epoch.
    pub uploaded_unix_time: UnixTime,
    /// The song's identity.
    pub hash: RustCStringWrapper,
    /// Derived: the charts whose characteristic is known, by characteristic
    /// and difficulty label.
    pub characteristics: CharacteristicMap<BeatStarSongDifficultyStats>,
    /// Derived: the trend of the song, as a bit pattern.
    pub heat: u32,
    /// Derived: the popularity of the song, as a bit pattern.
    pub rating: u32,
}

/// The views of the values of a grouping.
pub open spec fn grouping_views(
    grouping: Map<BeatStarCharacteristics, Map<Seq<char>, BeatStarSongDifficultyStats>>,
) -> Map<BeatStarCharacteristics, Map<Seq<char>, DifficultyStatsView>> {
    Map::new(
        |c: BeatStarCharacteristics| grouping.contains_key(c),
        |c: BeatStarCharacteristics|
            Map::new(
                |label: Seq<char>| grouping[c].contains_key(label),
                |label: Seq<char>| grouping[c][label]@,
            ),
    )
}

impl BeatStarSong {
    /// The views of the charts, in their order.
    pub open spec fn diff_views(&self) -> Seq<DifficultyStatsView> {
        Seq::new(self.diffs@.len(), |i: int| self.diffs@[i]@)
    }

    /// The grouped charts, each as its view.
    pub open spec fn grouped(&self) -> Map<
        BeatStarCharacteristics,
        Map<Seq<char>, DifficultyStatsView>,
    > {
        grouping_views(self.characteristics.grouping())
    }
}

impl Clone for BeatStarSong {
    /// A song with independent copies of all that the song holds.
    fn clone(&self) -> (r: Self)
        ensures
            r.bpm == self.bpm,
            r.upvotes == self.upvotes,
            r.downvotes == self.downvotes,
            r.duration_secs == self.duration_secs,
            r.key@ == self.key@,
            r.song_name@ == self.song_name@,
            r.song_sub_name@ == self.song_sub_name@,
            r.song_author_name@ == self.song_author_name@,
            r.level_author_name@ == self.level_author_name@,
            r.diff_views() == self.diff_views(),
            r.uploaded@ == self.uploaded@,
            r.uploaded_unix_time == self.uploaded_unix_time,
            r.hash@ == self.hash@,
            r.characteristics.wf(),
            r.grouped() == self.grouped(),
            r.heat == self.heat,
            r.rating == self.rating,
    {
        let groups = self.characteristics.len();
        let r = BeatStarSong {
            bpm: self.bpm,
            upvotes: self.upvotes,
            downvotes: self.downvotes,
            duration_secs: self.duration_secs,
            key: self.key.from_copy(),
            song_name: self.song_name.from_copy(),
            song_sub_name: self.song_sub_name.from_copy(),
            song_author_name: self.song_author_name.from_copy(),
            level_author_name: self.level_author_name.from_copy(),
            diffs: self.diffs.clone(),
            uploaded: self.uploaded.from_copy(),
            uploaded_unix_time: self.uploaded_unix_time,
            hash: self.hash.from_copy(),
            characteristics: self.characteristics.clone(),
            heat: self.heat,
            rating: self.rating,
        };
        proof {
            assert(r.diff_views() =~= self.diff_views());
            let given = self.characteristics;
            let made = r.characteristics;
            assert forall|c: BeatStarCharacteristics| given.grouping().contains_key(c) implies (
            #[trigger] grouping_views(made.grouping())[c]) =~= grouping_views(
                given.grouping(),
            )[c] by {
                let i = given.keys().index_of(c);
                let old_group = given.groups()[i];
                let new_group = made.groups()[i];
                assert(given.maps()[i] == old_group.as_map());
                assert(made.maps()[i] == new_group.as_map());
                assert(new_group.keys() == old_group.keys());
                assert forall|label: Seq<char>| old_group.as_map().contains_key(label) implies (
                #[trigger] new_group.as_map()[label])@ == old_group.as_map()[label]@ by {
                    let j = old_group.keys().index_of(label);
                    assert(cloned(old_group.values()[j], new_group.values()[j]));
                }
            }
            assert(grouping_views(made.grouping()) =~= grouping_views(given.grouping()));
        }
        r
    }
}

} // verus!
