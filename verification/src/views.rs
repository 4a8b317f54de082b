//! Read-only access to the collections of a record: to a sequence by
//! position, and to the groups of a song by characteristic, label and
//! position. What is handed out is borrowed from the record.
use crate::data::BeatStarCharacteristics;
use crate::maps::{bucket_of, distinct};
use crate::records::{BeatStarSong, BeatStarSongDifficultyStats};
use crate::text::RustCStringWrapper;
use vstd::prelude::*;

verus! {

/// The number of items of a sequence.
pub fn sequence_len<T>(items: &Vec<T>) -> (r: usize)
    ensures
        r == items@.len(),
{
    items.len()
}

/// The item at a position of a sequence, or nothing past its last item.
pub fn sequence_get<T>(items: &Vec<T>, index: usize) -> (r: Option<&T>)
    ensures
        r is Some <==> index < items@.len(),
        r matches Some(item) ==> *item == items@[index as int],
{
    if index < items.len() {
        Some(&items[index])
    } else {
        None
    }
}

/// The number of charts in the group of a characteristic: 0 where the song
/// has no such group.
#[allow(non_snake_case)]
pub fn BeatStarSong_map_Characteristics_DifficultyStatsLen(
    self_i: &BeatStarSong,
    beat_char: BeatStarCharacteristics,
) -> (r: usize)
    ensures
        bucket_of(self_i.characteristics.grouping(), beat_char).dom().finite(),
        r == bucket_of(self_i.characteristics.grouping(), beat_char).dom().len(),
{
    match self_i.characteristics.get(beat_char) {
        None => 0,
        Some(group) => group.len(),
    }
}

/// The chart at a difficulty label in the group of a characteristic.
#[allow(non_snake_case)]
pub fn BeatStarSong_map_Characteristics_DifficultyStatsGet<'a>(
    self_i: &'a BeatStarSong,
    beat_char: BeatStarCharacteristics,
    beat_key2: &RustCStringWrapper,
) -> (r: Option<&'a BeatStarSongDifficultyStats>)
    ensures
        r is Some <==> bucket_of(self_i.characteristics.grouping(), beat_char).contains_key(
            beat_key2.text(),
        ),
        r matches Some(stats) ==> *stats == self_i.characteristics.grouping()[beat_char][beat_key2.text()],
{
    match self_i.characteristics.get(beat_char) {
        Some(group) => group.get(beat_key2),
        None => None,
    }
}

/// The difficulty label at a position in the group of a characteristic, or
/// nothing past the last chart of the group. The positions of a group are
/// as many as its labels; while the song lives a position names the same
/// label, and two positions name two labels, so that the positions name each
/// label once.
#[allow(non_snake_case)]
pub fn BeatStarSong_map_Characteristics_DifficultyStatsGetStrKey<'a>(
    self_i: &'a BeatStarSong,
    beat_char: BeatStarCharacteristics,
    index: usize,
) -> (r: Option<&'a RustCStringWrapper>)
    ensures
        distinct(self_i.characteristics.labels(beat_char)),
        self_i.characteristics.labels(beat_char).len() == bucket_of(
            self_i.characteristics.grouping(),
            beat_char,
        ).dom().len(),
        r is Some <==> index < self_i.characteristics.labels(beat_char).len(),
        r matches Some(label) ==> {
            &&& self_i.characteristics.grouping()[beat_char].contains_key(label.text())
            &&& label.text() == self_i.characteristics.labels(beat_char)[index as int]
        },
{
    match self_i.characteristics.get(beat_char) {
        None => None,
        Some(group) => {
            let _ = group.len();
            group.key_at(index)
        },
    }
}

} // verus!
