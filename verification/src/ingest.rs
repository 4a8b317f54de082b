//! The derivation that is run once on each record as it comes in: the
//! characteristic of each chart, the time stamps as Unix time, and the
//! grouping of the charts by characteristic and difficulty label.
use crate::data::{characteristic_of, BeatStarCharacteristics};
use crate::error::DatabaseError;
use crate::maps::{grouping_with, CharacteristicMap};
use crate::records::{
    grouping_views,
    BeatStarSong,
    BeatStarSongDifficultyStats,
    DifficultyStatsView,
};
use crate::text::text_of;
use crate::time::{rfc3339_seconds, unix_time};
use vstd::prelude::*;

verus! {

/// What a chart's statistics become when they are taken in. The three
/// derived values are set anew, whatever they were. A chart whose
/// characteristic label names none gets the unknown characteristic, no
/// performance points and the time 0. Any other one gets its characteristic,
/// the performance points supplied for it, and the Unix time of its ranking;
/// where that time cannot be read there is no result.
pub open spec fn ingested_difficulty(d: BeatStarSongDifficultyStats, pp: u32) -> Option<
    BeatStarSongDifficultyStats,
> {
    match characteristic_of(d.char.text()) {
        None => Some(
            BeatStarSongDifficultyStats {
                diff_characteristics: BeatStarCharacteristics::Unknown,
                approximate_pp_value: 0,
                ranked_update_time_unix_epoch: 0,
                ..d
            },
        ),
        Some(c) => match rfc3339_seconds(d.ranked_update_time.text()) {
            None => None,
            Some(seconds) => Some(
                BeatStarSongDifficultyStats {
                    diff_characteristics: c,
                    approximate_pp_value: pp,
                    ranked_update_time_unix_epoch: seconds,
                    ..d
                },
            ),
        },
    }
}

/// The derived values of a chart are never taken from what comes in: two
/// charts that differ in them alone become the same chart.
pub proof fn lemma_derived_values_are_set_anew(
    a: BeatStarSongDifficultyStats,
    b: BeatStarSongDifficultyStats,
    pp: u32,
)
    requires
        b == (BeatStarSongDifficultyStats {
            diff_characteristics: b.diff_characteristics,
            approximate_pp_value: b.approximate_pp_value,
            ranked_update_time_unix_epoch: b.ranked_update_time_unix_epoch,
            ..a
        }),
    ensures
        ingested_difficulty(a, pp) == ingested_difficulty(b, pp),
{
}

/// The grouping of a list of charts: each chart whose characteristic label
/// names one is put, in the order of the list, at its difficulty label in
/// the group of that characteristic, where it takes the place of an earlier
/// chart with the same characteristic and label.
pub open spec fn grouping_of(diffs: Seq<DifficultyStatsView>) -> Map<
    BeatStarCharacteristics,
    Map<Seq<char>, DifficultyStatsView>,
>
    decreases diffs.len(),
{
    if diffs.len() == 0 {
        Map::empty()
    } else {
        let before = grouping_of(diffs.drop_last());
        let d = diffs.last();
        match characteristic_of(text_of(d.char)) {
            None => before,
            Some(c) => grouping_with(before, c, text_of(d.diff), d),
        }
    }
}

/// The characteristic that the label of a chart names, if it names one.
pub open spec fn characteristic_of_chart(d: DifficultyStatsView) -> Option<BeatStarCharacteristics> {
    characteristic_of(text_of(d.char))
}

/// The chart is the last of the list with its characteristic and its
/// difficulty label.
pub open spec fn last_of_its_kind(diffs: Seq<DifficultyStatsView>, i: int) -> bool {
    forall|j: int|
        i < j < diffs.len() ==> !(characteristic_of_chart(#[trigger] diffs[j])
            == characteristic_of_chart(diffs[i]) && text_of(diffs[j].diff) == text_of(
            diffs[i].diff,
        ))
}

/// Whatever the grouping holds at a characteristic and a label is a chart of
/// the list, the last one with that characteristic and that label. So a
/// chart whose characteristic label names none is in no group, and a chart
/// is in no group but that of its characteristic, at no label but its own.
pub proof fn lemma_grouping_sound(
    diffs: Seq<DifficultyStatsView>,
    c: BeatStarCharacteristics,
    label: Seq<char>,
) -> (i: int)
    requires
        grouping_of(diffs).contains_key(c),
        grouping_of(diffs)[c].contains_key(label),
    ensures
        0 <= i < diffs.len(),
        grouping_of(diffs)[c][label] == diffs[i],
        characteristic_of_chart(diffs[i]) == Some(c),
        text_of(diffs[i].diff) == label,
        last_of_its_kind(diffs, i),
    decreases diffs.len(),
{
    let before = diffs.drop_last();
    let d = diffs.last();
    let last = diffs.len() - 1;
    if characteristic_of_chart(d) == Some(c) && text_of(d.diff) == label {
        last
    } else {
        let i = lemma_grouping_sound(before, c, label);
        assert forall|j: int| i < j < diffs.len() implies !(characteristic_of_chart(
            #[trigger] diffs[j],
        ) == characteristic_of_chart(diffs[i]) && text_of(diffs[j].diff) == text_of(
            diffs[i].diff,
        )) by {
            if j < last {
                assert(before[j] == diffs[j]);
            }
        }
        i
    }
}

/// Every chart whose characteristic label names one, and that no later chart
/// with the same characteristic and label follows, is in the grouping, in
/// the group of its characteristic and at its label.
pub proof fn lemma_grouping_complete(diffs: Seq<DifficultyStatsView>, i: int)
    requires
        0 <= i < diffs.len(),
        characteristic_of_chart(diffs[i]) is Some,
        last_of_its_kind(diffs, i),
    ensures
        grouping_of(diffs).contains_key(characteristic_of_chart(diffs[i])->0),
        grouping_of(diffs)[characteristic_of_chart(diffs[i])->0].contains_key(
            text_of(diffs[i].diff),
        ),
        grouping_of(diffs)[characteristic_of_chart(diffs[i])->0][text_of(diffs[i].diff)]
            == diffs[i],
    decreases diffs.len(),
{
    let before = diffs.drop_last();
    let last = diffs.len() - 1;
    if i < last {
        assert(before[i] == diffs[i]);
        assert forall|j: int| i < j < before.len() implies !(characteristic_of_chart(
            #[trigger] before[j],
        ) == characteristic_of_chart(before[i]) && text_of(before[j].diff) == text_of(
            before[i].diff,
        )) by {
            assert(before[j] == diffs[j]);
        }
        lemma_grouping_complete(before, i);
        assert(diffs[last] == diffs.last());
    }
}

/// Where no two charts of the list share a characteristic and a difficulty
/// label, each chart whose characteristic label names one is in the
/// grouping at exactly one place, its own, and each other chart at none.
pub proof fn lemma_grouping_exact(
    diffs: Seq<DifficultyStatsView>,
    i: int,
    c: BeatStarCharacteristics,
    label: Seq<char>,
)
    requires
        0 <= i < diffs.len(),
        forall|a: int| 0 <= a < diffs.len() ==> last_of_its_kind(diffs, a),
    ensures
        (grouping_of(diffs).contains_key(c) && grouping_of(diffs)[c].contains_key(label)
            && grouping_of(diffs)[c][label] == diffs[i]) <==> (characteristic_of_chart(diffs[i])
            == Some(c) && text_of(diffs[i].diff) == label),
{
    if characteristic_of_chart(diffs[i]) == Some(c) && text_of(diffs[i].diff) == label {
        lemma_grouping_complete(diffs, i);
    }
    if grouping_of(diffs).contains_key(c) && grouping_of(diffs)[c].contains_key(label)
        && grouping_of(diffs)[c][label] == diffs[i] {
        let j = lemma_grouping_sound(diffs, c, label);
    }
}

/// Every time stamp that the derivation reads can be read: the ranking time
/// of each chart whose characteristic is known, and the upload time.
pub open spec fn times_parse(song: BeatStarSong) -> bool {
    &&& forall|i: int|
        0 <= i < song.diffs@.len() ==> ingested_difficulty(#[trigger] song.diffs@[i], 0) is Some
    &&& rfc3339_seconds(song.uploaded.text()) is Some
}

/// Takes in the statistics of one chart, and tells its characteristic where
/// its label names one.
pub fn ingest_difficulty(d: &mut BeatStarSongDifficultyStats, pp: u32) -> (r: Result<
    Option<BeatStarCharacteristics>,
    DatabaseError,
>)
    ensures
        r is Ok <==> ingested_difficulty(*old(d), pp) is Some,
        r is Ok ==> ingested_difficulty(*old(d), pp) == Some(*final(d)),
        r matches Ok(c) ==> c == characteristic_of(old(d).char.text()),
        r matches Err(e) ==> e == DatabaseError::TimeParse && *final(d) == *old(d),
{
    let label = d.char.to_string();
    match BeatStarCharacteristics::from_str(label.as_str()) {
        Err(_) => {
            d.diff_characteristics = BeatStarCharacteristics::Unknown;
            d.approximate_pp_value = 0;
            d.ranked_update_time_unix_epoch = 0;
            Ok(None)
        },
        Ok(c) => {
            let stamp = d.ranked_update_time.to_string();
            match unix_time(stamp.as_str()) {
                Err(e) => Err(e),
                Ok(seconds) => {
                    d.diff_characteristics = c;
                    d.approximate_pp_value = pp;
                    d.ranked_update_time_unix_epoch = seconds;
                    Ok(Some(c))
                },
            }
        },
    }
}

/// Putting a copy of a chart into a grouping is putting its view into the
/// grouping of the views.
proof fn lemma_grouping_views_with(
    grouping: Map<BeatStarCharacteristics, Map<Seq<char>, BeatStarSongDifficultyStats>>,
    c: BeatStarCharacteristics,
    label: Seq<char>,
    value: BeatStarSongDifficultyStats,
)
    ensures
        grouping_views(grouping_with(grouping, c, label, value)) == grouping_with(
            grouping_views(grouping),
            c,
            label,
            value@,
        ),
{
    let left = grouping_views(grouping_with(grouping, c, label, value));
    let right = grouping_with(grouping_views(grouping), c, label, value@);
    assert forall|k: BeatStarCharacteristics| left.contains_key(k) implies left[k] =~= right[k] by {
        if k == c {
            if grouping.contains_key(c) {
                assert(grouping_views(grouping)[c] =~= Map::new(
                    |l: Seq<char>| grouping[c].contains_key(l),
                    |l: Seq<char>| grouping[c][l]@,
                ));
            }
        }
    }
    assert(left =~= right);
}

/// The metrics of a song that are computed in fractions, each as the bit
/// pattern of its value: the approximate performance points of each chart,
/// in the order of the charts, and the heat and the rating of the song.
#[derive(Debug)]
pub struct SongMetrics {
    pub approximate_pp: Vec<u32>,
    pub heat: u32,
    pub rating: u32,
}

/// The metrics hold the performance points of as many charts as the song
/// has.
pub open spec fn metrics_fit(song: BeatStarSong, metrics: SongMetrics) -> bool {
    metrics.approximate_pp@.len() == song.diffs@.len()
}

/// There are metrics for each song of the batch and for no more, and the
/// metrics at each position fit the song at that position.
pub open spec fn batch_fits(songs: Seq<BeatStarSong>, metrics: Seq<SongMetrics>) -> bool {
    &&& metrics.len() == songs.len()
    &&& forall|i: int| 0 <= i < songs.len() ==> metrics_fit(#[trigger] songs[i], metrics[i])
}

/// `taken` is what the song becomes when it is taken in with these metrics:
/// each chart as `ingested_difficulty` says, with the performance points
/// supplied for its position; the upload time as Unix time; the grouping
/// made anew from the charts; the heat and the rating as supplied; and all
/// the rest as it came.
pub open spec fn is_ingested(
    song: BeatStarSong,
    approximate_pp: Seq<u32>,
    heat: u32,
    rating: u32,
    taken: BeatStarSong,
) -> bool {
    &&& taken.diffs@.len() == song.diffs@.len()
    &&& approximate_pp.len() == song.diffs@.len()
    &&& forall|i: int|
        0 <= i < taken.diffs@.len() ==> ingested_difficulty(
            #[trigger] song.diffs@[i],
            approximate_pp[i],
        ) == Some(taken.diffs@[i])
    &&& rfc3339_seconds(song.uploaded.text()) == Some(taken.uploaded_unix_time)
    &&& taken.characteristics.wf()
    &&& taken.grouped() == grouping_of(taken.diff_views())
    &&& taken == (BeatStarSong {
        diffs: taken.diffs,
        uploaded_unix_time: taken.uploaded_unix_time,
        characteristics: taken.characteristics,
        heat,
        rating,
        ..song
    })
}

/// Of a song that was taken in: each chart whose characteristic label names
/// one, and that no later chart with the same characteristic and label
/// follows, is found in the group of its characteristic at its label; and a
/// chart whose characteristic label names none stays in the list of charts
/// and is found in no group.
pub proof fn lemma_ingested_song_groups_its_charts(
    song: BeatStarSong,
    approximate_pp: Seq<u32>,
    heat: u32,
    rating: u32,
    taken: BeatStarSong,
    i: int,
)
    requires
        is_ingested(song, approximate_pp, heat, rating, taken),
        0 <= i < taken.diffs@.len(),
    ensures
        taken.diffs@[i].char == song.diffs@[i].char,
        taken.diffs@[i].diff == song.diffs@[i].diff,
        characteristic_of(taken.diffs@[i].char.text()) is Some ==> characteristic_of(
            taken.diffs@[i].char.text(),
        ) == Some(taken.diffs@[i].diff_characteristics),
        characteristic_of(taken.diffs@[i].char.text()) is Some && last_of_its_kind(
            taken.diff_views(),
            i,
        ) ==> {
            let c = taken.diffs@[i].diff_characteristics;
            &&& taken.grouped().contains_key(c)
            &&& taken.grouped()[c].contains_key(taken.diffs@[i].diff.text())
            &&& taken.grouped()[c][taken.diffs@[i].diff.text()] == taken.diffs@[i]@
        },
        characteristic_of(taken.diffs@[i].char.text()) is None ==> forall|
            c: BeatStarCharacteristics,
            label: Seq<char>,
        |
            #![trigger taken.grouped()[c][label]]
            taken.grouped().contains_key(c) && taken.grouped()[c].contains_key(label)
                ==> taken.grouped()[c][label] != taken.diffs@[i]@,
{
    let views = taken.diff_views();
    assert(ingested_difficulty(song.diffs@[i], approximate_pp[i]) == Some(taken.diffs@[i]));
    assert(views[i] == taken.diffs@[i]@);
    if characteristic_of(taken.diffs@[i].char.text()) is Some {
        if last_of_its_kind(views, i) {
            lemma_grouping_complete(views, i);
        }
    } else {
        assert forall|c: BeatStarCharacteristics, label: Seq<char>|
            #![trigger taken.grouped()[c][label]]
            taken.grouped().contains_key(c) && taken.grouped()[c].contains_key(
                label,
            ) implies taken.grouped()[c][label] != taken.diffs@[i]@ by {
            let j = lemma_grouping_sound(views, c, label);
        }
    }
}

/// Takes in one song with the metrics supplied for it. The song is refused
/// where the metrics do not fit it, and where one of the time stamps that
/// the derivation reads cannot be read.
pub fn ingest_song(song: BeatStarSong, metrics: &SongMetrics) -> (r: Result<
    BeatStarSong,
    DatabaseError,
>)
    ensures
        r is Ok <==> metrics_fit(song, *metrics) && times_parse(song),
        r matches Err(e) ==> e == (if metrics_fit(song, *metrics) {
            DatabaseError::TimeParse
        } else {
            DatabaseError::Metrics
        }),
        r matches Ok(taken) ==> is_ingested(
            song,
            metrics.approximate_pp@,
            metrics.heat,
            metrics.rating,
            taken,
        ),
{
    if metrics.approximate_pp.len() != song.diffs.len() {
        return Err(DatabaseError::Metrics);
    }
    let approximate_pp = &metrics.approximate_pp;
    let mut taken = song;
    let mut groups: CharacteristicMap<BeatStarSongDifficultyStats> = CharacteristicMap::new();
    let mut i: usize = 0;
    assert(grouping_views(groups.grouping()) =~= grouping_of(taken.diff_views().take(0)));
    while i < taken.diffs.len()
        invariant
            i <= taken.diffs@.len(),
            taken.diffs@.len() == song.diffs@.len(),
            approximate_pp@.len() == song.diffs@.len(),
            metrics_fit(song, *metrics),
            taken == (BeatStarSong { diffs: taken.diffs, ..song }),
            forall|j: int|
                0 <= j < i ==> ingested_difficulty(#[trigger] song.diffs@[j], approximate_pp@[j])
                    == Some(taken.diffs@[j]),
            forall|j: int| i <= j < taken.diffs@.len() ==> taken.diffs@[j] == song.diffs@[j],
            groups.wf(),
            grouping_views(groups.grouping()) == grouping_of(taken.diff_views().take(i as int)),
        decreases taken.diffs@.len() - i,
    {
        let pp: u32 = approximate_pp[i];
        let ghost views_before = taken.diff_views();
        let ghost groups_before = groups.grouping();
        match ingest_difficulty(&mut taken.diffs[i], pp) {
            Err(e) => {
                assert(ingested_difficulty(song.diffs@[i as int], 0) is None);
                return Err(e);
            },
            Ok(None) => {},
            Ok(Some(c)) => {
                let label = taken.diffs[i].diff.from_copy();
                let copy = taken.diffs[i].clone();
                groups.insert(c, label, copy);
                proof {
                    lemma_grouping_views_with(groups_before, c, label.text(), copy);
                }
            },
        }
        proof {
            let views = taken.diff_views();
            let next = views.take(i + 1);
            assert(next.drop_last() =~= views_before.take(i as int));
            assert(next.last() == taken.diffs@[i as int]@);
            assert(taken.diffs@[i as int].char == song.diffs@[i as int].char);
            assert(taken.diffs@[i as int].diff == song.diffs@[i as int].diff);
        }
        i = i + 1;
    }
    assert(taken.diff_views().take(i as int) =~= taken.diff_views());
    let uploaded = taken.uploaded.to_string();
    match unix_time(uploaded.as_str()) {
        Err(e) => Err(e),
        Ok(seconds) => {
            taken.uploaded_unix_time = seconds;
            taken.characteristics = groups;
            taken.heat = metrics.heat;
            taken.rating = metrics.rating;
            assert forall|j: int| 0 <= j < song.diffs@.len() implies ingested_difficulty(
                #[trigger] song.diffs@[j],
                0,
            ) is Some by {
                assert(ingested_difficulty(song.diffs@[j], approximate_pp@[j]) is Some);
            }
            Ok(taken)
        },
    }
}

/// Whether there are metrics for each song of the batch and for no more,
/// each fitting its song.
pub fn batch_is_fit(songs: &Vec<BeatStarSong>, metrics: &Vec<SongMetrics>) -> (r: bool)
    ensures
        r == batch_fits(songs@, metrics@),
{
    if metrics.len() != songs.len() {
        return false;
    }
    let mut i: usize = 0;
    while i < songs.len()
        invariant
            i <= songs@.len(),
            metrics@.len() == songs@.len(),
            forall|j: int| 0 <= j < i ==> metrics_fit(#[trigger] songs@[j], metrics@[j]),
        decreases songs@.len() - i,
    {
        if metrics[i].approximate_pp.len() != songs[i].diffs.len() {
            assert(!metrics_fit(songs@[i as int], metrics@[i as int]));
            return false;
        }
        i = i + 1;
    }
    true
}

/// Takes in a batch of songs, each with the metrics at its position. The
/// batch is taken in whole or not at all: it is refused where the metrics
/// do not fit the songs, and one song that is refused fails the batch.
pub fn ingest_songs(songs: Vec<BeatStarSong>, metrics: &Vec<SongMetrics>) -> (r: Result<
    Vec<BeatStarSong>,
    DatabaseError,
>)
    ensures
        r is Ok <==> batch_fits(songs@, metrics@) && forall|i: int|
            0 <= i < songs@.len() ==> times_parse(#[trigger] songs@[i]),
        r matches Err(e) ==> e == (if batch_fits(songs@, metrics@) {
            DatabaseError::TimeParse
        } else {
            DatabaseError::Metrics
        }),
        r matches Ok(taken) ==> {
            &&& taken@.len() == songs@.len()
            &&& forall|i: int|
                0 <= i < taken@.len() ==> is_ingested(
                    #[trigger] songs@[i],
                    metrics@[i].approximate_pp@,
                    metrics@[i].heat,
                    metrics@[i].rating,
                    taken@[i],
                )
        },
{
    if !batch_is_fit(&songs, metrics) {
        return Err(DatabaseError::Metrics);
    }
    let mut taken: Vec<BeatStarSong> = Vec::with_capacity(songs.len());
    let ghost all = songs@;
    for song in iter: songs
        invariant
            iter.seq() == all,
            batch_fits(all, metrics@),
            taken@.len() == iter.index(),
            forall|j: int| 0 <= j < iter.index() ==> times_parse(#[trigger] all[j]),
            forall|j: int|
                0 <= j < iter.index() ==> is_ingested(
                    #[trigger] all[j],
                    metrics@[j].approximate_pp@,
                    metrics@[j].heat,
                    metrics@[j].rating,
                    taken@[j],
                ),
    {
        let i = taken.len();
        assert(metrics_fit(all[i as int], metrics@[i as int]));
        match ingest_song(song, &metrics[i]) {
            Err(e) => {
                assert(!times_parse(all[i as int]));
                return Err(e);
            },
            Ok(one) => {
                taken.push(one);
            },
        }
    }
    Ok(taken)
}

} // verus!
