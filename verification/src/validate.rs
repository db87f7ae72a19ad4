//! Whether a staged edit fits the file it was staged for.

use std::collections::{BTreeMap, BTreeSet};

use vstd::prelude::*;
use vstd::string::StringExecFns;

use crate::audio::{
    resolved_audio_sample_rate, resolved_rate, AudioChannelLayout, AudioSettings,
    CHANNEL_UPMIX_NOT_IMPLEMENTED,
};
use crate::order::{in_order, lemma_in_order, lemma_order_of_finite};
use crate::probe::{
    channels_of, codec_of, encodable_codec, find_stream, index_of, is_kind, is_playable,
    is_playable_video, kind_of, lemma_stream_at, sample_rate_of, size_of, source_codec, stream_at,
    stream_channels, stream_codec, stream_index, stream_is, stream_sample_rate, stream_size,
    MediaInfo, Stream,
};
use crate::sets::{
    bracketed, bracketed_list, common_numbers, is_subset, keys_in_order, missing_numbers,
    number_set, union_of,
};
use crate::text::{
    ascii_upper, decimal, number_text, to_ascii_uppercase, to_uppercase, uppercase_text,
};
use crate::transcode::{
    audio_codec_after, audio_requires_transcode, effective_audio_codec, encodes_audio,
};
use crate::video::{
    CustomResolution, VideoCodec, VideoResolution, VideoSettings, MINIMUM_CUSTOM_DIMENSION,
};

verus! {

broadcast use vstd::std_specs::btree::group_btree_axioms;

/// The verdict on an edit: fine, or the text of what is wrong with it.
pub open spec fn says(result: Result<(), String>, problem: Option<Seq<char>>) -> bool {
    match result {
        Ok(_) => problem is None,
        Err(message) => problem == Some(message@),
    }
}

/// The first of two problems.
pub open spec fn first_of(problem: Option<Seq<char>>, next: Option<Seq<char>>) -> Option<
    Seq<char>,
> {
    match problem {
        Some(problem) => Some(problem),
        None => next,
    }
}

// Indices.

/// The indices of the streams that have one, in order.
pub open spec fn indices(streams: Seq<Stream>) -> Seq<u64>
    decreases streams.len(),
{
    if streams.len() == 0 {
        Seq::empty()
    } else {
        match index_of(streams.last()) {
            Some(index) => indices(streams.drop_last()).push(index),
            None => indices(streams.drop_last()),
        }
    }
}

pub fn stream_indices(info: &MediaInfo) -> (result: Vec<u64>)
    ensures
        result@ == indices(info.streams@),
{
    let mut result: Vec<u64> = Vec::new();
    let mut i: usize = 0;
    while i < info.streams.len()
        invariant
            0 <= i <= info.streams.len(),
            result@ == indices(info.streams@.take(i as int)),
        decreases info.streams.len() - i,
    {
        proof {
            assert(info.streams@.take(i + 1).drop_last() =~= info.streams@.take(i as int));
            assert(info.streams@.take(i + 1).last() == info.streams@[i as int]);
        }
        if let Some(index) = stream_index(&info.streams[i]) {
            result.push(index);
        }
        i = i + 1;
    }
    assert(info.streams@.take(info.streams@.len() as int) =~= info.streams@);
    result
}

/// An index is listed exactly where a stream has it.
pub proof fn lemma_indices(streams: Seq<Stream>, index: u64)
    ensures
        indices(streams).contains(index) <==> stream_at(streams, index) is Some,
    decreases streams.len(),
{
    lemma_stream_at(streams, index);
    lemma_indices_members(streams, index);
}

proof fn lemma_indices_members(streams: Seq<Stream>, index: u64)
    ensures
        indices(streams).contains(index) <==> exists|i: int|
            0 <= i < streams.len() && index_of(#[trigger] streams[i]) == Some(index),
    decreases streams.len(),
{
    if streams.len() > 0 {
        let shorter = streams.drop_last();
        lemma_indices_members(shorter, index);
        if indices(streams).contains(index) {
            let k = choose|k: int| 0 <= k < indices(streams).len() && indices(streams)[k] == index;
            if index_of(streams.last()) is Some && k == indices(streams).len() - 1 {
                assert(index_of(streams[streams.len() - 1]) == Some(index));
            } else {
                assert(indices(shorter)[k] == index);
                let i = choose|i: int|
                    0 <= i < shorter.len() && index_of(#[trigger] shorter[i]) == Some(index);
                assert(index_of(streams[i]) == Some(index));
            }
        }
        if exists|i: int| 0 <= i < streams.len() && index_of(#[trigger] streams[i]) == Some(index) {
            let i = choose|i: int|
                0 <= i < streams.len() && index_of(#[trigger] streams[i]) == Some(index);
            if i < shorter.len() {
                assert(index_of(shorter[i]) == Some(index));
                let k = choose|k: int| 0 <= k < indices(shorter).len() && indices(shorter)[k] == index;
                assert(indices(streams)[k] == index);
            } else {
                assert(indices(streams)[indices(shorter).len() as int] == index);
            }
        }
    }
}

// Deletion.

/// The indices of the streams that play as video, in order.
pub open spec fn playable_indices(streams: Seq<Stream>) -> Seq<u64> {
    indices(streams.filter(|stream: Stream| is_playable(stream)))
}

/// The indices of the audio streams, in order.
pub open spec fn audio_indices(streams: Seq<Stream>) -> Seq<u64> {
    indices(streams.filter(|stream: Stream| is_kind(stream, "audio"@)))
}

/// Whether every number of a list is selected.
pub open spec fn all_selected(numbers: Seq<u64>, selected: Set<u64>) -> bool {
    forall|i: int| 0 <= i < numbers.len() ==> selected.contains(#[trigger] numbers[i])
}

/// What is wrong with deleting tracks: none are selected, one is not there, or no video
/// or no audio would be left.
pub open spec fn deletion_problem(streams: Seq<Stream>, selected: Set<u64>) -> Option<Seq<char>> {
    if selected == Set::<u64>::empty() {
        Some("No tracks are selected for deletion."@)
    } else if !selected.subset_of(indices(streams).to_set()) {
        Some("The file's tracks changed. Reopen it and select them again."@)
    } else if all_selected(playable_indices(streams), selected) {
        Some(
            if playable_indices(streams).len() == 1 {
                "Can't delete the last remaining video track."@
            } else {
                "Can't delete every video track; at least one must remain."@
            },
        )
    } else if audio_indices(streams).len() > 0 && all_selected(audio_indices(streams), selected) {
        Some(
            if audio_indices(streams).len() == 1 {
                "Can't delete the last remaining audio track."@
            } else {
                "Can't delete every audio track; at least one must remain."@
            },
        )
    } else {
        None
    }
}

/// The numbers of the playable video streams (or, for `video` false, of the audio
/// streams).
fn indices_of_kind(info: &MediaInfo, video: bool) -> (result: Vec<u64>)
    ensures
        result@ == (if video {
            playable_indices(info.streams@)
        } else {
            audio_indices(info.streams@)
        }),
{
    let mut result: Vec<u64> = Vec::new();
    let ghost playable = |stream: Stream| is_playable(stream);
    let ghost audio = |stream: Stream| is_kind(stream, "audio"@);
    let mut i: usize = 0;
    proof {
        reveal(Seq::filter);
        assert(info.streams@.take(0) =~= Seq::empty());
    }
    while i < info.streams.len()
        invariant
            0 <= i <= info.streams.len(),
            playable == (|stream: Stream| is_playable(stream)),
            audio == (|stream: Stream| is_kind(stream, "audio"@)),
            result@ == indices(
                info.streams@.take(i as int).filter(
                    if video {
                        playable
                    } else {
                        audio
                    },
                ),
            ),
        decreases info.streams.len() - i,
    {
        let stream = &info.streams[i];
        proof {
            reveal(Seq::filter);
            let shorter = info.streams@.take(i as int);
            let longer = info.streams@.take(i + 1);
            assert(longer.drop_last() =~= shorter);
            assert(longer.last() == *stream);
            let kept = if video { playable } else { audio };
            if kept(*stream) {
                assert(longer.filter(kept) == shorter.filter(kept).push(*stream));
                assert(longer.filter(kept).drop_last() =~= shorter.filter(kept));
                assert(longer.filter(kept).last() == *stream);
            } else {
                assert(longer.filter(kept) == shorter.filter(kept));
            }
        }
        let wanted = if video {
            is_playable_video(stream)
        } else {
            stream_is(stream, "audio")
        };
        if wanted {
            if let Some(index) = stream_index(stream) {
                result.push(index);
            }
        }
        i = i + 1;
    }
    assert(info.streams@.take(info.streams@.len() as int) =~= info.streams@);
    result
}

fn every_selected(numbers: &Vec<u64>, selected: &BTreeSet<u64>) -> (result: bool)
    ensures
        result == all_selected(numbers@, selected@),
{
    let mut i: usize = 0;
    while i < numbers.len()
        invariant
            0 <= i <= numbers.len(),
            forall|k: int| 0 <= k < i ==> selected@.contains(#[trigger] numbers@[k]),
        decreases numbers.len() - i,
    {
        if !selected.contains(&numbers[i]) {
            return false;
        }
        i = i + 1;
    }
    true
}

pub fn validate_deletion(info: &MediaInfo, selected: &BTreeSet<u64>) -> (result: Result<
    (),
    String,
>)
    ensures
        says(result, deletion_problem(info.streams@, selected@)),
{
    let listed = crate::sets::numbers_in_order(selected);
    if listed.len() == 0 {
        assert(selected@ =~= Set::<u64>::empty());
        return Err("No tracks are selected for deletion.".to_owned());
    }
    assert(selected@ != Set::<u64>::empty()) by {
        assert(listed@.to_set().contains(listed@[0]));
    }
    let (available, _) = number_set(stream_indices(info).as_slice());
    if !is_subset(selected, &available) {
        return Err("The file's tracks changed. Reopen it and select them again.".to_owned());
    }
    let videos = indices_of_kind(info, true);
    let audio = indices_of_kind(info, false);
    if every_selected(&videos, selected) {
        return Err(
            if videos.len() == 1 {
                "Can't delete the last remaining video track.".to_owned()
            } else {
                "Can't delete every video track; at least one must remain.".to_owned()
            },
        );
    }
    if audio.len() > 0 && every_selected(&audio, selected) {
        return Err(
            if audio.len() == 1 {
                "Can't delete the last remaining audio track.".to_owned()
            } else {
                "Can't delete every audio track; at least one must remain.".to_owned()
            },
        );
    }
    Ok(())
}

// Track order.

/// Which tracks a list names, for a message.
pub open spec fn named_tracks(numbers: Seq<u64>) -> Seq<char> {
    if numbers.len() == 0 {
        "none"@
    } else {
        "track(s) "@ + bracketed(numbers)
    }
}

pub fn describe_index_diff(indices: &[u64]) -> (result: String)
    ensures
        result@ == named_tracks(indices@),
{
    if indices.len() == 0 {
        "none".to_owned()
    } else {
        let mut text = "track(s) ".to_owned();
        text.append(bracketed_list(indices).as_str());
        text
    }
}

/// Whether every stream has an index and no two have the same.
pub open spec fn well_indexed(streams: Seq<Stream>) -> bool {
    indices(streams).len() == streams.len() && indices(streams).no_duplicates()
}

/// What is wrong with the staged order, deletions and defaults: together the order and
/// the deletions have to name every track of the file once, and a default has to be
/// among what is kept.
pub open spec fn order_problem(
    streams: Seq<Stream>,
    order: Seq<u64>,
    deleted: Set<u64>,
    defaults: Set<u64>,
) -> Option<Seq<char>> {
    let available = indices(streams).to_set();
    let kept = order.to_set();
    let staged = kept.union(deleted);
    if !well_indexed(streams) {
        Some("One or more tracks have no usable stream index."@)
    } else if !order.no_duplicates() {
        Some(
            "The file's tracks changed: the same track appears twice in the staged order. Reopen it and try again."@,
        )
    } else if kept.intersect(deleted) != Set::<u64>::empty() {
        Some(
            "The file's tracks changed: track(s) "@ + bracketed(in_order(kept.intersect(deleted)))
                + " are both kept and marked for deletion. Reopen it and try again."@,
        )
    } else if staged != available {
        Some(
            "The file's tracks changed: "@ + named_tracks(in_order(available.difference(staged)))
                + " in the file but not in the staged edit, "@ + named_tracks(
                in_order(staged.difference(available)),
            ) + " in the staged edit but no longer in the file. Reopen it and try again."@,
        )
    } else if !defaults.subset_of(kept) {
        Some("A default track is also marked for deletion."@)
    } else {
        None
    }
}

fn validate_order(
    info: &MediaInfo,
    stream_order: &[u64],
    deleted_streams: &BTreeSet<u64>,
    default_streams: &BTreeSet<u64>,
) -> (result: Result<BTreeSet<u64>, String>)
    ensures
        match result {
            Ok(kept) => order_problem(
                info.streams@,
                stream_order@,
                deleted_streams@,
                default_streams@,
            ) is None && kept@ == stream_order@.to_set(),
            Err(message) => order_problem(
                info.streams@,
                stream_order@,
                deleted_streams@,
                default_streams@,
            ) == Some(message@),
        },
{
    let listed = stream_indices(info);
    let (available, distinct) = number_set(listed.as_slice());
    if listed.len() != info.streams.len() || !distinct {
        return Err("One or more tracks have no usable stream index.".to_owned());
    }
    let (kept, once) = number_set(stream_order);
    if !once {
        return Err(
            "The file's tracks changed: the same track appears twice in the staged order. Reopen it and try again.".to_owned(),
        );
    }
    let both = common_numbers(&kept, deleted_streams);
    if both.len() > 0 {
        assert(both@.to_set().contains(both@[0]));
        let mut message = "The file's tracks changed: track(s) ".to_owned();
        message.append(bracketed_list(both.as_slice()).as_str());
        message.append(" are both kept and marked for deletion. Reopen it and try again.");
        return Err(message);
    }
    assert(kept@.intersect(deleted_streams@) =~= Set::<u64>::empty()) by {
        assert(both@.to_set() =~= Set::<u64>::empty());
    }
    let staged = union_of(&kept, deleted_streams);
    let missing = missing_numbers(&available, &staged);
    let extra = missing_numbers(&staged, &available);
    if missing.len() > 0 || extra.len() > 0 {
        proof {
            if missing@.len() > 0 {
                assert(missing@.to_set().contains(missing@[0]));
                assert(available@.difference(staged@).contains(missing@[0]));
            } else {
                assert(extra@.to_set().contains(extra@[0]));
                assert(staged@.difference(available@).contains(extra@[0]));
            }
        }
        let mut message = "The file's tracks changed: ".to_owned();
        message.append(describe_index_diff(missing.as_slice()).as_str());
        message.append(" in the file but not in the staged edit, ");
        message.append(describe_index_diff(extra.as_slice()).as_str());
        message.append(
            " in the staged edit but no longer in the file. Reopen it and try again.",
        );
        return Err(message);
    }
    proof {
        assert forall|n: u64| staged@.contains(n) == available@.contains(n) by {
            assert(!missing@.to_set().contains(n));
            assert(!extra@.to_set().contains(n));
            assert(!available@.difference(staged@).contains(n));
            assert(!staged@.difference(available@).contains(n));
        }
        assert(staged@ =~= available@);
    }
    if !is_subset(default_streams, &kept) {
        return Err("A default track is also marked for deletion.".to_owned());
    }
    Ok(kept)
}

// Audio settings.

/// What is wrong with the settings of the audio track `index`.
pub open spec fn audio_track_problem(
    stream: Stream,
    index: u64,
    settings: AudioSettings,
) -> Option<Seq<char>> {
    if !is_kind(stream, "audio"@) {
        Some("Audio settings can only be applied to audio tracks."@)
    } else if !encodes_audio(stream, settings) {
        None
    } else {
        match channels_of(stream) {
            None => Some(
                "The channel layout for audio track #"@ + decimal(index as nat)
                    + " is unavailable."@,
            ),
            Some(source_channels) => {
                let channels = match settings.channel_layout.channel_count() {
                    Some(channels) => channels,
                    None => source_channels,
                };
                if channels > source_channels {
                    Some(CHANNEL_UPMIX_NOT_IMPLEMENTED@)
                } else {
                    match audio_codec_after(stream, settings) {
                        None => Some(
                            "Can't encode the original "@ + ascii_upper(
                                match encodable_codec(stream) {
                                    Some(codec) => codec,
                                    None => "unknown"@,
                                },
                            ) + " codec; choose a supported audio codec."@,
                        ),
                        Some(codec) => if channels > codec.channel_limit() {
                            Some(
                                codec.label_text() + " does not support "@ + decimal(
                                    channels as nat,
                                ) + "-channel audio; choose another layout or codec."@,
                            )
                        } else {
                            match sample_rate_of(stream) {
                                None => Some(
                                    "The sample rate for audio track #"@ + decimal(index as nat)
                                        + " is unavailable."@,
                                ),
                                Some(rate) => if resolved_rate(codec, rate) is None {
                                    Some(
                                        codec.label_text()
                                            + " cannot use the source sample rate; choose another codec."@,
                                    )
                                } else {
                                    None
                                },
                            }
                        },
                    }
                }
            },
        }
    }
}

fn validate_audio_track(stream: &Stream, index: u64, settings: &AudioSettings) -> (result: Result<
    (),
    String,
>)
    ensures
        says(result, audio_track_problem(*stream, index, *settings)),
{
    if !stream_is(stream, "audio") {
        return Err("Audio settings can only be applied to audio tracks.".to_owned());
    }
    if !audio_requires_transcode(stream, settings) {
        return Ok(());
    }
    let source_channels: u8 = match stream_channels(stream) {
        Some(channels) => channels,
        None => {
            let mut message = "The channel layout for audio track #".to_owned();
            message.append(number_text(index).as_str());
            message.append(" is unavailable.");
            return Err(message);
        },
    };
    let channels: u8 = match settings.channel_layout.channels() {
        Some(channels) => channels,
        None => source_channels,
    };
    if channels > source_channels {
        return Err(CHANNEL_UPMIX_NOT_IMPLEMENTED.to_owned());
    }
    let codec = match effective_audio_codec(stream, settings) {
        Some(codec) => codec,
        None => {
            let own = match source_codec(stream) {
                Some(codec) => codec,
                None => "unknown",
            };
            let mut message = "Can't encode the original ".to_owned();
            message.append(to_ascii_uppercase(own).as_str());
            message.append(" codec; choose a supported audio codec.");
            return Err(message);
        },
    };
    if !codec.supports_channels(channels) {
        let mut message = codec.label().to_owned();
        message.append(" does not support ");
        message.append(number_text(channels as u64).as_str());
        message.append("-channel audio; choose another layout or codec.");
        return Err(message);
    }
    match stream_sample_rate(stream) {
        Some(rate) => match resolved_audio_sample_rate(codec, rate) {
            Some(_) => Ok(()),
            None => {
                let mut message = codec.label().to_owned();
                message.append(" cannot use the source sample rate; choose another codec.");
                Err(message)
            },
        },
        None => {
            let mut message = "The sample rate for audio track #".to_owned();
            message.append(number_text(index).as_str());
            message.append(" is unavailable.");
            Err(message)
        },
    }
}

/// The first problem of the audio settings of some tracks.
pub open spec fn audio_tracks_problem(
    streams: Seq<Stream>,
    tracks: Seq<u64>,
    settings: Map<u64, AudioSettings>,
) -> Option<Seq<char>>
    decreases tracks.len(),
{
    if tracks.len() == 0 {
        None
    } else {
        first_of(
            match stream_at(streams, tracks[0]) {
                Some(stream) => audio_track_problem(stream, tracks[0], settings[tracks[0]]),
                None => None,
            },
            audio_tracks_problem(streams, tracks.skip(1), settings),
        )
    }
}

/// What is wrong with the audio settings: they have to be of kept tracks, and each has to
/// fit its track.
pub open spec fn audio_problem(
    streams: Seq<Stream>,
    order: Seq<u64>,
    settings: Map<u64, AudioSettings>,
) -> Option<Seq<char>> {
    if !settings.dom().subset_of(order.to_set()) {
        Some("Audio settings refer to a missing or deleted track."@)
    } else {
        audio_tracks_problem(streams, in_order(settings.dom()), settings)
    }
}

fn keys_kept<V>(settings: &BTreeMap<u64, V>, kept: &BTreeSet<u64>) -> (result: bool)
    ensures
        result == settings@.dom().subset_of(kept@),
{
    let keys = keys_in_order(settings);
    let mut i: usize = 0;
    while i < keys.len()
        invariant
            0 <= i <= keys.len(),
            keys@.to_set() == settings@.dom(),
            forall|k: int| 0 <= k < i ==> kept@.contains(#[trigger] keys@[k]),
        decreases keys.len() - i,
    {
        if !kept.contains(&keys[i]) {
            assert(keys@.to_set().contains(keys@[i as int]));
            return false;
        }
        i = i + 1;
    }
    proof {
        assert forall|n: u64| settings@.dom().contains(n) implies kept@.contains(n) by {
            assert(keys@.to_set().contains(n));
            let k = choose|k: int| 0 <= k < keys@.len() && keys@[k] == n;
            assert(kept@.contains(keys@[k]));
        }
    }
    true
}

fn validate_audio(
    info: &MediaInfo,
    stream_order: &[u64],
    kept: &BTreeSet<u64>,
    audio_settings: &BTreeMap<u64, AudioSettings>,
) -> (result: Result<(), String>)
    requires
        kept@ == stream_order@.to_set(),
    ensures
        says(result, audio_problem(info.streams@, stream_order@, audio_settings@)),
{
    if !keys_kept(audio_settings, kept) {
        return Err("Audio settings refer to a missing or deleted track.".to_owned());
    }
    let tracks = keys_in_order(audio_settings);
    let mut i: usize = 0;
    assert(tracks@.skip(0) =~= tracks@);
    while i < tracks.len()
        invariant
            0 <= i <= tracks.len(),
            tracks@.to_set() == audio_settings@.dom(),
            audio_problem(info.streams@, stream_order@, audio_settings@) == audio_tracks_problem(
                info.streams@,
                tracks@.skip(i as int),
                audio_settings@,
            ),
        decreases tracks.len() - i,
    {
        let index: u64 = tracks[i];
        assert(tracks@.to_set().contains(tracks@[i as int]));
        assert(tracks@.skip(i as int).skip(1) =~= tracks@.skip(i + 1));
        if let Some(stream) = find_stream(info, index) {
            if let Some(settings) = audio_settings.get(&index) {
                match validate_audio_track(stream, index, settings) {
                    Ok(_) => {},
                    Err(message) => return Err(message),
                }
            }
        }
        i = i + 1;
    }
    Ok(())
}

// Video settings.

/// What is wrong with a resolution for a stream.
pub open spec fn resolution_problem(stream: Stream, resolution: VideoResolution) -> Option<
    Seq<char>,
> {
    match resolution {
        VideoResolution::Original => None,
        VideoResolution::Custom(custom) => if custom.width == 0 || custom.height == 0
            || custom.width % 2 != 0 || custom.height % 2 != 0 {
            Some("Custom width and height must be positive even numbers."@)
        } else if custom.width < MINIMUM_CUSTOM_DIMENSION || custom.height
            < MINIMUM_CUSTOM_DIMENSION {
            Some(
                "Custom width and height must be at least "@ + decimal(
                    MINIMUM_CUSTOM_DIMENSION as nat,
                ) + " pixels."@,
            )
        } else {
            match size_of(stream) {
                None => Some(
                    "The source resolution is unavailable; custom scaling cannot be applied."@,
                ),
                Some((width, height)) => if custom.width > width || custom.height > height {
                    Some("Upscaling isn't possible yet."@)
                } else {
                    None
                },
            }
        },
        preset => match size_of(stream) {
            Some((width, height)) if (preset.size()->0).0 > width || (preset.size()->0).1
                > height => Some("The selected resolution must be lower than the original."@),
            _ => None,
        },
    }
}

/// What is wrong with the settings of a video track.
pub open spec fn video_track_problem(stream: Stream, settings: VideoSettings) -> Option<
    Seq<char>,
> {
    if !is_playable(stream) {
        Some("Encoding settings can only be applied to playable video tracks."@)
    } else {
        first_of(
            resolution_problem(stream, settings.resolution),
            if settings.resolution != VideoResolution::Original && settings.codec
                == VideoCodec::Original && encodable_codec(stream) is None {
                Some(
                    "Can't resize the original "@ + uppercase_text(
                        match codec_of(stream) {
                            Some(codec) => codec,
                            None => "unknown"@,
                        },
                    ) + " codec; choose H.264, HEVC, or AV1."@,
                )
            } else {
                None
            },
        )
    }
}

fn validate_resolution(stream: &Stream, resolution: VideoResolution) -> (result: Result<
    (),
    String,
>)
    ensures
        says(result, resolution_problem(*stream, resolution)),
{
    match resolution {
        VideoResolution::Original => Ok(()),
        VideoResolution::Custom(custom) => {
            if custom.width == 0 || custom.height == 0 || custom.width % 2 != 0 || custom.height
                % 2 != 0 {
                return Err("Custom width and height must be positive even numbers.".to_owned());
            }
            if custom.width < MINIMUM_CUSTOM_DIMENSION || custom.height < MINIMUM_CUSTOM_DIMENSION {
                let mut message = "Custom width and height must be at least ".to_owned();
                message.append(number_text(MINIMUM_CUSTOM_DIMENSION).as_str());
                message.append(" pixels.");
                return Err(message);
            }
            match stream_size(stream) {
                None => Err(
                    "The source resolution is unavailable; custom scaling cannot be applied.".to_owned(),
                ),
                Some((width, height)) => {
                    if custom.width > width || custom.height > height {
                        Err("Upscaling isn't possible yet.".to_owned())
                    } else {
                        Ok(())
                    }
                },
            }
        },
        preset => {
            if let Some((target_width, target_height)) = preset.dimensions() {
                if let Some((width, height)) = stream_size(stream) {
                    if target_width > width || target_height > height {
                        return Err(
                            "The selected resolution must be lower than the original.".to_owned(),
                        );
                    }
                }
            }
            Ok(())
        },
    }
}

fn validate_video_track(stream: &Stream, settings: &VideoSettings) -> (result: Result<(), String>)
    ensures
        says(result, video_track_problem(*stream, *settings)),
{
    if !is_playable_video(stream) {
        return Err(
            "Encoding settings can only be applied to playable video tracks.".to_owned(),
        );
    }
    match validate_resolution(stream, settings.resolution) {
        Ok(_) => {},
        Err(message) => return Err(message),
    }
    if settings.resolution != VideoResolution::Original && settings.codec == VideoCodec::Original
        && source_codec(stream).is_none() {
        let own = match stream_codec(stream) {
            Some(codec) => codec,
            None => "unknown",
        };
        let mut message = "Can't resize the original ".to_owned();
        message.append(to_uppercase(own).as_str());
        message.append(" codec; choose H.264, HEVC, or AV1.");
        return Err(message);
    }
    Ok(())
}

/// The first problem of the video settings of some tracks.
pub open spec fn video_tracks_problem(
    streams: Seq<Stream>,
    tracks: Seq<u64>,
    settings: Map<u64, VideoSettings>,
) -> Option<Seq<char>>
    decreases tracks.len(),
{
    if tracks.len() == 0 {
        None
    } else {
        first_of(
            match stream_at(streams, tracks[0]) {
                Some(stream) => video_track_problem(stream, settings[tracks[0]]),
                None => Some("The file's tracks changed. Reopen it and try again."@),
            },
            video_tracks_problem(streams, tracks.skip(1), settings),
        )
    }
}

/// What is wrong with the video settings: they have to be of kept tracks, and each has to
/// fit its track.
pub open spec fn video_problem(
    streams: Seq<Stream>,
    order: Seq<u64>,
    settings: Map<u64, VideoSettings>,
) -> Option<Seq<char>> {
    if !settings.dom().subset_of(order.to_set()) {
        Some("Video settings refer to a missing or deleted track."@)
    } else {
        video_tracks_problem(streams, in_order(settings.dom()), settings)
    }
}

fn validate_video(
    info: &MediaInfo,
    stream_order: &[u64],
    kept: &BTreeSet<u64>,
    video_settings: &BTreeMap<u64, VideoSettings>,
) -> (result: Result<(), String>)
    requires
        kept@ == stream_order@.to_set(),
    ensures
        says(result, video_problem(info.streams@, stream_order@, video_settings@)),
{
    if !keys_kept(video_settings, kept) {
        return Err("Video settings refer to a missing or deleted track.".to_owned());
    }
    let tracks = keys_in_order(video_settings);
    let mut i: usize = 0;
    assert(tracks@.skip(0) =~= tracks@);
    while i < tracks.len()
        invariant
            0 <= i <= tracks.len(),
            tracks@.to_set() == video_settings@.dom(),
            video_problem(info.streams@, stream_order@, video_settings@) == video_tracks_problem(
                info.streams@,
                tracks@.skip(i as int),
                video_settings@,
            ),
        decreases tracks.len() - i,
    {
        let index: u64 = tracks[i];
        assert(tracks@.to_set().contains(tracks@[i as int]));
        assert(tracks@.skip(i as int).skip(1) =~= tracks@.skip(i + 1));
        match find_stream(info, index) {
            None => return Err("The file's tracks changed. Reopen it and try again.".to_owned()),
            Some(stream) => if let Some(settings) = video_settings.get(&index) {
                match validate_video_track(stream, settings) {
                    Ok(_) => {},
                    Err(message) => return Err(message),
                }
            },
        }
        i = i + 1;
    }
    Ok(())
}

// The whole edit.

/// What is wrong with an edit: the first problem of its order, its audio settings, its
/// video settings and its deletions.
pub open spec fn edit_problem(
    streams: Seq<Stream>,
    order: Seq<u64>,
    deleted: Set<u64>,
    defaults: Set<u64>,
    audio_settings: Map<u64, AudioSettings>,
    video_settings: Map<u64, VideoSettings>,
) -> Option<Seq<char>> {
    first_of(
        order_problem(streams, order, deleted, defaults),
        first_of(
            audio_problem(streams, order, audio_settings),
            first_of(
                video_problem(streams, order, video_settings),
                if deleted != Set::<u64>::empty() {
                    deletion_problem(streams, deleted)
                } else {
                    None
                },
            ),
        ),
    )
}

pub fn validate_edit(
    info: &MediaInfo,
    stream_order: &[u64],
    deleted_streams: &BTreeSet<u64>,
    default_streams: &BTreeSet<u64>,
    audio_settings: &BTreeMap<u64, AudioSettings>,
    video_settings: &BTreeMap<u64, VideoSettings>,
) -> (result: Result<(), String>)
    ensures
        says(
            result,
            edit_problem(
                info.streams@,
                stream_order@,
                deleted_streams@,
                default_streams@,
                audio_settings@,
                video_settings@,
            ),
        ),
{
    let kept = match validate_order(info, stream_order, deleted_streams, default_streams) {
        Ok(kept) => kept,
        Err(message) => return Err(message),
    };
    match validate_audio(info, stream_order, &kept, audio_settings) {
        Ok(_) => {},
        Err(message) => return Err(message),
    }
    match validate_video(info, stream_order, &kept, video_settings) {
        Ok(_) => {},
        Err(message) => return Err(message),
    }
    let listed = crate::sets::numbers_in_order(deleted_streams);
    if listed.len() > 0 {
        assert(listed@.to_set().contains(listed@[0]));
        return validate_deletion(info, deleted_streams);
    }
    assert(deleted_streams@ =~= Set::<u64>::empty());
    Ok(())
}

// Laws.

/// An accepted edit names every track of the file exactly once, as kept or as deleted, and
/// nothing else.
pub proof fn accepted_edits_name_every_track(
    streams: Seq<Stream>,
    order: Seq<u64>,
    deleted: Set<u64>,
    defaults: Set<u64>,
    audio_settings: Map<u64, AudioSettings>,
    video_settings: Map<u64, VideoSettings>,
    index: u64,
)
    requires
        edit_problem(streams, order, deleted, defaults, audio_settings, video_settings) is None,
    ensures
        well_indexed(streams),
        order.no_duplicates(),
        stream_at(streams, index) is Some <==> order.contains(index) || deleted.contains(index),
        !(order.contains(index) && deleted.contains(index)),
        defaults.contains(index) ==> order.contains(index),
        audio_settings.contains_key(index) ==> order.contains(index),
        video_settings.contains_key(index) ==> order.contains(index),
{
    let available = indices(streams).to_set();
    let kept = order.to_set();
    lemma_indices(streams, index);
    assert(kept.contains(index) <==> order.contains(index));
    assert(available.contains(index) <==> indices(streams).contains(index));
    assert(kept.union(deleted).contains(index) == available.contains(index));
    if order.contains(index) && deleted.contains(index) {
        assert(kept.intersect(deleted).contains(index));
    }
}

proof fn lemma_filtered_index(streams: Seq<Stream>, wanted: spec_fn(Stream) -> bool, index: u64)
    requires
        indices(streams.filter(wanted)).contains(index),
    ensures
        exists|i: int|
            0 <= i < streams.len() && index_of(#[trigger] streams[i]) == Some(index) && wanted(
                streams[i],
            ),
{
    let chosen = streams.filter(wanted);
    lemma_indices_members(chosen, index);
    let k = choose|k: int| 0 <= k < chosen.len() && index_of(#[trigger] chosen[k]) == Some(index);
    streams.lemma_filter_contains_rev(wanted, chosen[k]);
    let i = choose|i: int| 0 <= i < streams.len() && streams[i] == chosen[k];
    streams.filter_lemma(wanted);
    assert(index_of(streams[i]) == Some(index) && wanted(streams[i]));
}

/// An accepted edit of a file that plays keeps something that plays: of its video tracks
/// one is kept, and of its audio tracks, if it has any, too.
pub proof fn accepted_edits_keep_something_to_play(
    streams: Seq<Stream>,
    order: Seq<u64>,
    deleted: Set<u64>,
    defaults: Set<u64>,
    audio_settings: Map<u64, AudioSettings>,
    video_settings: Map<u64, VideoSettings>,
)
    requires
        edit_problem(streams, order, deleted, defaults, audio_settings, video_settings) is None,
    ensures
        playable_indices(streams).len() > 0 ==> exists|i: int|
            0 <= i < playable_indices(streams).len() && order.contains(
                #[trigger] playable_indices(streams)[i],
            ),
        audio_indices(streams).len() > 0 ==> exists|i: int|
            0 <= i < audio_indices(streams).len() && order.contains(
                #[trigger] audio_indices(streams)[i],
            ),
{
    let videos = playable_indices(streams);
    let audio = audio_indices(streams);
    if videos.len() > 0 {
        let i = if deleted == Set::<u64>::empty() {
            0
        } else {
            choose|i: int| 0 <= i < videos.len() && !deleted.contains(#[trigger] videos[i])
        };
        lemma_kept(streams, |stream: Stream| is_playable(stream), order, deleted, defaults, i);
    }
    if audio.len() > 0 {
        let i = if deleted == Set::<u64>::empty() {
            0
        } else {
            choose|i: int| 0 <= i < audio.len() && !deleted.contains(#[trigger] audio[i])
        };
        lemma_kept(
            streams,
            |stream: Stream| is_kind(stream, "audio"@),
            order,
            deleted,
            defaults,
            i,
        );
    }
}

proof fn lemma_kept(
    streams: Seq<Stream>,
    wanted: spec_fn(Stream) -> bool,
    order: Seq<u64>,
    deleted: Set<u64>,
    defaults: Set<u64>,
    i: int,
)
    requires
        order_problem(streams, order, deleted, defaults) is None,
        0 <= i < indices(streams.filter(wanted)).len(),
        !deleted.contains(indices(streams.filter(wanted))[i]),
    ensures
        order.contains(indices(streams.filter(wanted))[i]),
{
    let index = indices(streams.filter(wanted))[i];
    assert(indices(streams.filter(wanted)).contains(index));
    lemma_filtered_index(streams, wanted, index);
    lemma_indices_members(streams, index);
    assert(indices(streams).to_set().contains(index));
    assert(order.to_set().union(deleted).contains(index));
    assert(order.to_set().contains(index));
}

/// The indices of a file are those of its streams, in their order.
pub proof fn indices_follow_the_streams(streams: Seq<Stream>, i: int)
    ensures
        indices(streams).len() <= streams.len(),
        (forall|k: int| 0 <= k < streams.len() ==> index_of(#[trigger] streams[k]) is Some) && 0
            <= i < streams.len() ==> indices(streams).len() == streams.len() && Some(
            indices(streams)[i],
        ) == index_of(streams[i]),
        0 <= i < streams.len() && index_of(streams[i]) is None ==> indices(streams).len()
            < streams.len() && !well_indexed(streams),
    decreases streams.len(),
{
    if streams.len() > 0 {
        let fewer = streams.drop_last();
        indices_follow_the_streams(fewer, i);
        assert forall|k: int| 0 <= k < fewer.len() implies #[trigger] fewer[k] == streams[k] by {}
        if forall|k: int| 0 <= k < streams.len() ==> index_of(#[trigger] streams[k]) is Some {
            assert forall|k: int| 0 <= k < fewer.len() implies index_of(
                #[trigger] fewer[k],
            ) is Some by {
                assert(index_of(streams[k]) is Some);
            }
            indices_follow_the_streams(fewer, 0);
        }
    }
}

proof fn lemma_wanted_index(streams: Seq<Stream>, wanted: spec_fn(Stream) -> bool, i: int)
    requires
        0 <= i < streams.len(),
        index_of(streams[i]) is Some,
        wanted(streams[i]),
    ensures
        indices(streams.filter(wanted)).contains(index_of(streams[i])->0),
{
    let chosen = streams.filter(wanted);
    streams.filter_lemma(wanted);
    assert(chosen.contains(streams[i]));
    let k = chosen.index_of(streams[i]);
    assert(chosen[k] == streams[i]);
    lemma_indices_members(chosen, index_of(streams[i])->0);
}

/// That a stream that is wanted stays when some are deleted.
pub open spec fn one_stays(
    streams: Seq<Stream>,
    wanted: spec_fn(Stream) -> bool,
    selected: Set<u64>,
) -> bool {
    exists|i: int|
        0 <= i < streams.len() && wanted(#[trigger] streams[i]) && index_of(streams[i]) is Some
            && !selected.contains(index_of(streams[i])->0)
}

proof fn lemma_one_stays(
    streams: Seq<Stream>,
    wanted: spec_fn(Stream) -> bool,
    selected: Set<u64>,
)
    ensures
        all_selected(indices(streams.filter(wanted)), selected) <==> !one_stays(
            streams,
            wanted,
            selected,
        ),
{
    let list = indices(streams.filter(wanted));
    if one_stays(streams, wanted, selected) {
        let i = choose|i: int|
            0 <= i < streams.len() && wanted(#[trigger] streams[i]) && index_of(streams[i]) is Some
                && !selected.contains(index_of(streams[i])->0);
        lemma_wanted_index(streams, wanted, i);
        let at = list.index_of(index_of(streams[i])->0);
        assert(!selected.contains(list[at]));
    } else {
        assert forall|k: int| 0 <= k < list.len() implies selected.contains(#[trigger] list[k]) by {
            lemma_filtered_index(streams, wanted, list[k]);
        }
    }
}

/// Tracks can be deleted where some are selected, all of them are in the file, a picture
/// that plays stays, and, if the file has sound, some of that does.
pub proof fn deletions_leave_something_to_play(streams: Seq<Stream>, selected: Set<u64>)
    ensures
        deletion_problem(streams, selected) is None <==> selected != Set::<u64>::empty() && (forall|
            index: u64,
        | #[trigger]
            selected.contains(index) ==> stream_at(streams, index) is Some) && one_stays(
            streams,
            |stream: Stream| is_playable(stream),
            selected,
        ) && (audio_indices(streams).len() == 0 || one_stays(
            streams,
            |stream: Stream| is_kind(stream, "audio"@),
            selected,
        )),
{
    lemma_one_stays(streams, |stream: Stream| is_playable(stream), selected);
    lemma_one_stays(streams, |stream: Stream| is_kind(stream, "audio"@), selected);
    assert forall|index: u64| indices(streams).to_set().contains(index) <==> stream_at(
        streams,
        index,
    ) is Some by {
        lemma_indices(streams, index);
    }
}

/// What is said where tracks cannot be deleted.
pub proof fn refused_deletions_say_why(streams: Seq<Stream>, selected: Set<u64>)
    ensures
        ({
            let problem = deletion_problem(streams, selected);
            let there = selected.subset_of(indices(streams).to_set());
            let pictures = playable_indices(streams);
            let sound = audio_indices(streams);
            &&& selected == Set::<u64>::empty() ==> problem == Some(
                "No tracks are selected for deletion."@,
            )
            &&& selected != Set::<u64>::empty() && !there ==> problem == Some(
                "The file's tracks changed. Reopen it and select them again."@,
            )
            &&& selected != Set::<u64>::empty() && there && all_selected(pictures, selected) ==> {
                &&& pictures.len() == 1 ==> problem == Some(
                    "Can't delete the last remaining video track."@,
                )
                &&& pictures.len() != 1 ==> problem == Some(
                    "Can't delete every video track; at least one must remain."@,
                )
            }
            &&& selected != Set::<u64>::empty() && there && !all_selected(pictures, selected)
                && sound.len() > 0 && all_selected(sound, selected) ==> {
                &&& sound.len() == 1 ==> problem == Some(
                    "Can't delete the last remaining audio track."@,
                )
                &&& sound.len() != 1 ==> problem == Some(
                    "Can't delete every audio track; at least one must remain."@,
                )
            }
        }),
{
}

/// An order is accepted where every track has an index of its own, each is either kept once
/// or deleted, and only kept tracks are default.
pub proof fn whole_orders_are_accepted(
    streams: Seq<Stream>,
    order: Seq<u64>,
    deleted: Set<u64>,
    defaults: Set<u64>,
)
    ensures
        order_problem(streams, order, deleted, defaults) is None <==> well_indexed(streams)
            && order.no_duplicates() && (forall|index: u64|
            (#[trigger] order.contains(index) || deleted.contains(index)) == (stream_at(
                streams,
                index,
            ) is Some)) && (forall|index: u64|
            !(#[trigger] order.contains(index) && deleted.contains(index))) && (forall|index: u64|
            #[trigger]
            defaults.contains(index) ==> order.contains(index)),
{
    let available = indices(streams).to_set();
    let kept = order.to_set();
    assert forall|index: u64| available.contains(index) <==> stream_at(streams, index) is Some by {
        lemma_indices(streams, index);
    }
    assert forall|index: u64| kept.contains(index) == #[trigger] order.contains(index) by {}
    if order_problem(streams, order, deleted, defaults) is None {
        assert forall|index: u64|
            (#[trigger] order.contains(index) || deleted.contains(index)) == (stream_at(
                streams,
                index,
            ) is Some) by {
            assert(kept.union(deleted).contains(index) == available.contains(index));
        }
        assert forall|index: u64| !(#[trigger] order.contains(index) && deleted.contains(index)) by {
            assert(!kept.intersect(deleted).contains(index));
        }
    }
    if (forall|index: u64|
        (#[trigger] order.contains(index) || deleted.contains(index)) == (stream_at(streams, index)
            is Some)) && (forall|index: u64|
        !(#[trigger] order.contains(index) && deleted.contains(index))) {
        assert forall|index: u64| kept.union(deleted).contains(index) == available.contains(
            index,
        ) by {
            assert(order.contains(index) == kept.contains(index));
        }
        assert(kept.union(deleted) =~= available);
        assert forall|index: u64| !kept.intersect(deleted).contains(index) by {
            assert(order.contains(index) == kept.contains(index));
        }
        assert(kept.intersect(deleted) =~= Set::empty());
    }
}

/// What is said where an order is not accepted: the tracks that are kept and deleted, or
/// missing on either side, are named, lowest first.
pub proof fn refused_orders_say_why(
    streams: Seq<Stream>,
    order: Seq<u64>,
    deleted: Set<u64>,
    defaults: Set<u64>,
)
    ensures
        ({
            let problem = order_problem(streams, order, deleted, defaults);
            let available = indices(streams).to_set();
            let kept = order.to_set();
            let both = kept.intersect(deleted);
            let new = available.difference(kept.union(deleted));
            let gone = kept.union(deleted).difference(available);
            &&& !well_indexed(streams) ==> problem == Some(
                "One or more tracks have no usable stream index."@,
            )
            &&& well_indexed(streams) && !order.no_duplicates() ==> problem == Some(
                "The file's tracks changed: the same track appears twice in the staged order. Reopen it and try again."@,
            )
            &&& well_indexed(streams) && order.no_duplicates() && both != Set::<u64>::empty()
                ==> problem == Some(
                "The file's tracks changed: track(s) "@ + bracketed(in_order(both))
                    + " are both kept and marked for deletion. Reopen it and try again."@,
            )
            &&& well_indexed(streams) && order.no_duplicates() && both == Set::<u64>::empty()
                && new != Set::<u64>::empty() && gone == Set::<u64>::empty() ==> problem == Some(
                "The file's tracks changed: track(s) "@ + bracketed(in_order(new))
                    + " in the file but not in the staged edit, none in the staged edit but no longer in the file. Reopen it and try again."@,
            )
            &&& well_indexed(streams) && order.no_duplicates() && both == Set::<u64>::empty()
                && new == Set::<u64>::empty() && gone != Set::<u64>::empty() && gone.finite()
                ==> problem == Some(
                "The file's tracks changed: none in the file but not in the staged edit, track(s) "@
                    + bracketed(in_order(gone))
                    + " in the staged edit but no longer in the file. Reopen it and try again."@,
            )
        }),
{
    let available = indices(streams).to_set();
    let kept = order.to_set();
    let staged = kept.union(deleted);
    let new = available.difference(staged);
    let gone = staged.difference(available);
    reveal_strlit("none");
    reveal_strlit("track(s) ");
    reveal_strlit("The file's tracks changed: ");
    reveal_strlit("The file's tracks changed: track(s) ");
    reveal_strlit(" in the file but not in the staged edit, ");
    reveal_strlit(
        " in the file but not in the staged edit, none in the staged edit but no longer in the file. Reopen it and try again.",
    );
    reveal_strlit(
        " in the staged edit but no longer in the file. Reopen it and try again.",
    );
    reveal_strlit(
        "The file's tracks changed: none in the file but not in the staged edit, track(s) ",
    );
    lemma_in_order(Seq::<u64>::empty());
    assert(Seq::<u64>::empty().to_set() =~= Set::empty());
    if new != Set::<u64>::empty() {
        if forall|index: u64| !new.contains(index) {
            assert(new =~= Set::empty());
        }
        let index = choose|index: u64| new.contains(index);
        assert(available.contains(index) && !staged.contains(index));
        assert(new.finite());
        lemma_order_of_finite(new);
        if in_order(new).len() == 0 {
            assert(in_order(new).to_set() =~= Set::empty());
        }
        assert("The file's tracks changed: "@ + ("track(s) "@ + bracketed(in_order(new)))
            + " in the file but not in the staged edit, "@ + "none"@
            + " in the staged edit but no longer in the file. Reopen it and try again."@
            =~= "The file's tracks changed: track(s) "@ + bracketed(in_order(new))
            + " in the file but not in the staged edit, none in the staged edit but no longer in the file. Reopen it and try again."@);
    }
    if gone != Set::<u64>::empty() && gone.finite() {
        if forall|index: u64| !gone.contains(index) {
            assert(gone =~= Set::empty());
        }
        let index = choose|index: u64| gone.contains(index);
        assert(staged.contains(index) && !available.contains(index));
        lemma_order_of_finite(gone);
        if in_order(gone).len() == 0 {
            assert(in_order(gone).to_set() =~= Set::empty());
        }
        assert("The file's tracks changed: "@ + "none"@
            + " in the file but not in the staged edit, "@ + ("track(s) "@ + bracketed(
            in_order(gone),
        )) + " in the staged edit but no longer in the file. Reopen it and try again."@
            =~= "The file's tracks changed: none in the file but not in the staged edit, track(s) "@
            + bracketed(in_order(gone))
            + " in the staged edit but no longer in the file. Reopen it and try again."@);
    }
}

/// How many channels a soundtrack has after an edit: those that are asked for, or its own.
pub open spec fn channels_after(stream: Stream, settings: AudioSettings) -> u8 {
    match settings.channel_layout {
        AudioChannelLayout::Original => channels_of(stream)->0,
        layout => layout.channel_count()->0,
    }
}

/// A soundtrack can be edited as asked where it needs no encode, or where its channels are
/// known and not to become more, and the codec is one that takes that many of them at a
/// sample rate that it can be brought to.
pub proof fn possible_encodes_of_sound_are_accepted(
    stream: Stream,
    index: u64,
    settings: AudioSettings,
)
    ensures
        audio_track_problem(stream, index, settings) is None <==> kind_of(stream) == Some("audio"@)
            && (encodes_audio(stream, settings) ==> {
            &&& channels_of(stream) is Some
            &&& channels_after(stream, settings) <= channels_of(stream)->0
            &&& audio_codec_after(stream, settings) is Some
            &&& channels_after(stream, settings) <= audio_codec_after(
                stream,
                settings,
            )->0.channel_limit()
            &&& sample_rate_of(stream) is Some
            &&& resolved_rate(audio_codec_after(stream, settings)->0, sample_rate_of(stream)->0)
                is Some
        }),
{
}

/// What is said where a soundtrack cannot be edited as asked.
pub proof fn refused_encodes_of_sound_say_why(stream: Stream, index: u64, settings: AudioSettings)
    ensures
        kind_of(stream) != Some("audio"@) ==> audio_track_problem(stream, index, settings) == Some(
            "Audio settings can only be applied to audio tracks."@,
        ),
        kind_of(stream) == Some("audio"@) && encodes_audio(stream, settings) ==> {
            let problem = audio_track_problem(stream, index, settings);
            let codec = audio_codec_after(stream, settings);
            let channels = channels_after(stream, settings);
            &&& channels_of(stream) is None ==> problem == Some(
                "The channel layout for audio track #"@ + decimal(index as nat)
                    + " is unavailable."@,
            )
            &&& channels_of(stream) is Some && channels > channels_of(stream)->0 ==> problem
                == Some("Channel upmixing is not implemented."@)
            &&& channels_of(stream) is Some && channels <= channels_of(stream)->0 && codec is None
                && encodable_codec(stream) is None ==> problem == Some(
                "Can't encode the original "@ + "UNKNOWN"@
                    + " codec; choose a supported audio codec."@,
            )
            &&& channels_of(stream) is Some && channels <= channels_of(stream)->0 && codec is Some
                && channels > codec->0.channel_limit() ==> problem == Some(
                codec->0.label_text() + " does not support "@ + decimal(channels as nat)
                    + "-channel audio; choose another layout or codec."@,
            )
            &&& channels_of(stream) is Some && channels <= channels_of(stream)->0 && codec is Some
                && channels <= codec->0.channel_limit() && sample_rate_of(stream) is None
                ==> problem == Some(
                "The sample rate for audio track #"@ + decimal(index as nat) + " is unavailable."@,
            )
            &&& channels_of(stream) is Some && channels <= channels_of(stream)->0 && codec is Some
                && channels <= codec->0.channel_limit() && sample_rate_of(stream) is Some
                && resolved_rate(codec->0, sample_rate_of(stream)->0) is None ==> problem == Some(
                codec->0.label_text()
                    + " cannot use the source sample rate; choose another codec."@,
            )
        },
{
    reveal_strlit("unknown");
    reveal_strlit("UNKNOWN");
    assert(ascii_upper("unknown"@) =~= "UNKNOWN"@);
}

/// A picture can be brought to a size where the size is not above its own; a custom size is
/// even, not below sixteen, and needs the picture's own to be known.
pub proof fn possible_sizes_are_accepted(stream: Stream, resolution: VideoResolution)
    ensures
        resolution_problem(stream, resolution) is None <==> match resolution {
            VideoResolution::Original => true,
            VideoResolution::Custom(custom) => {
                &&& custom.width % 2 == 0
                &&& custom.height % 2 == 0
                &&& custom.width >= 16
                &&& custom.height >= 16
                &&& size_of(stream) is Some
                &&& custom.width <= (size_of(stream)->0).0
                &&& custom.height <= (size_of(stream)->0).1
            },
            preset => size_of(stream) is Some ==> {
                &&& (preset.size()->0).0 <= (size_of(stream)->0).0
                &&& (preset.size()->0).1 <= (size_of(stream)->0).1
            },
        },
{
}

/// What is said where a picture cannot be brought to a size.
pub proof fn refused_sizes_say_why(stream: Stream, custom: CustomResolution, preset: VideoResolution)
    ensures
        ({
            let problem = resolution_problem(stream, VideoResolution::Custom(custom));
            let even = custom.width > 0 && custom.height > 0 && custom.width % 2 == 0
                && custom.height % 2 == 0;
            let large = custom.width >= 16 && custom.height >= 16;
            &&& !even ==> problem == Some("Custom width and height must be positive even numbers."@)
            &&& even && !large ==> problem == Some(
                "Custom width and height must be at least "@ + decimal(16) + " pixels."@,
            )
            &&& even && large && size_of(stream) is None ==> problem == Some(
                "The source resolution is unavailable; custom scaling cannot be applied."@,
            )
            &&& even && large && size_of(stream) is Some && (custom.width > (size_of(stream)->0).0
                || custom.height > (size_of(stream)->0).1) ==> problem == Some(
                "Upscaling isn't possible yet."@,
            )
        }),
        !(preset is Custom) && resolution_problem(stream, preset) is Some ==> resolution_problem(
            stream,
            preset,
        ) == Some("The selected resolution must be lower than the original."@),
{
}

/// A picture can be edited as asked where it is played, can be brought to the size, and has
/// a codec that can be written if it is to be resized in its own.
pub proof fn possible_encodes_of_pictures_are_accepted(stream: Stream, settings: VideoSettings)
    ensures
        video_track_problem(stream, settings) is None <==> is_playable(stream)
            && resolution_problem(stream, settings.resolution) is None && (settings.resolution
            == VideoResolution::Original || settings.codec != VideoCodec::Original
            || encodable_codec(stream) is Some),
        !is_playable(stream) ==> video_track_problem(stream, settings) == Some(
            "Encoding settings can only be applied to playable video tracks."@,
        ),
        is_playable(stream) && resolution_problem(stream, settings.resolution) is Some
            ==> video_track_problem(stream, settings) == resolution_problem(
            stream,
            settings.resolution,
        ),
        video_track_problem(stream, settings) is Some && is_playable(stream) && resolution_problem(
            stream,
            settings.resolution,
        ) is None && codec_of(stream) is Some ==> video_track_problem(stream, settings) == Some(
            "Can't resize the original "@ + uppercase_text(codec_of(stream)->0)
                + " codec; choose H.264, HEVC, or AV1."@,
        ),
{
}

/// Settings are accepted where they are for kept tracks and each of those can be edited so.
pub proof fn settings_are_accepted_track_by_track(
    streams: Seq<Stream>,
    order: Seq<u64>,
    audio: Map<u64, AudioSettings>,
    video: Map<u64, VideoSettings>,
)
    requires
        audio.dom().finite(),
        video.dom().finite(),
    ensures
        audio_problem(streams, order, audio) is None <==> forall|index: u64| #[trigger]
            audio.contains_key(index) ==> order.contains(index) && (stream_at(streams, index) is Some
                ==> audio_track_problem(stream_at(streams, index)->0, index, audio[index]) is None),
        video_problem(streams, order, video) is None <==> forall|index: u64| #[trigger]
            video.contains_key(index) ==> order.contains(index) && stream_at(streams, index) is Some
                && video_track_problem(stream_at(streams, index)->0, video[index]) is None,
        !audio.dom().subset_of(order.to_set()) ==> audio_problem(streams, order, audio) == Some(
            "Audio settings refer to a missing or deleted track."@,
        ),
        !video.dom().subset_of(order.to_set()) ==> video_problem(streams, order, video) == Some(
            "Video settings refer to a missing or deleted track."@,
        ),
{
    lemma_order_of_finite(audio.dom());
    lemma_order_of_finite(video.dom());
    lemma_sound_settings(streams, in_order(audio.dom()), audio);
    lemma_picture_settings(streams, in_order(video.dom()), video);
    let sound = in_order(audio.dom());
    let pictures = in_order(video.dom());
    assert forall|index: u64| audio.contains_key(index) == #[trigger] sound.contains(index) by {
        assert(sound.to_set().contains(index) == sound.contains(index));
    }
    assert forall|index: u64| video.contains_key(index) == #[trigger] pictures.contains(index) by {
        assert(pictures.to_set().contains(index) == pictures.contains(index));
    }
    assert forall|index: u64| order.to_set().contains(index) == #[trigger] order.contains(index) by {}
    assert forall|i: int| 0 <= i < sound.len() implies audio.contains_key(#[trigger] sound[i]) by {
        assert(sound.contains(sound[i]));
    }
    assert forall|i: int| 0 <= i < pictures.len() implies video.contains_key(
        #[trigger] pictures[i],
    ) by {
        assert(pictures.contains(pictures[i]));
    }
    if audio_problem(streams, order, audio) is None {
        assert forall|index: u64| #[trigger] audio.contains_key(index) implies order.contains(index)
            && (stream_at(streams, index) is Some ==> audio_track_problem(
            stream_at(streams, index)->0,
            index,
            audio[index],
        ) is None) by {
            assert(sound.contains(index));
            assert(sound[sound.index_of(index)] == index);
            assert(order.to_set().contains(index));
        }
    }
    if video_problem(streams, order, video) is None {
        assert forall|index: u64| #[trigger] video.contains_key(index) implies order.contains(index)
            && stream_at(streams, index) is Some && video_track_problem(
            stream_at(streams, index)->0,
            video[index],
        ) is None by {
            assert(pictures.contains(index));
            assert(pictures[pictures.index_of(index)] == index);
            assert(order.to_set().contains(index));
        }
    }
}

proof fn lemma_sound_settings(
    streams: Seq<Stream>,
    tracks: Seq<u64>,
    settings: Map<u64, AudioSettings>,
)
    ensures
        audio_tracks_problem(streams, tracks, settings) is None <==> forall|i: int|
            0 <= i < tracks.len() ==> (stream_at(streams, #[trigger] tracks[i]) is Some
                ==> audio_track_problem(
                stream_at(streams, tracks[i])->0,
                tracks[i],
                settings[tracks[i]],
            ) is None),
    decreases tracks.len(),
{
    if tracks.len() > 0 {
        let rest = tracks.skip(1);
        lemma_sound_settings(streams, rest, settings);
        assert forall|i: int| 0 <= i < rest.len() implies #[trigger] rest[i] == tracks[i + 1] by {}
        assert forall|i: int| 0 < i < tracks.len() implies #[trigger] tracks[i] == rest[i - 1] by {}
    }
}

proof fn lemma_picture_settings(
    streams: Seq<Stream>,
    tracks: Seq<u64>,
    settings: Map<u64, VideoSettings>,
)
    ensures
        video_tracks_problem(streams, tracks, settings) is None <==> forall|i: int|
            0 <= i < tracks.len() ==> stream_at(streams, #[trigger] tracks[i]) is Some
                && video_track_problem(
                stream_at(streams, tracks[i])->0,
                settings[tracks[i]],
            ) is None,
    decreases tracks.len(),
{
    if tracks.len() > 0 {
        let rest = tracks.skip(1);
        lemma_picture_settings(streams, rest, settings);
        assert forall|i: int| 0 <= i < rest.len() implies #[trigger] rest[i] == tracks[i + 1] by {}
        assert forall|i: int| 0 < i < tracks.len() implies #[trigger] tracks[i] == rest[i - 1] by {}
    }
}

/// An edit is accepted where its order, its settings for sound and for pictures, and its
/// deletions are; of several objections the first in this order is told.
pub proof fn edits_are_checked_in_turn(
    streams: Seq<Stream>,
    order: Seq<u64>,
    deleted: Set<u64>,
    defaults: Set<u64>,
    audio: Map<u64, AudioSettings>,
    video: Map<u64, VideoSettings>,
)
    ensures
        ({
            let problem = edit_problem(streams, order, deleted, defaults, audio, video);
            let on_order = order_problem(streams, order, deleted, defaults);
            let on_sound = audio_problem(streams, order, audio);
            let on_pictures = video_problem(streams, order, video);
            let on_deletion = deletion_problem(streams, deleted);
            &&& on_order is Some ==> problem == on_order
            &&& on_order is None && on_sound is Some ==> problem == on_sound
            &&& on_order is None && on_sound is None && on_pictures is Some ==> problem
                == on_pictures
            &&& on_order is None && on_sound is None && on_pictures is None && deleted != Set::<
                u64,
            >::empty() ==> problem == on_deletion
            &&& on_order is None && on_sound is None && on_pictures is None && deleted == Set::<
                u64,
            >::empty() ==> problem is None
        }),
{
}

} // verus!
