//! Which tracks an edit encodes, and what an encode is asked for.

use std::collections::BTreeMap;

use vstd::prelude::*;
use vstd::string::StringExecFns;

use crate::audio::{AudioChannelLayout, AudioCodec, AudioMetadata, AudioSettings, AudioTags};
use crate::container::{kept_audio_in, kept_video_in, ContainerFormat};
use crate::probe::{
    audio_metadata, audio_tags, codec_of, find_stream, index_of, is_kind, kind_of, number_of, size_of,
    stream_at, stream_codec, stream_dimension, stream_index, stream_is, stream_size, video_metadata,
    video_tags, MediaInfo, Stream,
};
use crate::text::{decimal, number_text, opt_str, same_optional_text, same_text};
use crate::video::{VideoCodec, VideoMetadata, VideoResolution, VideoSettings, VideoTags};

verus! {

broadcast use vstd::std_specs::btree::group_btree_axioms;

/// Whether settings name a codec that a stream is not in.
pub open spec fn names_another(name: Option<Seq<char>>, stream: Stream) -> bool {
    name is Some && codec_of(stream) != name
}

/// Whether settings ask for an encode of a video stream: for another codec than its own
/// or for another size.
pub open spec fn encodes_video(stream: Stream, settings: VideoSettings) -> bool {
    settings.resolution != VideoResolution::Original || names_another(
        settings.codec.name_text(),
        stream,
    )
}

pub fn requires_transcode(stream: &Stream, settings: &VideoSettings) -> (result: bool)
    ensures
        result == encodes_video(*stream, *settings),
{
    if settings.resolution != VideoResolution::Original {
        return true;
    }
    let target = settings.codec.codec_name();
    target.is_some() && !same_optional_text(stream_codec(stream), target)
}

/// Whether settings ask for an encode of an audio stream: for another codec than its own
/// or for another channel layout.
pub open spec fn encodes_audio(stream: Stream, settings: AudioSettings) -> bool {
    names_another(settings.codec.name_text(), stream) || settings.channel_layout
        != AudioChannelLayout::Original
}

pub fn audio_requires_transcode(stream: &Stream, settings: &AudioSettings) -> (result: bool)
    ensures
        result == encodes_audio(*stream, *settings),
{
    let target = settings.codec.codec_name();
    (target.is_some() && !same_optional_text(stream_codec(stream), target))
        || settings.channel_layout != AudioChannelLayout::Original
}

/// Whether audio settings ask for an encode of some stream.
pub fn audio_settings_require_encode(settings: &AudioSettings) -> (result: bool)
    ensures
        result == (settings.codec != AudioCodec::Original || settings.channel_layout
            != AudioChannelLayout::Original),
{
    settings.codec != AudioCodec::Original || settings.channel_layout
        != AudioChannelLayout::Original
}

/// The codec an audio stream ends up in, where it is one that can be encoded to.
pub open spec fn audio_codec_after(stream: Stream, settings: AudioSettings) -> Option<AudioCodec> {
    match settings.codec {
        AudioCodec::Original => match codec_of(stream) {
            Some(codec) => AudioCodec::of_name(codec),
            None => None,
        },
        codec => Some(codec),
    }
}

pub fn effective_audio_codec(stream: &Stream, settings: &AudioSettings) -> (result: Option<
    AudioCodec,
>)
    ensures
        result == audio_codec_after(*stream, *settings),
{
    match settings.codec {
        AudioCodec::Original => match stream_codec(stream) {
            Some(codec) => AudioCodec::from_codec_name(codec),
            None => None,
        },
        codec => Some(codec),
    }
}

/// Whether the settings of the track `index` ask for an encode of it.
pub open spec fn encodes_track(
    info: MediaInfo,
    index: u64,
    audio_settings: Map<u64, AudioSettings>,
    video_settings: Map<u64, VideoSettings>,
) -> bool {
    match stream_at(info.streams@, index) {
        Some(stream) => {
            ||| is_kind(stream, "video"@) && video_settings.contains_key(index) && encodes_video(
                stream,
                video_settings[index],
            )
            ||| is_kind(stream, "audio"@) && audio_settings.contains_key(index) && encodes_audio(
                stream,
                audio_settings[index],
            )
        },
        None => false,
    }
}

/// Whether an edit encodes any of the tracks it keeps, and does not copy all of them.
pub fn plan_requires_transcode(
    info: &MediaInfo,
    stream_order: &[u64],
    audio_settings: &BTreeMap<u64, AudioSettings>,
    video_settings: &BTreeMap<u64, VideoSettings>,
) -> (result: bool)
    ensures
        result == exists|i: int|
            0 <= i < stream_order@.len() && encodes_track(
                *info,
                #[trigger] stream_order@[i],
                audio_settings@,
                video_settings@,
            ),
{
    let mut i: usize = 0;
    while i < stream_order.len()
        invariant
            0 <= i <= stream_order.len(),
            forall|k: int|
                0 <= k < i ==> !encodes_track(
                    *info,
                    #[trigger] stream_order@[k],
                    audio_settings@,
                    video_settings@,
                ),
        decreases stream_order.len() - i,
    {
        let index: u64 = stream_order[i];
        if let Some(stream) = find_stream(info, index) {
            if stream_is(stream, "video") {
                if let Some(settings) = video_settings.get(&index) {
                    if requires_transcode(stream, settings) {
                        return true;
                    }
                }
            }
            if stream_is(stream, "audio") {
                if let Some(settings) = audio_settings.get(&index) {
                    if audio_requires_transcode(stream, settings) {
                        return true;
                    }
                }
            }
        }
        i = i + 1;
    }
    false
}

/// Whether an encode of one of the kept tracks is asked for by its audio settings.
pub fn any_audio_encode(
    info: &MediaInfo,
    stream_order: &[u64],
    audio_settings: &BTreeMap<u64, AudioSettings>,
) -> (result: bool)
    ensures
        result == some_audio_encode(*info, stream_order@, audio_settings@),
{
    let mut i: usize = 0;
    while i < stream_order.len()
        invariant
            0 <= i <= stream_order.len(),
            forall|k: int|
                0 <= k < i ==> !audio_encoded(*info, #[trigger] stream_order@[k], audio_settings@),
        decreases stream_order.len() - i,
    {
        let index: u64 = stream_order[i];
        if let Some(stream) = find_stream(info, index) {
            if let Some(settings) = audio_settings.get(&index) {
                if audio_requires_transcode(stream, settings) {
                    return true;
                }
            }
        }
        i = i + 1;
    }
    false
}

pub open spec fn audio_encoded(
    info: MediaInfo,
    index: u64,
    audio_settings: Map<u64, AudioSettings>,
) -> bool {
    stream_at(info.streams@, index) is Some && audio_settings.contains_key(index) && encodes_audio(
        stream_at(info.streams@, index)->0,
        audio_settings[index],
    )
}

pub open spec fn some_audio_encode(
    info: MediaInfo,
    stream_order: Seq<u64>,
    audio_settings: Map<u64, AudioSettings>,
) -> bool {
    exists|i: int|
        0 <= i < stream_order.len() && audio_encoded(
            info,
            #[trigger] stream_order[i],
            audio_settings,
        )
}

/// Whether an encode of one of the kept tracks is asked for by its video settings.
pub fn any_video_encode(
    info: &MediaInfo,
    stream_order: &[u64],
    video_settings: &BTreeMap<u64, VideoSettings>,
) -> (result: bool)
    ensures
        result == some_video_encode(*info, stream_order@, video_settings@),
{
    let mut i: usize = 0;
    while i < stream_order.len()
        invariant
            0 <= i <= stream_order.len(),
            forall|k: int|
                0 <= k < i ==> !video_encoded(*info, #[trigger] stream_order@[k], video_settings@),
        decreases stream_order.len() - i,
    {
        let index: u64 = stream_order[i];
        if let Some(stream) = find_stream(info, index) {
            if let Some(settings) = video_settings.get(&index) {
                if requires_transcode(stream, settings) {
                    return true;
                }
            }
        }
        i = i + 1;
    }
    false
}

pub open spec fn video_encoded(
    info: MediaInfo,
    index: u64,
    video_settings: Map<u64, VideoSettings>,
) -> bool {
    stream_at(info.streams@, index) is Some && video_settings.contains_key(index) && encodes_video(
        stream_at(info.streams@, index)->0,
        video_settings[index],
    )
}

pub open spec fn some_video_encode(
    info: MediaInfo,
    stream_order: Seq<u64>,
    video_settings: Map<u64, VideoSettings>,
) -> bool {
    exists|i: int|
        0 <= i < stream_order.len() && video_encoded(
            info,
            #[trigger] stream_order[i],
            video_settings,
        )
}

// Metadata of an output track.

/// The metadata an audio track is written with: what was staged for it or what it has,
/// as far as the container stores it.
pub open spec fn audio_tags_after(
    stream: Stream,
    settings: Option<AudioSettings>,
    container: Option<ContainerFormat>,
) -> AudioTags {
    kept_audio_in(
        container,
        match settings {
            Some(settings) => settings.metadata@,
            None => audio_tags(stream),
        },
    )
}

/// The value behind an optional reference.
pub open spec fn opt_deref<T>(reference: Option<&T>) -> Option<T> {
    match reference {
        Some(value) => Some(*value),
        None => None,
    }
}

pub fn audio_metadata_for_output(
    stream: &Stream,
    settings: Option<&AudioSettings>,
    container: Option<ContainerFormat>,
) -> (result: AudioMetadata)
    ensures
        result@ == audio_tags_after(*stream, opt_deref(settings), container),
{
    let mut metadata = match settings {
        Some(settings) => settings.metadata.clone(),
        None => audio_metadata(stream),
    };
    if let Some(container) = container {
        container.retain_supported_audio_metadata(&mut metadata);
    }
    metadata
}

/// The metadata a video track is written with: what was staged for it or what it has,
/// as far as the container stores it.
pub open spec fn video_tags_after(
    stream: Stream,
    settings: Option<VideoSettings>,
    container: Option<ContainerFormat>,
) -> VideoTags {
    kept_video_in(
        container,
        match settings {
            Some(settings) => settings.metadata@,
            None => video_tags(stream),
        },
    )
}

pub fn video_metadata_for_output(
    stream: &Stream,
    settings: Option<&VideoSettings>,
    container: Option<ContainerFormat>,
) -> (result: VideoMetadata)
    ensures
        result@ == video_tags_after(*stream, opt_deref(settings), container),
{
    let mut metadata = match settings {
        Some(settings) => settings.metadata.clone(),
        None => video_metadata(stream),
    };
    if let Some(container) = container {
        container.retain_supported_video_metadata(&mut metadata);
    }
    metadata
}

/// Whether the metadata of a track is written anew: that of an audio track where it was
/// staged or where the container changes.
pub fn should_write_audio_metadata(
    stream_kind: Option<&str>,
    has_settings: bool,
    changing_container: bool,
) -> (result: bool)
    ensures
        result == (opt_str(stream_kind) == Some("audio"@) && (has_settings
            || changing_container)),
{
    match stream_kind {
        Some(kind) => same_text(kind, "audio") && (has_settings || changing_container),
        None => false,
    }
}

/// Whether the metadata of a track is written anew: that of a video track where it was
/// staged or where the container changes.
pub fn should_write_video_metadata(
    stream_kind: Option<&str>,
    has_settings: bool,
    changing_container: bool,
) -> (result: bool)
    ensures
        result == (opt_str(stream_kind) == Some("video"@) && (has_settings
            || changing_container)),
{
    match stream_kind {
        Some(kind) => same_text(kind, "video") && (has_settings || changing_container),
        None => false,
    }
}

// Rotation and size.

/// How many of the streams are video.
pub open spec fn video_count(streams: Seq<Stream>) -> nat
    decreases streams.len(),
{
    if streams.len() == 0 {
        0
    } else if is_kind(streams.last(), "video"@) {
        video_count(streams.drop_last()) + 1
    } else {
        video_count(streams.drop_last())
    }
}

/// The rotation of each video track that has settings, with the track's number among the
/// video tracks of the file.
pub open spec fn rotation_args(streams: Seq<Stream>, settings: Map<u64, VideoSettings>) -> Seq<
    (Seq<char>, Seq<char>),
>
    decreases streams.len(),
{
    if streams.len() == 0 {
        Seq::empty()
    } else {
        let before = rotation_args(streams.drop_last(), settings);
        let stream = streams.last();
        if is_kind(stream, "video"@) && index_of(stream) is Some && settings.contains_key(
            index_of(stream)->0,
        ) {
            before.push(
                (
                    "v:"@ + decimal(video_count(streams.drop_last())),
                    decimal(settings[index_of(stream)->0].rotation.angle() as nat),
                ),
            )
        } else {
            before
        }
    }
}

/// The texts of a list of pairs.
pub open spec fn pair_texts(pairs: Seq<(String, String)>) -> Seq<(Seq<char>, Seq<char>)> {
    pairs.map_values(|pair: (String, String)| (pair.0@, pair.1@))
}

pub fn display_rotation_args(
    info: &MediaInfo,
    video_settings: &BTreeMap<u64, VideoSettings>,
) -> (result: Vec<(String, String)>)
    ensures
        pair_texts(result@) == rotation_args(info.streams@, video_settings@),
{
    let mut args: Vec<(String, String)> = Vec::new();
    let mut video_index: u64 = 0;
    let mut i: usize = 0;
    assert(pair_texts(args@) =~= rotation_args(info.streams@.take(0), video_settings@));
    while i < info.streams.len()
        invariant
            0 <= i <= info.streams.len(),
            video_index == video_count(info.streams@.take(i as int)),
            video_index <= i,
            pair_texts(args@) == rotation_args(info.streams@.take(i as int), video_settings@),
        decreases info.streams.len() - i,
    {
        let stream = &info.streams[i];
        proof {
            assert(info.streams@.take(i + 1).drop_last() =~= info.streams@.take(i as int));
            assert(info.streams@.take(i + 1).last() == *stream);
        }
        if stream_is(stream, "video") {
            if let Some(index) = stream_index(stream) {
                if let Some(settings) = video_settings.get(&index) {
                    let mut specifier = "v:".to_owned();
                    specifier.append(number_text(video_index).as_str());
                    let angle = number_text(settings.rotation.degrees() as u64);
                    let ghost before = args@;
                    let ghost pair = (specifier@, angle@);
                    args.push((specifier, angle));
                    assert(pair_texts(args@) =~= pair_texts(before).push(pair));
                }
            }
            video_index = video_index + 1;
        }
        i = i + 1;
    }
    assert(info.streams@.take(info.streams@.len() as int) =~= info.streams@);
    args
}

/// Whether an encoded stream has the size that was asked for. A size that was asked for
/// has to be met exactly; without one only a quarter turn changes the size, which then is
/// the source's with width and height swapped.
pub open spec fn size_as_asked(
    stream: Stream,
    source: Option<Stream>,
    settings: VideoSettings,
) -> bool {
    let width = number_of(stream, "width"@);
    let height = number_of(stream, "height"@);
    match settings.resolution.size() {
        Some((target_width, target_height)) => width == Some(target_width) && height == Some(
            target_height,
        ),
        None => settings.rotation.swaps() && source is Some && size_of(source->0) is Some ==> {
            &&& width == Some((size_of(source->0)->0).1)
            &&& height == Some((size_of(source->0)->0).0)
        },
    }
}

fn is_number(number: Option<u64>, expected: u64) -> (result: bool)
    ensures
        result == (number == Some(expected)),
{
    match number {
        Some(number) => number == expected,
        None => false,
    }
}

pub fn output_resolution_matches(
    stream: &Stream,
    source: Option<&Stream>,
    settings: &VideoSettings,
) -> (result: bool)
    ensures
        result == size_as_asked(*stream, opt_deref(source), *settings),
{
    let width = stream_dimension(stream, "width");
    let height = stream_dimension(stream, "height");
    match settings.resolution.dimensions() {
        Some((target_width, target_height)) => is_number(width, target_width) && is_number(
            height,
            target_height,
        ),
        None => {
            if !settings.rotation.swaps_dimensions() {
                return true;
            }
            match source {
                Some(source) => match stream_size(source) {
                    Some((source_width, source_height)) => is_number(width, source_height)
                        && is_number(height, source_width),
                    None => true,
                },
                None => true,
            }
        },
    }
}

// Laws.

/// Settings that name a stream's own codec and keep its size or layout leave it to be
/// copied, whatever else they hold.
pub proof fn own_codec_is_copied(stream: Stream, video: VideoSettings, audio: AudioSettings)
    ensures
        video.resolution == VideoResolution::Original && (video.codec == VideoCodec::Original
            || video.codec.name_text() == codec_of(stream)) ==> !encodes_video(stream, video),
        audio.channel_layout == AudioChannelLayout::Original && (audio.codec == AudioCodec::Original
            || audio.codec.name_text() == codec_of(stream)) ==> !encodes_audio(stream, audio),
{
}

/// Settings that ask for no encode of any stream encode none.
pub proof fn encodes_are_asked_for(stream: Stream, audio: AudioSettings)
    ensures
        encodes_audio(stream, audio) ==> audio.codec != AudioCodec::Original || audio.channel_layout
            != AudioChannelLayout::Original,
{
}

/// A picture is encoded where another size or another codec than its own is asked for, and
/// a soundtrack where another codec or another number of channels is; turning a picture or
/// naming a track takes no encode.
pub proof fn encodes_are_what_is_asked(stream: Stream, video: VideoSettings, audio: AudioSettings)
    ensures
        encodes_video(stream, video) <==> video.resolution != VideoResolution::Original
            || video.codec == VideoCodec::H264 && codec_of(stream) != Some("h264"@) || video.codec
            == VideoCodec::Hevc && codec_of(stream) != Some("hevc"@) || video.codec
            == VideoCodec::Av1 && codec_of(stream) != Some("av1"@),
        encodes_audio(stream, audio) <==> audio.channel_layout != AudioChannelLayout::Original || (
        audio.codec != AudioCodec::Original && codec_of(stream) != audio.codec.name_text()),
{
}

/// The codec of a soundtrack after an edit is the one that is asked for, or else its own.
pub proof fn soundtracks_keep_their_codec(stream: Stream, settings: AudioSettings)
    ensures
        settings.codec != AudioCodec::Original ==> audio_codec_after(stream, settings) == Some(
            settings.codec,
        ),
        settings.codec == AudioCodec::Original && codec_of(stream) is Some ==> audio_codec_after(
            stream,
            settings,
        ) == AudioCodec::of_name(codec_of(stream)->0),
        settings.codec == AudioCodec::Original && codec_of(stream) is None ==> audio_codec_after(
            stream,
            settings,
        ) is None,
{
}

/// A track has the names and roles that are asked for, or else its own, as far as the
/// container keeps them.
pub proof fn tracks_have_the_asked_names(
    stream: Stream,
    audio: AudioSettings,
    video: VideoSettings,
    container: Option<ContainerFormat>,
)
    ensures
        audio_tags_after(stream, Some(audio), container) == kept_audio_in(
            container,
            audio.metadata@,
        ),
        audio_tags_after(stream, None, container) == kept_audio_in(container, audio_tags(stream)),
        video_tags_after(stream, Some(video), container) == kept_video_in(
            container,
            video.metadata@,
        ),
        video_tags_after(stream, None, container) == kept_video_in(container, video_tags(stream)),
{
}

/// That a picture is turned as its settings say, under its number among the pictures.
pub open spec fn turned(streams: Seq<Stream>, settings: Map<u64, VideoSettings>, i: int) -> bool {
    &&& 0 <= i < streams.len()
    &&& is_kind(streams[i], "video"@)
    &&& index_of(streams[i]) is Some
    &&& settings.contains_key(index_of(streams[i])->0)
}

/// What turns the picture at `i`.
pub open spec fn turn(streams: Seq<Stream>, settings: Map<u64, VideoSettings>, i: int) -> (
    Seq<char>,
    Seq<char>,
) {
    (
        "v:"@ + decimal(pictures_among(streams.take(i)).len()),
        decimal(settings[index_of(streams[i])->0].rotation.angle() as nat),
    )
}

/// The pictures among some streams.
pub open spec fn pictures_among(streams: Seq<Stream>) -> Seq<Stream> {
    streams.filter(|stream: Stream| is_kind(stream, "video"@))
}

proof fn lemma_pictures(streams: Seq<Stream>)
    ensures
        video_count(streams) == pictures_among(streams).len(),
    decreases streams.len(),
{
    reveal(Seq::filter);
    if streams.len() > 0 {
        lemma_pictures(streams.drop_last());
    }
}

/// Every picture with settings is turned by their angle, under the number of pictures
/// before it, and nothing else is turned.
pub proof fn pictures_are_turned_by_number(
    streams: Seq<Stream>,
    settings: Map<u64, VideoSettings>,
    pair: (Seq<char>, Seq<char>),
)
    ensures
        rotation_args(streams, settings).contains(pair) <==> exists|i: int|
            #[trigger] turned(streams, settings, i) && turn(streams, settings, i) == pair,
    decreases streams.len(),
{
    let all = rotation_args(streams, settings);
    if streams.len() > 0 {
        let last = streams.len() - 1;
        let fewer = streams.drop_last();
        let before = rotation_args(fewer, settings);
        pictures_are_turned_by_number(fewer, settings, pair);
        lemma_pictures(fewer);
        assert(fewer =~= streams.take(last));
        assert forall|i: int| 0 <= i < last implies #[trigger] turned(streams, settings, i)
            == turned(fewer, settings, i) && turn(streams, settings, i) == turn(
            fewer,
            settings,
            i,
        ) by {
            assert(fewer.take(i) =~= streams.take(i));
        }
        assert forall|i: int| 0 <= i < last implies #[trigger] turned(fewer, settings, i) == turned(
            streams,
            settings,
            i,
        ) by {}
        if turned(streams, settings, last) {
            assert(all == before.push(turn(streams, settings, last)));
        }
        if all.contains(pair) {
            let at = all.index_of(pair);
            assert(all[at] == pair);
            if at < before.len() {
                assert(before[at] == pair);
                assert(before.contains(pair));
                let i = choose|i: int|
                    #[trigger] turned(fewer, settings, i) && turn(fewer, settings, i) == pair;
                assert(turned(streams, settings, i) && turn(streams, settings, i) == pair);
            } else {
                assert(turned(streams, settings, last) && turn(streams, settings, last) == pair);
            }
        }
        if exists|i: int|
            #[trigger] turned(streams, settings, i) && turn(streams, settings, i) == pair {
            let i = choose|i: int|
                #[trigger] turned(streams, settings, i) && turn(streams, settings, i) == pair;
            if i < last {
                assert(turned(fewer, settings, i) && turn(fewer, settings, i) == pair);
                assert(before.contains(pair));
                let at = before.index_of(pair);
                assert(all[at] == before[at]);
            } else {
                assert(all[before.len() as int] == pair);
            }
            assert(all.contains(pair));
        }
    }
}

/// An edit encodes where the settings of a kept track ask for it, those for sound of a
/// soundtrack and those for pictures of a picture.
pub proof fn encodes_are_found_by_track(
    info: MediaInfo,
    index: u64,
    stream: Stream,
    audio: Map<u64, AudioSettings>,
    video: Map<u64, VideoSettings>,
    order: Seq<u64>,
)
    ensures
        stream_at(info.streams@, index) is None ==> !encodes_track(info, index, audio, video),
        stream_at(info.streams@, index) == Some(stream) ==> {
            &&& kind_of(stream) == Some("audio"@) ==> encodes_track(info, index, audio, video) == (
            audio.contains_key(index) && encodes_audio(stream, audio[index]))
            &&& kind_of(stream) == Some("video"@) ==> encodes_track(info, index, audio, video) == (
            video.contains_key(index) && encodes_video(stream, video[index]))
            &&& kind_of(stream) != Some("audio"@) && kind_of(stream) != Some("video"@)
                ==> !encodes_track(info, index, audio, video)
        },
        some_audio_encode(info, order, audio) <==> exists|i: int|
            0 <= i < order.len() && audio.contains_key(#[trigger] order[i]) && stream_at(
                info.streams@,
                order[i],
            ) is Some && encodes_audio(stream_at(info.streams@, order[i])->0, audio[order[i]]),
        some_video_encode(info, order, video) <==> exists|i: int|
            0 <= i < order.len() && video.contains_key(#[trigger] order[i]) && stream_at(
                info.streams@,
                order[i],
            ) is Some && encodes_video(stream_at(info.streams@, order[i])->0, video[order[i]]),
{
    reveal_strlit("audio");
    reveal_strlit("video");
    assert("audio"@[0] == 'a');
    assert("video"@[0] == 'v');
}

} // verus!
