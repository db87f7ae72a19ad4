//! What a container cannot hold of an edit, and what a reader can do about it.

use std::collections::{BTreeMap, BTreeSet};

use vstd::prelude::*;
use vstd::string::StringExecFns;

use crate::audio::{AudioCodec, AudioSettings};
use crate::container::ContainerFormat;
use crate::probe::{
    codec_of, find_stream, flagged, is_attached_picture, is_chapter_track, is_chapters, kind_of,
    stream_at, stream_codec, stream_index, stream_is, stream_kind, stream_metadata, MediaInfo,
    Stream,
};
use crate::subtitle::{
    effective_subtitle_metadata, find_sidecar, leaves_media, sidecar_at, track_change,
    track_leaves_media, Languages, SidecarEntry, SourceModel, SubtitleChange, SubtitleFlag,
    SubtitleFormat, SubtitleMetadata, SubtitleSource, SubtitleTags,
};
use crate::text::{
    ascii_upper, decimal, join, joined, number_text, same_text, texts, to_ascii_uppercase,
};
use crate::video::{VideoCodec, VideoSettings};

verus! {

broadcast use vstd::std_specs::btree::group_btree_axioms;

// What a container offers instead.

/// The labels of the video codecs that a container stores.
pub open spec fn video_offers(target: ContainerFormat, codecs: Seq<VideoCodec>) -> Seq<Seq<char>>
    decreases codecs.len(),
{
    if codecs.len() == 0 {
        Seq::empty()
    } else {
        let before = video_offers(target, codecs.drop_last());
        let codec = codecs.last();
        if codec.name_text() is Some && target.stores("video"@, codec.name_text()->0, false) {
            before.push(codec.label_text())
        } else {
            before
        }
    }
}

fn video_labels(target: ContainerFormat) -> (result: Vec<String>)
    ensures
        texts(result@) == video_offers(target, VideoCodec::TARGETS@),
{
    let codecs: [VideoCodec; 3] = VideoCodec::TARGETS;
    let mut labels: Vec<String> = Vec::new();
    let mut i: usize = 0;
    assert(texts(labels@) =~= video_offers(target, codecs@.take(0)));
    while i < 3
        invariant
            0 <= i <= 3,
            codecs@ == VideoCodec::TARGETS@,
            texts(labels@) == video_offers(target, codecs@.take(i as int)),
        decreases 3 - i,
    {
        let codec: VideoCodec = codecs[i];
        let ghost before = labels@;
        proof {
            assert(codecs@.take(i + 1).drop_last() =~= codecs@.take(i as int));
            assert(codecs@.take(i + 1).last() == codec);
        }
        if let Some(name) = codec.codec_name() {
            if target.supports_codec("video", name, false) {
                labels.push(codec.label().to_owned());
                assert(texts(labels@) =~= texts(before).push(codec.label_text()));
            }
        }
        i = i + 1;
    }
    assert(codecs@.take(3) =~= codecs@);
    labels
}

/// The labels of the audio codecs that a container stores.
pub open spec fn audio_offers(target: ContainerFormat, codecs: Seq<AudioCodec>) -> Seq<Seq<char>>
    decreases codecs.len(),
{
    if codecs.len() == 0 {
        Seq::empty()
    } else {
        let before = audio_offers(target, codecs.drop_last());
        let codec = codecs.last();
        if codec.name_text() is Some && target.stores("audio"@, codec.name_text()->0, false) {
            before.push(codec.label_text())
        } else {
            before
        }
    }
}

fn audio_labels(target: ContainerFormat) -> (result: Vec<String>)
    ensures
        texts(result@) == audio_offers(target, AudioCodec::TARGETS@),
{
    let codecs: [AudioCodec; 8] = AudioCodec::TARGETS;
    let mut labels: Vec<String> = Vec::new();
    let mut i: usize = 0;
    assert(texts(labels@) =~= audio_offers(target, codecs@.take(0)));
    while i < 8
        invariant
            0 <= i <= 8,
            codecs@ == AudioCodec::TARGETS@,
            texts(labels@) == audio_offers(target, codecs@.take(i as int)),
        decreases 8 - i,
    {
        let codec: AudioCodec = codecs[i];
        let ghost before = labels@;
        proof {
            assert(codecs@.take(i + 1).drop_last() =~= codecs@.take(i as int));
            assert(codecs@.take(i + 1).last() == codec);
        }
        if let Some(name) = codec.codec_name() {
            if target.supports_codec("audio", name, false) {
                labels.push(codec.label().to_owned());
                assert(texts(labels@) =~= texts(before).push(codec.label_text()));
            }
        }
        i = i + 1;
    }
    assert(codecs@.take(8) =~= codecs@);
    labels
}

/// The labels of the subtitle formats that a container stores.
pub open spec fn subtitle_offers(target: ContainerFormat, formats: Seq<SubtitleFormat>) -> Seq<
    Seq<char>,
>
    decreases formats.len(),
{
    if formats.len() == 0 {
        Seq::empty()
    } else {
        let before = subtitle_offers(target, formats.drop_last());
        let format = formats.last();
        if target.stores("subtitle"@, format.codec_text(), false) {
            before.push(format.label_text())
        } else {
            before
        }
    }
}

fn subtitle_labels(target: ContainerFormat) -> (result: Vec<String>)
    ensures
        texts(result@) == subtitle_offers(target, SubtitleFormat::COMMON_TARGETS@),
{
    let formats: [SubtitleFormat; 5] = SubtitleFormat::COMMON_TARGETS;
    let mut labels: Vec<String> = Vec::new();
    let mut i: usize = 0;
    assert(texts(labels@) =~= subtitle_offers(target, formats@.take(0)));
    while i < 5
        invariant
            0 <= i <= 5,
            formats@ == SubtitleFormat::COMMON_TARGETS@,
            texts(labels@) == subtitle_offers(target, formats@.take(i as int)),
        decreases 5 - i,
    {
        let format: SubtitleFormat = formats[i];
        let ghost before = labels@;
        proof {
            assert(formats@.take(i + 1).drop_last() =~= formats@.take(i as int));
            assert(formats@.take(i + 1).last() == format);
        }
        if target.supports_codec("subtitle", format.ffmpeg_codec(), false) {
            labels.push(format.label().to_owned());
            assert(texts(labels@) =~= texts(before).push(format.label_text()));
        }
        i = i + 1;
    }
    assert(formats@.take(5) =~= formats@);
    labels
}

/// The labels of the other containers that store a kind and a codec.
pub open spec fn container_offers(
    target: ContainerFormat,
    kind: Seq<char>,
    codec: Seq<char>,
    containers: Seq<ContainerFormat>,
) -> Seq<Seq<char>>
    decreases containers.len(),
{
    if containers.len() == 0 {
        Seq::empty()
    } else {
        let before = container_offers(target, kind, codec, containers.drop_last());
        let other = containers.last();
        if other != target && other.stores(kind, codec, false) {
            before.push(other.label_text())
        } else {
            before
        }
    }
}

fn container_labels(target: ContainerFormat, kind: &str, codec: &str) -> (result: Vec<String>)
    ensures
        texts(result@) == container_offers(target, kind@, codec@, ContainerFormat::TARGETS@),
{
    let containers: [ContainerFormat; 4] = ContainerFormat::TARGETS;
    let mut labels: Vec<String> = Vec::new();
    let mut i: usize = 0;
    assert(texts(labels@) =~= container_offers(target, kind@, codec@, containers@.take(0)));
    while i < 4
        invariant
            0 <= i <= 4,
            containers@ == ContainerFormat::TARGETS@,
            texts(labels@) == container_offers(target, kind@, codec@, containers@.take(i as int)),
        decreases 4 - i,
    {
        let other: ContainerFormat = containers[i];
        let ghost before = labels@;
        proof {
            assert(containers@.take(i + 1).drop_last() =~= containers@.take(i as int));
            assert(containers@.take(i + 1).last() == other);
        }
        if other != target && other.supports_codec(kind, codec, false) {
            labels.push(other.label().to_owned());
            assert(texts(labels@) =~= texts(before).push(other.label_text()));
        }
        i = i + 1;
    }
    assert(containers@.take(4) =~= containers@);
    labels
}

/// A sentence that offers some choices, or another sentence where there are none.
pub open spec fn advice(
    before: Seq<char>,
    choices: Seq<Seq<char>>,
    after: Seq<char>,
    otherwise: Seq<char>,
) -> Seq<char> {
    if choices.len() == 0 {
        otherwise
    } else {
        before + joined(choices, " or "@) + after
    }
}

fn advise(before: &str, choices: &Vec<String>, after: &str, otherwise: &str) -> (result: String)
    ensures
        result@ == advice(before@, texts(choices@), after@, otherwise@),
{
    if choices.len() == 0 {
        otherwise.to_owned()
    } else {
        let mut text = before.to_owned();
        text.append(join(choices.as_slice(), " or ").as_str());
        text.append(after);
        text
    }
}

/// What a reader can do about a track that a container does not store.
pub open spec fn way_out(target: ContainerFormat, kind: Seq<char>, codec: Seq<char>) -> Seq<char> {
    if kind == "video"@ {
        advice(
            "Encode it as "@,
            video_offers(target, VideoCodec::TARGETS@),
            " or remove the track."@,
            "Choose another container or remove the track."@,
        )
    } else if kind == "subtitle"@ {
        advice(
            "Convert it to "@,
            subtitle_offers(target, SubtitleFormat::COMMON_TARGETS@),
            " or remove the track."@,
            "Choose another container or remove the track."@,
        )
    } else if kind == "audio"@ {
        "Encode it as "@ + joined(audio_offers(target, AudioCodec::TARGETS@), " or "@)
            + " or remove the track."@
    } else {
        advice(
            "Choose "@,
            container_offers(target, kind, codec, ContainerFormat::TARGETS@),
            " instead."@,
            "No available container can store it."@,
        )
    }
}

/// The message about a track that a container does not store.
pub open spec fn conflict_text(
    target: ContainerFormat,
    index: u64,
    kind: Seq<char>,
    codec: Seq<char>,
) -> Seq<char> {
    target.label_text() + " can't contain "@ + ascii_upper(codec) + " "@ + kind + " track #"@
        + decimal(index as nat) + ". "@ + way_out(target, kind, codec)
}

pub fn container_conflict_message(
    target: ContainerFormat,
    index: u64,
    kind: &str,
    codec: &str,
) -> (result: String)
    ensures
        result@ == conflict_text(target, index, kind@, codec@),
{
    let resolution = if same_text(kind, "video") {
        advise(
            "Encode it as ",
            &video_labels(target),
            " or remove the track.",
            "Choose another container or remove the track.",
        )
    } else if same_text(kind, "subtitle") {
        advise(
            "Convert it to ",
            &subtitle_labels(target),
            " or remove the track.",
            "Choose another container or remove the track.",
        )
    } else if same_text(kind, "audio") {
        let mut text = "Encode it as ".to_owned();
        text.append(join(audio_labels(target).as_slice(), " or ").as_str());
        text.append(" or remove the track.");
        text
    } else {
        advise(
            "Choose ",
            &container_labels(target, kind, codec),
            " instead.",
            "No available container can store it.",
        )
    };
    let mut message = target.label().to_owned();
    message.append(" can't contain ");
    message.append(to_ascii_uppercase(codec).as_str());
    message.append(" ");
    message.append(kind);
    message.append(" track #");
    message.append(number_text(index).as_str());
    message.append(". ");
    message.append(resolution.as_str());
    message
}

// Tracks of the file.

/// The format that the first conversion of the embedded track `index` asks for.
pub open spec fn embedded_target_of(changes: Seq<SubtitleChange>, index: u64) -> Option<
    SubtitleFormat,
>
    decreases changes.len(),
{
    if changes.len() == 0 {
        None
    } else if changes[0].source@ == SourceModel::Embedded(index) && changes[0].embedded_target
        is Some {
        changes[0].embedded_target
    } else {
        embedded_target_of(changes.skip(1), index)
    }
}

fn find_embedded_target(changes: &[SubtitleChange], index: u64) -> (result: Option<
    SubtitleFormat,
>)
    ensures
        result == embedded_target_of(changes@, index),
{
    let mut i: usize = 0;
    assert(changes@.skip(0) =~= changes@);
    while i < changes.len()
        invariant
            0 <= i <= changes.len(),
            embedded_target_of(changes@, index) == embedded_target_of(
                changes@.skip(i as int),
                index,
            ),
        decreases changes.len() - i,
    {
        if changes[i].source.is_track(index) && changes[i].embedded_target.is_some() {
            return changes[i].embedded_target;
        }
        assert(changes@.skip(i as int).skip(1) =~= changes@.skip(i + 1));
        i = i + 1;
    }
    None
}

/// A text, or another one where there is none.
pub open spec fn text_or(text: Option<Seq<char>>, otherwise: Seq<char>) -> Seq<char> {
    match text {
        Some(text) => text,
        None => otherwise,
    }
}

/// What a stream carries, `other` where the probe does not say.
pub open spec fn kind_or_other(stream: Stream) -> Seq<char> {
    text_or(kind_of(stream), "other"@)
}

/// The codec that a kept track is in after the edit.
pub open spec fn codec_after(
    stream: Stream,
    index: u64,
    audio_settings: Map<u64, AudioSettings>,
    video_settings: Map<u64, VideoSettings>,
    changes: Seq<SubtitleChange>,
) -> Seq<char> {
    let kind = kind_or_other(stream);
    let own = text_or(codec_of(stream), "unknown"@);
    let target = if kind == "video"@ && !flagged(stream, "attached_pic"@) {
        if video_settings.contains_key(index) {
            video_settings[index].codec.name_text()
        } else {
            None
        }
    } else if kind == "audio"@ {
        if audio_settings.contains_key(index) {
            audio_settings[index].codec.name_text()
        } else {
            None
        }
    } else if kind == "subtitle"@ {
        match embedded_target_of(changes, index) {
            Some(format) => Some(format.codec_text()),
            None => None,
        }
    } else {
        None
    };
    text_or(target, own)
}

/// What is in the way of a kept track in a container. A track that an export moves out,
/// that the file does not have, or that is the chapter list is not written, so nothing
/// is.
pub open spec fn track_conflict(
    info: MediaInfo,
    index: u64,
    audio_settings: Map<u64, AudioSettings>,
    video_settings: Map<u64, VideoSettings>,
    changes: Seq<SubtitleChange>,
    target: ContainerFormat,
) -> Option<Seq<char>> {
    if leaves_media(changes, index) {
        None
    } else {
        match stream_at(info.streams@, index) {
            Some(stream) if !is_chapters(info, stream) => {
                let kind = kind_or_other(stream);
                let codec = codec_after(stream, index, audio_settings, video_settings, changes);
                if target.stores(kind, codec, flagged(stream, "attached_pic"@)) {
                    None
                } else {
                    Some(conflict_text(target, index, kind, codec))
                }
            },
            _ => None,
        }
    }
}

fn find_track_conflict(
    info: &MediaInfo,
    index: u64,
    audio_settings: &BTreeMap<u64, AudioSettings>,
    video_settings: &BTreeMap<u64, VideoSettings>,
    changes: &[SubtitleChange],
    target: ContainerFormat,
) -> (result: Option<String>)
    ensures
        crate::text::opt_text(result) == track_conflict(
            *info,
            index,
            audio_settings@,
            video_settings@,
            changes@,
            target,
        ),
{
    if track_leaves_media(changes, index) {
        return None;
    }
    let stream = match find_stream(info, index) {
        Some(stream) => stream,
        None => return None,
    };
    if is_chapter_track(info, stream) {
        return None;
    }
    let kind = match stream_kind(stream) {
        Some(kind) => kind,
        None => "other",
    };
    let own = match stream_codec(stream) {
        Some(codec) => codec,
        None => "unknown",
    };
    let target_codec: Option<&str> = if same_text(kind, "video") && !is_attached_picture(stream) {
        match video_settings.get(&index) {
            Some(settings) => settings.codec.codec_name(),
            None => None,
        }
    } else if same_text(kind, "audio") {
        match audio_settings.get(&index) {
            Some(settings) => settings.codec.codec_name(),
            None => None,
        }
    } else if same_text(kind, "subtitle") {
        match find_embedded_target(changes, index) {
            Some(format) => Some(format.ffmpeg_codec()),
            None => None,
        }
    } else {
        None
    };
    let codec = match target_codec {
        Some(codec) => codec,
        None => own,
    };
    if target.supports_codec(kind, codec, is_attached_picture(stream)) {
        None
    } else {
        Some(container_conflict_message(target, index, kind, codec))
    }
}

/// The conflicts of the kept tracks, in the order of the tracks, each with its track.
pub open spec fn conflicts_of(
    info: MediaInfo,
    order: Seq<u64>,
    audio_settings: Map<u64, AudioSettings>,
    video_settings: Map<u64, VideoSettings>,
    changes: Seq<SubtitleChange>,
    target: ContainerFormat,
) -> Seq<(u64, Seq<char>)>
    decreases order.len(),
{
    if order.len() == 0 {
        Seq::empty()
    } else {
        let before = conflicts_of(
            info,
            order.drop_last(),
            audio_settings,
            video_settings,
            changes,
            target,
        );
        match track_conflict(info, order.last(), audio_settings, video_settings, changes, target) {
            Some(message) => before.push((order.last(), message)),
            None => before,
        }
    }
}

/// The tracks and texts of a list of conflicts.
pub open spec fn entry_texts(entries: Seq<(u64, String)>) -> Seq<(u64, Seq<char>)> {
    entries.map_values(|entry: (u64, String)| (entry.0, entry.1@))
}

pub fn container_conflict_entries(
    info: &MediaInfo,
    stream_order: &[u64],
    audio_settings: &BTreeMap<u64, AudioSettings>,
    video_settings: &BTreeMap<u64, VideoSettings>,
    subtitle_changes: &[SubtitleChange],
    target: ContainerFormat,
) -> (result: Vec<(u64, String)>)
    ensures
        entry_texts(result@) == conflicts_of(
            *info,
            stream_order@,
            audio_settings@,
            video_settings@,
            subtitle_changes@,
            target,
        ),
{
    let mut conflicts: Vec<(u64, String)> = Vec::new();
    let mut i: usize = 0;
    assert(entry_texts(conflicts@) =~= conflicts_of(
        *info,
        stream_order@.take(0),
        audio_settings@,
        video_settings@,
        subtitle_changes@,
        target,
    ));
    while i < stream_order.len()
        invariant
            0 <= i <= stream_order.len(),
            entry_texts(conflicts@) == conflicts_of(
                *info,
                stream_order@.take(i as int),
                audio_settings@,
                video_settings@,
                subtitle_changes@,
                target,
            ),
        decreases stream_order.len() - i,
    {
        let index: u64 = stream_order[i];
        let ghost before = conflicts@;
        proof {
            assert(stream_order@.take(i + 1).drop_last() =~= stream_order@.take(i as int));
            assert(stream_order@.take(i + 1).last() == index);
        }
        if let Some(message) = find_track_conflict(
            info,
            index,
            audio_settings,
            video_settings,
            subtitle_changes,
            target,
        ) {
            let ghost text = message@;
            conflicts.push((index, message));
            assert(entry_texts(conflicts@) =~= entry_texts(before).push((index, text)));
        }
        i = i + 1;
    }
    assert(stream_order@.take(stream_order@.len() as int) =~= stream_order@);
    conflicts
}

pub fn container_conflicts(
    info: &MediaInfo,
    stream_order: &[u64],
    audio_settings: &BTreeMap<u64, AudioSettings>,
    video_settings: &BTreeMap<u64, VideoSettings>,
    subtitle_changes: &[SubtitleChange],
    target: ContainerFormat,
) -> (result: Vec<String>)
    ensures
        texts(result@) == conflicts_of(
            *info,
            stream_order@,
            audio_settings@,
            video_settings@,
            subtitle_changes@,
            target,
        ).map_values(|entry: (u64, Seq<char>)| entry.1),
{
    let entries = container_conflict_entries(
        info,
        stream_order,
        audio_settings,
        video_settings,
        subtitle_changes,
        target,
    );
    let mut messages: Vec<String> = Vec::new();
    let ghost expected = entry_texts(entries@).map_values(|entry: (u64, Seq<char>)| entry.1);
    let mut i: usize = 0;
    while i < entries.len()
        invariant
            0 <= i <= entries.len(),
            expected == entry_texts(entries@).map_values(|entry: (u64, Seq<char>)| entry.1),
            texts(messages@) =~= expected.take(i as int),
        decreases entries.len() - i,
    {
        let ghost before = messages@;
        messages.push(entries[i].1.as_str().to_owned());
        assert(texts(messages@) =~= texts(before).push(entries@[i as int].1@));
        i = i + 1;
    }
    assert(texts(messages@) =~= expected);
    messages
}

pub fn container_conflict_streams(
    info: &MediaInfo,
    stream_order: &[u64],
    audio_settings: &BTreeMap<u64, AudioSettings>,
    video_settings: &BTreeMap<u64, VideoSettings>,
    subtitle_changes: &[SubtitleChange],
    target: ContainerFormat,
) -> (result: BTreeSet<u64>)
    ensures
        result@ == conflicts_of(
            *info,
            stream_order@,
            audio_settings@,
            video_settings@,
            subtitle_changes@,
            target,
        ).map_values(|entry: (u64, Seq<char>)| entry.0).to_set(),
{
    let entries = container_conflict_entries(
        info,
        stream_order,
        audio_settings,
        video_settings,
        subtitle_changes,
        target,
    );
    let mut tracks: Vec<u64> = Vec::new();
    let ghost expected = entry_texts(entries@).map_values(|entry: (u64, Seq<char>)| entry.0);
    let mut i: usize = 0;
    while i < entries.len()
        invariant
            0 <= i <= entries.len(),
            expected == entry_texts(entries@).map_values(|entry: (u64, Seq<char>)| entry.0),
            tracks@ =~= expected.take(i as int),
        decreases entries.len() - i,
    {
        tracks.push(entries[i].0);
        i = i + 1;
    }
    assert(tracks@ =~= expected);
    crate::sets::number_set(tracks.as_slice()).0
}

// Imported subtitles.

/// What is in the way of importing a subtitle file into a container.
pub open spec fn import_conflict(
    change: SubtitleChange,
    sidecars: Seq<SidecarEntry>,
    target: ContainerFormat,
) -> Option<Seq<char>> {
    match change.source {
        SubtitleSource::Sidecar(path) if change.import_into_media => match sidecar_at(
            sidecars,
            path@.place(),
        ) {
            Some(position) => {
                let format = match change.embedded_target {
                    Some(format) => format,
                    None => change.source_format,
                };
                if target.stores("subtitle"@, format.codec_text(), false) {
                    None
                } else {
                    Some(
                        target.label_text() + " can't import "@ + format.label_text()
                            + " subtitle "@ + sidecars[position].display_name@ + ". "@ + advice(
                            "Convert it to "@,
                            subtitle_offers(target, SubtitleFormat::COMMON_TARGETS@),
                            "."@,
                            "Choose another container."@,
                        ),
                    )
                }
            },
            None => None,
        },
        _ => None,
    }
}

fn find_import_conflict(
    change: &SubtitleChange,
    sidecars: &[SidecarEntry],
    target: ContainerFormat,
) -> (result: Option<String>)
    ensures
        crate::text::opt_text(result) == import_conflict(*change, sidecars@, target),
{
    if !change.import_into_media {
        return None;
    }
    let path = match &change.source {
        SubtitleSource::Sidecar(path) => path,
        SubtitleSource::Embedded(_) => return None,
    };
    let position: usize = match find_sidecar(sidecars, path) {
        Some(position) => position,
        None => return None,
    };
    let format = match change.embedded_target {
        Some(format) => format,
        None => change.source_format,
    };
    if target.supports_codec("subtitle", format.ffmpeg_codec(), false) {
        return None;
    }
    let resolution = advise(
        "Convert it to ",
        &subtitle_labels(target),
        ".",
        "Choose another container.",
    );
    let mut message = target.label().to_owned();
    message.append(" can't import ");
    message.append(format.label());
    message.append(" subtitle ");
    message.append(sidecars[position].display_name.as_str());
    message.append(". ");
    message.append(resolution.as_str());
    Some(message)
}

/// The conflicts of the imported subtitle files, in the order of the changes.
pub open spec fn import_conflicts(
    changes: Seq<SubtitleChange>,
    sidecars: Seq<SidecarEntry>,
    target: ContainerFormat,
) -> Seq<Seq<char>>
    decreases changes.len(),
{
    if changes.len() == 0 {
        Seq::empty()
    } else {
        let before = import_conflicts(changes.drop_last(), sidecars, target);
        match import_conflict(changes.last(), sidecars, target) {
            Some(message) => before.push(message),
            None => before,
        }
    }
}

pub fn imported_subtitle_conflicts(
    changes: &[SubtitleChange],
    sidecars: &[SidecarEntry],
    target: ContainerFormat,
) -> (result: Vec<String>)
    ensures
        texts(result@) == import_conflicts(changes@, sidecars@, target),
{
    let mut conflicts: Vec<String> = Vec::new();
    let mut i: usize = 0;
    assert(texts(conflicts@) =~= import_conflicts(changes@.take(0), sidecars@, target));
    while i < changes.len()
        invariant
            0 <= i <= changes.len(),
            texts(conflicts@) == import_conflicts(changes@.take(i as int), sidecars@, target),
        decreases changes.len() - i,
    {
        let ghost before = conflicts@;
        proof {
            assert(changes@.take(i + 1).drop_last() =~= changes@.take(i as int));
            assert(changes@.take(i + 1).last() == changes@[i as int]);
        }
        if let Some(message) = find_import_conflict(&changes[i], sidecars, target) {
            let ghost text = message@;
            conflicts.push(message);
            assert(texts(conflicts@) =~= texts(before).push(text));
        }
        i = i + 1;
    }
    assert(changes@.take(changes@.len() as int) =~= changes@);
    conflicts
}

// Subtitle flags.

/// The message about a flag that a container does not store.
pub open spec fn flag_conflict_text(
    target: ContainerFormat,
    flag: SubtitleFlag,
    track: Seq<char>,
) -> Seq<char> {
    target.label_text() + " can't store the "@ + flag.label_text() + " flag on "@ + track
        + ". Clear it or choose another container."@
}

/// The messages about the flags of a track that a container does not store.
pub open spec fn flag_conflicts(
    tags: SubtitleTags,
    target: ContainerFormat,
    track: Seq<char>,
    flags: Seq<SubtitleFlag>,
) -> Seq<Seq<char>>
    decreases flags.len(),
{
    if flags.len() == 0 {
        Seq::empty()
    } else {
        let before = flag_conflicts(tags, target, track, flags.drop_last());
        let flag = flags.last();
        if tags.flag(flag) && !target.stores_flag(flag) {
            before.push(flag_conflict_text(target, flag, track))
        } else {
            before
        }
    }
}

pub fn subtitle_flag_conflicts(
    metadata: &SubtitleMetadata,
    target: ContainerFormat,
    track: &str,
) -> (result: Vec<String>)
    ensures
        texts(result@) == flag_conflicts(metadata@, target, track@, SubtitleFlag::ALL@),
{
    let flags: [SubtitleFlag; 5] = SubtitleFlag::ALL;
    let mut conflicts: Vec<String> = Vec::new();
    let mut i: usize = 0;
    assert(texts(conflicts@) =~= flag_conflicts(metadata@, target, track@, flags@.take(0)));
    while i < 5
        invariant
            0 <= i <= 5,
            flags@ == SubtitleFlag::ALL@,
            texts(conflicts@) == flag_conflicts(metadata@, target, track@, flags@.take(i as int)),
        decreases 5 - i,
    {
        let flag: SubtitleFlag = flags[i];
        let ghost before = conflicts@;
        proof {
            assert(flags@.take(i + 1).drop_last() =~= flags@.take(i as int));
            assert(flags@.take(i + 1).last() == flag);
        }
        if metadata.get_flag(flag) && !target.supports_subtitle_flag(flag) {
            let mut message = target.label().to_owned();
            message.append(" can't store the ");
            message.append(flag.label());
            message.append(" flag on ");
            message.append(track);
            message.append(". Clear it or choose another container.");
            let ghost text = message@;
            conflicts.push(message);
            assert(texts(conflicts@) =~= texts(before).push(text));
        }
        i = i + 1;
    }
    assert(flags@.take(5) =~= flags@);
    conflicts
}

/// Metadata that a container keeps raises no conflict.
pub proof fn kept_flags_raise_no_conflict(
    tags: SubtitleTags,
    target: ContainerFormat,
    track: Seq<char>,
    flags: Seq<SubtitleFlag>,
)
    ensures
        flag_conflicts(target.kept_subtitle(tags), target, track, flags) == Seq::<
            Seq<char>,
        >::empty(),
    decreases flags.len(),
{
    if flags.len() > 0 {
        kept_flags_raise_no_conflict(tags, target, track, flags.drop_last());
    }
}

/// The conflicts of the subtitle flags that an edit writes. A flag that the container does
/// not store is dropped before it is written, so none is left to report.
pub fn subtitle_metadata_conflicts(
    languages: &Languages,
    info: &MediaInfo,
    changes: &[SubtitleChange],
    sidecars: &[SidecarEntry],
    target: ContainerFormat,
    include_unchanged_embedded: bool,
) -> (result: Vec<String>)
    ensures
        texts(result@) == Seq::<Seq<char>>::empty(),
{
    let mut conflicts: Vec<String> = Vec::new();
    let mut i: usize = 0;
    while i < info.streams.len()
        invariant
            0 <= i <= info.streams.len(),
            conflicts@.len() == 0,
        decreases info.streams.len() - i,
    {
        let stream = &info.streams[i];
        i = i + 1;
        if !stream_is(stream, "subtitle") {
            continue ;
        }
        let index: u64 = match stream_index(stream) {
            Some(index) => index,
            None => continue ,
        };
        let change = track_change(changes, index);
        let written = match change {
            Some(change) => !change.removes_from_media() && (include_unchanged_embedded
                || change.metadata.is_some()),
            None => include_unchanged_embedded,
        };
        if !written {
            continue ;
        }
        let mut metadata = match change {
            Some(change) => effective_subtitle_metadata(languages, change, stream_metadata(stream)),
            None => stream_metadata(stream),
        };
        let ghost tags = metadata@;
        target.retain_supported_subtitle_metadata(&mut metadata);
        let mut track = "subtitle track #".to_owned();
        track.append(number_text(index).as_str());
        let mut found = subtitle_flag_conflicts(&metadata, target, track.as_str());
        proof {
            kept_flags_raise_no_conflict(tags, target, track@, SubtitleFlag::ALL@);
            assert(texts(found@).len() == found@.len());
        }
        conflicts.append(&mut found);
    }
    let mut k: usize = 0;
    while k < changes.len()
        invariant
            0 <= k <= changes.len(),
            conflicts@.len() == 0,
        decreases changes.len() - k,
    {
        let change = &changes[k];
        k = k + 1;
        if !change.import_into_media {
            continue ;
        }
        let path = match &change.source {
            SubtitleSource::Sidecar(path) => path,
            SubtitleSource::Embedded(_) => continue ,
        };
        let position: usize = match find_sidecar(sidecars, path) {
            Some(position) => position,
            None => continue ,
        };
        let mut metadata = effective_subtitle_metadata(
            languages,
            change,
            sidecars[position].metadata(),
        );
        let ghost tags = metadata@;
        target.retain_supported_subtitle_metadata(&mut metadata);
        let mut track = "subtitle ".to_owned();
        track.append(sidecars[position].display_name.as_str());
        let mut found = subtitle_flag_conflicts(&metadata, target, track.as_str());
        proof {
            kept_flags_raise_no_conflict(tags, target, track@, SubtitleFlag::ALL@);
            assert(texts(found@).len() == found@.len());
        }
        conflicts.append(&mut found);
    }
    assert(texts(conflicts@) =~= Seq::<Seq<char>>::empty());
    conflicts
}

// Laws.

/// The containers that are advised are others than the one that was chosen, and each of
/// them stores the track.
pub proof fn advised_containers_store_the_track(
    target: ContainerFormat,
    kind: Seq<char>,
    codec: Seq<char>,
    containers: Seq<ContainerFormat>,
)
    ensures
        forall|label: Seq<char>| #[trigger]
            container_offers(target, kind, codec, containers).contains(label) ==> exists|i: int|
                0 <= i < containers.len() && (#[trigger] containers[i]).label_text() == label
                    && containers[i] != target && containers[i].stores(kind, codec, false),
    decreases containers.len(),
{
    if containers.len() > 0 {
        let shorter = containers.drop_last();
        advised_containers_store_the_track(target, kind, codec, shorter);
        let before = container_offers(target, kind, codec, shorter);
        let offers = container_offers(target, kind, codec, containers);
        assert forall|label: Seq<char>| #[trigger] offers.contains(label) implies exists|i: int|
            0 <= i < containers.len() && (#[trigger] containers[i]).label_text() == label
                && containers[i] != target && containers[i].stores(kind, codec, false) by {
            let k = choose|k: int| 0 <= k < offers.len() && offers[k] == label;
            if k < before.len() {
                assert(before[k] == label);
                assert(before.contains(label));
                let i = choose|i: int|
                    0 <= i < shorter.len() && (#[trigger] shorter[i]).label_text() == label
                        && shorter[i] != target && shorter[i].stores(kind, codec, false);
                assert(containers[i] == shorter[i]);
            } else {
                assert(containers[containers.len() - 1].label_text() == label);
            }
        }
    }
}

/// A conflict is raised for a kept track exactly where the container does not store the
/// track as it is going to be, and for no other track.
pub proof fn conflicts_are_about_kept_tracks(
    info: MediaInfo,
    order: Seq<u64>,
    audio_settings: Map<u64, AudioSettings>,
    video_settings: Map<u64, VideoSettings>,
    changes: Seq<SubtitleChange>,
    target: ContainerFormat,
    index: u64,
)
    ensures
        (exists|i: int|
            0 <= i < conflicts_of(
                info,
                order,
                audio_settings,
                video_settings,
                changes,
                target,
            ).len() && (#[trigger] conflicts_of(
                info,
                order,
                audio_settings,
                video_settings,
                changes,
                target,
            )[i]).0 == index) <==> order.contains(index) && track_conflict(
            info,
            index,
            audio_settings,
            video_settings,
            changes,
            target,
        ) is Some,
    decreases order.len(),
{
    if order.len() > 0 {
        let shorter = order.drop_last();
        let last = order.last();
        conflicts_are_about_kept_tracks(
            info,
            shorter,
            audio_settings,
            video_settings,
            changes,
            target,
            index,
        );
        let before = conflicts_of(
            info,
            shorter,
            audio_settings,
            video_settings,
            changes,
            target,
        );
        let all = conflicts_of(info, order, audio_settings, video_settings, changes, target);
        assert(order =~= shorter.push(last));
        assert(order.contains(index) <==> shorter.contains(index) || last == index) by {
            if shorter.contains(index) {
                let k = choose|k: int| 0 <= k < shorter.len() && shorter[k] == index;
                assert(order[k] == index);
            }
            if last == index {
                assert(order[order.len() - 1] == index);
            }
            if order.contains(index) && last != index {
                let k = choose|k: int| 0 <= k < order.len() && order[k] == index;
                assert(shorter[k] == index);
            }
        }
        if exists|i: int| 0 <= i < before.len() && (#[trigger] before[i]).0 == index {
            let i = choose|i: int| 0 <= i < before.len() && (#[trigger] before[i]).0 == index;
            assert(all[i].0 == index);
        }
        if exists|i: int| 0 <= i < all.len() && (#[trigger] all[i]).0 == index {
            let i = choose|i: int| 0 <= i < all.len() && (#[trigger] all[i]).0 == index;
            if i < before.len() {
                assert(before[i].0 == index);
            }
        }
        if last == index && all.len() > before.len() {
            assert(all[before.len() as int].0 == index);
        }
    }
}

/// What is offered instead is what the container stores, and all of it.
pub proof fn offers_are_what_is_stored(
    target: ContainerFormat,
    videos: Seq<VideoCodec>,
    sounds: Seq<AudioCodec>,
    formats: Seq<SubtitleFormat>,
    label: Seq<char>,
)
    ensures
        video_offers(target, videos).contains(label) <==> exists|i: int|
            0 <= i < videos.len() && (#[trigger] videos[i]).label_text() == label
                && videos[i].name_text() is Some && target.stores(
                "video"@,
                videos[i].name_text()->0,
                false,
            ),
        audio_offers(target, sounds).contains(label) <==> exists|i: int|
            0 <= i < sounds.len() && (#[trigger] sounds[i]).label_text() == label
                && sounds[i].name_text() is Some && target.stores(
                "audio"@,
                sounds[i].name_text()->0,
                false,
            ),
        subtitle_offers(target, formats).contains(label) <==> exists|i: int|
            0 <= i < formats.len() && (#[trigger] formats[i]).label_text() == label
                && target.stores("subtitle"@, formats[i].codec_text(), false),
{
    lemma_video_offers(target, videos, label);
    lemma_audio_offers(target, sounds, label);
    lemma_subtitle_offers(target, formats, label);
}

proof fn lemma_pushed(list: Seq<Seq<char>>, last: Seq<char>, label: Seq<char>)
    ensures
        list.push(last).contains(label) <==> list.contains(label) || last == label,
{
    let all = list.push(last);
    if list.contains(label) {
        assert(all[list.index_of(label)] == label);
    }
    if last == label {
        assert(all[list.len() as int] == label);
    }
    if all.contains(label) {
        let at = all.index_of(label);
        if at < list.len() {
            assert(list[at] == label);
        }
    }
}

proof fn lemma_video_offers(target: ContainerFormat, codecs: Seq<VideoCodec>, label: Seq<char>)
    ensures
        video_offers(target, codecs).contains(label) <==> exists|i: int|
            0 <= i < codecs.len() && (#[trigger] codecs[i]).label_text() == label
                && codecs[i].name_text() is Some && target.stores(
                "video"@,
                codecs[i].name_text()->0,
                false,
            ),
    decreases codecs.len(),
{
    if codecs.len() > 0 {
        let fewer = codecs.drop_last();
        lemma_video_offers(target, fewer, label);
        lemma_pushed(video_offers(target, fewer), codecs.last().label_text(), label);
        assert forall|i: int| 0 <= i < fewer.len() implies #[trigger] codecs[i] == fewer[i] by {}
        assert forall|i: int| 0 <= i < fewer.len() implies #[trigger] fewer[i] == codecs[i] by {}
        assert(codecs[codecs.len() - 1] == codecs.last());
    }
}

proof fn lemma_audio_offers(target: ContainerFormat, codecs: Seq<AudioCodec>, label: Seq<char>)
    ensures
        audio_offers(target, codecs).contains(label) <==> exists|i: int|
            0 <= i < codecs.len() && (#[trigger] codecs[i]).label_text() == label
                && codecs[i].name_text() is Some && target.stores(
                "audio"@,
                codecs[i].name_text()->0,
                false,
            ),
    decreases codecs.len(),
{
    if codecs.len() > 0 {
        let fewer = codecs.drop_last();
        lemma_audio_offers(target, fewer, label);
        lemma_pushed(audio_offers(target, fewer), codecs.last().label_text(), label);
        assert forall|i: int| 0 <= i < fewer.len() implies #[trigger] codecs[i] == fewer[i] by {}
        assert forall|i: int| 0 <= i < fewer.len() implies #[trigger] fewer[i] == codecs[i] by {}
        assert(codecs[codecs.len() - 1] == codecs.last());
    }
}

proof fn lemma_subtitle_offers(
    target: ContainerFormat,
    formats: Seq<SubtitleFormat>,
    label: Seq<char>,
)
    ensures
        subtitle_offers(target, formats).contains(label) <==> exists|i: int|
            0 <= i < formats.len() && (#[trigger] formats[i]).label_text() == label
                && target.stores("subtitle"@, formats[i].codec_text(), false),
    decreases formats.len(),
{
    if formats.len() > 0 {
        let fewer = formats.drop_last();
        lemma_subtitle_offers(target, fewer, label);
        lemma_pushed(subtitle_offers(target, fewer), formats.last().label_text(), label);
        assert forall|i: int| 0 <= i < fewer.len() implies #[trigger] formats[i] == fewer[i] by {}
        assert forall|i: int| 0 <= i < fewer.len() implies #[trigger] fewer[i] == formats[i] by {}
        assert(formats[formats.len() - 1] == formats.last());
    }
}

/// Another container that stores a track is always among those that are advised.
pub proof fn every_other_container_is_advised(
    target: ContainerFormat,
    kind: Seq<char>,
    codec: Seq<char>,
    containers: Seq<ContainerFormat>,
    i: int,
)
    requires
        0 <= i < containers.len(),
        containers[i] != target,
        containers[i].stores(kind, codec, false),
    ensures
        container_offers(target, kind, codec, containers).contains(containers[i].label_text()),
    decreases containers.len(),
{
    let fewer = containers.drop_last();
    lemma_pushed(
        container_offers(target, kind, codec, fewer),
        containers.last().label_text(),
        containers[i].label_text(),
    );
    if i < fewer.len() {
        every_other_container_is_advised(target, kind, codec, fewer, i);
    }
}

/// What is advised for a track that a container does not store: to encode a picture or a
/// soundtrack, to convert a subtitle, or another container for anything else.
pub proof fn conflicts_say_a_way_out(
    target: ContainerFormat,
    index: u64,
    kind: Seq<char>,
    codec: Seq<char>,
)
    ensures
        conflict_text(target, index, kind, codec) == target.label_text() + " can't contain "@
            + ascii_upper(codec) + " "@ + kind + " track #"@ + decimal(index as nat) + ". "@
            + way_out(target, kind, codec),
        kind == "video"@ && video_offers(target, VideoCodec::TARGETS@).len() > 0 ==> way_out(
            target,
            kind,
            codec,
        ) == "Encode it as "@ + joined(video_offers(target, VideoCodec::TARGETS@), " or "@)
            + " or remove the track."@,
        kind == "audio"@ ==> way_out(target, kind, codec) == "Encode it as "@ + joined(
            audio_offers(target, AudioCodec::TARGETS@),
            " or "@,
        ) + " or remove the track."@,
        kind == "subtitle"@ && subtitle_offers(target, SubtitleFormat::COMMON_TARGETS@).len() > 0
            ==> way_out(target, kind, codec) == "Convert it to "@ + joined(
            subtitle_offers(target, SubtitleFormat::COMMON_TARGETS@),
            " or "@,
        ) + " or remove the track."@,
        kind == "subtitle"@ && subtitle_offers(target, SubtitleFormat::COMMON_TARGETS@).len() == 0
            ==> way_out(target, kind, codec) == "Choose another container or remove the track."@,
        kind != "video"@ && kind != "audio"@ && kind != "subtitle"@ ==> way_out(target, kind, codec)
            == if container_offers(target, kind, codec, ContainerFormat::TARGETS@).len() > 0 {
            "Choose "@ + joined(
                container_offers(target, kind, codec, ContainerFormat::TARGETS@),
                " or "@,
            ) + " instead."@
        } else {
            "No available container can store it."@
        },
{
    lemma_kind_names();
}

proof fn lemma_kind_names()
    ensures
        "video"@ != "audio"@,
        "video"@ != "subtitle"@,
        "audio"@ != "subtitle"@,
{
    reveal_strlit("video");
    reveal_strlit("audio");
    reveal_strlit("subtitle");
    assert("video"@[0] == 'v');
    assert("audio"@[0] == 'a');
    assert("subtitle"@[0] == 's');
}

/// A track is converted as the first of its changes that asks for a format says.
pub proof fn first_targets_count(changes: Seq<SubtitleChange>, index: u64, i: int)
    ensures
        0 <= i < changes.len() && changes[i].source@ == SourceModel::Embedded(index)
            && changes[i].embedded_target is Some && (forall|k: int|
            0 <= k < i ==> !((#[trigger] changes[k]).source@ == SourceModel::Embedded(index)
                && changes[k].embedded_target is Some)) ==> embedded_target_of(changes, index)
            == changes[i].embedded_target,
        (forall|k: int|
            0 <= k < changes.len() ==> !((#[trigger] changes[k]).source@ == SourceModel::Embedded(
                index,
            ) && changes[k].embedded_target is Some)) ==> embedded_target_of(changes, index)
            is None,
    decreases changes.len(),
{
    if changes.len() > 0 {
        let rest = changes.skip(1);
        first_targets_count(rest, index, i - 1);
        assert forall|k: int| 0 <= k < rest.len() implies #[trigger] rest[k] == changes[k + 1] by {}
        if 0 < i < changes.len() {
            assert(rest[i - 1] == changes[i]);
        }
    }
}

/// The codec of a track after an edit is the one that its settings or its change ask for,
/// and its own where they ask for none. A cover picture always keeps its own.
pub proof fn tracks_are_judged_by_their_new_codec(
    stream: Stream,
    index: u64,
    audio: Map<u64, AudioSettings>,
    video: Map<u64, VideoSettings>,
    changes: Seq<SubtitleChange>,
)
    ensures
        ({
            let after = codec_after(stream, index, audio, video, changes);
            let own = match codec_of(stream) {
                Some(codec) => codec,
                None => "unknown"@,
            };
            &&& kind_of(stream) == Some("video"@) && !flagged(stream, "attached_pic"@)
                && video.contains_key(index) && video[index].codec.name_text() is Some ==> after
                == video[index].codec.name_text()->0
            &&& kind_of(stream) == Some("audio"@) && audio.contains_key(index)
                && audio[index].codec.name_text() is Some ==> after
                == audio[index].codec.name_text()->0
            &&& kind_of(stream) == Some("subtitle"@) && embedded_target_of(changes, index) is Some
                ==> after == embedded_target_of(changes, index)->0.codec_text()
            &&& kind_of(stream) == Some("video"@) && (flagged(stream, "attached_pic"@)
                || !video.contains_key(index) || video[index].codec.name_text() is None) ==> after
                == own
            &&& kind_of(stream) == Some("audio"@) && (!audio.contains_key(index)
                || audio[index].codec.name_text() is None) ==> after == own
            &&& kind_of(stream) == Some("subtitle"@) && embedded_target_of(changes, index) is None
                ==> after == own
            &&& kind_of(stream) != Some("video"@) && kind_of(stream) != Some("audio"@) && kind_of(
                stream,
            ) != Some("subtitle"@) ==> after == own
        }),
{
    lemma_kind_names();
    reveal_strlit("other");
    reveal_strlit("video");
    reveal_strlit("audio");
    reveal_strlit("subtitle");
    assert("other"@[0] == 'o');
}

/// A track stands in the way of a container where it is written, is not the chapters, and
/// the container does not store its kind in the codec that it has after the edit.
pub proof fn tracks_conflict_where_they_are_not_stored(
    info: MediaInfo,
    index: u64,
    audio: Map<u64, AudioSettings>,
    video: Map<u64, VideoSettings>,
    changes: Seq<SubtitleChange>,
    target: ContainerFormat,
)
    ensures
        track_conflict(info, index, audio, video, changes, target) is Some <==> !leaves_media(
            changes,
            index,
        ) && stream_at(info.streams@, index) is Some && {
            let stream = stream_at(info.streams@, index)->0;
            &&& !is_chapters(info, stream)
            &&& !target.stores(
                match kind_of(stream) {
                    Some(kind) => kind,
                    None => "other"@,
                },
                codec_after(stream, index, audio, video, changes),
                flagged(stream, "attached_pic"@),
            )
        },
        track_conflict(info, index, audio, video, changes, target) is Some ==> {
            let stream = stream_at(info.streams@, index)->0;
            track_conflict(info, index, audio, video, changes, target) == Some(
                conflict_text(
                    target,
                    index,
                    match kind_of(stream) {
                        Some(kind) => kind,
                        None => "other"@,
                    },
                    codec_after(stream, index, audio, video, changes),
                ),
            )
        },
{
}

/// Every conflict of a file is told with the track it is about.
pub proof fn conflicts_are_told_by_track(
    info: MediaInfo,
    order: Seq<u64>,
    audio: Map<u64, AudioSettings>,
    video: Map<u64, VideoSettings>,
    changes: Seq<SubtitleChange>,
    target: ContainerFormat,
    i: int,
)
    ensures
        conflicts_of(info, order, audio, video, changes, target).len() <= order.len(),
        0 <= i < conflicts_of(info, order, audio, video, changes, target).len() ==> {
            let told = conflicts_of(info, order, audio, video, changes, target)[i];
            order.contains(told.0) && track_conflict(info, told.0, audio, video, changes, target)
                == Some(told.1)
        },
    decreases order.len(),
{
    if order.len() > 0 {
        let fewer = order.drop_last();
        let before = conflicts_of(info, fewer, audio, video, changes, target);
        let all = conflicts_of(info, order, audio, video, changes, target);
        conflicts_are_told_by_track(info, fewer, audio, video, changes, target, i);
        if 0 <= i < all.len() {
            if i < before.len() {
                assert(all[i] == before[i]);
                let at = fewer.index_of(before[i].0);
                assert(order[at] == fewer[at]);
            } else {
                assert(order[order.len() - 1] == order.last());
            }
        }
    }
}

/// A subtitle cannot be imported into a container that does not store the format that it
/// has when it gets there.
pub proof fn imports_conflict_where_they_are_not_stored(
    change: SubtitleChange,
    sidecars: Seq<SidecarEntry>,
    target: ContainerFormat,
    position: int,
)
    ensures
        import_conflict(change, sidecars, target) is Some ==> change.import_into_media
            && change.source is Sidecar,
        change.source is Sidecar && change.import_into_media && sidecar_at(
            sidecars,
            change.source->Sidecar_0@.place(),
        ) == Some(position) ==> {
            let format = if change.embedded_target is Some {
                change.embedded_target->0
            } else {
                change.source_format
            };
            &&& import_conflict(change, sidecars, target) is None <==> target.stores(
                "subtitle"@,
                format.codec_text(),
                false,
            )
            &&& import_conflict(change, sidecars, target) is Some ==> {
                let choices = subtitle_offers(target, SubtitleFormat::COMMON_TARGETS@);
                import_conflict(change, sidecars, target) == Some(
                    target.label_text() + " can't import "@ + format.label_text() + " subtitle "@
                        + sidecars[position].display_name@ + ". "@ + (if choices.len() == 0 {
                        "Choose another container."@
                    } else {
                        "Convert it to "@ + joined(choices, " or "@) + "."@
                    }),
                )
            }
        },
{
}

/// Every conflict of an import is told.
pub proof fn import_conflicts_are_told(
    changes: Seq<SubtitleChange>,
    sidecars: Seq<SidecarEntry>,
    target: ContainerFormat,
    message: Seq<char>,
)
    ensures
        import_conflicts(changes, sidecars, target).contains(message) <==> exists|i: int|
            0 <= i < changes.len() && import_conflict(#[trigger] changes[i], sidecars, target)
                == Some(message),
    decreases changes.len(),
{
    if changes.len() > 0 {
        let fewer = changes.drop_last();
        import_conflicts_are_told(fewer, sidecars, target, message);
        if import_conflict(changes.last(), sidecars, target) is Some {
            lemma_pushed(
                import_conflicts(fewer, sidecars, target),
                import_conflict(changes.last(), sidecars, target)->0,
                message,
            );
        }
        assert forall|i: int| 0 <= i < fewer.len() implies #[trigger] changes[i] == fewer[i] by {}
        assert forall|i: int| 0 <= i < fewer.len() implies #[trigger] fewer[i] == changes[i] by {}
        assert(changes[changes.len() - 1] == changes.last());
    }
}

/// A flag that a container does not store is told, and no other is.
pub proof fn flags_conflict_where_they_are_not_stored(
    tags: SubtitleTags,
    target: ContainerFormat,
    track: Seq<char>,
    flags: Seq<SubtitleFlag>,
    message: Seq<char>,
)
    ensures
        flag_conflicts(tags, target, track, flags).contains(message) <==> exists|i: int|
            0 <= i < flags.len() && tags.flag(#[trigger] flags[i]) && !target.stores_flag(flags[i])
                && message == target.label_text() + " can't store the "@ + flags[i].label_text()
                + " flag on "@ + track + ". Clear it or choose another container."@,
    decreases flags.len(),
{
    if flags.len() > 0 {
        let fewer = flags.drop_last();
        flags_conflict_where_they_are_not_stored(tags, target, track, fewer, message);
        lemma_pushed(
            flag_conflicts(tags, target, track, fewer),
            flag_conflict_text(target, flags.last(), track),
            message,
        );
        assert forall|i: int| 0 <= i < fewer.len() implies #[trigger] flags[i] == fewer[i] by {}
        assert forall|i: int| 0 <= i < fewer.len() implies #[trigger] fewer[i] == flags[i] by {}
        assert(flags[flags.len() - 1] == flags.last());
    }
}

} // verus!
