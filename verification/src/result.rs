//! Whether a written file is what the edit asked for.

use std::collections::{BTreeMap, BTreeSet};

use vstd::prelude::*;
use vstd::string::StringExecFns;

use crate::audio::{
    resolved_audio_sample_rate, resolved_rate, AudioChannelLayout, AudioCodec, AudioSettings,
};
use crate::container::{kept_audio_in, kept_subtitle_in, kept_video_in, ContainerFormat};
use crate::path::FilePath;
use crate::plan::{
    derefs, forced_defaults, import_within, lemma_plan_in_order, lemma_plan_within,
    muxer_forced_default_positions, output_track_plan, streams_written, track_plan, within_order,
    written_streams, OutputTrack, SubtitleImport, SubtitleReplacement,
};
use crate::probe::{
    audio_metadata_matches, audio_tags, channels_of, codec_of, encodable_codec, find_stream,
    flagged, format_name, format_name_of, is_default, is_kind, is_playable, is_playable_video,
    kind_of, number_of, rotation_of, sample_rate_of, source_codec, stream_at, stream_channels, stream_codec,
    stream_is, stream_kind, stream_metadata, stream_rotation, stream_sample_rate,
    subtitle_metadata_matches, subtitle_tags, video_metadata_matches, video_tags, MediaInfo, Stream,
};
use crate::sets::{braced, braced_set};
use crate::subtitle::{
    effective_subtitle_metadata, effective_tags, Languages, SidecarEntry, SourceModel,
    SubtitleChange, SubtitleFormat, SubtitleTags, TrackRef,
};
use crate::text::{
    ascii_lower, decimal, holds, lists, number_text, pieces, same_ignoring_case, same_optional_text,
    same_text, split, texts, truth, truth_text,
};
use crate::transcode::{
    audio_codec_after, audio_requires_transcode, effective_audio_codec, encodes_audio,
    encodes_video, opt_deref, output_resolution_matches, requires_transcode, size_as_asked,
};
use crate::validate::{first_of, says};
use crate::video::{VideoCodec, VideoResolution, VideoRotation, VideoSettings};

verus! {

broadcast use vstd::std_specs::btree::group_btree_axioms;

/// An edit as it is written: the source, the tracks that are kept and everything staged
/// for them.
pub ghost struct EditModel {
    pub languages: Languages,
    pub source: MediaInfo,
    pub order: Seq<u64>,
    pub chosen: Seq<TrackRef>,
    pub defaults: Set<u64>,
    pub audio: Map<u64, AudioSettings>,
    pub video: Map<u64, VideoSettings>,
    pub replacements: Seq<SubtitleReplacement>,
    pub imports: Seq<SubtitleImport>,
    pub changes: Seq<SubtitleChange>,
    pub sidecars: Seq<SidecarEntry>,
    pub container: Option<ContainerFormat>,
}

impl EditModel {
    /// The tracks of the written file, in order.
    pub open spec fn plan(self) -> Seq<OutputTrack> {
        track_plan(self.source, self.order, self.chosen, self.imports, self.sidecars)
    }

    /// Whether a track is to be flagged as default.
    pub open spec fn default(self, track: OutputTrack) -> bool {
        match track {
            OutputTrack::Existing(index) => self.defaults.contains(index),
            OutputTrack::Imported(import) => self.imports[import as int].default,
        }
    }

    /// The default flags of the written file, in order.
    pub open spec fn default_flags(self) -> Seq<bool> {
        self.plan().map_values(|track: OutputTrack| self.default(track))
    }

    /// Whether every kept track that has audio settings is in the source.
    pub open spec fn audio_is_there(self) -> bool {
        forall|index: u64| #[trigger]
            self.order.contains(index) && self.audio.contains_key(index) ==> stream_at(
                self.source.streams@,
                index,
            ) is Some
    }
}

// Kinds.

/// The kinds of the streams that have one, in order.
pub open spec fn kinds(streams: Seq<Stream>) -> Seq<Seq<char>>
    decreases streams.len(),
{
    if streams.len() == 0 {
        Seq::empty()
    } else {
        match kind_of(streams.last()) {
            Some(kind) => kinds(streams.drop_last()).push(kind),
            None => kinds(streams.drop_last()),
        }
    }
}

/// The kind of a planned track.
pub open spec fn planned_kind(source: MediaInfo, track: OutputTrack) -> Option<Seq<char>> {
    match track {
        OutputTrack::Existing(index) => match stream_at(source.streams@, index) {
            Some(stream) => kind_of(stream),
            None => None,
        },
        OutputTrack::Imported(_) => Some("subtitle"@),
    }
}

/// The kinds of the planned tracks that have one, in order.
pub open spec fn planned_kinds(source: MediaInfo, plan: Seq<OutputTrack>) -> Seq<Seq<char>>
    decreases plan.len(),
{
    if plan.len() == 0 {
        Seq::empty()
    } else {
        match planned_kind(source, plan.last()) {
            Some(kind) => planned_kinds(source, plan.drop_last()).push(kind),
            None => planned_kinds(source, plan.drop_last()),
        }
    }
}

fn list_kinds(streams: &Vec<&Stream>) -> (result: Vec<String>)
    ensures
        texts(result@) == kinds(derefs(streams@)),
{
    let mut result: Vec<String> = Vec::new();
    let mut i: usize = 0;
    assert(texts(result@) =~= kinds(derefs(streams@).take(0)));
    while i < streams.len()
        invariant
            0 <= i <= streams.len(),
            texts(result@) == kinds(derefs(streams@).take(i as int)),
        decreases streams.len() - i,
    {
        let ghost before = result@;
        proof {
            let longer = derefs(streams@).take(i + 1);
            assert(longer.drop_last() =~= derefs(streams@).take(i as int));
            assert(longer.last() == *streams@[i as int]);
        }
        if let Some(kind) = stream_kind(streams[i]) {
            result.push(kind.to_owned());
            assert(texts(result@) =~= texts(before).push(kind@));
        }
        i = i + 1;
    }
    assert(derefs(streams@).take(streams@.len() as int) =~= derefs(streams@));
    result
}

fn list_planned_kinds(source: &MediaInfo, plan: &Vec<OutputTrack>) -> (result: Vec<String>)
    ensures
        texts(result@) == planned_kinds(*source, plan@),
{
    let mut result: Vec<String> = Vec::new();
    let mut i: usize = 0;
    assert(texts(result@) =~= planned_kinds(*source, plan@.take(0)));
    while i < plan.len()
        invariant
            0 <= i <= plan.len(),
            texts(result@) == planned_kinds(*source, plan@.take(i as int)),
        decreases plan.len() - i,
    {
        let ghost before = result@;
        proof {
            assert(plan@.take(i + 1).drop_last() =~= plan@.take(i as int));
            assert(plan@.take(i + 1).last() == plan@[i as int]);
        }
        let kind: Option<&str> = match plan[i] {
            OutputTrack::Existing(index) => match find_stream(source, index) {
                Some(stream) => stream_kind(stream),
                None => None,
            },
            OutputTrack::Imported(_) => Some("subtitle"),
        };
        if let Some(kind) = kind {
            result.push(kind.to_owned());
            assert(texts(result@) =~= texts(before).push(kind@));
        }
        i = i + 1;
    }
    assert(plan@.take(plan@.len() as int) =~= plan@);
    result
}

fn same_texts(left: &Vec<String>, right: &Vec<String>) -> (result: bool)
    ensures
        result == (texts(left@) == texts(right@)),
{
    if left.len() != right.len() {
        assert(texts(left@).len() != texts(right@).len());
        return false;
    }
    let mut i: usize = 0;
    while i < left.len()
        invariant
            0 <= i <= left.len(),
            left.len() == right.len(),
            forall|k: int| 0 <= k < i ==> left@[k]@ == right@[k]@,
        decreases left.len() - i,
    {
        if !same_text(left[i].as_str(), right[i].as_str()) {
            assert(texts(left@)[i as int] != texts(right@)[i as int]);
            return false;
        }
        i = i + 1;
    }
    assert(texts(left@) =~= texts(right@));
    true
}

// One track.

/// The message about the track at a position.
pub open spec fn at_position(before: Seq<char>, position: int, after: Seq<char>) -> Seq<char> {
    before + decimal(position as nat) + after
}

fn position_message(before: &str, position: usize, after: &str) -> (result: String)
    ensures
        result@ == at_position(before@, position as int, after@),
{
    let mut message = before.to_owned();
    message.append(number_text(position as u64).as_str());
    message.append(after);
    message
}

/// The message about a default flag.
pub open spec fn default_text(
    position: int,
    track: OutputTrack,
    expected: bool,
    found: bool,
    defaults: Set<u64>,
) -> Seq<char> {
    at_position("The remuxed track at position "@, position, " ("@) + (match track {
        OutputTrack::Existing(index) => "source track #"@ + decimal(index as nat),
        OutputTrack::Imported(import) => "imported subtitle #"@ + decimal(import as nat),
    }) + ") has the wrong default flag: expected "@ + truth_text(expected) + ", found "@
        + truth_text(found) + ". Staged defaults: "@ + braced(defaults) + "."@
}

fn default_message(
    position: usize,
    track: OutputTrack,
    expected: bool,
    found: bool,
    defaults: &BTreeSet<u64>,
) -> (result: String)
    ensures
        result@ == default_text(position as int, track, expected, found, defaults@),
{
    let label = match track {
        OutputTrack::Existing(index) => {
            let mut label = "source track #".to_owned();
            label.append(number_text(index).as_str());
            label
        },
        OutputTrack::Imported(import) => {
            let mut label = "imported subtitle #".to_owned();
            label.append(number_text(import as u64).as_str());
            label
        },
    };
    let mut message = position_message("The remuxed track at position ", position, " (");
    message.append(label.as_str());
    message.append(") has the wrong default flag: expected ");
    message.append(truth(expected));
    message.append(", found ");
    message.append(truth(found));
    message.append(". Staged defaults: ");
    message.append(braced_set(defaults).as_str());
    message.append(".");
    message
}

/// What is wrong with a written import.
pub open spec fn import_problem(stream: Stream, import: SubtitleImport, position: int) -> Option<
    Seq<char>,
> {
    if codec_of(stream) != Some(import.target.codec_text()) {
        Some(
            at_position(
                "The imported subtitle track at position "@,
                position,
                " has the wrong codec."@,
            ),
        )
    } else if subtitle_tags(stream) != import.metadata@ {
        Some(
            at_position(
                "The imported subtitle track at position "@,
                position,
                " has the wrong metadata."@,
            ),
        )
    } else {
        None
    }
}

fn check_import(stream: &Stream, import: &SubtitleImport, position: usize) -> (result: Result<
    (),
    String,
>)
    ensures
        says(result, import_problem(*stream, *import, position as int)),
{
    if !same_optional_text(stream_codec(stream), Some(import.target.ffmpeg_codec())) {
        return Err(
            position_message(
                "The imported subtitle track at position ",
                position,
                " has the wrong codec.",
            ),
        );
    }
    if !subtitle_metadata_matches(stream, &import.metadata) {
        return Err(
            position_message(
                "The imported subtitle track at position ",
                position,
                " has the wrong metadata.",
            ),
        );
    }
    Ok(())
}

/// The name of an audio codec, where there is a codec.
pub open spec fn codec_name_of(codec: Option<AudioCodec>) -> Option<Seq<char>> {
    match codec {
        Some(codec) => codec.name_text(),
        None => None,
    }
}

/// The sample rate that an encode of a stream comes out at, where it is known.
pub open spec fn rate_after(source: Stream, settings: AudioSettings) -> Option<u32> {
    match (audio_codec_after(source, settings), sample_rate_of(source)) {
        (Some(codec), Some(rate)) => resolved_rate(codec, rate),
        _ => None,
    }
}

/// What is wrong with a written audio track that has settings.
pub open spec fn audio_written_problem(
    stream: Stream,
    source: Stream,
    settings: AudioSettings,
    container: Option<ContainerFormat>,
    position: int,
) -> Option<Seq<char>> {
    let encoded = encodes_audio(source, settings);
    if encoded && codec_name_of(audio_codec_after(source, settings)) != codec_of(stream) {
        Some(at_position("The encoded audio track at position "@, position, " has the wrong codec."@))
    } else if settings.channel_layout.channel_count() is Some && channels_of(stream)
        != settings.channel_layout.channel_count() {
        Some(
            at_position(
                "The encoded audio track at position "@,
                position,
                " has the wrong channel layout."@,
            ),
        )
    } else if encoded && rate_after(source, settings) is Some && sample_rate_of(stream)
        != rate_after(source, settings) {
        Some(
            at_position(
                "The encoded audio track at position "@,
                position,
                " has the wrong sample rate."@,
            ),
        )
    } else if audio_tags(stream) != kept_audio_in(container, settings.metadata@) {
        Some(at_position("The audio track at position "@, position, " has the wrong metadata."@))
    } else {
        None
    }
}

fn check_audio(
    stream: &Stream,
    source: &Stream,
    settings: &AudioSettings,
    container: Option<ContainerFormat>,
    position: usize,
) -> (result: Result<(), String>)
    ensures
        says(
            result,
            audio_written_problem(*stream, *source, *settings, container, position as int),
        ),
{
    let encoded = audio_requires_transcode(source, settings);
    let codec = effective_audio_codec(source, settings);
    let expected_codec: Option<&str> = match codec {
        Some(codec) => codec.codec_name(),
        None => None,
    };
    if encoded && !same_optional_text(expected_codec, stream_codec(stream)) {
        return Err(
            position_message(
                "The encoded audio track at position ",
                position,
                " has the wrong codec.",
            ),
        );
    }
    if let Some(channels) = settings.channel_layout.channels() {
        let right = match stream_channels(stream) {
            Some(found) => found == channels,
            None => false,
        };
        if !right {
            return Err(
                position_message(
                    "The encoded audio track at position ",
                    position,
                    " has the wrong channel layout.",
                ),
            );
        }
    }
    let expected_rate: Option<u32> = match (codec, stream_sample_rate(source)) {
        (Some(codec), Some(rate)) => resolved_audio_sample_rate(codec, rate),
        _ => None,
    };
    if encoded {
        if let Some(rate) = expected_rate {
            let right = match stream_sample_rate(stream) {
                Some(found) => found == rate,
                None => false,
            };
            if !right {
                return Err(
                    position_message(
                        "The encoded audio track at position ",
                        position,
                        " has the wrong sample rate.",
                    ),
                );
            }
        }
    }
    let mut expected = settings.metadata.clone();
    if let Some(container) = container {
        container.retain_supported_audio_metadata(&mut expected);
    }
    if !audio_metadata_matches(stream, &expected) {
        return Err(
            position_message("The audio track at position ", position, " has the wrong metadata."),
        );
    }
    Ok(())
}

/// The first change of the embedded track `index` that stages metadata.
pub open spec fn metadata_change_of(changes: Seq<SubtitleChange>, index: u64) -> Option<
    SubtitleChange,
>
    decreases changes.len(),
{
    if changes.len() == 0 {
        None
    } else if changes[0].source@ == SourceModel::Embedded(index) && changes[0].metadata is Some {
        Some(changes[0])
    } else {
        metadata_change_of(changes.skip(1), index)
    }
}

pub fn find_metadata_change(changes: &[SubtitleChange], index: u64) -> (result: Option<
    &SubtitleChange,
>)
    ensures
        opt_deref(result) == metadata_change_of(changes@, index),
{
    let mut i: usize = 0;
    assert(changes@.skip(0) =~= changes@);
    while i < changes.len()
        invariant
            0 <= i <= changes.len(),
            metadata_change_of(changes@, index) == metadata_change_of(
                changes@.skip(i as int),
                index,
            ),
        decreases changes.len() - i,
    {
        if changes[i].source.is_track(index) && changes[i].metadata.is_some() {
            return Some(&changes[i]);
        }
        assert(changes@.skip(i as int).skip(1) =~= changes@.skip(i + 1));
        i = i + 1;
    }
    None
}

/// The position of the first replacement of a track.
pub open spec fn replacement_of(replacements: Seq<SubtitleReplacement>, index: u64) -> Option<int>
    decreases replacements.len(),
{
    if replacements.len() == 0 {
        None
    } else if replacements[0].source_index == index {
        Some(0)
    } else {
        match replacement_of(replacements.skip(1), index) {
            Some(position) => Some(position + 1),
            None => None,
        }
    }
}

pub fn find_replacement(replacements: &[SubtitleReplacement], index: u64) -> (result: Option<
    usize,
>)
    ensures
        match result {
            Some(position) => replacement_of(replacements@, index) == Some(position as int)
                && position < replacements@.len(),
            None => replacement_of(replacements@, index) is None,
        },
{
    let mut i: usize = 0;
    assert(replacements@.skip(0) =~= replacements@);
    while i < replacements.len()
        invariant
            0 <= i <= replacements.len(),
            replacement_of(replacements@, index) == (match replacement_of(
                replacements@.skip(i as int),
                index,
            ) {
                Some(position) => Some(position + i),
                None => None,
            }),
        decreases replacements.len() - i,
    {
        if replacements[i].source_index == index {
            return Some(i);
        }
        assert(replacements@.skip(i as int).skip(1) =~= replacements@.skip(i + 1));
        i = i + 1;
    }
    None
}

/// The metadata that an embedded subtitle is written with.
pub open spec fn subtitle_tags_after(
    languages: Languages,
    changes: Seq<SubtitleChange>,
    stream: Stream,
    index: u64,
    container: Option<ContainerFormat>,
) -> SubtitleTags {
    kept_subtitle_in(
        container,
        match metadata_change_of(changes, index) {
            Some(change) => effective_tags(languages, change, subtitle_tags(stream)),
            None => subtitle_tags(stream),
        },
    )
}

/// Whether the metadata of an embedded subtitle is written anew: where it was staged, or
/// where the track is written from a converted file.
pub open spec fn subtitle_rewritten(edit: EditModel, source: Option<Stream>, index: u64) -> bool {
    &&& source is Some && is_kind(source->0, "subtitle"@)
    &&& metadata_change_of(edit.changes, index) is Some || replacement_of(
        edit.replacements,
        index,
    ) is Some
}

/// What is wrong with a written video track that has settings.
pub open spec fn video_written_problem(
    stream: Stream,
    source: Option<Stream>,
    settings: VideoSettings,
    container: Option<ContainerFormat>,
    position: int,
) -> Option<Seq<char>> {
    let encoded = source is None || encodes_video(source->0, settings);
    let rotation = if encoded {
        VideoRotation::Upright
    } else {
        settings.rotation
    };
    let expected_codec = match settings.codec.name_text() {
        Some(codec) => Some(codec),
        None => match source {
            Some(source) => encodable_codec(source),
            None => None,
        },
    };
    if video_tags(stream) != kept_video_in(container, settings.metadata@) {
        Some(at_position("The video track at position "@, position, " has the wrong metadata."@))
    } else if rotation_of(stream) != rotation {
        Some(
            at_position(
                "The video track at position "@,
                position,
                " has the wrong rotation: expected "@,
            ) + decimal(rotation.angle() as nat) + ", found "@ + decimal(
                rotation_of(stream).angle() as nat,
            ) + "."@,
        )
    } else if !encoded {
        None
    } else if expected_codec != codec_of(stream) {
        Some(at_position("The encoded video track at position "@, position, " has the wrong codec."@))
    } else if !size_as_asked(stream, source, settings) {
        Some(
            at_position(
                "The encoded video track at position "@,
                position,
                " has the wrong resolution."@,
            ),
        )
    } else {
        None
    }
}

fn check_video(
    stream: &Stream,
    source: Option<&Stream>,
    settings: &VideoSettings,
    container: Option<ContainerFormat>,
    position: usize,
) -> (result: Result<(), String>)
    ensures
        says(
            result,
            video_written_problem(
                *stream,
                opt_deref(source),
                *settings,
                container,
                position as int,
            ),
        ),
{
    let mut expected = settings.metadata.clone();
    if let Some(container) = container {
        container.retain_supported_video_metadata(&mut expected);
    }
    if !video_metadata_matches(stream, &expected) {
        return Err(
            position_message("The video track at position ", position, " has the wrong metadata."),
        );
    }
    let encoded = match source {
        Some(source) => requires_transcode(source, settings),
        None => true,
    };
    let rotation = if encoded {
        VideoRotation::Upright
    } else {
        settings.rotation
    };
    let found = stream_rotation(stream);
    if found != rotation {
        let mut message = position_message(
            "The video track at position ",
            position,
            " has the wrong rotation: expected ",
        );
        message.append(number_text(rotation.degrees() as u64).as_str());
        message.append(", found ");
        message.append(number_text(found.degrees() as u64).as_str());
        message.append(".");
        return Err(message);
    }
    if !encoded {
        return Ok(());
    }
    let expected_codec: Option<&str> = match settings.codec.codec_name() {
        Some(codec) => Some(codec),
        None => match source {
            Some(source) => source_codec(source),
            None => None,
        },
    };
    if !same_optional_text(expected_codec, stream_codec(stream)) {
        return Err(
            position_message(
                "The encoded video track at position ",
                position,
                " has the wrong codec.",
            ),
        );
    }
    if !output_resolution_matches(stream, source, settings) {
        return Err(
            position_message(
                "The encoded video track at position ",
                position,
                " has the wrong resolution.",
            ),
        );
    }
    Ok(())
}

/// What is wrong with a written track of the source.
pub open spec fn existing_problem(edit: EditModel, stream: Stream, index: u64, position: int) -> Option<
    Seq<char>,
> {
    let source = stream_at(edit.source.streams@, index);
    first_of(
        if edit.audio.contains_key(index) && source is Some {
            audio_written_problem(
                stream,
                source->0,
                edit.audio[index],
                edit.container,
                position,
            )
        } else {
            None
        },
        first_of(
            if subtitle_rewritten(edit, source, index) && subtitle_tags(stream)
                != subtitle_tags_after(
                edit.languages,
                edit.changes,
                source->0,
                index,
                edit.container,
            ) {
                Some(
                    at_position(
                        "The subtitle track at position "@,
                        position,
                        " has the wrong metadata."@,
                    ),
                )
            } else {
                None
            },
            match replacement_of(edit.replacements, index) {
                Some(replacement) => if codec_of(stream) != Some(
                    edit.replacements[replacement].target.codec_text(),
                ) {
                    Some(
                        at_position(
                            "The converted subtitle track at position "@,
                            position,
                            " has the wrong codec."@,
                        ),
                    )
                } else {
                    None
                },
                None => if edit.video.contains_key(index) {
                    video_written_problem(
                        stream,
                        source,
                        edit.video[index],
                        edit.container,
                        position,
                    )
                } else {
                    None
                },
            },
        ),
    )
}

/// What is wrong with the written stream at a position.
pub open spec fn written_problem(edit: EditModel, output: MediaInfo, stream: Stream, position: int) -> Option<
    Seq<char>,
> {
    if position >= edit.plan().len() {
        Some("The remuxed file has an unexpected extra track."@)
    } else {
        let track = edit.plan()[position];
        let expected = edit.default(track);
        let found = flagged(stream, "default"@);
        if found != expected && !(found && forced_defaults(
            output,
            edit.default_flags(),
            edit.container,
            position,
        )) {
            Some(default_text(position, track, expected, found, edit.defaults))
        } else {
            match track {
                OutputTrack::Imported(import) => import_problem(
                    stream,
                    edit.imports[import as int],
                    position,
                ),
                OutputTrack::Existing(index) => existing_problem(edit, stream, index, position),
            }
        }
    }
}

/// The first problem of the written streams from a position on.
pub open spec fn written_problems(
    edit: EditModel,
    output: MediaInfo,
    streams: Seq<Stream>,
    position: int,
) -> Option<Seq<char>>
    decreases streams.len() - position,
{
    if 0 <= position < streams.len() {
        first_of(
            written_problem(edit, output, streams[position], position),
            written_problems(edit, output, streams, position + 1),
        )
    } else {
        None
    }
}

/// Whether a file has video that plays.
pub open spec fn has_video(streams: Seq<Stream>) -> bool {
    exists|i: int| 0 <= i < streams.len() && is_playable(#[trigger] streams[i])
}

/// What is wrong with a written file: it has to have video, the kinds of its tracks have
/// to be the planned ones, and each track has to be what was asked for.
pub open spec fn result_problem(edit: EditModel, output: MediaInfo) -> Option<Seq<char>> {
    let streams = written_streams(output, output.streams@);
    if !has_video(output.streams@) {
        Some("The remuxed file has no playable video track."@)
    } else if kinds(streams) != planned_kinds(edit.source, edit.plan()) {
        Some("The remuxed tracks are not in the requested order."@)
    } else {
        written_problems(edit, output, streams, 0)
    }
}

fn any_video(info: &MediaInfo) -> (result: bool)
    ensures
        result == has_video(info.streams@),
{
    let mut i: usize = 0;
    while i < info.streams.len()
        invariant
            0 <= i <= info.streams.len(),
            forall|k: int| 0 <= k < i ==> !is_playable(#[trigger] info.streams@[k]),
        decreases info.streams.len() - i,
    {
        if is_playable_video(&info.streams[i]) {
            return true;
        }
        i = i + 1;
    }
    false
}

fn list_defaults(
    plan: &Vec<OutputTrack>,
    default_streams: &BTreeSet<u64>,
    imports: &[SubtitleImport],
) -> (result: Vec<bool>)
    requires
        forall|i: int| 0 <= i < plan@.len() ==> import_within(#[trigger] plan@[i], imports@.len()),
    ensures
        result@.len() == plan@.len(),
        forall|i: int|
            0 <= i < plan@.len() ==> #[trigger] result@[i] == (match plan@[i] {
                OutputTrack::Existing(index) => default_streams@.contains(index),
                OutputTrack::Imported(import) => imports@[import as int].default,
            }),
{
    let mut result: Vec<bool> = Vec::new();
    let mut i: usize = 0;
    while i < plan.len()
        invariant
            0 <= i <= plan.len(),
            result@.len() == i,
            forall|k: int|
                0 <= k < plan@.len() ==> import_within(#[trigger] plan@[k], imports@.len()),
            forall|k: int|
                0 <= k < i ==> #[trigger] result@[k] == (match plan@[k] {
                    OutputTrack::Existing(index) => default_streams@.contains(index),
                    OutputTrack::Imported(import) => imports@[import as int].default,
                }),
        decreases plan.len() - i,
    {
        assert(import_within(plan@[i as int], imports@.len()));
        match plan[i] {
            OutputTrack::Existing(index) => result.push(default_streams.contains(&index)),
            OutputTrack::Imported(import) => result.push(imports[import].default),
        }
        i = i + 1;
    }
    result
}

/// Checks a written file against the edit it was written for.
pub fn validate_result(
    languages: &Languages,
    source: &MediaInfo,
    output: &MediaInfo,
    stream_order: &[u64],
    left_subtitle_order: &[TrackRef],
    default_streams: &BTreeSet<u64>,
    audio_settings: &BTreeMap<u64, AudioSettings>,
    video_settings: &BTreeMap<u64, VideoSettings>,
    subtitle_replacements: &[SubtitleReplacement],
    subtitle_imports: &[SubtitleImport],
    subtitle_changes: &[SubtitleChange],
    sidecars: &[SidecarEntry],
    container: Option<ContainerFormat>,
) -> (result: Result<(), String>)
    requires
        (EditModel {
            languages: *languages,
            source: *source,
            order: stream_order@,
            chosen: left_subtitle_order@,
            defaults: default_streams@,
            audio: audio_settings@,
            video: video_settings@,
            replacements: subtitle_replacements@,
            imports: subtitle_imports@,
            changes: subtitle_changes@,
            sidecars: sidecars@,
            container,
        }).audio_is_there(),
    ensures
        says(
            result,
            result_problem(
                (EditModel {
                    languages: *languages,
                    source: *source,
                    order: stream_order@,
                    chosen: left_subtitle_order@,
                    defaults: default_streams@,
                    audio: audio_settings@,
                    video: video_settings@,
                    replacements: subtitle_replacements@,
                    imports: subtitle_imports@,
                    changes: subtitle_changes@,
                    sidecars: sidecars@,
                    container,
                }),
                *output,
            ),
        ),
{
    let ghost edit = EditModel {
        languages: *languages,
        source: *source,
        order: stream_order@,
        chosen: left_subtitle_order@,
        defaults: default_streams@,
        audio: audio_settings@,
        video: video_settings@,
        replacements: subtitle_replacements@,
        imports: subtitle_imports@,
        changes: subtitle_changes@,
        sidecars: sidecars@,
        container,
    };
    if !any_video(output) {
        return Err("The remuxed file has no playable video track.".to_owned());
    }
    let plan = output_track_plan(
        source,
        stream_order,
        left_subtitle_order,
        subtitle_imports,
        sidecars,
    );
    let streams = streams_written(output);
    if !same_texts(&list_kinds(&streams), &list_planned_kinds(source, &plan)) {
        return Err("The remuxed tracks are not in the requested order.".to_owned());
    }
    proof {
        assert(subtitle_imports@.len() == subtitle_imports.len());
        lemma_plan_within(
            *source,
            stream_order@,
            left_subtitle_order@,
            subtitle_imports@,
            sidecars@,
        );
        lemma_plan_in_order(
            *source,
            stream_order@,
            left_subtitle_order@,
            subtitle_imports@,
            sidecars@,
        );
    }
    let defaults = list_defaults(&plan, default_streams, subtitle_imports);
    assert(defaults@ =~= edit.default_flags());
    let forced = muxer_forced_default_positions(output, defaults.as_slice(), container);
    let mut position: usize = 0;
    while position < streams.len()
        invariant
            0 <= position <= streams.len(),
            edit == (EditModel {
                languages: *languages,
                source: *source,
                order: stream_order@,
                chosen: left_subtitle_order@,
                defaults: default_streams@,
                audio: audio_settings@,
                video: video_settings@,
                replacements: subtitle_replacements@,
                imports: subtitle_imports@,
                changes: subtitle_changes@,
                sidecars: sidecars@,
                container,
            }),
            edit.audio_is_there(),
            plan@ == edit.plan(),
            defaults@ == edit.default_flags(),
            derefs(streams@) == written_streams(*output, output.streams@),
            forall|i: int|
                0 <= i < plan@.len() ==> import_within(#[trigger] plan@[i], subtitle_imports@.len()),
            within_order(plan@, stream_order@),
            forall|at: usize|
                #[trigger] forced@.contains(at) == forced_defaults(
                    *output,
                    defaults@,
                    container,
                    at as int,
                ),
            result_problem(edit, *output) == written_problems(
                edit,
                *output,
                derefs(streams@),
                position as int,
            ),
        decreases streams.len() - position,
    {
        let stream: &Stream = streams[position];
        assert(derefs(streams@)[position as int] == *stream);
        if position >= plan.len() {
            return Err("The remuxed file has an unexpected extra track.".to_owned());
        }
        let track: OutputTrack = plan[position];
        let expected: bool = defaults[position];
        let found: bool = is_default(stream);
        assert(expected == edit.default(track));
        assert(import_within(plan@[position as int], subtitle_imports@.len()));
        if found != expected && !(found && forced.contains(&position)) {
            return Err(default_message(position, track, expected, found, default_streams));
        }
        match track {
            OutputTrack::Imported(import) => {
                match check_import(stream, &subtitle_imports[import], position) {
                    Ok(_) => {},
                    Err(message) => return Err(message),
                }
            },
            OutputTrack::Existing(index) => {
                assert(stream_order@.contains(index));
                let source_stream = find_stream(source, index);
                if let Some(settings) = audio_settings.get(&index) {
                    if let Some(own) = source_stream {
                        match check_audio(stream, own, settings, container, position) {
                            Ok(_) => {},
                            Err(message) => return Err(message),
                        }
                    }
                }
                let replacement = find_replacement(subtitle_replacements, index);
                if let Some(own) = source_stream {
                    let change = find_metadata_change(subtitle_changes, index);
                    if stream_is(own, "subtitle") && (change.is_some() || replacement.is_some()) {
                        let mut metadata = match change {
                            Some(change) => effective_subtitle_metadata(
                                languages,
                                change,
                                stream_metadata(own),
                            ),
                            None => stream_metadata(own),
                        };
                        if let Some(container) = container {
                            container.retain_supported_subtitle_metadata(&mut metadata);
                        }
                        if !subtitle_metadata_matches(stream, &metadata) {
                            return Err(
                                position_message(
                                    "The subtitle track at position ",
                                    position,
                                    " has the wrong metadata.",
                                ),
                            );
                        }
                    }
                }
                if let Some(replacement) = replacement {
                    if !same_optional_text(
                        stream_codec(stream),
                        Some(subtitle_replacements[replacement].target.ffmpeg_codec()),
                    ) {
                        return Err(
                            position_message(
                                "The converted subtitle track at position ",
                                position,
                                " has the wrong codec.",
                            ),
                        );
                    }
                } else if let Some(settings) = video_settings.get(&index) {
                    match check_video(stream, source_stream, settings, container, position) {
                        Ok(_) => {},
                        Err(message) => return Err(message),
                    }
                }
            },
        }
        position = position + 1;
    }
    assert(derefs(streams@).len() == streams@.len());
    Ok(())
}

// The container of the written file.

/// Whether a written file is in the container that was asked for: its name has to say so,
/// and the probe has to.
pub open spec fn in_container(
    output: MediaInfo,
    path: crate::path::PathModel,
    expected: ContainerFormat,
) -> bool {
    let format_name = match format_name_of(output) {
        Some(format_name) => format_name,
        None => ""@,
    };
    &&& path.extension() is Some && ascii_lower(path.extension()->0) == ascii_lower(
        expected.extension_text(),
    )
    &&& if expected.iso() {
        lists(format_name, ',', "mov"@) || lists(format_name, ',', "mp4"@)
    } else {
        lists(format_name, ',', "matroska"@) || lists(format_name, ',', "webm"@)
    }
}

pub fn validate_output_container(
    output: &MediaInfo,
    path: &FilePath,
    expected: ContainerFormat,
) -> (result: Result<(), String>)
    ensures
        says(
            result,
            if in_container(*output, path@, expected) {
                None
            } else {
                Some(
                    "The completed file is not a valid "@ + expected.label_text() + " container."@,
                )
            },
        ),
{
    let extension_matches = match path.extension() {
        Some(extension) => same_ignoring_case(extension, expected.extension()),
        None => false,
    };
    let name = match format_name(output) {
        Some(name) => name,
        None => "",
    };
    let names = split(name, ',');
    let format_matches = match expected {
        ContainerFormat::Matroska | ContainerFormat::WebM => holds(names.as_slice(), "matroska")
            || holds(names.as_slice(), "webm"),
        ContainerFormat::Mp4 | ContainerFormat::Mov => holds(names.as_slice(), "mov") || holds(
            names.as_slice(),
            "mp4",
        ),
    };
    if extension_matches && format_matches {
        Ok(())
    } else {
        let mut message = "The completed file is not a valid ".to_owned();
        message.append(expected.label());
        message.append(" container.");
        Err(message)
    }
}

// Laws.

/// Whether video settings ask for an encode of a track: for another size, or for another
/// codec than it has.
pub open spec fn asks_for_video(source: Stream, settings: VideoSettings) -> bool {
    ||| settings.resolution != VideoResolution::Original
    ||| settings.codec != VideoCodec::Original && codec_of(source) != settings.codec.name_text()
}

/// Whether audio settings ask for an encode of a track: for another layout, or for another
/// codec than it has.
pub open spec fn asks_for_audio(source: Stream, settings: AudioSettings) -> bool {
    ||| settings.channel_layout != AudioChannelLayout::Original
    ||| settings.codec != AudioCodec::Original && codec_of(source) != settings.codec.name_text()
}

/// A copied video is accepted exactly where it has the rotation that was staged, and the
/// metadata. An encoded one has its rotation in the picture: it is accepted exactly where it
/// has none beside it, and the metadata, the codec and the size are right.
pub proof fn videos_are_accepted_as_asked(
    stream: Stream,
    source: Stream,
    settings: VideoSettings,
    container: Option<ContainerFormat>,
    position: int,
)
    ensures
        ({
            let accepted = video_written_problem(
                stream,
                Some(source),
                settings,
                container,
                position,
            ) is None;
            let metadata = video_tags(stream) == (match container {
                Some(container) => container.kept_video(settings.metadata@),
                None => settings.metadata@,
            });
            let codec = codec_of(stream) == (match settings.codec {
                VideoCodec::H264 => Some("h264"@),
                VideoCodec::Hevc => Some("hevc"@),
                VideoCodec::Av1 => Some("av1"@),
                VideoCodec::Original => if codec_of(source) == Some("h264"@) || codec_of(source)
                    == Some("hevc"@) || codec_of(source) == Some("av1"@) {
                    codec_of(source)
                } else {
                    None
                },
            });
            let width = number_of(stream, "width"@);
            let height = number_of(stream, "height"@);
            let turned = settings.rotation == VideoRotation::Cw90 || settings.rotation
                == VideoRotation::Cw270;
            let source_width = number_of(source, "width"@);
            let source_height = number_of(source, "height"@);
            let size = match settings.resolution {
                VideoResolution::Original => turned && source_width is Some && source_height is Some
                    ==> width == source_height && height == source_width,
                VideoResolution::P2160 => width == Some(3840u64) && height == Some(2160u64),
                VideoResolution::P1440 => width == Some(2560u64) && height == Some(1440u64),
                VideoResolution::P1080 => width == Some(1920u64) && height == Some(1080u64),
                VideoResolution::P960 => width == Some(1920u64) && height == Some(960u64),
                VideoResolution::P720 => width == Some(1280u64) && height == Some(720u64),
                VideoResolution::P480 => width == Some(854u64) && height == Some(480u64),
                VideoResolution::Custom(custom) => width == Some(custom.width) && height == Some(
                    custom.height,
                ),
            };
            if asks_for_video(source, settings) {
                accepted <==> metadata && rotation_of(stream) == VideoRotation::Upright && codec
                    && size
            } else {
                accepted <==> metadata && rotation_of(stream) == settings.rotation
            }
        }),
{
}

/// What is said about a wrong rotation: which one was expected, then which one was found.
pub proof fn wrong_rotations_are_told(
    stream: Stream,
    source: Stream,
    settings: VideoSettings,
    container: Option<ContainerFormat>,
    position: int,
)
    requires
        !asks_for_video(source, settings),
        video_written_problem(stream, Some(source), settings, container, position) is Some,
        video_tags(stream) == kept_video_in(container, settings.metadata@),
    ensures
        video_written_problem(stream, Some(source), settings, container, position)->0
            == "The video track at position "@ + decimal(position as nat)
            + " has the wrong rotation: expected "@ + degrees_text(settings.rotation) + ", found "@
            + degrees_text(rotation_of(stream)) + "."@,
{
    reveal_with_fuel(decimal, 4);
    reveal_strlit("0");
    reveal_strlit("90");
    reveal_strlit("180");
    reveal_strlit("270");
    assert(decimal(0) =~= "0"@);
    assert(decimal(90) =~= "90"@);
    assert(decimal(180) =~= "180"@);
    assert(decimal(270) =~= "270"@);
}

/// A rotation in degrees.
pub open spec fn degrees_text(rotation: VideoRotation) -> Seq<char> {
    match rotation {
        VideoRotation::Upright => "0"@,
        VideoRotation::Cw90 => "90"@,
        VideoRotation::Cw180 => "180"@,
        VideoRotation::Cw270 => "270"@,
    }
}

/// A written soundtrack is accepted exactly where it has the metadata and the channels that
/// were asked for and, where it was encoded, the codec that was asked for, or else its own,
/// and the best sample rate of that codec.
pub proof fn soundtracks_are_accepted_as_asked(
    stream: Stream,
    source: Stream,
    settings: AudioSettings,
    container: Option<ContainerFormat>,
    position: int,
)
    ensures
        ({
            let accepted = audio_written_problem(
                stream,
                source,
                settings,
                container,
                position,
            ) is None;
            let metadata = audio_tags(stream) == (match container {
                Some(container) => container.kept_audio(settings.metadata@),
                None => settings.metadata@,
            });
            let channels = match settings.channel_layout {
                AudioChannelLayout::Original => true,
                AudioChannelLayout::Surround71 => channels_of(stream) == Some(8u8),
                AudioChannelLayout::Surround51 => channels_of(stream) == Some(6u8),
                AudioChannelLayout::Stereo => channels_of(stream) == Some(2u8),
                AudioChannelLayout::Mono => channels_of(stream) == Some(1u8),
            };
            let codec = if settings.codec != AudioCodec::Original {
                codec_of(stream) == settings.codec.name_text()
            } else if codec_of(source) is Some && AudioCodec::of_name(codec_of(source)->0) is Some {
                codec_of(stream) == codec_of(source)
            } else {
                codec_of(stream) is None
            };
            let target = if settings.codec != AudioCodec::Original {
                Some(settings.codec)
            } else if codec_of(source) is Some {
                AudioCodec::of_name(codec_of(source)->0)
            } else {
                None
            };
            let rate = target is Some && sample_rate_of(source) is Some && resolved_rate(
                target->0,
                sample_rate_of(source)->0,
            ) is Some ==> sample_rate_of(stream) == resolved_rate(
                target->0,
                sample_rate_of(source)->0,
            );
            if asks_for_audio(source, settings) {
                accepted <==> metadata && channels && codec && rate
            } else {
                accepted <==> metadata
            }
        }),
{
    if codec_of(source) is Some && AudioCodec::of_name(codec_of(source)->0) is Some {
        crate::audio::codec_names_read_back(AudioCodec::of_name(codec_of(source)->0)->0);
        crate::audio::names_of_codecs_read_back(codec_of(source)->0);
    }
}

/// An imported subtitle is accepted exactly where it has the codec and the metadata of the
/// import.
pub proof fn imports_are_accepted_as_staged(stream: Stream, import: SubtitleImport, position: int)
    ensures
        import_problem(stream, import, position) is None <==> {
            &&& codec_of(stream) == Some(
                match import.target {
                    SubtitleFormat::SubRip => "subrip"@,
                    SubtitleFormat::Ass => "ass"@,
                    SubtitleFormat::MovText => "mov_text"@,
                    SubtitleFormat::Pgs => "hdmv_pgs_subtitle"@,
                    SubtitleFormat::VobSub => "dvd_subtitle"@,
                },
            )
            &&& subtitle_tags(stream) == import.metadata@
        },
{
}

/// What is expected of the subtitle of a track of the source: what was staged for it, or
/// else what it had, as far as the container stores it.
pub proof fn subtitles_are_expected_as_staged(
    languages: Languages,
    changes: Seq<SubtitleChange>,
    stream: Stream,
    index: u64,
    container: Option<ContainerFormat>,
    position: int,
)
    ensures
        (forall|i: int|
            0 <= i < changes.len() ==> (#[trigger] changes[i]).source@ != SourceModel::Embedded(
                index,
            ) || changes[i].metadata is None) ==> subtitle_tags_after(
            languages,
            changes,
            stream,
            index,
            container,
        ) == kept_subtitle_in(container, subtitle_tags(stream)),
        0 <= position < changes.len() && changes[position].source@ == SourceModel::Embedded(index)
            && changes[position].metadata is Some && (forall|i: int|
            0 <= i < position ==> (#[trigger] changes[i]).source@ != SourceModel::Embedded(index)
                || changes[i].metadata is None) ==> subtitle_tags_after(
            languages,
            changes,
            stream,
            index,
            container,
        ) == kept_subtitle_in(
            container,
            effective_tags(languages, changes[position], subtitle_tags(stream)),
        ),
    decreases changes.len(),
{
    if changes.len() > 0 {
        let rest = changes.skip(1);
        assert(forall|i: int| 0 <= i < rest.len() ==> #[trigger] rest[i] == changes[i + 1]);
        subtitles_are_expected_as_staged(
            languages,
            rest,
            stream,
            index,
            container,
            position - 1,
        );
        if position == 0 {
        } else if 0 < position < changes.len() {
            assert(rest[position - 1] == changes[position]);
            if forall|i: int|
                0 <= i < position ==> (#[trigger] changes[i]).source@ != SourceModel::Embedded(
                    index,
                ) || changes[i].metadata is None {
                assert(changes[0].source@ != SourceModel::Embedded(index) || changes[0].metadata
                    is None);
            }
        }
        if forall|i: int|
            0 <= i < changes.len() ==> (#[trigger] changes[i]).source@ != SourceModel::Embedded(
                index,
            ) || changes[i].metadata is None {
            assert(changes[0].source@ != SourceModel::Embedded(index) || changes[0].metadata
                is None);
        }
    }
}

/// The replacement of a track is the first that names it.
pub proof fn replacements_are_found_by_their_track(
    replacements: Seq<SubtitleReplacement>,
    index: u64,
)
    ensures
        match replacement_of(replacements, index) {
            Some(position) => 0 <= position < replacements.len()
                && replacements[position].source_index == index && forall|i: int|
                0 <= i < position ==> (#[trigger] replacements[i]).source_index != index,
            None => forall|i: int|
                0 <= i < replacements.len() ==> (#[trigger] replacements[i]).source_index != index,
        },
    decreases replacements.len(),
{
    if replacements.len() > 0 {
        let rest = replacements.skip(1);
        replacements_are_found_by_their_track(rest, index);
        assert(forall|i: int| 0 <= i < rest.len() ==> #[trigger] rest[i] == replacements[i + 1]);
        assert forall|i: int| 1 <= i < replacements.len() implies #[trigger] replacements[i]
            == rest[i - 1] by {}
    }
}

/// Every kind that is known, in order.
proof fn lemma_kinds(streams: Seq<Stream>)
    requires
        forall|i: int| 0 <= i < streams.len() ==> kind_of(#[trigger] streams[i]) is Some,
    ensures
        kinds(streams).len() == streams.len(),
        forall|i: int|
            0 <= i < streams.len() ==> #[trigger] kinds(streams)[i] == kind_of(streams[i])->0,
    decreases streams.len(),
{
    if streams.len() > 0 {
        let before = streams.drop_last();
        assert(forall|i: int| 0 <= i < before.len() ==> #[trigger] before[i] == streams[i]);
        lemma_kinds(before);
        assert(kind_of(streams[streams.len() - 1]) is Some);
    }
}

proof fn lemma_planned_kinds(source: MediaInfo, plan: Seq<OutputTrack>)
    requires
        forall|i: int| 0 <= i < plan.len() ==> planned_kind(source, #[trigger] plan[i]) is Some,
    ensures
        planned_kinds(source, plan).len() == plan.len(),
        forall|i: int|
            0 <= i < plan.len() ==> #[trigger] planned_kinds(source, plan)[i] == planned_kind(
                source,
                plan[i],
            )->0,
    decreases plan.len(),
{
    if plan.len() > 0 {
        let before = plan.drop_last();
        assert(forall|i: int| 0 <= i < before.len() ==> #[trigger] before[i] == plan[i]);
        lemma_planned_kinds(source, before);
        assert(planned_kind(source, plan[plan.len() - 1]) is Some);
    }
}

proof fn lemma_written_problems(
    edit: EditModel,
    output: MediaInfo,
    streams: Seq<Stream>,
    position: int,
)
    requires
        0 <= position <= streams.len(),
    ensures
        written_problems(edit, output, streams, position) is None <==> forall|i: int|
            position <= i < streams.len() ==> written_problem(
                edit,
                output,
                #[trigger] streams[i],
                i,
            ) is None,
    decreases streams.len() - position,
{
    if position < streams.len() {
        lemma_written_problems(edit, output, streams, position + 1);
    }
}

/// A written file is accepted only where it has video that plays, a track for every planned
/// one and no more, each of its kind and each as it was asked for.
pub proof fn accepted_files_are_as_planned(edit: EditModel, output: MediaInfo)
    requires
        forall|i: int|
            0 <= i < output.streams@.len() ==> kind_of(#[trigger] output.streams@[i]) is Some,
        forall|i: int|
            0 <= i < edit.plan().len() ==> planned_kind(
                edit.source,
                #[trigger] edit.plan()[i],
            ) is Some,
    ensures
        ({
            let streams = written_streams(output, output.streams@);
            result_problem(edit, output) is None <==> {
                &&& exists|i: int|
                    0 <= i < output.streams@.len() && kind_of(#[trigger] output.streams@[i])
                        == Some("video"@) && !flagged(output.streams@[i], "attached_pic"@)
                &&& streams.len() == edit.plan().len()
                &&& forall|i: int|
                    0 <= i < streams.len() ==> kind_of(#[trigger] streams[i]) == planned_kind(
                        edit.source,
                        edit.plan()[i],
                    )
                &&& forall|i: int|
                    0 <= i < streams.len() ==> written_problem(
                        edit,
                        output,
                        #[trigger] streams[i],
                        i,
                    ) is None
            }
        }),
{
    let streams = written_streams(output, output.streams@);
    let plan = edit.plan();
    crate::plan::written_streams_are_all_but_chapters(output, output.streams@);
    assert forall|i: int| 0 <= i < streams.len() implies kind_of(#[trigger] streams[i]) is Some by {
        assert(streams.contains(streams[i]));
        assert(output.streams@.contains(streams[i]));
        let k = choose|k: int|
            0 <= k < output.streams@.len() && output.streams@[k] == streams[i];
        assert(kind_of(output.streams@[k]) is Some);
    }
    lemma_kinds(streams);
    lemma_planned_kinds(edit.source, plan);
    lemma_written_problems(edit, output, streams, 0);
    let (found, planned) = (kinds(streams), planned_kinds(edit.source, plan));
    if streams.len() == plan.len() && (forall|i: int|
        0 <= i < streams.len() ==> kind_of(#[trigger] streams[i]) == planned_kind(
            edit.source,
            plan[i],
        )) {
        assert forall|i: int| 0 <= i < found.len() implies #[trigger] found[i] == planned[i] by {
            assert(kind_of(streams[i]) == planned_kind(edit.source, plan[i]));
        }
        assert(found =~= planned);
    }
    if found == planned {
        assert forall|i: int| 0 <= i < streams.len() implies kind_of(#[trigger] streams[i])
            == planned_kind(edit.source, plan[i]) by {
            assert(found[i] == planned[i]);
        }
    }
    if has_video(output.streams@) {
        let i = choose|i: int|
            0 <= i < output.streams@.len() && is_playable(#[trigger] output.streams@[i]);
        assert(kind_of(output.streams@[i]) == Some("video"@));
    }
}

/// A track is flagged as default where that was asked for, and only there: but MP4 and MOV
/// flag the first track of a kind of which none was asked to be.
pub proof fn defaults_are_accepted_as_asked(
    edit: EditModel,
    output: MediaInfo,
    stream: Stream,
    position: int,
)
    requires
        0 <= position < edit.plan().len(),
        written_problem(edit, output, stream, position) is None,
    ensures
        edit.default(edit.plan()[position]) ==> flagged(stream, "default"@),
        flagged(stream, "default"@) && !edit.default(edit.plan()[position]) ==> edit.container
            == Some(ContainerFormat::Mp4) || edit.container == Some(ContainerFormat::Mov),
{
}

/// A track of the source is accepted exactly where everything that was staged for it is
/// there: its sound, its metadata, and its converted subtitle or its picture.
pub proof fn tracks_are_accepted_as_staged(
    edit: EditModel,
    stream: Stream,
    index: u64,
    position: int,
)
    ensures
        ({
            let source = stream_at(edit.source.streams@, index);
            let replaced = replacement_of(edit.replacements, index);
            existing_problem(edit, stream, index, position) is None <==> {
                &&& edit.audio.contains_key(index) && source is Some ==> audio_written_problem(
                    stream,
                    source->0,
                    edit.audio[index],
                    edit.container,
                    position,
                ) is None
                &&& source is Some && kind_of(source->0) == Some("subtitle"@) && (replaced is Some
                    || metadata_change_of(edit.changes, index) is Some) ==> subtitle_tags(stream)
                    == subtitle_tags_after(
                    edit.languages,
                    edit.changes,
                    source->0,
                    index,
                    edit.container,
                )
                &&& replaced is Some ==> codec_of(stream) == Some(
                    edit.replacements[replaced->0].target.codec_text(),
                )
                &&& replaced is None && edit.video.contains_key(index) ==> video_written_problem(
                    stream,
                    source,
                    edit.video[index],
                    edit.container,
                    position,
                ) is None
            }
        }),
{
}

/// A written file is in a container where its name ends as the container's do, in any case,
/// and the probe lists one of the names that the container goes by.
pub proof fn written_files_are_in_their_container(
    output: MediaInfo,
    path: crate::path::PathModel,
    format_name: Seq<char>,
)
    requires
        format_name_of(output) == Some(format_name),
    ensures
        in_container(output, path, ContainerFormat::Matroska) <==> (path.extension() is Some
            && ascii_lower(path.extension()->0) == ascii_lower("mkv"@) && (pieces(
            format_name,
            ',',
        ).contains("matroska"@) || pieces(format_name, ',').contains("webm"@))),
        in_container(output, path, ContainerFormat::WebM) <==> (path.extension() is Some
            && ascii_lower(path.extension()->0) == ascii_lower("webm"@) && (pieces(
            format_name,
            ',',
        ).contains("matroska"@) || pieces(format_name, ',').contains("webm"@))),
        in_container(output, path, ContainerFormat::Mp4) <==> (path.extension() is Some
            && ascii_lower(path.extension()->0) == ascii_lower("mp4"@) && (pieces(
            format_name,
            ',',
        ).contains("mp4"@) || pieces(format_name, ',').contains("mov"@))),
        in_container(output, path, ContainerFormat::Mov) <==> (path.extension() is Some
            && ascii_lower(path.extension()->0) == ascii_lower("mov"@) && (pieces(
            format_name,
            ',',
        ).contains("mp4"@) || pieces(format_name, ',').contains("mov"@))),
{
}

/// What is said of a track that was not written as asked.
pub proof fn refused_tracks_say_why(
    stream: Stream,
    import: SubtitleImport,
    source: Stream,
    audio: AudioSettings,
    video: VideoSettings,
    container: Option<ContainerFormat>,
    position: int,
)
    ensures
        ({
            let number = decimal(position as nat);
            let problem = import_problem(stream, import, position);
            let codec = codec_of(stream) == Some(import.target.codec_text());
            &&& !codec ==> problem == Some(
                "The imported subtitle track at position "@ + number + " has the wrong codec."@,
            )
            &&& codec && subtitle_tags(stream) != import.metadata@ ==> problem == Some(
                "The imported subtitle track at position "@ + number + " has the wrong metadata."@,
            )
        }),
        ({
            let number = decimal(position as nat);
            let problem = audio_written_problem(stream, source, audio, container, position);
            let channels = audio.channel_layout.channel_count();
            let codec_is_right = !asks_for_audio(source, audio) || (match audio_codec_after(
                source,
                audio,
            ) {
                Some(codec) => codec.name_text(),
                None => None,
            }) == codec_of(stream);
            let channels_are_right = channels is None || channels == channels_of(stream);
            let rate = match (audio_codec_after(source, audio), sample_rate_of(source)) {
                (Some(codec), Some(rate)) => resolved_rate(codec, rate),
                _ => None,
            };
            let rate_is_right = !asks_for_audio(source, audio) || rate is None || rate
                == sample_rate_of(stream);
            &&& !codec_is_right ==> problem == Some(
                "The encoded audio track at position "@ + number + " has the wrong codec."@,
            )
            &&& codec_is_right && !channels_are_right ==> problem == Some(
                "The encoded audio track at position "@ + number
                    + " has the wrong channel layout."@,
            )
            &&& codec_is_right && channels_are_right && !rate_is_right ==> problem == Some(
                "The encoded audio track at position "@ + number + " has the wrong sample rate."@,
            )
            &&& codec_is_right && channels_are_right && rate_is_right && problem is Some
                ==> problem == Some(
                "The audio track at position "@ + number + " has the wrong metadata."@,
            )
        }),
        ({
            let number = decimal(position as nat);
            let problem = video_written_problem(stream, Some(source), video, container, position);
            let tags = video_tags(stream) == kept_video_in(container, video.metadata@);
            let upright = rotation_of(stream) == VideoRotation::Upright;
            &&& !tags ==> problem == Some(
                "The video track at position "@ + number + " has the wrong metadata."@,
            )
            &&& tags && upright && asks_for_video(source, video) && codec_of(stream) is Some
                && video.codec.name_text() is Some && codec_of(stream) != video.codec.name_text()
                ==> problem == Some(
                "The encoded video track at position "@ + number + " has the wrong codec."@,
            )
            &&& tags && upright && asks_for_video(source, video) && video.codec.name_text() is Some
                && codec_of(stream) == video.codec.name_text() && problem is Some ==> problem
                == Some(
                "The encoded video track at position "@ + number + " has the wrong resolution."@,
            )
        }),
{
}

/// What is said of a file that was not written as planned: of the tracks that are not as
/// asked, the first is told.
pub proof fn refused_files_say_why(edit: EditModel, output: MediaInfo, stream: Stream, i: int)
    ensures
        ({
            let streams = written_streams(output, output.streams@);
            let problem = result_problem(edit, output);
            let plays = exists|k: int|
                0 <= k < output.streams@.len() && is_playable(#[trigger] output.streams@[k]);
            let in_order = kinds(streams) == planned_kinds(edit.source, edit.plan());
            &&& !plays ==> problem == Some("The remuxed file has no playable video track."@)
            &&& plays && !in_order ==> problem == Some(
                "The remuxed tracks are not in the requested order."@,
            )
            &&& plays && in_order && 0 <= i < streams.len() && written_problem(
                edit,
                output,
                streams[i],
                i,
            ) is Some && (forall|k: int|
                0 <= k < i ==> written_problem(edit, output, #[trigger] streams[k], k) is None)
                ==> problem == written_problem(edit, output, streams[i], i)
        }),
        i >= edit.plan().len() ==> written_problem(edit, output, stream, i) == Some(
            "The remuxed file has an unexpected extra track."@,
        ),
        0 <= i < edit.plan().len() && edit.default(edit.plan()[i]) && !flagged(stream, "default"@)
            ==> written_problem(edit, output, stream, i) == Some(
            "The remuxed track at position "@ + decimal(i as nat) + " ("@ + (
            match edit.plan()[i] {
                OutputTrack::Existing(index) => "source track #"@ + decimal(index as nat),
                OutputTrack::Imported(import) => "imported subtitle #"@ + decimal(import as nat),
            }) + ") has the wrong default flag: expected true, found false. Staged defaults: "@
                + braced(edit.defaults) + "."@,
        ),
{
    let streams = written_streams(output, output.streams@);
    if 0 <= i < streams.len() && written_problem(edit, output, streams[i], i) is Some && (forall|
        k: int,
    |
        0 <= k < i ==> written_problem(edit, output, #[trigger] streams[k], k) is None) {
        lemma_first_problem(edit, output, streams, 0, i);
    }
    if 0 <= i < edit.plan().len() && edit.default(edit.plan()[i]) && !flagged(stream, "default"@) {
        let track = match edit.plan()[i] {
            OutputTrack::Existing(index) => "source track #"@ + decimal(index as nat),
            OutputTrack::Imported(import) => "imported subtitle #"@ + decimal(import as nat),
        };
        reveal_strlit(") has the wrong default flag: expected ");
        reveal_strlit("true");
        reveal_strlit(", found ");
        reveal_strlit("false");
        reveal_strlit(". Staged defaults: ");
        reveal_strlit(
            ") has the wrong default flag: expected true, found false. Staged defaults: ",
        );
        assert(") has the wrong default flag: expected "@ + "true"@ + ", found "@ + "false"@
            + ". Staged defaults: "@
            =~= ") has the wrong default flag: expected true, found false. Staged defaults: "@);
        let head = "The remuxed track at position "@ + decimal(i as nat) + " ("@ + track;
        assert(head + ") has the wrong default flag: expected "@ + "true"@ + ", found "@ + "false"@
            + ". Staged defaults: "@ + braced(edit.defaults) + "."@ =~= head + (
        ") has the wrong default flag: expected "@ + "true"@ + ", found "@ + "false"@
            + ". Staged defaults: "@) + braced(edit.defaults) + "."@);
    }
}

proof fn lemma_first_problem(
    edit: EditModel,
    output: MediaInfo,
    streams: Seq<Stream>,
    from: int,
    i: int,
)
    requires
        0 <= from <= i < streams.len(),
        written_problem(edit, output, streams[i], i) is Some,
        forall|k: int|
            from <= k < i ==> written_problem(edit, output, #[trigger] streams[k], k) is None,
    ensures
        written_problems(edit, output, streams, from) == written_problem(
            edit,
            output,
            streams[i],
            i,
        ),
    decreases i - from,
{
    if from < i {
        assert(written_problem(edit, output, streams[from], from) is None);
        lemma_first_problem(edit, output, streams, from + 1, i);
    }
}

/// A track of the file is default where it was chosen, and an imported one as it was staged.
pub proof fn defaults_are_the_chosen_ones(edit: EditModel, index: u64, import: usize)
    ensures
        edit.default(OutputTrack::Existing(index)) == edit.defaults.contains(index),
        edit.default(OutputTrack::Imported(import)) == edit.imports[import as int].default,
        planned_kind(edit.source, OutputTrack::Imported(import)) == Some("subtitle"@),
        stream_at(edit.source.streams@, index) is Some ==> planned_kind(
            edit.source,
            OutputTrack::Existing(index),
        ) == kind_of(stream_at(edit.source.streams@, index)->0),
{
}

} // verus!
