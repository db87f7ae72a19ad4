//! The arguments of the tools that carry out an edit.

use std::collections::{BTreeMap, BTreeSet};

use vstd::prelude::*;
use vstd::string::StringExecFns;

use crate::audio::{
    audio_bitrate_kbps, bitrate, resolved_audio_sample_rate, resolved_rate, AudioChannelLayout,
    AudioCodec, AudioSettings,
};
use crate::container::{ContainerFormat, ContainerMetadata, ContainerTags};
use crate::disposition::{
    audio_disposition, audio_flags, flags_text, subtitle_disposition, subtitle_flags,
    video_disposition, video_flags,
};
use crate::path::{FilePath, PathModel};
use crate::plan::{
    import_within, lemma_plan_in_order, lemma_plan_within, output_track_plan, within_order,
    OutputTrack, SubtitleImport, SubtitleReplacement,
};
use crate::probe::{
    audio_tags, channels_of, codec_of, encodable_codec, find_stream, format_name, format_name_of, index_of,
    is_kind, kind_of, language_of,
    sample_rate_of, source_codec, stream_at, stream_channels, stream_is, stream_kind,
    stream_language, stream_metadata, stream_sample_rate, video_tags, MediaInfo, Stream,
};
use crate::result::{
    find_metadata_change, find_replacement, metadata_change_of, replacement_of, subtitle_tags_after,
    EditModel,
};
use crate::subtitle::{
    effective_subtitle_metadata, Languages, SidecarEntry, SubtitleChange, TrackRef,
};
use crate::text::{decimal, number_text, numbers_read_back, opt_text};
use crate::transcode::{
    audio_codec_after, audio_encoded, audio_metadata_for_output, audio_requires_transcode,
    audio_tags_after, display_rotation_args, effective_audio_codec, encodes_audio, encodes_video,
    opt_deref, pair_texts, requires_transcode, rotation_args, should_write_audio_metadata,
    should_write_video_metadata, some_audio_encode, some_video_encode, video_encoded,
    video_metadata_for_output, video_tags_after,
};
use crate::video::{
    encoder_of, encoder_settings, filter_of, resolution_filter, VideoCodec, VideoResolution,
    VideoSettings,
};

verus! {

broadcast use vstd::std_specs::btree::group_btree_axioms;

/// One argument of a command.
#[derive(Clone, Debug, Eq, PartialEq)]
pub enum Argument {
    Text(String),
    Path(FilePath),
}

/// What an [`Argument`] is.
pub ghost enum Arg {
    Text(Seq<char>),
    Path(PathModel),
}

impl View for Argument {
    type V = Arg;

    open spec fn view(&self) -> Arg {
        match self {
            Argument::Text(text) => Arg::Text(text@),
            Argument::Path(path) => Arg::Path(path@),
        }
    }
}

/// What a list of arguments is.
pub open spec fn arguments(list: Seq<Argument>) -> Seq<Arg> {
    list.map_values(|argument: Argument| argument@)
}

/// A text as an argument.
pub open spec fn text_arg(text: Seq<char>) -> Arg {
    Arg::Text(text)
}

pub fn push_text(list: &mut Vec<Argument>, text: &str)
    ensures
        arguments(final(list)@) == arguments(old(list)@).push(text_arg(text@)),
{
    let ghost before = list@;
    list.push(Argument::Text(text.to_owned()));
    assert(arguments(list@) =~= arguments(before).push(text_arg(text@)));
}

pub fn push_path(list: &mut Vec<Argument>, path: &FilePath)
    ensures
        arguments(final(list)@) == arguments(old(list)@).push(Arg::Path(path@)),
{
    let ghost before = list@;
    list.push(Argument::Path(path.clone()));
    assert(arguments(list@) =~= arguments(before).push(Arg::Path(path@)));
}

/// A text with a number behind it.
pub open spec fn numbered(text: Seq<char>, number: nat) -> Seq<char> {
    text + decimal(number)
}

fn push_numbered(list: &mut Vec<Argument>, text: &str, number: u64)
    ensures
        arguments(final(list)@) == arguments(old(list)@).push(
            text_arg(numbered(text@, number as nat)),
        ),
{
    let mut written = text.to_owned();
    written.append(number_text(number).as_str());
    push_text(list, written.as_str());
}

fn push_joined(list: &mut Vec<Argument>, before: &str, after: &str)
    ensures
        arguments(final(list)@) == arguments(old(list)@).push(text_arg(before@ + after@)),
{
    let mut written = before.to_owned();
    written.append(after);
    push_text(list, written.as_str());
}

// Head and inputs.

/// How every remux begins.
pub open spec fn head_args() -> Seq<Arg> {
    seq![
        text_arg("-v"@),
        text_arg("error"@),
        text_arg("-nostdin"@),
        text_arg("-y"@),
        text_arg("-progress"@),
        text_arg("pipe:1"@),
        text_arg("-nostats"@),
    ]
}

fn push_head(list: &mut Vec<Argument>)
    ensures
        arguments(final(list)@) == arguments(old(list)@) + head_args(),
{
    let ghost before = arguments(list@);
    push_text(list, "-v");
    push_text(list, "error");
    push_text(list, "-nostdin");
    push_text(list, "-y");
    push_text(list, "-progress");
    push_text(list, "pipe:1");
    push_text(list, "-nostats");
    assert(arguments(list@) =~= before + head_args());
}

/// The rotations to store, before the input they are of.
pub open spec fn rotation_options(rotations: Seq<(Seq<char>, Seq<char>)>) -> Seq<Arg>
    decreases rotations.len(),
{
    if rotations.len() == 0 {
        Seq::empty()
    } else {
        rotation_options(rotations.drop_last()) + seq![
            text_arg("-display_rotation:"@ + rotations.last().0),
            text_arg(rotations.last().1),
        ]
    }
}

fn push_rotations(list: &mut Vec<Argument>, rotations: &Vec<(String, String)>)
    ensures
        arguments(final(list)@) == arguments(old(list)@) + rotation_options(
            pair_texts(rotations@),
        ),
{
    let ghost before = arguments(list@);
    let ghost pairs = pair_texts(rotations@);
    let mut i: usize = 0;
    assert(before =~= before + rotation_options(pairs.take(0)));
    while i < rotations.len()
        invariant
            0 <= i <= rotations.len(),
            pairs == pair_texts(rotations@),
            arguments(list@) == before + rotation_options(pairs.take(i as int)),
        decreases rotations.len() - i,
    {
        proof {
            assert(pairs.take(i + 1).drop_last() =~= pairs.take(i as int));
            assert(pairs.take(i + 1).last() == (rotations@[i as int].0@, rotations@[i as int].1@));
        }
        push_joined(list, "-display_rotation:", rotations[i].0.as_str());
        push_text(list, rotations[i].1.as_str());
        assert(arguments(list@) =~= before + rotation_options(pairs.take(i + 1)));
        i = i + 1;
    }
    assert(pairs.take(pairs.len() as int) =~= pairs);
}

/// The converted subtitles as inputs.
pub open spec fn replacement_inputs(replacements: Seq<SubtitleReplacement>) -> Seq<Arg>
    decreases replacements.len(),
{
    if replacements.len() == 0 {
        Seq::empty()
    } else {
        replacement_inputs(replacements.drop_last()) + seq![
            text_arg("-i"@),
            Arg::Path(replacements.last().path@),
        ]
    }
}

/// The imported subtitles as inputs.
pub open spec fn import_inputs(imports: Seq<SubtitleImport>) -> Seq<Arg>
    decreases imports.len(),
{
    if imports.len() == 0 {
        Seq::empty()
    } else {
        import_inputs(imports.drop_last()) + seq![
            text_arg("-i"@),
            Arg::Path(imports.last().path@),
        ]
    }
}

/// The inputs: the source first, then the converted subtitles, then the imported ones.
pub open spec fn input_args(
    source: PathModel,
    replacements: Seq<SubtitleReplacement>,
    imports: Seq<SubtitleImport>,
) -> Seq<Arg> {
    seq![text_arg("-i"@), Arg::Path(source)] + replacement_inputs(replacements) + import_inputs(
        imports,
    )
}

fn push_inputs(
    list: &mut Vec<Argument>,
    source: &FilePath,
    replacements: &[SubtitleReplacement],
    imports: &[SubtitleImport],
)
    ensures
        arguments(final(list)@) == arguments(old(list)@) + input_args(
            source@,
            replacements@,
            imports@,
        ),
{
    let ghost before = arguments(list@);
    push_text(list, "-i");
    push_path(list, source);
    let ghost first = seq![text_arg("-i"@), Arg::Path(source@)];
    let mut i: usize = 0;
    assert(arguments(list@) =~= before + (first + replacement_inputs(replacements@.take(0))));
    while i < replacements.len()
        invariant
            0 <= i <= replacements.len(),
            arguments(list@) == before + (first + replacement_inputs(
                replacements@.take(i as int),
            )),
        decreases replacements.len() - i,
    {
        proof {
            assert(replacements@.take(i + 1).drop_last() =~= replacements@.take(i as int));
            assert(replacements@.take(i + 1).last() == replacements@[i as int]);
        }
        push_text(list, "-i");
        push_path(list, &replacements[i].path);
        assert(arguments(list@) =~= before + (first + replacement_inputs(
            replacements@.take(i + 1),
        )));
        i = i + 1;
    }
    assert(replacements@.take(replacements@.len() as int) =~= replacements@);
    let ghost second = first + replacement_inputs(replacements@);
    i = 0;
    assert(arguments(list@) =~= before + (second + import_inputs(imports@.take(0))));
    while i < imports.len()
        invariant
            0 <= i <= imports.len(),
            arguments(list@) == before + (second + import_inputs(imports@.take(i as int))),
        decreases imports.len() - i,
    {
        proof {
            assert(imports@.take(i + 1).drop_last() =~= imports@.take(i as int));
            assert(imports@.take(i + 1).last() == imports@[i as int]);
        }
        push_text(list, "-i");
        push_path(list, &imports[i].path);
        assert(arguments(list@) =~= before + (second + import_inputs(imports@.take(i + 1))));
        i = i + 1;
    }
    assert(imports@.take(imports@.len() as int) =~= imports@);
}

// Maps.

/// The stream that a planned track is read from: a converted subtitle and an import are
/// the only stream of an input of their own.
pub open spec fn map_text(replacements: Seq<SubtitleReplacement>, track: OutputTrack) -> Seq<char> {
    match track {
        OutputTrack::Existing(index) => match replacement_of(replacements, index) {
            Some(position) => decimal((position + 1) as nat) + ":0"@,
            None => numbered("0:"@, index as nat),
        },
        OutputTrack::Imported(import) => decimal(1 + replacements.len() + import as nat) + ":0"@,
    }
}

/// One map for each planned track.
pub open spec fn map_args(replacements: Seq<SubtitleReplacement>, plan: Seq<OutputTrack>) -> Seq<Arg>
    decreases plan.len(),
{
    if plan.len() == 0 {
        Seq::empty()
    } else {
        map_args(replacements, plan.drop_last()) + seq![
            text_arg("-map"@),
            text_arg(map_text(replacements, plan.last())),
        ]
    }
}

fn push_maps(
    list: &mut Vec<Argument>,
    replacements: &[SubtitleReplacement],
    imports: usize,
    plan: &Vec<OutputTrack>,
)
    requires
        forall|i: int| 0 <= i < plan@.len() ==> import_within(#[trigger] plan@[i], imports as nat),
        replacements@.len() + imports < usize::MAX,
    ensures
        arguments(final(list)@) == arguments(old(list)@) + map_args(replacements@, plan@),
{
    let ghost before = arguments(list@);
    let mut i: usize = 0;
    assert(before =~= before + map_args(replacements@, plan@.take(0)));
    while i < plan.len()
        invariant
            0 <= i <= plan.len(),
            replacements@.len() + imports < usize::MAX,
            forall|k: int|
                0 <= k < plan@.len() ==> import_within(#[trigger] plan@[k], imports as nat),
            arguments(list@) == before + map_args(replacements@, plan@.take(i as int)),
        decreases plan.len() - i,
    {
        proof {
            assert(plan@.take(i + 1).drop_last() =~= plan@.take(i as int));
            assert(plan@.take(i + 1).last() == plan@[i as int]);
            assert(import_within(plan@[i as int], imports as nat));
        }
        push_text(list, "-map");
        match plan[i] {
            OutputTrack::Existing(index) => {
                match find_replacement(replacements, index) {
                    Some(position) => {
                        let mut text = number_text((position + 1) as u64);
                        text.append(":0");
                        push_text(list, text.as_str());
                    },
                    None => {
                        push_numbered(list, "0:", index);
                    },
                }
            },
            OutputTrack::Imported(import) => {
                let input: usize = 1 + replacements.len() + import;
                let mut text = number_text(input as u64);
                text.append(":0");
                push_text(list, text.as_str());
            },
        }
        assert(arguments(list@) =~= before + map_args(replacements@, plan@.take(i + 1)));
        i = i + 1;
    }
    assert(plan@.take(plan@.len() as int) =~= plan@);
}

/// What is copied from the source before anything is changed.
pub open spec fn copy_args() -> Seq<Arg> {
    seq![
        text_arg("-map_metadata"@),
        text_arg("0"@),
        text_arg("-map_chapters"@),
        text_arg("0"@),
        text_arg("-c"@),
        text_arg("copy"@),
    ]
}

fn push_copy(list: &mut Vec<Argument>)
    ensures
        arguments(final(list)@) == arguments(old(list)@) + copy_args(),
{
    let ghost before = arguments(list@);
    push_text(list, "-map_metadata");
    push_text(list, "0");
    push_text(list, "-map_chapters");
    push_text(list, "0");
    push_text(list, "-c");
    push_text(list, "copy");
    assert(arguments(list@) =~= before + copy_args());
}

// Metadata of the whole file.

/// One tag of the whole file.
pub open spec fn tag_args(key: Seq<char>, value: Option<Seq<char>>) -> Seq<Arg> {
    match value {
        Some(value) => seq![text_arg("-metadata"@), text_arg(key + value)],
        None => Seq::empty(),
    }
}

fn push_tag(list: &mut Vec<Argument>, key: &str, value: &Option<String>)
    ensures
        arguments(final(list)@) == arguments(old(list)@) + tag_args(key@, opt_text(*value)),
{
    let ghost before = arguments(list@);
    if let Some(value) = value {
        push_text(list, "-metadata");
        push_joined(list, key, value.as_str());
    }
    assert(arguments(list@) =~= before + tag_args(key@, opt_text(*value)));
}

/// The tags of the whole file.
pub open spec fn file_tag_args(tags: Option<ContainerTags>) -> Seq<Arg> {
    match tags {
        Some(tags) => tag_args("title="@, tags.title) + tag_args("comment="@, tags.comment)
            + tag_args("date="@, tags.date) + tag_args("genre="@, tags.genre) + tag_args(
            "artist="@,
            tags.artist,
        ),
        None => Seq::empty(),
    }
}

/// The tags inside optional metadata.
pub open spec fn opt_container_tags(metadata: Option<&ContainerMetadata>) -> Option<
    ContainerTags,
> {
    match metadata {
        Some(metadata) => Some(metadata@),
        None => None,
    }
}

fn push_file_tags(list: &mut Vec<Argument>, metadata: Option<&ContainerMetadata>)
    ensures
        arguments(final(list)@) == arguments(old(list)@) + file_tag_args(
            opt_container_tags(metadata),
        ),
{
    let ghost before = arguments(list@);
    if let Some(metadata) = metadata {
        push_tag(list, "title=", &metadata.title);
        push_tag(list, "comment=", &metadata.comment);
        push_tag(list, "date=", &metadata.date);
        push_tag(list, "genre=", &metadata.genre);
        push_tag(list, "artist=", &metadata.artist);
    }
    assert(arguments(list@) =~= before + file_tag_args(opt_container_tags(metadata)));
}

// Encodes.

/// The codec a video encode writes.
pub open spec fn video_target(stream: Stream, settings: VideoSettings) -> Option<Seq<char>> {
    match settings.codec.name_text() {
        Some(codec) => Some(codec),
        None => encodable_codec(stream),
    }
}

/// Whether an encode that video settings ask for can be carried out.
pub open spec fn video_encodable(stream: Stream, settings: VideoSettings) -> bool {
    encodes_video(stream, settings) ==> video_target(stream, settings) is Some && encoder_of(
        video_target(stream, settings)->0,
    ) is Some
}

/// Whether an encode that audio settings ask for can be carried out.
pub open spec fn audio_encodable(stream: Stream, settings: AudioSettings) -> bool {
    encodes_audio(stream, settings) ==> {
        &&& audio_codec_after(stream, settings) is Some
        &&& sample_rate_of(stream) is Some
        &&& resolved_rate(audio_codec_after(stream, settings)->0, sample_rate_of(stream)->0) is Some
    }
}

/// The options of one video encode, of the track of a number among the video tracks.
pub open spec fn video_encode_args(
    stream: Stream,
    settings: VideoSettings,
    number: nat,
) -> Seq<Arg> {
    let encoder = encoder_of(video_target(stream, settings)->0)->0;
    seq![
        text_arg(numbered("-c:v:"@, number)),
        text_arg(encoder.0),
        text_arg(numbered("-crf:v:"@, number)),
        text_arg(encoder.1),
        text_arg(numbered("-preset:v:"@, number)),
        text_arg(encoder.2),
    ] + match filter_of(settings.resolution) {
        Some(filter) => seq![text_arg(numbered("-filter:v:"@, number)), text_arg(filter)],
        None => Seq::empty(),
    }
}

fn push_video_encode(
    list: &mut Vec<Argument>,
    stream: &Stream,
    settings: &VideoSettings,
    number: u64,
)
    requires
        encodes_video(*stream, *settings),
        video_encodable(*stream, *settings),
    ensures
        arguments(final(list)@) == arguments(old(list)@) + video_encode_args(
            *stream,
            *settings,
            number as nat,
        ),
{
    let ghost before = arguments(list@);
    let codec: &str = match settings.codec.codec_name() {
        Some(codec) => codec,
        None => source_codec(stream).unwrap(),
    };
    let (encoder, quality, preset) = encoder_settings(codec).unwrap();
    push_numbered(list, "-c:v:", number);
    push_text(list, encoder);
    push_numbered(list, "-crf:v:", number);
    push_text(list, quality);
    push_numbered(list, "-preset:v:", number);
    push_text(list, preset);
    if let Some(filter) = resolution_filter(settings.resolution) {
        push_numbered(list, "-filter:v:", number);
        push_text(list, filter.as_str());
    }
    assert(arguments(list@) =~= before + video_encode_args(*stream, *settings, number as nat));
}

/// How many tracks of an order are of a kind.
pub open spec fn kind_count(source: MediaInfo, order: Seq<u64>, kind: Seq<char>) -> nat
    decreases order.len(),
{
    if order.len() == 0 {
        0
    } else if crate::plan::track_is(source, order.last(), kind) {
        kind_count(source, order.drop_last(), kind) + 1
    } else {
        kind_count(source, order.drop_last(), kind)
    }
}

/// The options of all video encodes.
pub open spec fn video_args(
    source: MediaInfo,
    order: Seq<u64>,
    settings: Map<u64, VideoSettings>,
) -> Seq<Arg>
    decreases order.len(),
{
    if order.len() == 0 {
        Seq::empty()
    } else {
        let before = video_args(source, order.drop_last(), settings);
        let index = order.last();
        match stream_at(source.streams@, index) {
            Some(stream) if is_kind(stream, "video"@) && settings.contains_key(index)
                && encodes_video(stream, settings[index]) => before + video_encode_args(
                stream,
                settings[index],
                kind_count(source, order.drop_last(), "video"@),
            ),
            _ => before,
        }
    }
}

/// Whether every track of an order is in the source and the encodes of it can be
/// carried out.
pub open spec fn order_encodable(
    source: MediaInfo,
    order: Seq<u64>,
    audio: Map<u64, AudioSettings>,
    video: Map<u64, VideoSettings>,
) -> bool {
    forall|i: int| 0 <= i < order.len() ==> track_encodable(source, #[trigger] order[i], audio, video)
}

pub open spec fn track_encodable(
    source: MediaInfo,
    index: u64,
    audio: Map<u64, AudioSettings>,
    video: Map<u64, VideoSettings>,
) -> bool {
    match stream_at(source.streams@, index) {
        Some(stream) => {
            &&& is_kind(stream, "video"@) && video.contains_key(index) ==> video_encodable(
                stream,
                video[index],
            )
            &&& is_kind(stream, "audio"@) && audio.contains_key(index) ==> audio_encodable(
                stream,
                audio[index],
            )
        },
        None => false,
    }
}

fn push_video(
    list: &mut Vec<Argument>,
    source: &MediaInfo,
    order: &[u64],
    settings: &BTreeMap<u64, VideoSettings>,
    Ghost(audio): Ghost<Map<u64, AudioSettings>>,
)
    requires
        order_encodable(*source, order@, audio, settings@),
    ensures
        arguments(final(list)@) == arguments(old(list)@) + video_args(*source, order@, settings@),
{
    let ghost before = arguments(list@);
    let mut number: u64 = 0;
    let mut i: usize = 0;
    assert(before =~= before + video_args(*source, order@.take(0), settings@));
    while i < order.len()
        invariant
            0 <= i <= order.len(),
            order_encodable(*source, order@, audio, settings@),
            number == kind_count(*source, order@.take(i as int), "video"@),
            number <= i,
            arguments(list@) == before + video_args(*source, order@.take(i as int), settings@),
        decreases order.len() - i,
    {
        let index: u64 = order[i];
        proof {
            assert(order@.take(i + 1).drop_last() =~= order@.take(i as int));
            assert(order@.take(i + 1).last() == index);
            assert(track_encodable(*source, order@[i as int], audio, settings@));
        }
        if let Some(stream) = find_stream(source, index) {
            if stream_is(stream, "video") {
                if let Some(own) = settings.get(&index) {
                    if requires_transcode(stream, own) {
                        push_video_encode(list, stream, own, number);
                        assert(arguments(list@) =~= before + video_args(
                            *source,
                            order@.take(i + 1),
                            settings@,
                        ));
                    }
                }
                number = number + 1;
            }
        }
        i = i + 1;
    }
    assert(order@.take(order@.len() as int) =~= order@);
}

/// The bitrate of an audio encode, where one is chosen for it.
pub open spec fn encode_bitrate(stream: Stream, settings: AudioSettings, codec: AudioCodec) -> Option<
    u32,
> {
    let channels = match settings.channel_layout.channel_count() {
        Some(channels) => Some(channels),
        None => channels_of(stream),
    };
    match channels {
        Some(channels) if !codec.lossless() => bitrate(codec, channels),
        _ => None,
    }
}

/// The options of one audio encode, of the track of a number among the audio tracks.
pub open spec fn audio_encode_args(
    stream: Stream,
    settings: AudioSettings,
    number: nat,
) -> Seq<Arg> {
    let codec = audio_codec_after(stream, settings)->0;
    let source_rate = sample_rate_of(stream)->0;
    let rate = resolved_rate(codec, source_rate)->0;
    seq![
        text_arg(numbered("-c:a:"@, number)),
        text_arg(codec.encoder_text()->0),
    ] + (match settings.channel_layout.channel_count() {
        Some(channels) => seq![
            text_arg(numbered("-ac:a:"@, number)),
            text_arg(decimal(channels as nat)),
        ],
        None => Seq::empty(),
    }) + (if rate != source_rate {
        seq![text_arg(numbered("-ar:a:"@, number)), text_arg(decimal(rate as nat))]
    } else {
        Seq::empty()
    }) + (match encode_bitrate(stream, settings, codec) {
        Some(kilobits) => seq![
            text_arg(numbered("-b:a:"@, number)),
            text_arg(decimal(kilobits as nat) + "k"@),
        ],
        None => Seq::empty(),
    })
}

fn push_audio_encode(
    list: &mut Vec<Argument>,
    stream: &Stream,
    settings: &AudioSettings,
    number: u64,
)
    requires
        encodes_audio(*stream, *settings),
        audio_encodable(*stream, *settings),
    ensures
        arguments(final(list)@) == arguments(old(list)@) + audio_encode_args(
            *stream,
            *settings,
            number as nat,
        ),
{
    let ghost before = arguments(list@);
    let codec = effective_audio_codec(stream, settings).unwrap();
    push_numbered(list, "-c:a:", number);
    push_text(list, codec.encoder().unwrap());
    if let Some(channels) = settings.channel_layout.channels() {
        push_numbered(list, "-ac:a:", number);
        push_text(list, number_text(channels as u64).as_str());
    }
    let source_rate: u32 = stream_sample_rate(stream).unwrap();
    let rate: u32 = resolved_audio_sample_rate(codec, source_rate).unwrap();
    if rate != source_rate {
        push_numbered(list, "-ar:a:", number);
        push_text(list, number_text(rate as u64).as_str());
    }
    let channels: Option<u8> = match settings.channel_layout.channels() {
        Some(channels) => Some(channels),
        None => stream_channels(stream),
    };
    if !codec.is_lossless() {
        if let Some(channels) = channels {
            if let Some(kilobits) = audio_bitrate_kbps(codec, channels) {
                push_numbered(list, "-b:a:", number);
                let mut text = number_text(kilobits as u64);
                text.append("k");
                push_text(list, text.as_str());
            }
        }
    }
    assert(arguments(list@) =~= before + audio_encode_args(*stream, *settings, number as nat));
}

/// The options of all audio encodes.
pub open spec fn audio_args(
    source: MediaInfo,
    order: Seq<u64>,
    settings: Map<u64, AudioSettings>,
) -> Seq<Arg>
    decreases order.len(),
{
    if order.len() == 0 {
        Seq::empty()
    } else {
        let before = audio_args(source, order.drop_last(), settings);
        let index = order.last();
        match stream_at(source.streams@, index) {
            Some(stream) if is_kind(stream, "audio"@) && settings.contains_key(index)
                && encodes_audio(stream, settings[index]) => before + audio_encode_args(
                stream,
                settings[index],
                kind_count(source, order.drop_last(), "audio"@),
            ),
            _ => before,
        }
    }
}

fn push_audio(
    list: &mut Vec<Argument>,
    source: &MediaInfo,
    order: &[u64],
    settings: &BTreeMap<u64, AudioSettings>,
    Ghost(video): Ghost<Map<u64, VideoSettings>>,
)
    requires
        order_encodable(*source, order@, settings@, video),
    ensures
        arguments(final(list)@) == arguments(old(list)@) + audio_args(*source, order@, settings@),
{
    let ghost before = arguments(list@);
    let mut number: u64 = 0;
    let mut i: usize = 0;
    assert(before =~= before + audio_args(*source, order@.take(0), settings@));
    while i < order.len()
        invariant
            0 <= i <= order.len(),
            order_encodable(*source, order@, settings@, video),
            number == kind_count(*source, order@.take(i as int), "audio"@),
            number <= i,
            arguments(list@) == before + audio_args(*source, order@.take(i as int), settings@),
        decreases order.len() - i,
    {
        let index: u64 = order[i];
        proof {
            assert(order@.take(i + 1).drop_last() =~= order@.take(i as int));
            assert(order@.take(i + 1).last() == index);
            assert(track_encodable(*source, order@[i as int], settings@, video));
        }
        if let Some(stream) = find_stream(source, index) {
            if stream_is(stream, "audio") {
                if let Some(own) = settings.get(&index) {
                    if audio_requires_transcode(stream, own) {
                        push_audio_encode(list, stream, own, number);
                        assert(arguments(list@) =~= before + audio_args(
                            *source,
                            order@.take(i + 1),
                            settings@,
                        ));
                    }
                }
                number = number + 1;
            }
        }
        i = i + 1;
    }
    assert(order@.take(order@.len() as int) =~= order@);
}

// Metadata of each track.

/// A title, empty where there is none.
pub open spec fn title_or_empty(title: Option<Seq<char>>) -> Seq<char> {
    match title {
        Some(title) => title,
        None => ""@,
    }
}

/// The language, title and flags of a track.
pub open spec fn track_tag_args(
    position: nat,
    language: Seq<char>,
    title_key: Seq<char>,
    title: Option<Seq<char>>,
    flags: Seq<char>,
) -> Seq<Arg> {
    seq![
        text_arg(numbered("-metadata:s:"@, position)),
        text_arg("language="@ + language),
        text_arg(numbered("-metadata:s:"@, position)),
        text_arg(title_key + title_or_empty(title)),
        text_arg(numbered("-disposition:"@, position)),
        text_arg(flags),
    ]
}

fn push_track_tags(
    list: &mut Vec<Argument>,
    position: usize,
    language: &str,
    title_key: &str,
    title: &Option<String>,
    flags: &str,
)
    ensures
        arguments(final(list)@) == arguments(old(list)@) + track_tag_args(
            position as nat,
            language@,
            title_key@,
            opt_text(*title),
            flags@,
        ),
{
    let ghost before = arguments(list@);
    push_numbered(list, "-metadata:s:", position as u64);
    push_joined(list, "language=", language);
    push_numbered(list, "-metadata:s:", position as u64);
    let words: &str = match title {
        Some(title) => title.as_str(),
        None => "",
    };
    push_joined(list, title_key, words);
    push_numbered(list, "-disposition:", position as u64);
    push_text(list, flags);
    assert(arguments(list@) =~= before + track_tag_args(
        position as nat,
        language@,
        title_key@,
        opt_text(*title),
        flags@,
    ));
}

/// The key that a container stores the title of a track under.
pub open spec fn title_key(container: Option<ContainerFormat>) -> Seq<char> {
    if container is Some && container->0.iso() {
        "handler_name="@
    } else {
        "title="@
    }
}

fn key_of_title(container: Option<ContainerFormat>) -> (result: &'static str)
    ensures
        result@ == title_key(container),
{
    match container {
        Some(ContainerFormat::Mp4) => "handler_name=",
        Some(ContainerFormat::Mov) => "handler_name=",
        _ => "title=",
    }
}

/// The container that metadata is written for: the one asked for, or else the one the
/// source is in.
pub open spec fn metadata_container(edit: EditModel, source: PathModel) -> Option<ContainerFormat> {
    match edit.container {
        Some(container) => Some(container),
        None => ContainerFormat::detected(source, format_name_of(edit.source)),
    }
}

/// The settings of a track, where it has any.
pub open spec fn settings_of<S>(settings: Map<u64, S>, index: u64) -> Option<S> {
    if settings.contains_key(index) {
        Some(settings[index])
    } else {
        None
    }
}

/// The metadata options of a track of the source.
pub open spec fn existing_args(edit: EditModel, source: PathModel, index: u64, position: nat) -> Seq<
    Arg,
> {
    let stream = stream_at(edit.source.streams@, index)->0;
    let container = metadata_container(edit, source);
    let default = edit.defaults.contains(index);
    let head = seq![
        text_arg(numbered("-map_metadata:s:"@, position)),
        text_arg(numbered("0:s:"@, index as nat)),
    ];
    let language = if is_kind(stream, "subtitle"@) {
        seq![
            text_arg(numbered("-metadata:s:"@, position)),
            text_arg("language="@ + language_of(stream)),
        ]
    } else {
        Seq::empty()
    };
    head + language + (if is_kind(stream, "audio"@) && (edit.audio.contains_key(index)
        || edit.container is Some) {
        let tags = audio_tags_after(stream, settings_of(edit.audio, index), container);
        track_tag_args(
            position,
            tags.language,
            title_key(container),
            tags.title,
            flags_text(audio_flags(stream, default, tags)),
        )
    } else if is_kind(stream, "video"@) && (edit.video.contains_key(index) || edit.container
        is Some) {
        let tags = video_tags_after(stream, settings_of(edit.video, index), container);
        track_tag_args(
            position,
            tags.language,
            title_key(container),
            tags.title,
            flags_text(video_flags(stream, default, tags)),
        )
    } else if replacement_of(edit.replacements, index) is Some || metadata_change_of(
        edit.changes,
        index,
    ) is Some {
        let tags = subtitle_tags_after(edit.languages, edit.changes, stream, index, container);
        track_tag_args(
            position,
            tags.language,
            "title="@,
            tags.title,
            flags_text(subtitle_flags(Some(stream), default, tags)),
        )
    } else {
        seq![
            text_arg(numbered("-disposition:"@, position)),
            text_arg(
                if default {
                    "+default"@
                } else {
                    "-default"@
                },
            ),
        ]
    })
}

/// The metadata options of a planned track.
pub open spec fn planned_args(
    edit: EditModel,
    source: PathModel,
    track: OutputTrack,
    position: nat,
) -> Seq<Arg> {
    match track {
        OutputTrack::Existing(index) => existing_args(edit, source, index, position),
        OutputTrack::Imported(import) => {
            let import = edit.imports[import as int];
            track_tag_args(
                position,
                import.metadata@.language,
                "title="@,
                import.metadata@.title,
                flags_text(subtitle_flags(None, import.default, import.metadata@)),
            )
        },
    }
}

/// The metadata options of the planned tracks, in order.
pub open spec fn plan_args(edit: EditModel, source: PathModel, plan: Seq<OutputTrack>) -> Seq<Arg>
    decreases plan.len(),
{
    if plan.len() == 0 {
        Seq::empty()
    } else {
        plan_args(edit, source, plan.drop_last()) + planned_args(
            edit,
            source,
            plan.last(),
            (plan.len() - 1) as nat,
        )
    }
}

/// How every remux ends: the container to write and the file to write it to.
pub open spec fn tail_args(container: Option<ContainerFormat>, temporary: PathModel) -> Seq<Arg> {
    (match container {
        Some(container) => (if container.iso() {
            seq![text_arg("-movflags"@), text_arg("+faststart"@)]
        } else {
            Seq::empty()
        }) + seq![text_arg("-f"@), text_arg(container.muxer_text())],
        None => Seq::empty(),
    }) + seq![Arg::Path(temporary)]
}

fn push_tail(list: &mut Vec<Argument>, container: Option<ContainerFormat>, temporary: &FilePath)
    ensures
        arguments(final(list)@) == arguments(old(list)@) + tail_args(container, temporary@),
{
    let ghost before = arguments(list@);
    if let Some(container) = container {
        if matches!(container, ContainerFormat::Mp4 | ContainerFormat::Mov) {
            push_text(list, "-movflags");
            push_text(list, "+faststart");
        }
        push_text(list, "-f");
        push_text(list, container.muxer());
    }
    push_path(list, temporary);
    assert(arguments(list@) =~= before + tail_args(container, temporary@));
}

/// The arguments of a remux.
pub open spec fn remux_args(
    edit: EditModel,
    source: PathModel,
    temporary: PathModel,
    tags: Option<ContainerTags>,
) -> Seq<Arg> {
    head_args() + rotation_options(rotation_args(edit.source.streams@, edit.video)) + input_args(
        source,
        edit.replacements,
        edit.imports,
    ) + map_args(edit.replacements, edit.plan()) + copy_args() + file_tag_args(tags) + video_args(
        edit.source,
        edit.order,
        edit.video,
    ) + audio_args(edit.source, edit.order, edit.audio) + plan_args(edit, source, edit.plan())
        + tail_args(edit.container, temporary)
}

/// A remux: the source, the file it is written to, and everything that is asked for.
pub struct FfmpegPlan<'a> {
    pub source: &'a FilePath,
    pub temporary: &'a FilePath,
    pub source_info: &'a MediaInfo,
    pub stream_order: &'a [u64],
    pub left_subtitle_order: &'a [TrackRef],
    pub default_streams: &'a BTreeSet<u64>,
    pub audio_settings: &'a BTreeMap<u64, AudioSettings>,
    pub video_settings: &'a BTreeMap<u64, VideoSettings>,
    pub replacements: &'a [SubtitleReplacement],
    pub imports: &'a [SubtitleImport],
    pub subtitle_changes: &'a [SubtitleChange],
    pub sidecars: &'a [SidecarEntry],
    pub languages: &'a Languages,
    pub container: Option<ContainerFormat>,
    pub container_metadata: Option<&'a ContainerMetadata>,
}

impl<'a> FfmpegPlan<'a> {
    /// The edit that is written.
    pub open spec fn edit(self) -> EditModel {
        EditModel {
            languages: *self.languages,
            source: *self.source_info,
            order: self.stream_order@,
            chosen: self.left_subtitle_order@,
            defaults: self.default_streams@,
            audio: self.audio_settings@,
            video: self.video_settings@,
            replacements: self.replacements@,
            imports: self.imports@,
            changes: self.subtitle_changes@,
            sidecars: self.sidecars@,
            container: self.container,
        }
    }

    /// Whether every kept track is in the source and every encode can be carried out.
    pub open spec fn encodable(self) -> bool {
        order_encodable(
            *self.source_info,
            self.stream_order@,
            self.audio_settings@,
            self.video_settings@,
        )
    }
}

fn push_existing(
    list: &mut Vec<Argument>,
    plan: &FfmpegPlan<'_>,
    container: Option<ContainerFormat>,
    index: u64,
    position: usize,
)
    requires
        stream_at(plan.source_info.streams@, index) is Some,
        container == metadata_container(plan.edit(), plan.source@),
    ensures
        arguments(final(list)@) == arguments(old(list)@) + existing_args(
            plan.edit(),
            plan.source@,
            index,
            position as nat,
        ),
{
    let ghost before = arguments(list@);
    let stream: &Stream = find_stream(plan.source_info, index).unwrap();
    let default: bool = plan.default_streams.contains(&index);
    push_numbered(list, "-map_metadata:s:", position as u64);
    push_numbered(list, "0:s:", index);
    if stream_is(stream, "subtitle") {
        push_numbered(list, "-metadata:s:", position as u64);
        push_joined(list, "language=", stream_language(stream).as_str());
    }
    let ghost middle = arguments(list@);
    let audio_settings = plan.audio_settings.get(&index);
    let video_settings = plan.video_settings.get(&index);
    if should_write_audio_metadata(
        stream_kind(stream),
        audio_settings.is_some(),
        plan.container.is_some(),
    ) {
        let metadata = audio_metadata_for_output(stream, audio_settings, container);
        let flags = audio_disposition(stream, default, &metadata);
        push_track_tags(
            list,
            position,
            metadata.language.as_str(),
            key_of_title(container),
            &metadata.title,
            flags.as_str(),
        );
        assert(opt_deref(audio_settings) == settings_of(plan.audio_settings@, index));
        assert(arguments(list@) =~= before + existing_args(
            plan.edit(),
            plan.source@,
            index,
            position as nat,
        ));
        return ;
    }
    if should_write_video_metadata(
        stream_kind(stream),
        video_settings.is_some(),
        plan.container.is_some(),
    ) {
        let metadata = video_metadata_for_output(stream, video_settings, container);
        let flags = video_disposition(stream, default, &metadata);
        push_track_tags(
            list,
            position,
            metadata.language.as_str(),
            key_of_title(container),
            &metadata.title,
            flags.as_str(),
        );
        assert(opt_deref(video_settings) == settings_of(plan.video_settings@, index));
        proof {
            reveal_strlit("audio");
            reveal_strlit("video");
            assert("audio"@[0] != "video"@[0]);
        }
        assert(arguments(list@) =~= before + existing_args(
            plan.edit(),
            plan.source@,
            index,
            position as nat,
        ));
        return ;
    }
    let change = find_metadata_change(plan.subtitle_changes, index);
    if find_replacement(plan.replacements, index).is_some() || change.is_some() {
        let mut metadata = match change {
            Some(change) => effective_subtitle_metadata(
                plan.languages,
                change,
                stream_metadata(stream),
            ),
            None => stream_metadata(stream),
        };
        if let Some(container) = container {
            container.retain_supported_subtitle_metadata(&mut metadata);
        }
        let flags = subtitle_disposition(Some(stream), default, &metadata);
        push_track_tags(
            list,
            position,
            metadata.language.as_str(),
            "title=",
            &metadata.title,
            flags.as_str(),
        );
    } else {
        push_numbered(list, "-disposition:", position as u64);
        push_text(
            list,
            if default {
                "+default"
            } else {
                "-default"
            },
        );
    }
    assert(arguments(list@) =~= before + existing_args(
        plan.edit(),
        plan.source@,
        index,
        position as nat,
    ));
}

/// The arguments that a remux is carried out with.
pub fn ffmpeg_arguments(plan: &FfmpegPlan<'_>) -> (result: Vec<Argument>)
    requires
        plan.encodable(),
        plan.replacements@.len() + plan.imports@.len() < usize::MAX,
    ensures
        arguments(result@) == remux_args(
            plan.edit(),
            plan.source@,
            plan.temporary@,
            opt_container_tags(plan.container_metadata),
        ),
{
    let container = match plan.container {
        Some(container) => Some(container),
        None => ContainerFormat::detect(plan.source, format_name(plan.source_info)),
    };
    let tracks = output_track_plan(
        plan.source_info,
        plan.stream_order,
        plan.left_subtitle_order,
        plan.imports,
        plan.sidecars,
    );
    proof {
        lemma_plan_within(
            *plan.source_info,
            plan.stream_order@,
            plan.left_subtitle_order@,
            plan.imports@,
            plan.sidecars@,
        );
        lemma_plan_in_order(
            *plan.source_info,
            plan.stream_order@,
            plan.left_subtitle_order@,
            plan.imports@,
            plan.sidecars@,
        );
    }
    let mut list: Vec<Argument> = Vec::new();
    push_head(&mut list);
    assert(arguments(list@) =~= head_args());
    push_rotations(&mut list, &display_rotation_args(plan.source_info, plan.video_settings));
    push_inputs(&mut list, plan.source, plan.replacements, plan.imports);
    push_maps(&mut list, plan.replacements, plan.imports.len(), &tracks);
    push_copy(&mut list);
    push_file_tags(&mut list, plan.container_metadata);
    push_video(
        &mut list,
        plan.source_info,
        plan.stream_order,
        plan.video_settings,
        Ghost(plan.audio_settings@),
    );
    push_audio(
        &mut list,
        plan.source_info,
        plan.stream_order,
        plan.audio_settings,
        Ghost(plan.video_settings@),
    );
    let ghost before = arguments(list@);
    let mut position: usize = 0;
    assert(before =~= before + plan_args(plan.edit(), plan.source@, tracks@.take(0)));
    while position < tracks.len()
        invariant
            0 <= position <= tracks.len(),
            plan.encodable(),
            container == metadata_container(plan.edit(), plan.source@),
            forall|i: int|
                0 <= i < tracks@.len() ==> import_within(#[trigger] tracks@[i], plan.imports@.len()),
            within_order(tracks@, plan.stream_order@),
            arguments(list@) == before + plan_args(
                plan.edit(),
                plan.source@,
                tracks@.take(position as int),
            ),
        decreases tracks.len() - position,
    {
        proof {
            assert(tracks@.take(position + 1).drop_last() =~= tracks@.take(position as int));
            assert(tracks@.take(position + 1).last() == tracks@[position as int]);
            assert(import_within(tracks@[position as int], plan.imports@.len()));
        }
        match tracks[position] {
            OutputTrack::Existing(index) => {
                proof {
                    let k = choose|k: int|
                        0 <= k < plan.stream_order@.len() && plan.stream_order@[k] == index;
                    assert(track_encodable(
                        *plan.source_info,
                        plan.stream_order@[k],
                        plan.audio_settings@,
                        plan.video_settings@,
                    ));
                }
                push_existing(&mut list, plan, container, index, position);
            },
            OutputTrack::Imported(import) => {
                let import: &SubtitleImport = &plan.imports[import];
                let flags = subtitle_disposition(None, import.default, &import.metadata);
                push_track_tags(
                    &mut list,
                    position,
                    import.metadata.language.as_str(),
                    "title=",
                    &import.metadata.title,
                    flags.as_str(),
                );
            },
        }
        assert(arguments(list@) =~= before + plan_args(
            plan.edit(),
            plan.source@,
            tracks@.take(position + 1),
        ));
        position = position + 1;
    }
    assert(tracks@.take(tracks@.len() as int) =~= tracks@);
    push_tail(&mut list, plan.container, plan.temporary);
    list
}

// Laws.

/// A remux that no encode is asked of copies every track: it names no encoder.
pub proof fn unencoded_tracks_are_copied(
    source: MediaInfo,
    order: Seq<u64>,
    audio: Map<u64, AudioSettings>,
    video: Map<u64, VideoSettings>,
)
    ensures
        !some_audio_encode(source, order, audio) ==> audio_args(source, order, audio)
            == Seq::<Arg>::empty(),
        !some_video_encode(source, order, video) ==> video_args(source, order, video)
            == Seq::<Arg>::empty(),
    decreases order.len(),
{
    if order.len() > 0 {
        let shorter = order.drop_last();
        unencoded_tracks_are_copied(source, shorter, audio, video);
        if some_audio_encode(source, shorter, audio) {
            let i = choose|i: int|
                0 <= i < shorter.len() && audio_encoded(source, #[trigger] shorter[i], audio);
            assert(audio_encoded(source, order[i], audio));
        }
        if some_video_encode(source, shorter, video) {
            let i = choose|i: int|
                0 <= i < shorter.len() && video_encoded(source, #[trigger] shorter[i], video);
            assert(video_encoded(source, order[i], video));
        }
        assert(order[order.len() - 1] == order.last());
    }
}

/// Whether a list of arguments gives an option a value.
pub open spec fn gives(list: Seq<Arg>, option: Seq<char>, value: Seq<char>) -> bool {
    exists|at: int| #[trigger] gives_at(list, at, option, value)
}

/// Whether an option and its value stand at a position.
pub open spec fn gives_at(list: Seq<Arg>, at: int, option: Seq<char>, value: Seq<char>) -> bool {
    &&& 0 <= at < list.len() - 1
    &&& list[at] == text_arg(option)
    &&& list[at + 1] == text_arg(value)
}

/// How many of the first tracks of an order are of a kind.
pub open spec fn earlier_of_kind(source: MediaInfo, order: Seq<u64>, position: int, kind: Seq<char>) -> nat {
    order.take(position).filter(
        |index: u64|
            stream_at(source.streams@, index) is Some && kind_of(
                stream_at(source.streams@, index)->0,
            ) == Some(kind),
    ).len()
}

proof fn lemma_kind_count(source: MediaInfo, order: Seq<u64>, kind: Seq<char>)
    ensures
        kind_count(source, order, kind) == order.filter(
            |index: u64|
                stream_at(source.streams@, index) is Some && kind_of(
                    stream_at(source.streams@, index)->0,
                ) == Some(kind),
        ).len(),
    decreases order.len(),
{
    reveal(Seq::filter);
    if order.len() > 0 {
        lemma_kind_count(source, order.drop_last(), kind);
    }
}

/// No two tracks of a kind have the same number among the tracks of that kind.
pub proof fn tracks_of_a_kind_have_their_own_number(
    source: MediaInfo,
    order: Seq<u64>,
    one: int,
    other: int,
    kind: Seq<char>,
)
    requires
        0 <= one < other <= order.len(),
        stream_at(source.streams@, order[one]) is Some,
        kind_of(stream_at(source.streams@, order[one])->0) == Some(kind),
    ensures
        earlier_of_kind(source, order, one, kind) < earlier_of_kind(source, order, other, kind),
    decreases other,
{
    lemma_kind_count(source, order.take(one), kind);
    lemma_kind_count(source, order.take(other), kind);
    assert(order.take(other).drop_last() =~= order.take(other - 1));
    if one == other - 1 {
        assert(order.take(other).last() == order[one]);
    } else {
        tracks_of_a_kind_have_their_own_number(source, order, one, other - 1, kind);
        lemma_kind_count(source, order.take(other - 1), kind);
    }
}

// Where the options of one encode stand.

/// Whether a list of arguments holds another, in one piece.
spec fn holds_block(list: Seq<Arg>, block: Seq<Arg>) -> bool {
    exists|at: int| #[trigger] block_at(list, block, at)
}

spec fn block_at(list: Seq<Arg>, block: Seq<Arg>, at: int) -> bool {
    &&& 0 <= at <= list.len() - block.len()
    &&& list.subrange(at, at + block.len()) == block
}

proof fn lemma_block_within(before: Seq<Arg>, list: Seq<Arg>, after: Seq<Arg>, block: Seq<Arg>)
    requires
        holds_block(list, block),
    ensures
        holds_block(before + list + after, block),
{
    let at = choose|at: int| #[trigger] block_at(list, block, at);
    let all = before + list + after;
    assert(all.subrange(before.len() + at, before.len() + at + block.len()) =~= list.subrange(
        at,
        at + block.len(),
    ));
    assert(block_at(all, block, before.len() + at));
}

proof fn lemma_block_gives(list: Seq<Arg>, block: Seq<Arg>, option: Seq<char>, value: Seq<char>)
    requires
        holds_block(list, block),
        gives(block, option, value),
    ensures
        gives(list, option, value),
{
    let at = choose|at: int| #[trigger] block_at(list, block, at);
    let k = choose|k: int| #[trigger] gives_at(block, k, option, value);
    assert(list.subrange(at, at + block.len())[k] == list[at + k]);
    assert(list.subrange(at, at + block.len())[k + 1] == list[at + k + 1]);
    assert(gives_at(list, at + k, option, value));
}

proof fn lemma_audio_block(
    source: MediaInfo,
    order: Seq<u64>,
    settings: Map<u64, AudioSettings>,
    position: int,
)
    requires
        0 <= position < order.len(),
        stream_at(source.streams@, order[position]) is Some,
        is_kind(stream_at(source.streams@, order[position])->0, "audio"@),
        settings.contains_key(order[position]),
        encodes_audio(stream_at(source.streams@, order[position])->0, settings[order[position]]),
    ensures
        holds_block(
            audio_args(source, order, settings),
            audio_encode_args(
                stream_at(source.streams@, order[position])->0,
                settings[order[position]],
                earlier_of_kind(source, order, position, "audio"@),
            ),
        ),
    decreases order.len(),
{
    let shorter = order.drop_last();
    let all = audio_args(source, order, settings);
    let before = audio_args(source, shorter, settings);
    let block = audio_encode_args(
        stream_at(source.streams@, order[position])->0,
        settings[order[position]],
        earlier_of_kind(source, order, position, "audio"@),
    );
    if position == order.len() - 1 {
        assert(order.take(position) =~= shorter);
        lemma_kind_count(source, shorter, "audio"@);
        assert(all == before + block);
        assert(all.subrange(before.len() as int, (before.len() + block.len()) as int) =~= block);
        assert(block_at(all, block, before.len() as int));
    } else {
        assert(shorter[position] == order[position]);
        assert(shorter.take(position) =~= order.take(position));
        lemma_audio_block(source, shorter, settings, position);
        let more = all.skip(before.len() as int);
        assert(all =~= Seq::<Arg>::empty() + before + more);
        lemma_block_within(Seq::empty(), before, more, block);
    }
}

proof fn lemma_video_block(
    source: MediaInfo,
    order: Seq<u64>,
    settings: Map<u64, VideoSettings>,
    position: int,
)
    requires
        0 <= position < order.len(),
        stream_at(source.streams@, order[position]) is Some,
        is_kind(stream_at(source.streams@, order[position])->0, "video"@),
        settings.contains_key(order[position]),
        encodes_video(stream_at(source.streams@, order[position])->0, settings[order[position]]),
    ensures
        holds_block(
            video_args(source, order, settings),
            video_encode_args(
                stream_at(source.streams@, order[position])->0,
                settings[order[position]],
                earlier_of_kind(source, order, position, "video"@),
            ),
        ),
    decreases order.len(),
{
    let shorter = order.drop_last();
    let all = video_args(source, order, settings);
    let before = video_args(source, shorter, settings);
    let block = video_encode_args(
        stream_at(source.streams@, order[position])->0,
        settings[order[position]],
        earlier_of_kind(source, order, position, "video"@),
    );
    if position == order.len() - 1 {
        assert(order.take(position) =~= shorter);
        lemma_kind_count(source, shorter, "video"@);
        assert(all == before + block);
        assert(all.subrange(before.len() as int, (before.len() + block.len()) as int) =~= block);
        assert(block_at(all, block, before.len() as int));
    } else {
        assert(shorter[position] == order[position]);
        assert(shorter.take(position) =~= order.take(position));
        lemma_video_block(source, shorter, settings, position);
        let more = all.skip(before.len() as int);
        assert(all =~= Seq::<Arg>::empty() + before + more);
        lemma_block_within(Seq::empty(), before, more, block);
    }
}

/// What stands before the options of the encodes.
spec fn front_args(edit: EditModel, source: PathModel, tags: Option<ContainerTags>) -> Seq<Arg> {
    head_args() + rotation_options(rotation_args(edit.source.streams@, edit.video)) + input_args(
        source,
        edit.replacements,
        edit.imports,
    ) + map_args(edit.replacements, edit.plan()) + copy_args() + file_tag_args(tags)
}

/// What stands behind the options of the encodes.
spec fn back_args(edit: EditModel, source: PathModel, temporary: PathModel) -> Seq<Arg> {
    plan_args(edit, source, edit.plan()) + tail_args(edit.container, temporary)
}

proof fn lemma_remux_parts(
    edit: EditModel,
    source: PathModel,
    temporary: PathModel,
    tags: Option<ContainerTags>,
)
    ensures
        remux_args(edit, source, temporary, tags) == front_args(edit, source, tags) + video_args(
            edit.source,
            edit.order,
            edit.video,
        ) + audio_args(edit.source, edit.order, edit.audio) + back_args(edit, source, temporary),
{
    assert(remux_args(edit, source, temporary, tags) =~= front_args(edit, source, tags)
        + video_args(edit.source, edit.order, edit.video) + audio_args(
        edit.source,
        edit.order,
        edit.audio,
    ) + back_args(edit, source, temporary));
}

/// A soundtrack whose settings ask for an encode is encoded under its own number: that of
/// the soundtracks before it in the order. The encoder is that of the codec that was asked
/// for, or else of the track's own; the channels are those of the layout that was asked for.
pub proof fn sound_encodes_address_their_track(
    edit: EditModel,
    source: PathModel,
    temporary: PathModel,
    tags: Option<ContainerTags>,
    position: int,
    stream: Stream,
    settings: AudioSettings,
)
    requires
        0 <= position < edit.order.len(),
        stream_at(edit.source.streams@, edit.order[position]) == Some(stream),
        kind_of(stream) == Some("audio"@),
        edit.audio.contains_key(edit.order[position]),
        edit.audio[edit.order[position]] == settings,
        crate::result::asks_for_audio(stream, settings),
    ensures
        ({
            let list = remux_args(edit, source, temporary, tags);
            let number = decimal(earlier_of_kind(edit.source, edit.order, position, "audio"@));
            let codec = if settings.codec != AudioCodec::Original {
                settings.codec
            } else {
                AudioCodec::of_name(codec_of(stream)->0)->0
            };
            &&& settings.codec != AudioCodec::Original || (codec_of(stream) is Some
                && AudioCodec::of_name(codec_of(stream)->0) is Some) ==> gives(
                list,
                "-c:a:"@ + number,
                codec.encoder_text()->0,
            )
            &&& settings.channel_layout == AudioChannelLayout::Mono ==> gives(
                list,
                "-ac:a:"@ + number,
                "1"@,
            )
            &&& settings.channel_layout == AudioChannelLayout::Stereo ==> gives(
                list,
                "-ac:a:"@ + number,
                "2"@,
            )
            &&& settings.channel_layout == AudioChannelLayout::Surround51 ==> gives(
                list,
                "-ac:a:"@ + number,
                "6"@,
            )
            &&& settings.channel_layout == AudioChannelLayout::Surround71 ==> gives(
                list,
                "-ac:a:"@ + number,
                "8"@,
            )
        }),
{
    let order = edit.order;
    let n = earlier_of_kind(edit.source, order, position, "audio"@);
    let number = decimal(n);
    let block = audio_encode_args(stream, settings, n);
    let list = remux_args(edit, source, temporary, tags);
    lemma_audio_block(edit.source, order, edit.audio, position);
    lemma_remux_parts(edit, source, temporary, tags);
    let before = front_args(edit, source, tags) + video_args(edit.source, order, edit.video);
    lemma_block_within(
        before,
        audio_args(edit.source, order, edit.audio),
        back_args(edit, source, temporary),
        block,
    );
    let codec = audio_codec_after(stream, settings);
    if codec is Some {
        assert(gives_at(block, 0, "-c:a:"@ + number, codec->0.encoder_text()->0));
        lemma_block_gives(list, block, "-c:a:"@ + number, codec->0.encoder_text()->0);
    }
    reveal_with_fuel(decimal, 2);
    reveal_strlit("1");
    reveal_strlit("2");
    reveal_strlit("6");
    reveal_strlit("8");
    assert(decimal(1) =~= "1"@ && decimal(2) =~= "2"@ && decimal(6) =~= "6"@ && decimal(8)
        =~= "8"@);
    if settings.channel_layout != AudioChannelLayout::Original {
        let count = decimal(settings.channel_layout.channel_count()->0 as nat);
        assert(gives_at(block, 2, "-ac:a:"@ + number, count));
        lemma_block_gives(list, block, "-ac:a:"@ + number, count);
    }
}

/// A video whose settings ask for an encode is encoded under its own number: that of the
/// videos before it in the order. Its encoder, quality and speed are those of its codec, and
/// it is scaled where another size was asked for.
pub proof fn video_encodes_address_their_track(
    edit: EditModel,
    source: PathModel,
    temporary: PathModel,
    tags: Option<ContainerTags>,
    position: int,
    stream: Stream,
    settings: VideoSettings,
)
    requires
        0 <= position < edit.order.len(),
        stream_at(edit.source.streams@, edit.order[position]) == Some(stream),
        kind_of(stream) == Some("video"@),
        edit.video.contains_key(edit.order[position]),
        edit.video[edit.order[position]] == settings,
        crate::result::asks_for_video(stream, settings),
    ensures
        ({
            let list = remux_args(edit, source, temporary, tags);
            let number = decimal(earlier_of_kind(edit.source, edit.order, position, "video"@));
            let own = settings.codec == VideoCodec::Original;
            let h264 = settings.codec == VideoCodec::H264 || (own && codec_of(stream) == Some(
                "h264"@,
            ));
            let hevc = settings.codec == VideoCodec::Hevc || (own && codec_of(stream) == Some(
                "hevc"@,
            ));
            let av1 = settings.codec == VideoCodec::Av1 || (own && codec_of(stream) == Some(
                "av1"@,
            ));
            &&& h264 ==> gives(list, "-c:v:"@ + number, "libx264"@) && gives(
                list,
                "-crf:v:"@ + number,
                "22"@,
            ) && gives(list, "-preset:v:"@ + number, "medium"@)
            &&& hevc ==> gives(list, "-c:v:"@ + number, "libx265"@) && gives(
                list,
                "-crf:v:"@ + number,
                "24"@,
            ) && gives(list, "-preset:v:"@ + number, "medium"@)
            &&& av1 ==> gives(list, "-c:v:"@ + number, "libsvtav1"@) && gives(
                list,
                "-crf:v:"@ + number,
                "30"@,
            ) && gives(list, "-preset:v:"@ + number, "8"@)
            &&& settings.resolution != VideoResolution::Original ==> gives(
                list,
                "-filter:v:"@ + number,
                filter_of(settings.resolution)->0,
            )
        }),
{
    let order = edit.order;
    let n = earlier_of_kind(edit.source, order, position, "video"@);
    let number = decimal(n);
    let block = video_encode_args(stream, settings, n);
    let list = remux_args(edit, source, temporary, tags);
    lemma_video_block(edit.source, order, edit.video, position);
    lemma_remux_parts(edit, source, temporary, tags);
    let after = audio_args(edit.source, order, edit.audio) + back_args(edit, source, temporary);
    let videos = video_args(edit.source, order, edit.video);
    assert(list =~= front_args(edit, source, tags) + videos + after);
    lemma_block_within(front_args(edit, source, tags), videos, after, block);
    reveal_strlit("h264");
    reveal_strlit("hevc");
    reveal_strlit("av1");
    assert("h264"@[1] == '2' && "hevc"@[1] == 'e' && "av1"@.len() == 3);
    if let Some(codec) = video_target(stream, settings) {
        if let Some(encoder) = encoder_of(codec) {
            assert(gives_at(block, 0, "-c:v:"@ + number, encoder.0));
            assert(gives_at(block, 2, "-crf:v:"@ + number, encoder.1));
            assert(gives_at(block, 4, "-preset:v:"@ + number, encoder.2));
            lemma_block_gives(list, block, "-c:v:"@ + number, encoder.0);
            lemma_block_gives(list, block, "-crf:v:"@ + number, encoder.1);
            lemma_block_gives(list, block, "-preset:v:"@ + number, encoder.2);
        }
    }
    if settings.resolution != VideoResolution::Original {
        let filter = filter_of(settings.resolution)->0;
        assert(gives_at(block, 6, "-filter:v:"@ + number, filter));
        lemma_block_gives(list, block, "-filter:v:"@ + number, filter);
    }
}

// That nothing else names an encoder.

/// Whether an argument names an encoder of a kind of tracks, `a` or `v`.
pub open spec fn names_encoder(argument: Arg, kind: char) -> bool {
    argument matches Arg::Text(text) && text.len() >= 4 && text[0] == '-' && text[1] == 'c'
        && text[2] == ':' && text[3] == kind
}

/// Whether an argument is the option behind which the flags of a track stand.
pub open spec fn names_flags(argument: Arg) -> bool {
    argument matches Arg::Text(text) && text.len() >= 13 && text.take(13) == "-disposition:"@
}

/// Whether no argument names an encoder, but for one among the flags of a track.
spec fn clean(list: Seq<Arg>, kind: char) -> bool {
    forall|k: int|
        0 <= k < list.len() && names_encoder(#[trigger] list[k], kind) ==> k > 0 && names_flags(
            list[k - 1],
        )
}

proof fn lemma_clean_join(one: Seq<Arg>, other: Seq<Arg>, kind: char)
    requires
        clean(one, kind),
        clean(other, kind),
    ensures
        clean(one + other, kind),
{
    let all = one + other;
    assert forall|k: int| 0 <= k < all.len() && names_encoder(#[trigger] all[k], kind) implies k > 0
        && names_flags(all[k - 1]) by {
        if k < one.len() {
            assert(names_encoder(one[k], kind));
            assert(all[k - 1] == one[k - 1]);
        } else {
            assert(names_encoder(other[k - one.len()], kind));
            assert(all[k - 1] == other[k - one.len() - 1]);
        }
    }
}

proof fn lemma_digits(number: nat)
    ensures
        decimal(number).len() > 0,
        decimal(number)[0] != '-',
    decreases number,
{
    if number >= 10 {
        lemma_digits(number / 10);
        assert(decimal(number)[0] == decimal(number / 10)[0]);
    }
}

proof fn lemma_clean_rotations(streams: Seq<Stream>, settings: Map<u64, VideoSettings>, kind: char)
    ensures
        clean(rotation_options(rotation_args(streams, settings)), kind),
    decreases streams.len(),
{
    reveal_strlit("-display_rotation:");
    if streams.len() > 0 {
        lemma_clean_rotations(streams.drop_last(), settings, kind);
        let before = rotation_args(streams.drop_last(), settings);
        let all = rotation_args(streams, settings);
        if all != before {
            let last = all.last();
            assert(all.drop_last() =~= before);
            let angle = settings[index_of(streams.last())->0].rotation.angle() as nat;
            lemma_digits(angle);
            let more = seq![text_arg("-display_rotation:"@ + last.0), text_arg(last.1)];
            assert(("-display_rotation:"@ + last.0)[1] == 'd');
            assert(clean(more, kind));
            lemma_clean_join(rotation_options(before), more, kind);
        }
    }
}

proof fn lemma_clean_inputs(
    source: PathModel,
    replacements: Seq<SubtitleReplacement>,
    imports: Seq<SubtitleImport>,
    kind: char,
)
    ensures
        clean(replacement_inputs(replacements), kind),
        clean(import_inputs(imports), kind),
        clean(input_args(source, replacements, imports), kind),
    decreases replacements.len() + imports.len(),
{
    reveal_strlit("-i");
    let first = seq![text_arg("-i"@), Arg::Path(source)];
    assert(clean(first, kind));
    if replacements.len() > 0 {
        lemma_clean_inputs(source, replacements.drop_last(), Seq::empty(), kind);
        let more = seq![text_arg("-i"@), Arg::Path(replacements.last().path@)];
        assert(clean(more, kind));
        lemma_clean_join(replacement_inputs(replacements.drop_last()), more, kind);
    }
    if imports.len() > 0 {
        lemma_clean_inputs(source, Seq::empty(), imports.drop_last(), kind);
        let more = seq![text_arg("-i"@), Arg::Path(imports.last().path@)];
        assert(clean(more, kind));
        lemma_clean_join(import_inputs(imports.drop_last()), more, kind);
    }
    lemma_clean_join(first, replacement_inputs(replacements), kind);
    lemma_clean_join(first + replacement_inputs(replacements), import_inputs(imports), kind);
}

proof fn lemma_clean_maps(replacements: Seq<SubtitleReplacement>, plan: Seq<OutputTrack>, kind: char)
    ensures
        clean(map_args(replacements, plan), kind),
    decreases plan.len(),
{
    reveal_strlit("-map");
    reveal_strlit("0:");
    reveal_strlit(":0");
    if plan.len() > 0 {
        lemma_clean_maps(replacements, plan.drop_last(), kind);
        let text = map_text(replacements, plan.last());
        match plan.last() {
            OutputTrack::Existing(index) => match replacement_of(replacements, index) {
                Some(position) => {
                    lemma_digits((position + 1) as nat);
                    assert(text[0] == decimal((position + 1) as nat)[0]);
                },
                None => {
                    assert(text[0] == '0');
                },
            },
            OutputTrack::Imported(import) => {
                lemma_digits(1 + replacements.len() + import as nat);
                assert(text[0] == decimal(1 + replacements.len() + import as nat)[0]);
            },
        }
        let more = seq![text_arg("-map"@), text_arg(text)];
        assert(clean(more, kind));
        lemma_clean_join(map_args(replacements, plan.drop_last()), more, kind);
    }
}

proof fn lemma_clean_tag(key: Seq<char>, value: Option<Seq<char>>, kind: char)
    requires
        key.len() > 0,
        key[0] != '-',
    ensures
        clean(tag_args(key, value), kind),
{
    reveal_strlit("-metadata");
    if value is Some {
        assert((key + value->0)[0] == key[0]);
    }
}

proof fn lemma_clean_front(
    edit: EditModel,
    source: PathModel,
    tags: Option<ContainerTags>,
    kind: char,
)
    requires
        kind == 'a' || kind == 'v',
    ensures
        clean(front_args(edit, source, tags), kind),
{
    reveal_strlit("-v");
    reveal_strlit("error");
    reveal_strlit("-nostdin");
    reveal_strlit("-y");
    reveal_strlit("-progress");
    reveal_strlit("pipe:1");
    reveal_strlit("-nostats");
    reveal_strlit("-map_metadata");
    reveal_strlit("-map_chapters");
    reveal_strlit("0");
    reveal_strlit("-c");
    reveal_strlit("copy");
    assert(clean(head_args(), kind));
    assert(clean(copy_args(), kind));
    let rotations = rotation_options(rotation_args(edit.source.streams@, edit.video));
    let inputs = input_args(source, edit.replacements, edit.imports);
    let maps = map_args(edit.replacements, edit.plan());
    lemma_clean_rotations(edit.source.streams@, edit.video, kind);
    lemma_clean_inputs(source, edit.replacements, edit.imports, kind);
    lemma_clean_maps(edit.replacements, edit.plan(), kind);
    lemma_clean_join(head_args(), rotations, kind);
    lemma_clean_join(head_args() + rotations, inputs, kind);
    lemma_clean_join(head_args() + rotations + inputs, maps, kind);
    lemma_clean_join(head_args() + rotations + inputs + maps, copy_args(), kind);
    assert(clean(file_tag_args(tags), kind)) by {
        if let Some(tags) = tags {
            reveal_strlit("title=");
            reveal_strlit("comment=");
            reveal_strlit("date=");
            reveal_strlit("genre=");
            reveal_strlit("artist=");
            let one = tag_args("title="@, tags.title);
            let two = tag_args("comment="@, tags.comment);
            let three = tag_args("date="@, tags.date);
            let four = tag_args("genre="@, tags.genre);
            let five = tag_args("artist="@, tags.artist);
            lemma_clean_tag("title="@, tags.title, kind);
            lemma_clean_tag("comment="@, tags.comment, kind);
            lemma_clean_tag("date="@, tags.date, kind);
            lemma_clean_tag("genre="@, tags.genre, kind);
            lemma_clean_tag("artist="@, tags.artist, kind);
            lemma_clean_join(one, two, kind);
            lemma_clean_join(one + two, three, kind);
            lemma_clean_join(one + two + three, four, kind);
            lemma_clean_join(one + two + three + four, five, kind);
        }
    }
    lemma_clean_join(
        head_args() + rotations + inputs + maps + copy_args(),
        file_tag_args(tags),
        kind,
    );
}

proof fn lemma_clean_track_tags(
    position: nat,
    language: Seq<char>,
    key: Seq<char>,
    title: Option<Seq<char>>,
    flags: Seq<char>,
    kind: char,
)
    requires
        key == "title="@ || key == "handler_name="@,
    ensures
        clean(track_tag_args(position, language, key, title, flags), kind),
{
    reveal_strlit("-metadata:s:");
    reveal_strlit("language=");
    reveal_strlit("title=");
    reveal_strlit("handler_name=");
    reveal_strlit("-disposition:");
    let list = track_tag_args(position, language, key, title, flags);
    let option = numbered("-metadata:s:"@, position);
    assert(option[1] == 'm');
    assert(("language="@ + language)[0] == 'l');
    assert((key + title_or_empty(title))[0] == key[0]);
    let flagging = numbered("-disposition:"@, position);
    assert(flagging[1] == 'd');
    assert(flagging.take(13) =~= "-disposition:"@);
    assert(names_flags(list[4]));
}

proof fn lemma_clean_planned(
    edit: EditModel,
    source: PathModel,
    track: OutputTrack,
    position: nat,
    kind: char,
)
    ensures
        clean(planned_args(edit, source, track, position), kind),
{
    match track {
        OutputTrack::Imported(import) => {
            let import = edit.imports[import as int];
            lemma_clean_track_tags(
                position,
                import.metadata@.language,
                "title="@,
                import.metadata@.title,
                flags_text(subtitle_flags(None, import.default, import.metadata@)),
                kind,
            );
        },
        OutputTrack::Existing(index) => {
            let stream = stream_at(edit.source.streams@, index)->0;
            let container = metadata_container(edit, source);
            let default = edit.defaults.contains(index);
            let head = seq![
                text_arg(numbered("-map_metadata:s:"@, position)),
                text_arg(numbered("0:s:"@, index as nat)),
            ];
            reveal_strlit("-map_metadata:s:");
            reveal_strlit("0:s:");
            reveal_strlit("-metadata:s:");
            reveal_strlit("language=");
            reveal_strlit("-disposition:");
            reveal_strlit("+default");
            reveal_strlit("-default");
            assert(numbered("-map_metadata:s:"@, position)[1] == 'm');
            assert(numbered("0:s:"@, index as nat)[0] == '0');
            assert(clean(head, kind));
            let language = if is_kind(stream, "subtitle"@) {
                seq![
                    text_arg(numbered("-metadata:s:"@, position)),
                    text_arg("language="@ + language_of(stream)),
                ]
            } else {
                Seq::empty()
            };
            assert(numbered("-metadata:s:"@, position)[1] == 'm');
            assert(("language="@ + language_of(stream))[0] == 'l');
            assert(clean(language, kind));
            lemma_clean_join(head, language, kind);
            let audio = audio_tags_after(stream, settings_of(edit.audio, index), container);
            lemma_clean_track_tags(
                position,
                audio.language,
                title_key(container),
                audio.title,
                flags_text(audio_flags(stream, default, audio)),
                kind,
            );
            let video = video_tags_after(stream, settings_of(edit.video, index), container);
            lemma_clean_track_tags(
                position,
                video.language,
                title_key(container),
                video.title,
                flags_text(video_flags(stream, default, video)),
                kind,
            );
            let subtitle = subtitle_tags_after(
                edit.languages,
                edit.changes,
                stream,
                index,
                container,
            );
            lemma_clean_track_tags(
                position,
                subtitle.language,
                "title="@,
                subtitle.title,
                flags_text(subtitle_flags(Some(stream), default, subtitle)),
                kind,
            );
            let plain = seq![
                text_arg(numbered("-disposition:"@, position)),
                text_arg(
                    if default {
                        "+default"@
                    } else {
                        "-default"@
                    },
                ),
            ];
            assert(numbered("-disposition:"@, position)[1] == 'd');
            assert(clean(plain, kind));
            let all = existing_args(edit, source, index, position);
            let rest = all.skip((head + language).len() as int);
            assert(all =~= head + language + rest);
            assert(clean(rest, kind)) by {
                if is_kind(stream, "audio"@) && (edit.audio.contains_key(index) || edit.container
                    is Some) {
                    assert(rest =~= track_tag_args(
                        position,
                        audio.language,
                        title_key(container),
                        audio.title,
                        flags_text(audio_flags(stream, default, audio)),
                    ));
                } else if is_kind(stream, "video"@) && (edit.video.contains_key(index)
                    || edit.container is Some) {
                    assert(rest =~= track_tag_args(
                        position,
                        video.language,
                        title_key(container),
                        video.title,
                        flags_text(video_flags(stream, default, video)),
                    ));
                } else if replacement_of(edit.replacements, index) is Some || metadata_change_of(
                    edit.changes,
                    index,
                ) is Some {
                    assert(rest =~= track_tag_args(
                        position,
                        subtitle.language,
                        "title="@,
                        subtitle.title,
                        flags_text(subtitle_flags(Some(stream), default, subtitle)),
                    ));
                } else {
                    assert(rest =~= plain);
                }
            }
            lemma_clean_join(head + language, rest, kind);
        },
    }
}

proof fn lemma_clean_plan(edit: EditModel, source: PathModel, plan: Seq<OutputTrack>, kind: char)
    ensures
        clean(plan_args(edit, source, plan), kind),
    decreases plan.len(),
{
    if plan.len() > 0 {
        lemma_clean_plan(edit, source, plan.drop_last(), kind);
        lemma_clean_planned(edit, source, plan.last(), (plan.len() - 1) as nat, kind);
        lemma_clean_join(
            plan_args(edit, source, plan.drop_last()),
            planned_args(edit, source, plan.last(), (plan.len() - 1) as nat),
            kind,
        );
    }
}

proof fn lemma_clean_back(edit: EditModel, source: PathModel, temporary: PathModel, kind: char)
    ensures
        clean(back_args(edit, source, temporary), kind),
{
    lemma_clean_plan(edit, source, edit.plan(), kind);
    reveal_strlit("-movflags");
    reveal_strlit("+faststart");
    reveal_strlit("-f");
    reveal_strlit("matroska");
    reveal_strlit("mp4");
    reveal_strlit("mov");
    reveal_strlit("webm");
    assert(clean(tail_args(edit.container, temporary), kind));
    lemma_clean_join(
        plan_args(edit, source, edit.plan()),
        tail_args(edit.container, temporary),
        kind,
    );
}

/// The options of a video encode name one video encoder, and no audio encoder.
proof fn lemma_video_encoders(stream: Stream, settings: VideoSettings, number: nat)
    requires
        encodes_video(stream, settings),
        video_encodable(stream, settings),
    ensures
        clean(video_encode_args(stream, settings, number), 'a'),
        forall|k: int|
            0 <= k < video_encode_args(stream, settings, number).len() && names_encoder(
                #[trigger] video_encode_args(stream, settings, number)[k],
                'v',
            ) ==> video_encode_args(stream, settings, number)[k] == text_arg(
                "-c:v:"@ + decimal(number),
            ),
{
    reveal_strlit("-c:v:");
    reveal_strlit("-crf:v:");
    reveal_strlit("-preset:v:");
    reveal_strlit("-filter:v:");
    reveal_strlit("libx264");
    reveal_strlit("libx265");
    reveal_strlit("libsvtav1");
    reveal_strlit("22");
    reveal_strlit("24");
    reveal_strlit("30");
    reveal_strlit("8");
    reveal_strlit("medium");
    reveal_strlit("scale=");
    let list = video_encode_args(stream, settings, number);
    let encoder = encoder_of(video_target(stream, settings)->0)->0;
    assert(numbered("-c:v:"@, number)[3] == 'v');
    assert(numbered("-crf:v:"@, number)[2] == 'r');
    assert(numbered("-preset:v:"@, number)[1] == 'p');
    assert(numbered("-filter:v:"@, number)[1] == 'f');
    assert(encoder.0.len() > 0 && encoder.0[0] != '-');
    assert(encoder.1.len() > 0 && encoder.1[0] != '-');
    assert(encoder.2.len() > 0 && encoder.2[0] != '-');
    if let Some(filter) = filter_of(settings.resolution) {
        assert(filter.len() > 6 && filter[0] == 's') by {
            assert("scale="@[0] == 's');
        }
        assert(list.len() == 8);
    } else {
        assert(list.len() == 6);
    }
}

/// The options of an audio encode name one audio encoder, and no video encoder.
proof fn lemma_audio_encoders(stream: Stream, settings: AudioSettings, number: nat)
    requires
        encodes_audio(stream, settings),
        audio_encodable(stream, settings),
    ensures
        clean(audio_encode_args(stream, settings, number), 'v'),
        forall|k: int|
            0 <= k < audio_encode_args(stream, settings, number).len() && names_encoder(
                #[trigger] audio_encode_args(stream, settings, number)[k],
                'a',
            ) ==> audio_encode_args(stream, settings, number)[k] == text_arg(
                "-c:a:"@ + decimal(number),
            ),
{
    reveal_strlit("-c:a:");
    reveal_strlit("-ac:a:");
    reveal_strlit("-ar:a:");
    reveal_strlit("-b:a:");
    reveal_strlit("aac");
    reveal_strlit("ac3");
    reveal_strlit("eac3");
    reveal_strlit("libopus");
    reveal_strlit("flac");
    reveal_strlit("alac");
    reveal_strlit("libmp3lame");
    reveal_strlit("libvorbis");
    reveal_strlit("k");
    let list = audio_encode_args(stream, settings, number);
    let codec = audio_codec_after(stream, settings)->0;
    crate::audio::codecs_have_their_names();
    if settings.codec == AudioCodec::Original {
        crate::audio::names_of_codecs_read_back(codec_of(stream)->0);
    }
    assert(codec != AudioCodec::Original);
    assert(codec.encoder_text()->0.len() > 0 && codec.encoder_text()->0[0] != '-');
    assert(numbered("-c:a:"@, number)[3] == 'a');
    assert(numbered("-ac:a:"@, number)[1] == 'a');
    assert(numbered("-ar:a:"@, number)[1] == 'a');
    assert(numbered("-b:a:"@, number)[1] == 'b');
    let one = seq![
        text_arg(numbered("-c:a:"@, number)),
        text_arg(codec.encoder_text()->0),
    ];
    let two = match settings.channel_layout.channel_count() {
        Some(channels) => seq![
            text_arg(numbered("-ac:a:"@, number)),
            text_arg(decimal(channels as nat)),
        ],
        None => Seq::empty(),
    };
    let source_rate = sample_rate_of(stream)->0;
    let rate = resolved_rate(codec, source_rate)->0;
    let three = if rate != source_rate {
        seq![text_arg(numbered("-ar:a:"@, number)), text_arg(decimal(rate as nat))]
    } else {
        Seq::empty()
    };
    let four = match encode_bitrate(stream, settings, codec) {
        Some(kilobits) => seq![
            text_arg(numbered("-b:a:"@, number)),
            text_arg(decimal(kilobits as nat) + "k"@),
        ],
        None => Seq::empty(),
    };
    if let Some(channels) = settings.channel_layout.channel_count() {
        lemma_digits(channels as nat);
    }
    lemma_digits(rate as nat);
    if let Some(kilobits) = encode_bitrate(stream, settings, codec) {
        lemma_digits(kilobits as nat);
        assert((decimal(kilobits as nat) + "k"@)[0] == decimal(kilobits as nat)[0]);
    }
    assert(list =~= one + two + three + four);
    assert forall|k: int| 0 <= k < list.len() && k != 0 implies !names_encoder(
        #[trigger] list[k],
        'a',
    ) by {
        if k >= (one + two + three).len() {
            assert(list[k] == four[k - (one + two + three).len()]);
        } else if k >= (one + two).len() {
            assert(list[k] == three[k - (one + two).len()]);
        } else if k >= 2 {
            assert(list[k] == two[k - 2]);
        }
    }
    assert forall|k: int| 0 <= k < list.len() implies !names_encoder(#[trigger] list[k], 'v') by {
        if k >= (one + two + three).len() {
            assert(list[k] == four[k - (one + two + three).len()]);
        } else if k >= (one + two).len() {
            assert(list[k] == three[k - (one + two).len()]);
        } else if k >= 2 {
            assert(list[k] == two[k - 2]);
        }
    }
}

/// Whether an argument names the encoder of one of the tracks of an order that are encoded.
pub open spec fn encodes_some_sound(
    source: MediaInfo,
    order: Seq<u64>,
    settings: Map<u64, AudioSettings>,
    argument: Arg,
) -> bool {
    exists|i: int|
        0 <= i < order.len() && sound_is_encoded(source, order[i], settings) && argument
            == text_arg("-c:a:"@ + decimal(#[trigger] earlier_of_kind(source, order, i, "audio"@)))
}

/// Whether a track is sound whose settings ask for an encode.
pub open spec fn sound_is_encoded(
    source: MediaInfo,
    index: u64,
    settings: Map<u64, AudioSettings>,
) -> bool {
    &&& stream_at(source.streams@, index) is Some
    &&& kind_of(stream_at(source.streams@, index)->0) == Some("audio"@)
    &&& settings.contains_key(index)
    &&& crate::result::asks_for_audio(stream_at(source.streams@, index)->0, settings[index])
}

/// Whether an argument names the encoder of one of the tracks of an order that are encoded.
pub open spec fn encodes_some_video(
    source: MediaInfo,
    order: Seq<u64>,
    settings: Map<u64, VideoSettings>,
    argument: Arg,
) -> bool {
    exists|i: int|
        0 <= i < order.len() && video_is_encoded(source, order[i], settings) && argument
            == text_arg("-c:v:"@ + decimal(#[trigger] earlier_of_kind(source, order, i, "video"@)))
}

/// Whether a track is video whose settings ask for an encode.
pub open spec fn video_is_encoded(
    source: MediaInfo,
    index: u64,
    settings: Map<u64, VideoSettings>,
) -> bool {
    &&& stream_at(source.streams@, index) is Some
    &&& kind_of(stream_at(source.streams@, index)->0) == Some("video"@)
    &&& settings.contains_key(index)
    &&& crate::result::asks_for_video(stream_at(source.streams@, index)->0, settings[index])
}

proof fn lemma_audio_args(
    source: MediaInfo,
    order: Seq<u64>,
    settings: Map<u64, AudioSettings>,
    video: Map<u64, VideoSettings>,
)
    requires
        order_encodable(source, order, settings, video),
    ensures
        clean(audio_args(source, order, settings), 'v'),
        forall|k: int|
            0 <= k < audio_args(source, order, settings).len() && names_encoder(
                #[trigger] audio_args(source, order, settings)[k],
                'a',
            ) ==> encodes_some_sound(
                source,
                order,
                settings,
                audio_args(source, order, settings)[k],
            ),
    decreases order.len(),
{
    if order.len() > 0 {
        let shorter = order.drop_last();
        let last = order.len() - 1;
        assert(forall|i: int| 0 <= i < shorter.len() ==> #[trigger] shorter[i] == order[i]);
        assert forall|i: int| 0 <= i < shorter.len() implies track_encodable(
            source,
            #[trigger] shorter[i],
            settings,
            video,
        ) by {
            assert(track_encodable(source, order[i], settings, video));
        }
        lemma_audio_args(source, shorter, settings, video);
        let before = audio_args(source, shorter, settings);
        let all = audio_args(source, order, settings);
        assert forall|argument: Arg| #[trigger]
            encodes_some_sound(source, shorter, settings, argument) implies encodes_some_sound(
            source,
            order,
            settings,
            argument,
        ) by {
            let i = choose|i: int|
                0 <= i < shorter.len() && sound_is_encoded(source, shorter[i], settings) && argument
                    == text_arg(
                    "-c:a:"@ + decimal(#[trigger] earlier_of_kind(source, shorter, i, "audio"@)),
                );
            assert(shorter.take(i) =~= order.take(i));
            assert(earlier_of_kind(source, order, i, "audio"@) == earlier_of_kind(
                source,
                shorter,
                i,
                "audio"@,
            ));
        }
        if all != before {
            let index = order.last();
            let stream = stream_at(source.streams@, index)->0;
            let number = kind_count(source, shorter, "audio"@);
            let block = audio_encode_args(stream, settings[index], number);
            assert(track_encodable(source, order[last], settings, video));
            lemma_audio_encoders(stream, settings[index], number);
            lemma_kind_count(source, shorter, "audio"@);
            assert(order.take(last) =~= shorter);
            assert(number == earlier_of_kind(source, order, last, "audio"@));
            assert(all == before + block);
            lemma_clean_join(before, block, 'v');
            assert(sound_is_encoded(source, order[last], settings));
            assert forall|k: int| 0 <= k < all.len() && names_encoder(
                #[trigger] all[k],
                'a',
            ) implies encodes_some_sound(source, order, settings, all[k]) by {
                if k < before.len() {
                    assert(all[k] == before[k]);
                } else {
                    assert(all[k] == block[k - before.len()]);
                }
            }
        }
    }
}

proof fn lemma_video_args(
    source: MediaInfo,
    order: Seq<u64>,
    audio: Map<u64, AudioSettings>,
    settings: Map<u64, VideoSettings>,
)
    requires
        order_encodable(source, order, audio, settings),
    ensures
        clean(video_args(source, order, settings), 'a'),
        forall|k: int|
            0 <= k < video_args(source, order, settings).len() && names_encoder(
                #[trigger] video_args(source, order, settings)[k],
                'v',
            ) ==> encodes_some_video(
                source,
                order,
                settings,
                video_args(source, order, settings)[k],
            ),
    decreases order.len(),
{
    if order.len() > 0 {
        let shorter = order.drop_last();
        let last = order.len() - 1;
        assert(forall|i: int| 0 <= i < shorter.len() ==> #[trigger] shorter[i] == order[i]);
        assert forall|i: int| 0 <= i < shorter.len() implies track_encodable(
            source,
            #[trigger] shorter[i],
            audio,
            settings,
        ) by {
            assert(track_encodable(source, order[i], audio, settings));
        }
        lemma_video_args(source, shorter, audio, settings);
        let before = video_args(source, shorter, settings);
        let all = video_args(source, order, settings);
        assert forall|argument: Arg| #[trigger]
            encodes_some_video(source, shorter, settings, argument) implies encodes_some_video(
            source,
            order,
            settings,
            argument,
        ) by {
            let i = choose|i: int|
                0 <= i < shorter.len() && video_is_encoded(source, shorter[i], settings) && argument
                    == text_arg(
                    "-c:v:"@ + decimal(#[trigger] earlier_of_kind(source, shorter, i, "video"@)),
                );
            assert(shorter.take(i) =~= order.take(i));
            assert(earlier_of_kind(source, order, i, "video"@) == earlier_of_kind(
                source,
                shorter,
                i,
                "video"@,
            ));
        }
        if all != before {
            let index = order.last();
            let stream = stream_at(source.streams@, index)->0;
            let number = kind_count(source, shorter, "video"@);
            let block = video_encode_args(stream, settings[index], number);
            assert(track_encodable(source, order[last], audio, settings));
            lemma_video_encoders(stream, settings[index], number);
            lemma_kind_count(source, shorter, "video"@);
            assert(order.take(last) =~= shorter);
            assert(number == earlier_of_kind(source, order, last, "video"@));
            assert(all == before + block);
            lemma_clean_join(before, block, 'a');
            assert(video_is_encoded(source, order[last], settings));
            assert forall|k: int| 0 <= k < all.len() && names_encoder(
                #[trigger] all[k],
                'v',
            ) implies encodes_some_video(source, order, settings, all[k]) by {
                if k < before.len() {
                    assert(all[k] == before[k]);
                } else {
                    assert(all[k] == block[k - before.len()]);
                }
            }
        }
    }
}

/// No track is encoded that was not asked for: an argument that names an encoder names that
/// of a track whose settings ask for it. What stands among the flags of a track names none.
pub proof fn only_asked_encodes_are_named(
    edit: EditModel,
    source: PathModel,
    temporary: PathModel,
    tags: Option<ContainerTags>,
    at: int,
)
    requires
        order_encodable(edit.source, edit.order, edit.audio, edit.video),
        0 <= at < remux_args(edit, source, temporary, tags).len(),
        at == 0 || !names_flags(remux_args(edit, source, temporary, tags)[at - 1]),
    ensures
        names_encoder(remux_args(edit, source, temporary, tags)[at], 'a') ==> encodes_some_sound(
            edit.source,
            edit.order,
            edit.audio,
            remux_args(edit, source, temporary, tags)[at],
        ),
        names_encoder(remux_args(edit, source, temporary, tags)[at], 'v') ==> encodes_some_video(
            edit.source,
            edit.order,
            edit.video,
            remux_args(edit, source, temporary, tags)[at],
        ),
{
    lemma_remux_parts(edit, source, temporary, tags);
    let front = front_args(edit, source, tags);
    let video = video_args(edit.source, edit.order, edit.video);
    let audio = audio_args(edit.source, edit.order, edit.audio);
    let back = back_args(edit, source, temporary);
    lemma_video_args(edit.source, edit.order, edit.audio, edit.video);
    lemma_audio_args(edit.source, edit.order, edit.audio, edit.video);
    lemma_clean_front(edit, source, tags, 'a');
    lemma_clean_front(edit, source, tags, 'v');
    lemma_clean_back(edit, source, temporary, 'a');
    lemma_clean_back(edit, source, temporary, 'v');
    let all = remux_args(edit, source, temporary, tags);
    assert(all =~= front + video + audio + back);
    if at < front.len() {
        assert(all[at] == front[at]);
        assert(at > 0 ==> all[at - 1] == front[at - 1]);
    } else if at < (front + video).len() {
        let k = at - front.len();
        assert(all[at] == video[k]);
        assert(k > 0 ==> all[at - 1] == video[k - 1]);
    } else if at < (front + video + audio).len() {
        let k = at - (front + video).len();
        assert(all[at] == audio[k]);
        assert(k > 0 ==> all[at - 1] == audio[k - 1]);
    } else {
        let k = at - (front + video + audio).len();
        assert(all[at] == back[k]);
        assert(k > 0 ==> all[at - 1] == back[k - 1]);
    }
}

/// A soundtrack that no encode was asked of is copied: nothing names an encoder under its
/// number.
pub proof fn other_sound_is_copied(
    edit: EditModel,
    source: PathModel,
    temporary: PathModel,
    tags: Option<ContainerTags>,
    position: int,
    at: int,
)
    requires
        order_encodable(edit.source, edit.order, edit.audio, edit.video),
        0 <= position < edit.order.len(),
        stream_at(edit.source.streams@, edit.order[position]) is Some,
        kind_of(stream_at(edit.source.streams@, edit.order[position])->0) == Some("audio"@),
        !sound_is_encoded(edit.source, edit.order[position], edit.audio),
        0 <= at < remux_args(edit, source, temporary, tags).len(),
        at == 0 || !names_flags(remux_args(edit, source, temporary, tags)[at - 1]),
    ensures
        remux_args(edit, source, temporary, tags)[at] != text_arg(
            "-c:a:"@ + decimal(earlier_of_kind(edit.source, edit.order, position, "audio"@)),
        ),
{
    let own = earlier_of_kind(edit.source, edit.order, position, "audio"@);
    let text = "-c:a:"@ + decimal(own);
    let list = remux_args(edit, source, temporary, tags);
    only_asked_encodes_are_named(edit, source, temporary, tags, at);
    if list[at] == text_arg(text) {
        reveal_strlit("-c:a:");
        assert(text[0] == '-' && text[1] == 'c' && text[2] == ':' && text[3] == 'a');
        assert(names_encoder(list[at], 'a'));
        let i = choose|i: int|
            0 <= i < edit.order.len() && sound_is_encoded(edit.source, edit.order[i], edit.audio)
                && list[at] == text_arg(
                "-c:a:"@ + decimal(
                    #[trigger] earlier_of_kind(edit.source, edit.order, i, "audio"@),
                ),
            );
        let number = earlier_of_kind(edit.source, edit.order, i, "audio"@);
        assert(text.skip(5) =~= decimal(own));
        assert(("-c:a:"@ + decimal(number)).skip(5) =~= decimal(number));
        numbers_read_back(own);
        numbers_read_back(number);
        assert(own == number);
        if i < position {
            tracks_of_a_kind_have_their_own_number(
                edit.source,
                edit.order,
                i,
                position,
                "audio"@,
            );
        } else if position < i {
            tracks_of_a_kind_have_their_own_number(
                edit.source,
                edit.order,
                position,
                i,
                "audio"@,
            );
        }
    }
}

/// A video that no encode was asked of is copied: nothing names an encoder under its number.
pub proof fn other_video_is_copied(
    edit: EditModel,
    source: PathModel,
    temporary: PathModel,
    tags: Option<ContainerTags>,
    position: int,
    at: int,
)
    requires
        order_encodable(edit.source, edit.order, edit.audio, edit.video),
        0 <= position < edit.order.len(),
        stream_at(edit.source.streams@, edit.order[position]) is Some,
        kind_of(stream_at(edit.source.streams@, edit.order[position])->0) == Some("video"@),
        !video_is_encoded(edit.source, edit.order[position], edit.video),
        0 <= at < remux_args(edit, source, temporary, tags).len(),
        at == 0 || !names_flags(remux_args(edit, source, temporary, tags)[at - 1]),
    ensures
        remux_args(edit, source, temporary, tags)[at] != text_arg(
            "-c:v:"@ + decimal(earlier_of_kind(edit.source, edit.order, position, "video"@)),
        ),
{
    let own = earlier_of_kind(edit.source, edit.order, position, "video"@);
    let text = "-c:v:"@ + decimal(own);
    let list = remux_args(edit, source, temporary, tags);
    only_asked_encodes_are_named(edit, source, temporary, tags, at);
    if list[at] == text_arg(text) {
        reveal_strlit("-c:v:");
        assert(text[0] == '-' && text[1] == 'c' && text[2] == ':' && text[3] == 'v');
        assert(names_encoder(list[at], 'v'));
        let i = choose|i: int|
            0 <= i < edit.order.len() && video_is_encoded(edit.source, edit.order[i], edit.video)
                && list[at] == text_arg(
                "-c:v:"@ + decimal(
                    #[trigger] earlier_of_kind(edit.source, edit.order, i, "video"@),
                ),
            );
        let number = earlier_of_kind(edit.source, edit.order, i, "video"@);
        assert(text.skip(5) =~= decimal(own));
        assert(("-c:v:"@ + decimal(number)).skip(5) =~= decimal(number));
        numbers_read_back(own);
        numbers_read_back(number);
        assert(own == number);
        if i < position {
            tracks_of_a_kind_have_their_own_number(
                edit.source,
                edit.order,
                i,
                position,
                "video"@,
            );
        } else if position < i {
            tracks_of_a_kind_have_their_own_number(
                edit.source,
                edit.order,
                position,
                i,
                "video"@,
            );
        }
    }
}

// Inputs and maps.

/// The files that a remux reads, by their number: the source first, then the converted
/// subtitles, then the imported ones.
pub open spec fn input_file(edit: EditModel, source: PathModel, number: int) -> PathModel {
    if number == 0 {
        source
    } else if number <= edit.replacements.len() {
        edit.replacements[number - 1].path@
    } else {
        edit.imports[number - 1 - edit.replacements.len()].path@
    }
}

/// Whether the inputs of a remux stand from a position on, in the order of their numbers.
pub open spec fn inputs_at(list: Seq<Arg>, at: int, edit: EditModel, source: PathModel) -> bool {
    forall|number: int|
        0 <= number <= edit.replacements.len() + edit.imports.len() ==> {
            &&& 0 <= at + 2 * number + 1 < list.len()
            &&& list[at + 2 * number] == text_arg("-i"@)
            &&& list[at + 2 * number + 1] == Arg::Path(
                #[trigger] input_file(edit, source, number),
            )
        }
}

/// Whether a track of the plan is read from where it is: an import and a track that was
/// made anew from their file, any other from the source, by its number there.
pub open spec fn is_read_right(edit: EditModel, track: OutputTrack, text: Seq<char>) -> bool {
    match track {
        OutputTrack::Imported(import) => text == decimal(
            1 + edit.replacements.len() + import as nat,
        ) + ":0"@,
        OutputTrack::Existing(index) => {
            ||| exists|i: int|
                0 <= i < edit.replacements.len() && (#[trigger] edit.replacements[i]).source_index
                    == index && (forall|k: int|
                    0 <= k < i ==> (#[trigger] edit.replacements[k]).source_index != index) && text
                    == decimal((i + 1) as nat) + ":0"@
            ||| (forall|i: int|
                0 <= i < edit.replacements.len() ==> (#[trigger] edit.replacements[i]).source_index
                    != index) && text == "0:"@ + decimal(index as nat)
        },
    }
}

/// Whether the maps of a plan stand from a position on, in the order of the plan.
pub open spec fn maps_at(list: Seq<Arg>, at: int, edit: EditModel) -> bool {
    forall|position: int|
        0 <= position < edit.plan().len() ==> #[trigger] maps_track(list, at, edit, position)
}

/// Whether the map of the track at a position of the plan stands in its place.
pub open spec fn maps_track(list: Seq<Arg>, at: int, edit: EditModel, position: int) -> bool {
    &&& 0 <= at + 2 * position + 1 < list.len()
    &&& list[at + 2 * position] == text_arg("-map"@)
    &&& list[at + 2 * position + 1] matches Arg::Text(text) && is_read_right(
        edit,
        edit.plan()[position],
        text,
    )
}

proof fn lemma_replacement_inputs(replacements: Seq<SubtitleReplacement>)
    ensures
        replacement_inputs(replacements).len() == 2 * replacements.len(),
        forall|i: int|
            0 <= i < replacements.len() ==> replacement_inputs(replacements)[2 * i] == text_arg(
                "-i"@,
            ) && replacement_inputs(replacements)[2 * i + 1] == Arg::Path(
                (#[trigger] replacements[i]).path@,
            ),
    decreases replacements.len(),
{
    if replacements.len() > 0 {
        let shorter = replacements.drop_last();
        lemma_replacement_inputs(shorter);
        let all = replacement_inputs(replacements);
        let before = replacement_inputs(shorter);
        assert forall|i: int| 0 <= i < replacements.len() implies all[2 * i] == text_arg("-i"@)
            && all[2 * i + 1] == Arg::Path((#[trigger] replacements[i]).path@) by {
            if i < shorter.len() {
                assert(shorter[i] == replacements[i]);
                assert(all[2 * i] == before[2 * i] && all[2 * i + 1] == before[2 * i + 1]);
            }
        }
    }
}

proof fn lemma_import_inputs(imports: Seq<SubtitleImport>)
    ensures
        import_inputs(imports).len() == 2 * imports.len(),
        forall|i: int|
            0 <= i < imports.len() ==> import_inputs(imports)[2 * i] == text_arg("-i"@)
                && import_inputs(imports)[2 * i + 1] == Arg::Path((#[trigger] imports[i]).path@),
    decreases imports.len(),
{
    if imports.len() > 0 {
        let shorter = imports.drop_last();
        lemma_import_inputs(shorter);
        let all = import_inputs(imports);
        let before = import_inputs(shorter);
        assert forall|i: int| 0 <= i < imports.len() implies all[2 * i] == text_arg("-i"@) && all[2
            * i + 1] == Arg::Path((#[trigger] imports[i]).path@) by {
            if i < shorter.len() {
                assert(shorter[i] == imports[i]);
                assert(all[2 * i] == before[2 * i] && all[2 * i + 1] == before[2 * i + 1]);
            }
        }
    }
}

proof fn lemma_maps(replacements: Seq<SubtitleReplacement>, plan: Seq<OutputTrack>)
    ensures
        map_args(replacements, plan).len() == 2 * plan.len(),
        forall|i: int|
            0 <= i < plan.len() ==> map_args(replacements, plan)[2 * i] == text_arg("-map"@)
                && map_args(replacements, plan)[2 * i + 1] == text_arg(
                map_text(replacements, #[trigger] plan[i]),
            ),
    decreases plan.len(),
{
    if plan.len() > 0 {
        let shorter = plan.drop_last();
        lemma_maps(replacements, shorter);
        let all = map_args(replacements, plan);
        let before = map_args(replacements, shorter);
        assert forall|i: int| 0 <= i < plan.len() implies all[2 * i] == text_arg("-map"@) && all[2
            * i + 1] == text_arg(map_text(replacements, #[trigger] plan[i])) by {
            if i < shorter.len() {
                assert(shorter[i] == plan[i]);
                assert(all[2 * i] == before[2 * i] && all[2 * i + 1] == before[2 * i + 1]);
            }
        }
    }
}

/// Joining three parts behind a first one.
proof fn lemma_join_three(x: Seq<Arg>, a: Seq<Arg>, b: Seq<Arg>, c: Seq<Arg>)
    ensures
        x + (a + b + c) == x + a + b + c,
{
    assert(x + (a + b + c) =~= x + a + b + c);
}

/// Joining two parts behind a first one.
proof fn lemma_join_last(x: Seq<Arg>, a: Seq<Arg>, b: Seq<Arg>)
    ensures
        x + (a + b) == x + a + b,
{
    assert(x + (a + b) =~= x + a + b);
}

/// Joining five parts behind a first one.
proof fn lemma_join_five(
    x: Seq<Arg>,
    a: Seq<Arg>,
    b: Seq<Arg>,
    c: Seq<Arg>,
    d: Seq<Arg>,
    e: Seq<Arg>,
)
    ensures
        x + (a + b + c + d + e) == x + a + b + c + d + e,
{
    lemma_join_three(x, a, b, c);
    assert(x + (a + b + c + d + e) =~= x + (a + b + c) + d + e);
}

/// Where the parts of a list stand.
proof fn lemma_parts(a: Seq<Arg>, b: Seq<Arg>, c: Seq<Arg>, d: Seq<Arg>, e: Seq<Arg>, f: Seq<Arg>)
    ensures
        ({
            let all = a + b + c + d + e + f;
            &&& all.len() == a.len() + b.len() + c.len() + d.len() + e.len() + f.len()
            &&& forall|i: int| 0 <= i < b.len() ==> #[trigger] b[i] == all[a.len() + i]
            &&& forall|i: int| 0 <= i < c.len() ==> #[trigger] c[i] == all[a.len() + b.len() + i]
            &&& forall|i: int|
                0 <= i < d.len() ==> #[trigger] d[i] == all[a.len() + b.len() + c.len() + i]
            &&& forall|i: int|
                0 <= i < e.len() ==> #[trigger] e[i] == all[a.len() + b.len() + c.len() + d.len()
                    + i]
        }),
{
}

/// Every track of the plan is mapped, in the order of the plan, from the file that holds it;
/// the inputs stand before the maps.
pub proof fn tracks_are_read_from_their_inputs(
    edit: EditModel,
    source: PathModel,
    temporary: PathModel,
    tags: Option<ContainerTags>,
)
    ensures
        exists|inputs: int, maps: int|
            0 <= inputs < maps && #[trigger] inputs_at(
                remux_args(edit, source, temporary, tags),
                inputs,
                edit,
                source,
            ) && #[trigger] maps_at(remux_args(edit, source, temporary, tags), maps, edit) && maps
                == inputs + 2 * (1 + edit.replacements.len() + edit.imports.len()),
{
    let list = remux_args(edit, source, temporary, tags);
    let rotations = rotation_options(rotation_args(edit.source.streams@, edit.video));
    let first = seq![text_arg("-i"@), Arg::Path(source)];
    let made = replacement_inputs(edit.replacements);
    let taken = import_inputs(edit.imports);
    let mapped = map_args(edit.replacements, edit.plan());
    lemma_replacement_inputs(edit.replacements);
    lemma_import_inputs(edit.imports);
    lemma_maps(edit.replacements, edit.plan());
    let front = head_args() + rotations;
    let inputs = front.len() as int;
    let maps = inputs + 2 * (1 + edit.replacements.len() + edit.imports.len());
    let videos = video_args(edit.source, edit.order, edit.video);
    let sounds = audio_args(edit.source, edit.order, edit.audio);
    let plans = plan_args(edit, source, edit.plan());
    let tail = tail_args(edit.container, temporary);
    let rest = copy_args() + file_tag_args(tags) + videos + sounds + plans + tail;
    lemma_join_three(front, first, made, taken);
    lemma_join_five(
        front + first + made + taken + mapped,
        copy_args(),
        file_tag_args(tags),
        videos,
        sounds,
        plans,
    );
    lemma_join_last(
        front + first + made + taken + mapped,
        copy_args() + file_tag_args(tags) + videos + sounds + plans,
        tail,
    );
    assert(list == front + first + made + taken + mapped + rest);
    lemma_inputs_at(edit, source, front, mapped, rest);
    lemma_maps_at(edit, front + first + made + taken, rest);
    assert(inputs_at(list, inputs, edit, source));
    assert(maps_at(list, maps, edit));
}

proof fn lemma_inputs_at(
    edit: EditModel,
    source: PathModel,
    front: Seq<Arg>,
    mapped: Seq<Arg>,
    rest: Seq<Arg>,
)
    ensures
        inputs_at(
            front + seq![text_arg("-i"@), Arg::Path(source)] + replacement_inputs(edit.replacements)
                + import_inputs(edit.imports) + mapped + rest,
            front.len() as int,
            edit,
            source,
        ),
{
    let first = seq![text_arg("-i"@), Arg::Path(source)];
    let made = replacement_inputs(edit.replacements);
    let taken = import_inputs(edit.imports);
    let list = front + first + made + taken + mapped + rest;
    let inputs = front.len() as int;
    lemma_replacement_inputs(edit.replacements);
    lemma_import_inputs(edit.imports);
    lemma_parts(front, first, made, taken, mapped, rest);
    assert forall|number: int|
        0 <= number <= edit.replacements.len() + edit.imports.len() implies 0 <= inputs + 2 * number
        + 1 < list.len() && list[inputs + 2 * number] == text_arg("-i"@) && list[inputs + 2 * number
        + 1] == Arg::Path(#[trigger] input_file(edit, source, number)) by {
        if number == 0 {
            assert(list[inputs + 0] == first[0] && list[inputs + 1] == first[1]);
        } else if number <= edit.replacements.len() {
            let i = number - 1;
            assert(edit.replacements[i].path@ == input_file(edit, source, number));
            assert(made[2 * i] == list[inputs + 2 + 2 * i]);
            assert(made[2 * i + 1] == list[inputs + 2 + (2 * i + 1)]);
        } else {
            let i = number - 1 - edit.replacements.len();
            assert(edit.imports[i].path@ == input_file(edit, source, number));
            assert(taken[2 * i] == list[inputs + 2 + made.len() + 2 * i]);
            assert(taken[2 * i + 1] == list[inputs + 2 + made.len() + (2 * i + 1)]);
        }
    }
}

proof fn lemma_maps_at(edit: EditModel, front: Seq<Arg>, rest: Seq<Arg>)
    ensures
        maps_at(
            front + map_args(edit.replacements, edit.plan()) + rest,
            front.len() as int,
            edit,
        ),
{
    let mapped = map_args(edit.replacements, edit.plan());
    let list = front + mapped + rest;
    let maps = front.len() as int;
    lemma_maps(edit.replacements, edit.plan());
    assert(forall|i: int| 0 <= i < mapped.len() ==> #[trigger] mapped[i] == list[maps + i]);
    assert forall|position: int| 0 <= position < edit.plan().len() implies #[trigger] maps_track(
        list,
        maps,
        edit,
        position,
    ) by {
        let track = edit.plan()[position];
        assert(mapped[2 * position] == list[maps + 2 * position]);
        assert(mapped[2 * position + 1] == list[maps + (2 * position + 1)]);
        if let OutputTrack::Existing(index) = track {
            crate::result::replacements_are_found_by_their_track(edit.replacements, index);
            if let Some(i) = replacement_of(edit.replacements, index) {
                assert(edit.replacements[i].source_index == index);
            }
        }
    }
}

/// A video with settings gets the rotation that was staged for it, under its number among
/// the videos of the source, before the source is read.
pub proof fn rotations_address_their_track(
    edit: EditModel,
    source: PathModel,
    temporary: PathModel,
    tags: Option<ContainerTags>,
    position: int,
    index: u64,
)
    requires
        0 <= position < edit.source.streams@.len(),
        kind_of(edit.source.streams@[position]) == Some("video"@),
        index_of(edit.source.streams@[position]) == Some(index),
        edit.video.contains_key(index),
    ensures
        exists|at: int, read: int|
            #![trigger gives_at(
                remux_args(edit, source, temporary, tags),
                at,
                "-display_rotation:v:"@ + decimal(
                    earlier_streams(edit.source.streams@, position, "video"@),
                ),
                crate::result::degrees_text(edit.video[index].rotation),
            ), remux_args(edit, source, temporary, tags)[read]]
            gives_at(
                remux_args(edit, source, temporary, tags),
                at,
                "-display_rotation:v:"@ + decimal(
                    earlier_streams(edit.source.streams@, position, "video"@),
                ),
                crate::result::degrees_text(edit.video[index].rotation),
            ) && at < read < remux_args(edit, source, temporary, tags).len() && remux_args(
                edit,
                source,
                temporary,
                tags,
            )[read] == Arg::Path(source),
{
    let list = remux_args(edit, source, temporary, tags);
    let rotations = rotation_options(rotation_args(edit.source.streams@, edit.video));
    let option = "-display_rotation:v:"@ + decimal(
        earlier_streams(edit.source.streams@, position, "video"@),
    );
    let value = crate::result::degrees_text(edit.video[index].rotation);
    lemma_rotation(edit.source.streams@, edit.video, position, index);
    let at = choose|at: int| #[trigger] gives_at(rotations, at, option, value);
    let head = head_args();
    let inputs = input_args(source, edit.replacements, edit.imports);
    let rest = map_args(edit.replacements, edit.plan()) + copy_args() + file_tag_args(tags)
        + video_args(edit.source, edit.order, edit.video) + audio_args(
        edit.source,
        edit.order,
        edit.audio,
    ) + plan_args(edit, source, edit.plan()) + tail_args(edit.container, temporary);
    assert(list =~= head + rotations + inputs + rest);
    assert(list[head.len() + at] == rotations[at]);
    assert(list[head.len() + at + 1] == rotations[at + 1]);
    assert(gives_at(list, head.len() + at, option, value));
    let read = (head.len() + rotations.len() + 1) as int;
    assert(inputs[1] == Arg::Path(source));
    assert(list[read] == inputs[1]);
}

/// How many of the first streams are of a kind.
pub open spec fn earlier_streams(streams: Seq<Stream>, position: int, kind: Seq<char>) -> nat {
    streams.take(position).filter(|stream: Stream| kind_of(stream) == Some(kind)).len()
}

proof fn lemma_video_count(streams: Seq<Stream>)
    ensures
        crate::transcode::video_count(streams) == streams.filter(
            |stream: Stream| kind_of(stream) == Some("video"@),
        ).len(),
    decreases streams.len(),
{
    reveal(Seq::filter);
    if streams.len() > 0 {
        lemma_video_count(streams.drop_last());
    }
}

proof fn lemma_rotation(
    streams: Seq<Stream>,
    settings: Map<u64, VideoSettings>,
    position: int,
    index: u64,
)
    requires
        0 <= position < streams.len(),
        is_kind(streams[position], "video"@),
        index_of(streams[position]) == Some(index),
        settings.contains_key(index),
    ensures
        gives(
            rotation_options(rotation_args(streams, settings)),
            "-display_rotation:v:"@ + decimal(earlier_streams(streams, position, "video"@)),
            crate::result::degrees_text(settings[index].rotation),
        ),
    decreases streams.len(),
{
    let shorter = streams.drop_last();
    let all = rotation_args(streams, settings);
    let before = rotation_args(shorter, settings);
    let option = "-display_rotation:v:"@ + decimal(earlier_streams(streams, position, "video"@));
    let value = crate::result::degrees_text(settings[index].rotation);
    if position == streams.len() - 1 {
        assert(streams.take(position) =~= shorter);
        lemma_video_count(shorter);
        assert(all.drop_last() =~= before);
        let last = all.last();
        reveal_strlit("-display_rotation:");
        reveal_strlit("-display_rotation:v:");
        reveal_strlit("v:");
        assert("-display_rotation:"@ + "v:"@ =~= "-display_rotation:v:"@);
        assert("-display_rotation:"@ + last.0 =~= option);
        reveal_with_fuel(decimal, 4);
        reveal_strlit("0");
        reveal_strlit("90");
        reveal_strlit("180");
        reveal_strlit("270");
        assert(decimal(0) =~= "0"@ && decimal(90) =~= "90"@);
        assert(decimal(180) =~= "180"@ && decimal(270) =~= "270"@);
        assert(last.1 == value);
        assert(gives_at(
            rotation_options(all),
            rotation_options(before).len() as int,
            option,
            value,
        ));
    } else {
        assert(shorter[position] == streams[position]);
        assert(shorter.take(position) =~= streams.take(position));
        lemma_rotation(shorter, settings, position, index);
        let at = choose|at: int| #[trigger]
            gives_at(rotation_options(before), at, option, value);
        if all != before {
            assert(all.drop_last() =~= before);
        }
        assert(rotation_options(all)[at] == rotation_options(before)[at]);
        assert(rotation_options(all)[at + 1] == rotation_options(before)[at + 1]);
        assert(gives_at(rotation_options(all), at, option, value));
    }
}

// Metadata.

proof fn lemma_plan_block(edit: EditModel, source: PathModel, plan: Seq<OutputTrack>, position: int)
    requires
        0 <= position < plan.len(),
    ensures
        holds_block(
            plan_args(edit, source, plan),
            planned_args(edit, source, plan[position], position as nat),
        ),
    decreases plan.len(),
{
    let shorter = plan.drop_last();
    let all = plan_args(edit, source, plan);
    let before = plan_args(edit, source, shorter);
    let block = planned_args(edit, source, plan[position], position as nat);
    if position == plan.len() - 1 {
        assert(all.subrange(before.len() as int, (before.len() + block.len()) as int) =~= block);
        assert(block_at(all, block, before.len() as int));
    } else {
        assert(shorter[position] == plan[position]);
        lemma_plan_block(edit, source, shorter, position);
        let more = all.skip(before.len() as int);
        assert(all =~= Seq::<Arg>::empty() + before + more);
        lemma_block_within(Seq::empty(), before, more, block);
    }
}

proof fn lemma_planned(
    edit: EditModel,
    source: PathModel,
    temporary: PathModel,
    tags: Option<ContainerTags>,
    position: int,
)
    requires
        0 <= position < edit.plan().len(),
    ensures
        holds_block(
            remux_args(edit, source, temporary, tags),
            planned_args(edit, source, edit.plan()[position], position as nat),
        ),
{
    lemma_plan_block(edit, source, edit.plan(), position);
    lemma_remux_parts(edit, source, temporary, tags);
    let before = front_args(edit, source, tags) + video_args(edit.source, edit.order, edit.video)
        + audio_args(edit.source, edit.order, edit.audio);
    let tail = tail_args(edit.container, temporary);
    assert(remux_args(edit, source, temporary, tags) =~= before + plan_args(
        edit,
        source,
        edit.plan(),
    ) + tail);
    lemma_block_within(
        before,
        plan_args(edit, source, edit.plan()),
        tail,
        planned_args(edit, source, edit.plan()[position], position as nat),
    );
}

/// Whether a remux tags the track at a position: its language, its title under a key, and
/// its flags. A track without a title gets an empty one.
pub open spec fn tags_track(
    list: Seq<Arg>,
    position: int,
    language: Seq<char>,
    key: Seq<char>,
    title: Option<Seq<char>>,
    flags: Set<Seq<char>>,
) -> bool {
    let number = decimal(position as nat);
    &&& gives(list, "-metadata:s:"@ + number, "language="@ + language)
    &&& title is Some ==> gives(list, "-metadata:s:"@ + number, key + title->0)
    &&& title is None ==> gives(list, "-metadata:s:"@ + number, key)
    &&& gives(list, "-disposition:"@ + number, flags_text(flags))
}

proof fn lemma_tags_track(
    list: Seq<Arg>,
    block: Seq<Arg>,
    before: Seq<Arg>,
    position: int,
    language: Seq<char>,
    key: Seq<char>,
    title: Option<Seq<char>>,
    flags: Set<Seq<char>>,
)
    requires
        position >= 0,
        holds_block(list, block),
        block == before + track_tag_args(
            position as nat,
            language,
            key,
            title,
            flags_text(flags),
        ),
    ensures
        tags_track(list, position, language, key, title, flags),
{
    let number = decimal(position as nat);
    reveal_strlit("");
    let words = key + title_or_empty(title);
    if title is None {
        assert(words =~= key);
    }
    let n = before.len() as int;
    assert(gives_at(block, n, "-metadata:s:"@ + number, "language="@ + language));
    assert(gives_at(block, n + 2, "-metadata:s:"@ + number, words));
    assert(gives_at(block, n + 4, "-disposition:"@ + number, flags_text(flags)));
    lemma_block_gives(list, block, "-metadata:s:"@ + number, "language="@ + language);
    lemma_block_gives(list, block, "-metadata:s:"@ + number, words);
    lemma_block_gives(list, block, "-disposition:"@ + number, flags_text(flags));
}

/// An imported subtitle is tagged with the metadata of the import.
pub proof fn imports_are_tagged(
    edit: EditModel,
    source: PathModel,
    temporary: PathModel,
    tags: Option<ContainerTags>,
    position: int,
    import: usize,
)
    requires
        0 <= position < edit.plan().len(),
        edit.plan()[position] == OutputTrack::Imported(import),
    ensures
        tags_track(
            remux_args(edit, source, temporary, tags),
            position,
            edit.imports[import as int].metadata.language@,
            "title="@,
            opt_text(edit.imports[import as int].metadata.title),
            subtitle_flags(
                None,
                edit.imports[import as int].default,
                edit.imports[import as int].metadata@,
            ),
        ),
{
    lemma_planned(edit, source, temporary, tags, position);
    let block = planned_args(edit, source, edit.plan()[position], position as nat);
    let chosen = edit.imports[import as int];
    assert(block =~= Seq::<Arg>::empty() + block);
    lemma_tags_track(
        remux_args(edit, source, temporary, tags),
        block,
        Seq::empty(),
        position,
        chosen.metadata@.language,
        "title="@,
        chosen.metadata@.title,
        subtitle_flags(None, chosen.default, chosen.metadata@),
    );
}

/// The tracks of the source keep the metadata they had as a start. Sound and pictures are
/// tagged anew where they have settings or go into another container: with what was staged,
/// or else with what they had, as far as the container stores it. Subtitles are where they
/// were made anew or have metadata staged. Any other track only gets its default flag.
#[verifier::spinoff_prover]
#[verifier::rlimit(60)]
pub proof fn tracks_of_the_source_are_tagged(
    edit: EditModel,
    source: PathModel,
    temporary: PathModel,
    tags: Option<ContainerTags>,
    position: int,
    index: u64,
    stream: Stream,
)
    requires
        0 <= position < edit.plan().len(),
        edit.plan()[position] == OutputTrack::Existing(index),
        stream_at(edit.source.streams@, index) == Some(stream),
    ensures
        ({
            let list = remux_args(edit, source, temporary, tags);
            let number = decimal(position as nat);
            let container = match edit.container {
                Some(container) => Some(container),
                None => ContainerFormat::detected(source, format_name_of(edit.source)),
            };
            let key = if container == Some(ContainerFormat::Mp4) || container == Some(
                ContainerFormat::Mov,
            ) {
                "handler_name="@
            } else {
                "title="@
            };
            let default = edit.defaults.contains(index);
            let sound = kind_of(stream) == Some("audio"@) && (edit.audio.contains_key(index)
                || edit.container is Some);
            let picture = kind_of(stream) == Some("video"@) && (edit.video.contains_key(index)
                || edit.container is Some);
            let audio = if edit.audio.contains_key(index) {
                edit.audio[index].metadata@
            } else {
                audio_tags(stream)
            };
            let video = if edit.video.contains_key(index) {
                edit.video[index].metadata@
            } else {
                video_tags(stream)
            };
            let kept_sound = match container {
                Some(container) => container.kept_audio(audio),
                None => audio,
            };
            let kept_picture = match container {
                Some(container) => container.kept_video(video),
                None => video,
            };
            let anew = replacement_of(edit.replacements, index) is Some || metadata_change_of(
                edit.changes,
                index,
            ) is Some;
            let subtitle = subtitle_tags_after(
                edit.languages,
                edit.changes,
                stream,
                index,
                container,
            );
            &&& gives(list, "-map_metadata:s:"@ + number, "0:s:"@ + decimal(index as nat))
            &&& kind_of(stream) == Some("subtitle"@) ==> gives(
                list,
                "-metadata:s:"@ + number,
                "language="@ + language_of(stream),
            )
            &&& sound ==> tags_track(
                list,
                position,
                kept_sound.language,
                key,
                kept_sound.title,
                audio_flags(stream, default, kept_sound),
            )
            &&& picture ==> tags_track(
                list,
                position,
                kept_picture.language,
                key,
                kept_picture.title,
                video_flags(stream, default, kept_picture),
            )
            &&& !sound && !picture && anew ==> tags_track(
                list,
                position,
                subtitle.language,
                "title="@,
                subtitle.title,
                subtitle_flags(Some(stream), default, subtitle),
            )
            &&& !sound && !picture && !anew && default ==> gives(
                list,
                "-disposition:"@ + number,
                "+default"@,
            )
            &&& !sound && !picture && !anew && !default ==> gives(
                list,
                "-disposition:"@ + number,
                "-default"@,
            )
        }),
{
    lemma_planned(edit, source, temporary, tags, position);
    let list = remux_args(edit, source, temporary, tags);
    let number = decimal(position as nat);
    let container = metadata_container(edit, source);
    let default = edit.defaults.contains(index);
    let block = existing_args(edit, source, index, position as nat);
    assert(block == planned_args(edit, source, edit.plan()[position], position as nat));
    let head = seq![
        text_arg(numbered("-map_metadata:s:"@, position as nat)),
        text_arg(numbered("0:s:"@, index as nat)),
    ];
    let language = if is_kind(stream, "subtitle"@) {
        seq![
            text_arg(numbered("-metadata:s:"@, position as nat)),
            text_arg("language="@ + language_of(stream)),
        ]
    } else {
        Seq::empty()
    };
    let before = head + language;
    assert(gives_at(block, 0, "-map_metadata:s:"@ + number, "0:s:"@ + decimal(index as nat)));
    lemma_block_gives(list, block, "-map_metadata:s:"@ + number, "0:s:"@ + decimal(index as nat));
    if is_kind(stream, "subtitle"@) {
        assert(gives_at(
            block,
            2,
            "-metadata:s:"@ + number,
            "language="@ + language_of(stream),
        ));
        lemma_block_gives(
            list,
            block,
            "-metadata:s:"@ + number,
            "language="@ + language_of(stream),
        );
    }
    reveal_strlit("audio");
    reveal_strlit("video");
    assert("audio"@[0] == 'a' && "video"@[0] == 'v');
    let rest = block.skip(before.len() as int);
    assert(block =~= before + rest);
    if is_kind(stream, "audio"@) && (edit.audio.contains_key(index) || edit.container is Some) {
        let kept = audio_tags_after(stream, settings_of(edit.audio, index), container);
        assert(rest =~= track_tag_args(
            position as nat,
            kept.language,
            title_key(container),
            kept.title,
            flags_text(audio_flags(stream, default, kept)),
        ));
        lemma_tags_track(
            list,
            block,
            before,
            position,
            kept.language,
            title_key(container),
            kept.title,
            audio_flags(stream, default, kept),
        );
    } else if is_kind(stream, "video"@) && (edit.video.contains_key(index) || edit.container
        is Some) {
        let kept = video_tags_after(stream, settings_of(edit.video, index), container);
        assert(rest =~= track_tag_args(
            position as nat,
            kept.language,
            title_key(container),
            kept.title,
            flags_text(video_flags(stream, default, kept)),
        ));
        lemma_tags_track(
            list,
            block,
            before,
            position,
            kept.language,
            title_key(container),
            kept.title,
            video_flags(stream, default, kept),
        );
    } else if replacement_of(edit.replacements, index) is Some || metadata_change_of(
        edit.changes,
        index,
    ) is Some {
        let kept = subtitle_tags_after(edit.languages, edit.changes, stream, index, container);
        assert(rest =~= track_tag_args(
            position as nat,
            kept.language,
            "title="@,
            kept.title,
            flags_text(subtitle_flags(Some(stream), default, kept)),
        ));
        lemma_tags_track(
            list,
            block,
            before,
            position,
            kept.language,
            "title="@,
            kept.title,
            subtitle_flags(Some(stream), default, kept),
        );
    } else {
        let value = if default {
            "+default"@
        } else {
            "-default"@
        };
        assert(gives_at(block, before.len() as int, "-disposition:"@ + number, value));
        lemma_block_gives(list, block, "-disposition:"@ + number, value);
    }
}

proof fn lemma_segment_gives(
    before: Seq<Arg>,
    list: Seq<Arg>,
    after: Seq<Arg>,
    option: Seq<char>,
    value: Seq<char>,
)
    requires
        gives(list, option, value),
    ensures
        gives(before + list + after, option, value),
{
    let at = choose|at: int| #[trigger] gives_at(list, at, option, value);
    let all = before + list + after;
    assert(all[before.len() + at] == list[at] && all[before.len() + at + 1] == list[at + 1]);
    assert(gives_at(all, before.len() + at, option, value));
}

/// The tags of the file are written where there are any, each under its own name.
pub proof fn files_are_tagged(
    edit: EditModel,
    source: PathModel,
    temporary: PathModel,
    tags: ContainerTags,
)
    ensures
        ({
            let list = remux_args(edit, source, temporary, Some(tags));
            &&& tags.title is Some ==> gives(list, "-metadata"@, "title="@ + tags.title->0)
            &&& tags.comment is Some ==> gives(list, "-metadata"@, "comment="@ + tags.comment->0)
            &&& tags.date is Some ==> gives(list, "-metadata"@, "date="@ + tags.date->0)
            &&& tags.genre is Some ==> gives(list, "-metadata"@, "genre="@ + tags.genre->0)
            &&& tags.artist is Some ==> gives(list, "-metadata"@, "artist="@ + tags.artist->0)
        }),
        remux_args(edit, source, temporary, None).len() + 2 * said(tags) == remux_args(
            edit,
            source,
            temporary,
            Some(tags),
        ).len(),
{
    let front = head_args() + rotation_options(
        rotation_args(edit.source.streams@, edit.video),
    ) + input_args(source, edit.replacements, edit.imports) + map_args(
        edit.replacements,
        edit.plan(),
    ) + copy_args();
    let videos = video_args(edit.source, edit.order, edit.video);
    let sounds = audio_args(edit.source, edit.order, edit.audio);
    let plans = plan_args(edit, source, edit.plan());
    let tail = tail_args(edit.container, temporary);
    let back = videos + sounds + plans + tail;
    let written = file_tag_args(Some(tags));
    let list = remux_args(edit, source, temporary, Some(tags));
    lemma_join_three(front + written, videos, sounds, plans);
    lemma_join_last(front + written, videos + sounds + plans, tail);
    assert(list == front + written + back);
    lemma_file_tags(tags);
    assert(remux_args(edit, source, temporary, None).len() == front.len() + back.len());
    if tags.title is Some {
        lemma_segment_gives(front, written, back, "-metadata"@, "title="@ + tags.title->0);
    }
    if tags.comment is Some {
        lemma_segment_gives(front, written, back, "-metadata"@, "comment="@ + tags.comment->0);
    }
    if tags.date is Some {
        lemma_segment_gives(front, written, back, "-metadata"@, "date="@ + tags.date->0);
    }
    if tags.genre is Some {
        lemma_segment_gives(front, written, back, "-metadata"@, "genre="@ + tags.genre->0);
    }
    if tags.artist is Some {
        lemma_segment_gives(front, written, back, "-metadata"@, "artist="@ + tags.artist->0);
    }
}

proof fn lemma_file_tags(tags: ContainerTags)
    ensures
        file_tag_args(Some(tags)).len() == 2 * said(tags),
        tags.title is Some ==> gives(
            file_tag_args(Some(tags)),
            "-metadata"@,
            "title="@ + tags.title->0,
        ),
        tags.comment is Some ==> gives(
            file_tag_args(Some(tags)),
            "-metadata"@,
            "comment="@ + tags.comment->0,
        ),
        tags.date is Some ==> gives(
            file_tag_args(Some(tags)),
            "-metadata"@,
            "date="@ + tags.date->0,
        ),
        tags.genre is Some ==> gives(
            file_tag_args(Some(tags)),
            "-metadata"@,
            "genre="@ + tags.genre->0,
        ),
        tags.artist is Some ==> gives(
            file_tag_args(Some(tags)),
            "-metadata"@,
            "artist="@ + tags.artist->0,
        ),
{
    let one = tag_args("title="@, tags.title);
    let two = tag_args("comment="@, tags.comment);
    let three = tag_args("date="@, tags.date);
    let four = tag_args("genre="@, tags.genre);
    let five = tag_args("artist="@, tags.artist);
    let list = file_tag_args(Some(tags));
    assert(list == one + two + three + four + five);
    if let Some(value) = tags.title {
        assert(one[0] == text_arg("-metadata"@) && one[1] == text_arg("title="@ + value));
        assert(gives_at(list, 0, "-metadata"@, "title="@ + value));
    }
    if let Some(value) = tags.comment {
        assert(two[0] == text_arg("-metadata"@) && two[1] == text_arg("comment="@ + value));
        assert(gives_at(list, one.len() as int, "-metadata"@, "comment="@ + value));
    }
    if let Some(value) = tags.date {
        assert(three[0] == text_arg("-metadata"@) && three[1] == text_arg("date="@ + value));
        assert(gives_at(list, (one + two).len() as int, "-metadata"@, "date="@ + value));
    }
    if let Some(value) = tags.genre {
        assert(four[0] == text_arg("-metadata"@) && four[1] == text_arg("genre="@ + value));
        assert(gives_at(list, (one + two + three).len() as int, "-metadata"@, "genre="@ + value));
    }
    if let Some(value) = tags.artist {
        assert(five[0] == text_arg("-metadata"@) && five[1] == text_arg("artist="@ + value));
        assert(gives_at(
            list,
            (one + two + three + four).len() as int,
            "-metadata"@,
            "artist="@ + value,
        ));
    }
}

/// How many tags of a file there are.
pub open spec fn said(tags: ContainerTags) -> nat {
    (if tags.title is Some {
        1nat
    } else {
        0
    }) + (if tags.comment is Some {
        1nat
    } else {
        0
    }) + (if tags.date is Some {
        1nat
    } else {
        0
    }) + (if tags.genre is Some {
        1nat
    } else {
        0
    }) + (if tags.artist is Some {
        1nat
    } else {
        0
    })
}

/// A remux copies what is not encoded, with the tags and the chapters of the source, and says
/// so before any encoder is named; it ends in the file that it writes, in the container that
/// was asked for. It overwrites that file, asks nothing and reports its progress.
pub proof fn remuxes_copy_and_end_in_their_file(
    edit: EditModel,
    source: PathModel,
    temporary: PathModel,
    tags: Option<ContainerTags>,
)
    ensures
        ({
            let list = remux_args(edit, source, temporary, tags);
            &&& list.last() == Arg::Path(temporary)
            &&& edit.container == Some(ContainerFormat::Matroska) ==> gives(
                list,
                "-f"@,
                "matroska"@,
            )
            &&& edit.container == Some(ContainerFormat::Mp4) ==> gives(list, "-f"@, "mp4"@)
            &&& edit.container == Some(ContainerFormat::Mov) ==> gives(list, "-f"@, "mov"@)
            &&& edit.container == Some(ContainerFormat::WebM) ==> gives(list, "-f"@, "webm"@)
            &&& edit.container == Some(ContainerFormat::Mp4) || edit.container == Some(
                ContainerFormat::Mov,
            ) ==> gives(list, "-movflags"@, "+faststart"@)
            &&& gives(list, "-map_metadata"@, "0"@)
            &&& gives(list, "-map_chapters"@, "0"@)
            &&& gives(list, "-progress"@, "pipe:1"@)
            &&& list.contains(text_arg("-y"@)) && list.contains(text_arg("-nostdin"@))
            &&& exists|at: int| #[trigger]
                gives_at(list, at, "-c"@, "copy"@) && at + 2 <= list.len() && clean_before(list, at)
        }),
{
    let list = remux_args(edit, source, temporary, tags);
    let head = head_args();
    let rotations = rotation_options(rotation_args(edit.source.streams@, edit.video));
    let inputs = input_args(source, edit.replacements, edit.imports);
    let maps = map_args(edit.replacements, edit.plan());
    let early = head + rotations + inputs + maps;
    let copy = copy_args();
    let file = file_tag_args(tags);
    let videos = video_args(edit.source, edit.order, edit.video);
    let sounds = audio_args(edit.source, edit.order, edit.audio);
    let plans = plan_args(edit, source, edit.plan());
    let tail = tail_args(edit.container, temporary);
    let late = file + videos + sounds + plans + tail;
    lemma_join_five(early + copy, file, videos, sounds, plans, tail);
    assert(list == early + copy + late);
    assert(gives_at(copy, 0, "-map_metadata"@, "0"@));
    assert(gives_at(copy, 2, "-map_chapters"@, "0"@));
    lemma_segment_gives(early, copy, late, "-map_metadata"@, "0"@);
    lemma_segment_gives(early, copy, late, "-map_chapters"@, "0"@);
    let at = (early.len() + 4) as int;
    assert(copy[4] == text_arg("-c"@) && copy[5] == text_arg("copy"@));
    assert((early + copy)[at] == copy[4] && (early + copy)[at + 1] == copy[5]);
    assert(gives_at(list, at, "-c"@, "copy"@));
    lemma_clean_front(edit, source, tags, 'a');
    lemma_clean_front(edit, source, tags, 'v');
    let front = front_args(edit, source, tags);
    assert(front == early + copy + file);
    assert forall|k: int| 0 <= k < at && (names_encoder(#[trigger] list[k], 'a') || names_encoder(
        list[k],
        'v',
    )) implies k > 0 && names_flags(list[k - 1]) by {
        assert(list[k] == (early + copy)[k] && front[k] == (early + copy)[k]);
        if k > 0 {
            assert(list[k - 1] == (early + copy)[k - 1] && front[k - 1] == (early + copy)[k - 1]);
        }
    }
    assert(clean_before(list, at));
    lemma_starts(head, rotations, inputs, maps, copy + late);
    lemma_join_last(early, copy, late);
    assert(list == head + rotations + inputs + maps + (copy + late));
    assert(head[3] == text_arg("-y"@) && head[2] == text_arg("-nostdin"@));
    assert(head[4] == text_arg("-progress"@) && head[5] == text_arg("pipe:1"@));
    assert(list[2] == head[2] && list[3] == head[3] && list[4] == head[4] && list[5] == head[5]);
    assert(gives_at(list, 4, "-progress"@, "pipe:1"@));
    let before = early + copy + file + videos + sounds + plans;
    assert(list == before + tail);
    assert(list =~= before + tail + Seq::<Arg>::empty());
    assert(list.last() == tail.last());
    if let Some(container) = edit.container {
        if container.iso() {
            assert(gives_at(tail, 0, "-movflags"@, "+faststart"@));
            lemma_segment_gives(before, tail, Seq::empty(), "-movflags"@, "+faststart"@);
            assert(gives_at(tail, 2, "-f"@, container.muxer_text()));
        } else {
            assert(gives_at(tail, 0, "-f"@, container.muxer_text()));
        }
        lemma_segment_gives(before, tail, Seq::empty(), "-f"@, container.muxer_text());
    }
}

/// A list begins with its first part.
proof fn lemma_starts(a: Seq<Arg>, b: Seq<Arg>, c: Seq<Arg>, d: Seq<Arg>, e: Seq<Arg>)
    ensures
        forall|i: int| 0 <= i < a.len() ==> #[trigger] a[i] == (a + b + c + d + e)[i],
{
}

/// Whether no encoder is named before a position.
pub open spec fn clean_before(list: Seq<Arg>, at: int) -> bool {
    forall|k: int|
        0 <= k < at && (names_encoder(#[trigger] list[k], 'a') || names_encoder(list[k], 'v')) ==> k
            > 0 && names_flags(list[k - 1])
}

/// A soundtrack is brought to another sample rate where its codec does not take its own,
/// and gets the bit rate of its codec for the channels that it has afterwards.
pub proof fn sound_encodes_have_their_rates(
    edit: EditModel,
    source: PathModel,
    temporary: PathModel,
    tags: Option<ContainerTags>,
    position: int,
    stream: Stream,
    settings: AudioSettings,
    codec: AudioCodec,
)
    requires
        0 <= position < edit.order.len(),
        stream_at(edit.source.streams@, edit.order[position]) == Some(stream),
        kind_of(stream) == Some("audio"@),
        edit.audio.contains_key(edit.order[position]),
        edit.audio[edit.order[position]] == settings,
        encodes_audio(stream, settings),
        audio_codec_after(stream, settings) == Some(codec),
        sample_rate_of(stream) is Some,
        resolved_rate(codec, sample_rate_of(stream)->0) is Some,
    ensures
        ({
            let list = remux_args(edit, source, temporary, tags);
            let number = decimal(earlier_of_kind(edit.source, edit.order, position, "audio"@));
            let rate = resolved_rate(codec, sample_rate_of(stream)->0)->0;
            let channels = if settings.channel_layout == AudioChannelLayout::Original {
                channels_of(stream)
            } else {
                settings.channel_layout.channel_count()
            };
            &&& rate != sample_rate_of(stream)->0 ==> gives(
                list,
                "-ar:a:"@ + number,
                decimal(rate as nat),
            )
            &&& channels is Some && !codec.lossless() && bitrate(codec, channels->0) is Some
                ==> gives(
                list,
                "-b:a:"@ + number,
                decimal(bitrate(codec, channels->0)->0 as nat) + "k"@,
            )
        }),
{
    let order = edit.order;
    let n = earlier_of_kind(edit.source, order, position, "audio"@);
    let number = decimal(n);
    let block = audio_encode_args(stream, settings, n);
    let list = remux_args(edit, source, temporary, tags);
    lemma_audio_block(edit.source, order, edit.audio, position);
    lemma_remux_parts(edit, source, temporary, tags);
    let before = front_args(edit, source, tags) + video_args(edit.source, order, edit.video);
    lemma_block_within(
        before,
        audio_args(edit.source, order, edit.audio),
        back_args(edit, source, temporary),
        block,
    );
    let rate = resolved_rate(codec, sample_rate_of(stream)->0)->0;
    let shift = if settings.channel_layout == AudioChannelLayout::Original {
        2int
    } else {
        4
    };
    if rate != sample_rate_of(stream)->0 {
        assert(gives_at(block, shift, "-ar:a:"@ + number, decimal(rate as nat)));
        lemma_block_gives(list, block, "-ar:a:"@ + number, decimal(rate as nat));
    }
    if encode_bitrate(stream, settings, codec) is Some {
        let value = decimal(encode_bitrate(stream, settings, codec)->0 as nat) + "k"@;
        let at = if rate != sample_rate_of(stream)->0 {
            shift + 2
        } else {
            shift
        };
        assert(gives_at(block, at, "-b:a:"@ + number, value));
        lemma_block_gives(list, block, "-b:a:"@ + number, value);
    }
}

/// How many arguments each part of a remux takes, so that nothing is said beside what was
/// asked for.
pub proof fn remuxes_say_nothing_else(
    edit: EditModel,
    source: PathModel,
    temporary: PathModel,
    stream: Stream,
    audio: AudioSettings,
    video: VideoSettings,
    number: nat,
    rotations: Seq<(Seq<char>, Seq<char>)>,
    index: u64,
)
    ensures
        rotation_options(rotations).len() == 2 * rotations.len(),
        input_args(source, edit.replacements, edit.imports).len() == 2 * (1
            + edit.replacements.len() + edit.imports.len()),
        map_args(edit.replacements, edit.plan()).len() == 2 * edit.plan().len(),
        video_encode_args(stream, video, number).len() == if video.resolution
            == VideoResolution::Original {
            6nat
        } else {
            8nat
        },
        audio_codec_after(stream, audio) is Some && sample_rate_of(stream) is Some && resolved_rate(
            audio_codec_after(stream, audio)->0,
            sample_rate_of(stream)->0,
        ) == sample_rate_of(stream) && audio_codec_after(stream, audio)->0.lossless()
            ==> audio_encode_args(stream, audio, number).len() == if audio.channel_layout
            == AudioChannelLayout::Original {
            2nat
        } else {
            4nat
        },
        existing_args(edit, source, index, number).len() <= 10,
        tail_args(None, temporary) == seq![Arg::Path(temporary)],
        tail_args(Some(ContainerFormat::Matroska), temporary).len() == 3,
        tail_args(Some(ContainerFormat::WebM), temporary).len() == 3,
        tail_args(Some(ContainerFormat::Mp4), temporary).len() == 5,
        tail_args(Some(ContainerFormat::Mov), temporary).len() == 5,
        head_args() == seq![
            text_arg("-v"@),
            text_arg("error"@),
            text_arg("-nostdin"@),
            text_arg("-y"@),
            text_arg("-progress"@),
            text_arg("pipe:1"@),
            text_arg("-nostats"@),
        ],
        copy_args().len() == 6,
{
    lemma_rotation_length(rotations);
    lemma_replacement_length(edit.replacements);
    lemma_import_length(edit.imports);
    lemma_map_length(edit.replacements, edit.plan());
}

proof fn lemma_rotation_length(rotations: Seq<(Seq<char>, Seq<char>)>)
    ensures
        rotation_options(rotations).len() == 2 * rotations.len(),
    decreases rotations.len(),
{
    if rotations.len() > 0 {
        lemma_rotation_length(rotations.drop_last());
    }
}

proof fn lemma_replacement_length(replacements: Seq<SubtitleReplacement>)
    ensures
        replacement_inputs(replacements).len() == 2 * replacements.len(),
    decreases replacements.len(),
{
    if replacements.len() > 0 {
        lemma_replacement_length(replacements.drop_last());
    }
}

proof fn lemma_import_length(imports: Seq<SubtitleImport>)
    ensures
        import_inputs(imports).len() == 2 * imports.len(),
    decreases imports.len(),
{
    if imports.len() > 0 {
        lemma_import_length(imports.drop_last());
    }
}

proof fn lemma_map_length(replacements: Seq<SubtitleReplacement>, plan: Seq<OutputTrack>)
    ensures
        map_args(replacements, plan).len() == 2 * plan.len(),
    decreases plan.len(),
{
    if plan.len() > 0 {
        lemma_map_length(replacements, plan.drop_last());
    }
}

} // verus!
