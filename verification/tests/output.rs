use std::collections::{BTreeMap, BTreeSet};

use reel::apply::{media_changes_required, output_stream_order};
use reel::audio::{AudioChannelLayout, AudioCodec, AudioMetadata, AudioSettings};
use reel::conflicts::{
    container_conflict_message, container_conflict_streams, container_conflicts,
    imported_subtitle_conflicts, subtitle_flag_conflicts, subtitle_metadata_conflicts,
};
use reel::container::ContainerFormat;
use reel::convert::validate_subtitle_output;
use reel::files::FileFingerprint;
use reel::path::FilePath;
use reel::plan::{
    muxer_forced_default_positions, output_track_plan, OutputTrack, SubtitleImport,
    SubtitleReplacement,
};
use reel::probe::{MediaInfo, Number, Object, Value};
use reel::progress::media_write_label;
use reel::result::{validate_output_container, validate_result};
use reel::sources::EditError;
use reel::subtitle::{
    Languages, SidecarEntry, SubtitleChange, SubtitleFlag, SubtitleFormat, SubtitleMetadata,
    SubtitleSource, TrackRef,
};
use reel::transcode::plan_requires_transcode;
use reel::validate::validate_edit;
use reel::video::{VideoCodec, VideoResolution, VideoSettings};

fn value(json: &serde_json::Value) -> Value {
    match json {
        serde_json::Value::Null => Value::Null,
        serde_json::Value::Bool(truth) => Value::Bool(*truth),
        serde_json::Value::Number(number) => Value::Number(match (number.as_u64(), number.as_i64()) {
            (Some(whole), _) => Number::Whole(whole),
            (None, Some(negative)) => Number::Negative(negative),
            (None, None) => Number::Fraction(number.as_f64().unwrap().round() as i64),
        }),
        serde_json::Value::String(text) => Value::Text(text.clone()),
        serde_json::Value::Array(items) => Value::Array(items.iter().map(value).collect()),
        serde_json::Value::Object(_) => Value::Object(object(json)),
    }
}

fn object(json: &serde_json::Value) -> Object {
    Object {
        fields: json
            .as_object()
            .unwrap()
            .iter()
            .map(|(name, field)| (name.clone(), value(field)))
            .collect(),
    }
}

fn media(json: &str) -> MediaInfo {
    let parsed: serde_json::Value = serde_json::from_str(json).unwrap();
    MediaInfo {
        streams: parsed.as_array().unwrap().iter().map(object).collect(),
        format: Object { fields: vec![] },
        chapters: vec![],
    }
}

fn chaptered(streams: &str) -> MediaInfo {
    let mut info = media(streams);
    info.chapters = vec![Object {
        fields: vec![
            ("id".to_string(), Value::Number(Number::Whole(0))),
            ("start_time".to_string(), Value::Text("0.0".to_string())),
        ],
    }];
    info
}

fn probed_as(streams: &str, format_name: &str) -> MediaInfo {
    let mut info = media(streams);
    info.format = Object {
        fields: vec![("format_name".to_string(), Value::Text(format_name.to_string()))],
    };
    info
}

fn nowhere() -> FilePath {
    FilePath { directory: None, gap: "/".to_string(), name: None, tail: String::new() }
}

fn languages() -> Languages {
    let codes = ["eng", "dan", "nld", "fra"];
    Languages {
        codes: codes.iter().map(|code| (code.to_string(), code.to_string())).collect(),
        choices: codes.iter().map(|code| code.to_string()).collect(),
    }
}

fn english_subtitle_metadata() -> SubtitleMetadata {
    SubtitleMetadata {
        language: "eng".to_string(),
        title: None,
        forced: false,
        cc: false,
        hearing_impaired: false,
        original: false,
        commentary: false,
    }
}

fn embedded(index: u64) -> SubtitleChange {
    SubtitleChange {
        cue_edits: vec![],
        source: SubtitleSource::Embedded(index),
        source_format: SubtitleFormat::SubRip,
        embedded_target: None,
        export_target: None,
        import_into_media: false,
        ocr_language: None,
        metadata: None,
    }
}

fn sidecar_entry(path: &FilePath, name: &str) -> SidecarEntry {
    SidecarEntry {
        path: path.clone(),
        companion: None,
        display_name: name.to_string(),
        format: SubtitleFormat::SubRip,
        language: "eng".to_string(),
        forced: false,
        hearing_impaired: false,
        number: None,
        fingerprint: FileFingerprint { length: 0, modified: None },
        companion_fingerprint: None,
    }
}

fn import(source: FilePath, path: FilePath) -> SubtitleImport {
    SubtitleImport {
        source_path: source,
        target: SubtitleFormat::SubRip,
        path,
        metadata: english_subtitle_metadata(),
        default: false,
    }
}

fn audio_settings() -> AudioSettings {
    AudioSettings {
        codec: AudioCodec::Original,
        channel_layout: AudioChannelLayout::Original,
        metadata: AudioMetadata {
            language: "eng".to_string(),
            title: None,
            commentary: false,
            hearing_impaired: false,
            audio_description: false,
            original: false,
            dubbed: false,
        },
    }
}

fn recoded(codec: VideoCodec) -> VideoSettings {
    VideoSettings { codec, ..VideoSettings::default() }
}

const FAMILY: &str = "mov,mp4,m4a,3gp,3g2,mj2";

#[test]
fn output_container_validation_should_require_both_the_extension_and_the_real_format() {
    let streams = r#"[{"index": 0, "codec_type": "video"}]"#;
    let matroska = probed_as(streams, "matroska,webm");
    let mp4 = probed_as(streams, FAMILY);
    let check = |info: &MediaInfo, name: &str, expected| {
        validate_output_container(info, &FilePath::at("/videos", name), expected)
    };
    assert!(check(&matroska, "movie.mkv", ContainerFormat::Matroska).is_ok());
    assert!(check(&mp4, "movie.mp4", ContainerFormat::Mp4).is_ok());
    assert!(check(&matroska, "movie.webm", ContainerFormat::WebM).is_ok());
    assert!(check(&mp4, "movie.mov", ContainerFormat::Mov).is_ok());
    assert_eq!(
        check(&matroska, "movie.mp4", ContainerFormat::Mp4),
        Err("The completed file is not a valid MP4 container.".to_string()),
    );
    assert!(check(&mp4, "movie.mkv", ContainerFormat::Mp4).is_err());
    assert!(check(&media(streams), "movie.mkv", ContainerFormat::Matroska).is_err());
}

#[test]
fn container_conflicts_should_consider_final_order_and_staged_conversions() {
    let info = media(
        r#"[
            {"index": 0, "codec_type": "video", "codec_name": "h264"},
            {"index": 1, "codec_type": "audio", "codec_name": "aac"},
            {"index": 2, "codec_type": "subtitle", "codec_name": "subrip"},
            {"index": 3, "codec_type": "subtitle", "codec_name": "ass"}
        ]"#,
    );
    let mut change = embedded(2);
    change.embedded_target = Some(SubtitleFormat::MovText);
    let conflicts = container_conflicts(
        &info,
        &[0, 1, 2],
        &BTreeMap::new(),
        &BTreeMap::from([(0, recoded(VideoCodec::Av1))]),
        &[change],
        ContainerFormat::Mp4,
    );
    assert!(conflicts.is_empty());
}

#[test]
fn container_conflicts_should_ignore_an_incompatible_subtitle_staged_for_export() {
    let info = media(
        r#"[
            {"index": 0, "codec_type": "video", "codec_name": "h264"},
            {"index": 1, "codec_type": "audio", "codec_name": "aac"},
            {"index": 2, "codec_type": "subtitle", "codec_name": "subrip"}
        ]"#,
    );
    let mut change = embedded(2);
    change.embedded_target = Some(SubtitleFormat::VobSub);
    change.export_target = Some(SubtitleFormat::VobSub);
    change.metadata = Some(SubtitleMetadata {
        language: "dan".to_string(),
        title: None,
        forced: true,
        cc: true,
        hearing_impaired: true,
        original: true,
        commentary: true,
    });
    let changes = [change];
    let conflicts = container_conflicts(
        &info,
        &[0, 1, 2],
        &BTreeMap::new(),
        &BTreeMap::new(),
        &changes,
        ContainerFormat::Mp4,
    );
    let metadata_conflicts = subtitle_metadata_conflicts(
        &languages(),
        &info,
        &changes,
        &[],
        ContainerFormat::Mp4,
        true,
    );
    assert!(conflicts.is_empty());
    assert!(metadata_conflicts.is_empty());
}

#[test]
fn imported_subtitle_conflicts_should_clear_after_a_compatible_conversion() {
    let path = FilePath::at("/videos", "movie.eng.srt");
    let sidecars = [sidecar_entry(&path, "movie.eng.srt")];
    let mut changes = [embedded(0)];
    changes[0].source = SubtitleSource::Sidecar(path);
    changes[0].import_into_media = true;
    let incompatible = imported_subtitle_conflicts(&changes, &sidecars, ContainerFormat::Mp4);
    changes[0].embedded_target = Some(SubtitleFormat::MovText);
    let compatible = imported_subtitle_conflicts(&changes, &sidecars, ContainerFormat::Mp4);
    assert!(incompatible.contains(
        &"MP4 can't import SubRip / SRT subtitle movie.eng.srt. Convert it to MOV Text.".to_string()
    ));
    assert!(compatible.is_empty());
}

fn chaptered_mp4(data_tag: &str) -> MediaInfo {
    chaptered(&format!(
        r#"[
            {{"index": 0, "codec_type": "video", "codec_name": "h264"}},
            {{"index": 1, "codec_type": "audio", "codec_name": "aac"}},
            {{"index": 2, "codec_type": "audio", "codec_name": "aac"}},
            {{"index": 3, "codec_type": "audio", "codec_name": "aac"}},
            {{"index": 4, "codec_type": "subtitle", "codec_name": "dvd_subtitle"}},
            {{"index": 5, "codec_type": "data", "codec_name": "bin_data",
              "codec_tag_string": "{data_tag}"}}
        ]"#
    ))
}

#[test]
fn a_chapter_track_should_be_left_out_of_the_remux_and_raise_no_conflict() {
    let chapters = chaptered_mp4("text");
    let telemetry = chaptered_mp4("gpmd");
    let order = [0, 1, 2, 3, 4, 5];
    let conflicts = |info: &MediaInfo, target| {
        container_conflicts(info, &order, &BTreeMap::new(), &BTreeMap::new(), &[], target)
    };
    let flagged = |info: &MediaInfo, target| {
        container_conflict_streams(info, &order, &BTreeMap::new(), &BTreeMap::new(), &[], target)
    };
    let mapped = output_track_plan(&chapters, &order, &[], &[], &[]);
    let mapped_telemetry = output_track_plan(&telemetry, &order, &[], &[], &[]);
    assert_eq!(mapped, (0..=4).map(OutputTrack::Existing).collect::<Vec<OutputTrack>>());
    assert_eq!(flagged(&chapters, ContainerFormat::Mp4), BTreeSet::from([4]));
    assert!(conflicts(&chapters, ContainerFormat::Matroska).is_empty());
    assert_eq!(
        mapped_telemetry,
        (0..=5).map(OutputTrack::Existing).collect::<Vec<OutputTrack>>(),
    );
    assert_eq!(flagged(&telemetry, ContainerFormat::Mp4), BTreeSet::from([4]));
    assert_eq!(
        conflicts(&telemetry, ContainerFormat::Matroska),
        vec!["MKV can't contain BIN_DATA data track #5. Choose MP4 or MOV instead.".to_string()],
    );
}

fn validate_plain(
    source: &MediaInfo,
    output: &MediaInfo,
    stream_order: &[u64],
    default_streams: &BTreeSet<u64>,
) -> Result<(), String> {
    validate_result(
        &languages(),
        source,
        output,
        stream_order,
        &[],
        default_streams,
        &BTreeMap::new(),
        &BTreeMap::new(),
        &[],
        &[],
        &[],
        &[],
        None,
    )
}

#[test]
fn validation_should_ignore_the_chapter_track_the_muxer_writes_for_itself() {
    let source = chaptered_mp4("text");
    let output = chaptered(
        r#"[
            {"index": 0, "codec_type": "video", "codec_name": "h264", "disposition": {"default": 1}},
            {"index": 1, "codec_type": "audio", "codec_name": "aac", "disposition": {"default": 1}},
            {"index": 2, "codec_type": "audio", "codec_name": "aac"},
            {"index": 3, "codec_type": "audio", "codec_name": "aac"},
            {"index": 4, "codec_type": "subtitle", "codec_name": "dvd_subtitle",
             "disposition": {"default": 1}},
            {"index": 5, "codec_type": "data", "codec_name": "bin_data", "codec_tag_string": "text"}
        ]"#,
    );
    assert!(validate_plain(
        &source,
        &output,
        &[0, 1, 2, 3, 4, 5],
        &BTreeSet::from([0, 1, 4]),
    )
    .is_ok());
}

#[test]
fn output_track_plan_should_insert_imports_after_embedded_subtitles() {
    let info = media(
        r#"[
            {"index": 0, "codec_type": "video"},
            {"index": 1, "codec_type": "audio"},
            {"index": 2, "codec_type": "subtitle"},
            {"index": 3, "codec_type": "attachment"}
        ]"#,
    );
    let imports = [import(nowhere(), nowhere()), import(nowhere(), nowhere())];
    assert_eq!(
        output_track_plan(&info, &[0, 1, 2, 3], &[], &imports, &[]),
        vec![
            OutputTrack::Existing(0),
            OutputTrack::Existing(1),
            OutputTrack::Existing(2),
            OutputTrack::Imported(0),
            OutputTrack::Imported(1),
            OutputTrack::Existing(3),
        ],
    );
}

#[test]
fn output_track_plan_should_put_imports_after_audio_without_embedded_subtitles() {
    let info = media(
        r#"[
            {"index": 0, "codec_type": "video"},
            {"index": 1, "codec_type": "audio"},
            {"index": 2, "codec_type": "attachment"}
        ]"#,
    );
    let imports = [import(nowhere(), nowhere())];
    assert_eq!(
        output_track_plan(&info, &[0, 1, 2], &[], &imports, &[]),
        vec![
            OutputTrack::Existing(0),
            OutputTrack::Existing(1),
            OutputTrack::Imported(0),
            OutputTrack::Existing(2),
        ],
    );
}

#[test]
fn output_track_plan_should_respect_custom_left_subtitle_order() {
    let info = media(
        r#"[
            {"index": 0, "codec_type": "video"},
            {"index": 1, "codec_type": "audio"},
            {"index": 2, "codec_type": "subtitle"},
            {"index": 3, "codec_type": "subtitle"}
        ]"#,
    );
    let sidecar = FilePath::at("/tmp", "sidecar.srt");
    let sidecars = [sidecar_entry(&sidecar, "sidecar.srt")];
    let imports = [import(sidecar, FilePath::at("/tmp", "staged.srt"))];
    let left = [TrackRef::Sidecar(0), TrackRef::Embedded(3), TrackRef::Embedded(2)];
    assert_eq!(
        output_track_plan(&info, &[0, 1, 2, 3], &left, &imports, &sidecars),
        vec![
            OutputTrack::Existing(0),
            OutputTrack::Existing(1),
            OutputTrack::Imported(0),
            OutputTrack::Existing(3),
            OutputTrack::Existing(2),
        ],
    );
}

#[test]
fn muxer_forced_default_positions_should_only_excuse_iso_bmff_track_groups_without_a_default() {
    let output = media(
        r#"[
            {"index": 0, "codec_type": "video"},
            {"index": 1, "codec_type": "audio"},
            {"index": 2, "codec_type": "audio"},
            {"index": 3, "codec_type": "subtitle"},
            {"index": 4, "codec_type": "subtitle"}
        ]"#,
    );
    let expected = [false, false, true, false, false];
    assert_eq!(
        muxer_forced_default_positions(&output, &expected, Some(ContainerFormat::Mp4)),
        BTreeSet::from([0, 3]),
    );
    assert_eq!(
        muxer_forced_default_positions(&output, &expected, Some(ContainerFormat::Matroska)),
        BTreeSet::new(),
    );
}

#[test]
fn a_container_conflict_should_suggest_a_way_out_for_every_kind_of_track() {
    let message = container_conflict_message;
    assert_eq!(
        message(ContainerFormat::Mp4, 0, "video", "vp9"),
        "MP4 can't contain VP9 video track #0. Encode it as H.264 or HEVC / H.265 or AV1 or remove the track.",
    );
    assert!(message(ContainerFormat::Mp4, 1, "audio", "vorbis").contains("Encode it as AAC"));
    let subtitle = message(ContainerFormat::Mp4, 2, "subtitle", "subrip");
    assert!(subtitle.contains("Convert it to "));
    assert!(subtitle.contains("MOV Text"));
    assert_eq!(
        message(ContainerFormat::Matroska, 3, "data", "bin_data"),
        "MKV can't contain BIN_DATA data track #3. Choose MP4 or MOV instead.",
    );
    assert_eq!(
        message(ContainerFormat::Mp4, 4, "attachment", "ttf"),
        "MP4 can't contain TTF attachment track #4. Choose MKV instead.",
    );
    assert_eq!(
        message(ContainerFormat::WebM, 5, "data", "klv"),
        "WebM can't contain KLV data track #5. No available container can store it.",
    );
}

#[test]
fn an_unsupported_audio_codec_should_name_the_codecs_the_container_can_hold() {
    assert!(container_conflict_message(ContainerFormat::Mp4, 1, "audio", "opus")
        .contains("Encode it as AAC"));
}

#[test]
fn a_container_that_cannot_store_a_subtitle_flag_should_say_so_per_flag() {
    let metadata = SubtitleMetadata {
        language: "eng".to_string(),
        title: None,
        forced: true,
        cc: true,
        hearing_impaired: true,
        original: true,
        commentary: true,
    };
    let conflicts =
        |container| subtitle_flag_conflicts(&metadata, container, "track #2");
    let matroska = conflicts(ContainerFormat::Matroska);
    assert_eq!(matroska.len(), 1);
    assert_eq!(
        matroska[0],
        "MKV can't store the CC flag on track #2. Clear it or choose another container.",
    );
    let mp4 = conflicts(ContainerFormat::Mp4);
    assert_eq!(mp4.len(), 1);
    assert!(mp4[0].contains("Original flag"));
    assert_eq!(conflicts(ContainerFormat::Mov).len(), SubtitleFlag::ALL.len());
    assert_eq!(conflicts(ContainerFormat::WebM).len(), 3);
    assert!(subtitle_flag_conflicts(
        &english_subtitle_metadata(),
        ContainerFormat::Mov,
        "track #2",
    )
    .is_empty());
}

#[test]
fn audio_output_validation_should_reject_each_mismatch_and_normalize_for_container() {
    let source = media(
        r#"[
            {"index": 0, "codec_type": "video", "codec_name": "h264"},
            {"index": 1, "codec_type": "audio", "codec_name": "aac",
             "channels": 2, "sample_rate": "96000", "tags": {"language": "eng"}}
        ]"#,
    );
    let output = |codec: &str, channels: u8, rate: u32, original: bool| {
        let original = u8::from(original);
        media(&format!(
            r#"[
                {{"index": 0, "codec_type": "video", "codec_name": "h264"}},
                {{"index": 1, "codec_type": "audio", "codec_name": "{codec}",
                 "channels": {channels}, "sample_rate": "{rate}",
                 "tags": {{"language": "eng", "handler_name": "SoundHandler"}},
                 "disposition": {{"original": {original}}}}}
            ]"#
        ))
    };
    let validate = |settings: AudioSettings, output: MediaInfo, container| {
        validate_result(
            &languages(),
            &source,
            &output,
            &[0, 1],
            &[],
            &BTreeSet::new(),
            &BTreeMap::from([(1, settings)]),
            &BTreeMap::new(),
            &[],
            &[],
            &[],
            &[],
            container,
        )
    };
    let mut encoded = audio_settings();
    encoded.codec = AudioCodec::Ac3;
    assert!(validate(encoded.clone(), output("aac", 2, 48_000, false), None)
        .unwrap_err()
        .contains("wrong codec"));
    encoded.channel_layout = AudioChannelLayout::Mono;
    assert!(validate(encoded.clone(), output("ac3", 2, 48_000, false), None)
        .unwrap_err()
        .contains("wrong channel layout"));
    encoded.channel_layout = AudioChannelLayout::Original;
    assert!(validate(encoded.clone(), output("ac3", 2, 96_000, false), None)
        .unwrap_err()
        .contains("wrong sample rate"));
    encoded.metadata.commentary = true;
    assert!(validate(encoded.clone(), output("ac3", 2, 48_000, false), None)
        .unwrap_err()
        .contains("wrong metadata"));
    encoded.metadata.commentary = false;
    encoded.metadata.original = true;
    assert!(validate(encoded, output("ac3", 2, 48_000, false), Some(ContainerFormat::Mp4)).is_ok());
}

const VIDEO_AND_AUDIO: &str = r#"[
    {"index": 0, "codec_type": "video", "codec_name": "h264"},
    {"index": 1, "codec_type": "audio", "codec_name": "aac"}
]"#;

#[test]
fn validation_should_reject_an_output_left_without_a_playable_video_track() {
    let source = media(VIDEO_AND_AUDIO);
    let audio_only = media(r#"[{"index": 1, "codec_type": "audio", "codec_name": "aac"}]"#);
    let cover_art_only = media(
        r#"[
            {"index": 0, "codec_type": "video", "codec_name": "mjpeg",
             "disposition": {"attached_pic": 1}},
            {"index": 1, "codec_type": "audio", "codec_name": "aac"}
        ]"#,
    );
    for output in [audio_only, cover_art_only] {
        assert!(validate_plain(&source, &output, &[0, 1], &BTreeSet::new())
            .unwrap_err()
            .contains("no playable video track"));
    }
}

#[test]
fn validation_should_reject_an_output_whose_tracks_came_back_in_a_different_order() {
    let streams = r#"[
        {"index": 0, "codec_type": "video", "codec_name": "h264"},
        {"index": 1, "codec_type": "audio", "codec_name": "aac"},
        {"index": 2, "codec_type": "subtitle", "codec_name": "subrip"}
    ]"#;
    let result = validate_plain(&media(streams), &media(streams), &[0, 2, 1], &BTreeSet::new());
    assert!(result.unwrap_err().contains("not in the requested order"));
}

#[test]
fn validation_should_reject_an_output_carrying_a_track_nothing_asked_for() {
    let source = media(r#"[{"index": 0, "codec_type": "video", "codec_name": "h264"}]"#);
    let output = media(
        r#"[
            {"index": 0, "codec_type": "video", "codec_name": "h264"},
            {"index": 1, "codec_name": "bin_data"}
        ]"#,
    );
    assert!(validate_plain(&source, &output, &[0], &BTreeSet::new())
        .unwrap_err()
        .contains("unexpected extra track"));
}

#[test]
fn validation_should_reject_an_output_whose_default_flags_do_not_match_the_request() {
    let source = media(VIDEO_AND_AUDIO);
    let audio_undefaulted = media(VIDEO_AND_AUDIO);
    let audio_defaulted = media(
        r#"[
            {"index": 0, "codec_type": "video", "codec_name": "h264"},
            {"index": 1, "codec_type": "audio", "codec_name": "aac", "disposition": {"default": 1}}
        ]"#,
    );
    let missing =
        validate_plain(&source, &audio_undefaulted, &[0, 1], &BTreeSet::from([1])).unwrap_err();
    assert!(missing.contains("wrong default flag"));
    assert!(missing.contains("source track #1"));
    assert!(validate_plain(&source, &audio_defaulted, &[0, 1], &BTreeSet::new())
        .unwrap_err()
        .contains("wrong default flag"));
}

#[test]
fn validation_should_accept_an_output_that_matches_the_request_exactly() {
    let output = media(
        r#"[
            {"index": 0, "codec_type": "video", "codec_name": "h264", "disposition": {"default": 1}},
            {"index": 1, "codec_type": "audio", "codec_name": "aac"}
        ]"#,
    );
    assert!(validate_plain(&media(VIDEO_AND_AUDIO), &output, &[0, 1], &BTreeSet::from([0])).is_ok());
}

#[test]
fn any_single_media_change_should_be_enough_to_require_a_remux() {
    let info = media(
        r#"[
            {"index": 0, "codec_type": "video", "codec_name": "h264", "disposition": {"default": 1}},
            {"index": 1, "codec_type": "audio", "codec_name": "aac"},
            {"index": 2, "codec_type": "subtitle", "codec_name": "subrip",
             "tags": {"language": "eng"}}
        ]"#,
    );
    let untouched = |deleted: &[u64],
                     defaults: &[u64],
                     settings: &BTreeMap<u64, VideoSettings>,
                     changes: &[SubtitleChange],
                     container| {
        media_changes_required(
            &info,
            &[0, 1, 2],
            &deleted.iter().copied().collect(),
            &defaults.iter().copied().collect(),
            &BTreeMap::new(),
            settings,
            changes,
            container,
        )
    };
    let none = BTreeMap::new();
    let hevc = BTreeMap::from([(0, recoded(VideoCodec::Hevc))]);
    let mut exported = embedded(2);
    exported.export_target = Some(SubtitleFormat::SubRip);
    assert!(!untouched(&[], &[0], &none, &[], false));
    assert!(untouched(&[1], &[0], &none, &[], false));
    assert!(untouched(&[], &[], &none, &[], false));
    assert!(untouched(&[], &[0], &hevc, &[], false));
    assert!(untouched(&[], &[0], &none, &[exported], false));
    assert!(untouched(&[], &[0], &none, &[], true));
    assert!(media_changes_required(
        &info,
        &[0, 2, 1],
        &BTreeSet::new(),
        &BTreeSet::from([0]),
        &BTreeMap::new(),
        &BTreeMap::new(),
        &[],
        false,
    ));
}

#[test]
fn the_output_plan_should_follow_the_left_column_and_then_pick_up_the_leftovers() {
    let source = media(
        r#"[
            {"index": 0, "codec_type": "video", "codec_name": "h264"},
            {"index": 1, "codec_type": "audio", "codec_name": "aac"},
            {"index": 2, "codec_type": "subtitle", "codec_name": "subrip",
             "tags": {"language": "eng"}},
            {"index": 3, "codec_type": "subtitle", "codec_name": "subrip",
             "tags": {"language": "dan"}},
            {"index": 4, "codec_type": "attachment", "codec_name": "ttf"}
        ]"#,
    );
    let dutch = FilePath::at("/videos", "movie.nld.srt");
    let french = FilePath::at("/videos", "movie.fra.srt");
    let sidecars =
        [sidecar_entry(&dutch, "movie.nld.srt"), sidecar_entry(&french, "movie.fra.srt")];
    let imports = [import(dutch.clone(), dutch), import(french.clone(), french)];
    let left = [
        TrackRef::Embedded(3),
        TrackRef::Sidecar(0),
        TrackRef::Embedded(9),
        TrackRef::Sidecar(7),
    ];
    assert_eq!(
        output_track_plan(&source, &[0, 1, 2, 3, 4], &left, &imports, &sidecars),
        vec![
            OutputTrack::Existing(0),
            OutputTrack::Existing(1),
            OutputTrack::Existing(3),
            OutputTrack::Imported(0),
            OutputTrack::Existing(2),
            OutputTrack::Imported(1),
            OutputTrack::Existing(4),
        ],
    );
}

#[test]
fn a_converted_subtitle_should_be_rejected_when_it_is_not_the_format_that_was_asked_for() {
    let subtitle = media(r#"[{"index": 0, "codec_type": "subtitle", "codec_name": "subrip"}]"#);
    assert_eq!(validate_subtitle_output(&subtitle, SubtitleFormat::SubRip), Ok(()));
    let Err(EditError::Failed(message)) = validate_subtitle_output(&subtitle, SubtitleFormat::Ass)
    else {
        panic!("a SubRip file must not validate as ASS");
    };
    assert!(message.contains("did not validate as ASS"));
}

fn subtitle_output(index: u64, codec: &str, tags: &str) -> String {
    format!(
        r#"{{"index": {index}, "codec_type": "subtitle", "codec_name": "{codec}", "tags": {tags}}}"#
    )
}

fn validate_subtitles(
    source: &MediaInfo,
    output: &MediaInfo,
    replacements: &[SubtitleReplacement],
    imports: &[SubtitleImport],
    changes: &[SubtitleChange],
) -> Result<(), String> {
    validate_result(
        &languages(),
        source,
        output,
        &[0, 1],
        &[],
        &BTreeSet::new(),
        &BTreeMap::new(),
        &BTreeMap::new(),
        replacements,
        imports,
        changes,
        &[],
        None,
    )
}

#[test]
fn validation_should_reject_an_imported_subtitle_with_the_wrong_codec_or_metadata() {
    let source = media(VIDEO_AND_AUDIO);
    let file = || FilePath::at("", "movie.eng.srt");
    let imports = [import(file(), file())];
    let validate = |codec: &str, language: &str| {
        let tags = format!(r#"{{"language": "{language}"}}"#);
        let output = media(&format!(
            r#"[
                {{"index": 0, "codec_type": "video", "codec_name": "h264"}},
                {{"index": 1, "codec_type": "audio", "codec_name": "aac"}},
                {}
            ]"#,
            subtitle_output(2, codec, &tags)
        ));
        validate_subtitles(&source, &output, &[], &imports, &[])
    };
    assert!(validate("ass", "eng")
        .unwrap_err()
        .contains("imported subtitle track at position 2 has the wrong codec"));
    assert!(validate("subrip", "dan")
        .unwrap_err()
        .contains("imported subtitle track at position 2 has the wrong metadata"));
    assert!(validate("subrip", "eng").is_ok());
}

fn video_and_subtitle(codec: &str, tags: &str) -> MediaInfo {
    media(&format!(
        r#"[{{"index": 0, "codec_type": "video", "codec_name": "h264"}}, {}]"#,
        subtitle_output(1, codec, tags)
    ))
}

#[test]
fn validation_should_reject_an_embedded_subtitle_that_kept_its_old_metadata() {
    let english = r#"{"language": "eng"}"#;
    let source = video_and_subtitle("subrip", english);
    let mut retagged = english_subtitle_metadata();
    retagged.language = "dan".to_string();
    retagged.title = Some("Dansk".to_string());
    let mut change = embedded(1);
    change.metadata = Some(retagged);
    let changes = [change];
    let unchanged = video_and_subtitle("subrip", english);
    let applied = video_and_subtitle("subrip", r#"{"language": "dan", "title": "Dansk"}"#);
    assert!(validate_subtitles(&source, &unchanged, &[], &[], &changes)
        .unwrap_err()
        .contains("subtitle track at position 1 has the wrong metadata"));
    assert!(validate_subtitles(&source, &applied, &[], &[], &changes).is_ok());
}

#[test]
fn validation_should_reject_a_converted_subtitle_still_in_its_source_format() {
    let english = r#"{"language": "eng"}"#;
    let source = video_and_subtitle("subrip", english);
    let replacements = [SubtitleReplacement {
        source_index: 1,
        target: SubtitleFormat::Ass,
        path: FilePath::at("", "movie.eng.ass"),
    }];
    let unconverted = video_and_subtitle("subrip", english);
    let converted = video_and_subtitle("ass", english);
    assert!(validate_subtitles(&source, &unconverted, &replacements, &[], &[])
        .unwrap_err()
        .contains("converted subtitle track at position 1 has the wrong codec"));
    assert!(validate_subtitles(&source, &converted, &replacements, &[], &[]).is_ok());
}

fn one_video(codec: &str, width: u64, height: u64) -> MediaInfo {
    media(&format!(
        r#"[{{"index": 0, "codec_type": "video", "codec_name": "{codec}",
             "width": {width}, "height": {height}}}]"#
    ))
}

fn validate_video(output: &MediaInfo, settings: VideoSettings) -> Result<(), String> {
    validate_result(
        &languages(),
        &one_video("h264", 1920, 1080),
        output,
        &[0],
        &[],
        &BTreeSet::new(),
        &BTreeMap::new(),
        &BTreeMap::from([(0, settings)]),
        &[],
        &[],
        &[],
        &[],
        None,
    )
}

#[test]
fn validation_should_reject_an_encode_that_missed_its_codec_or_resolution() {
    let to_hevc = || recoded(VideoCodec::Hevc);
    let to_720p =
        || VideoSettings { resolution: VideoResolution::P720, ..VideoSettings::default() };
    assert!(validate_video(&one_video("h264", 1920, 1080), to_hevc())
        .unwrap_err()
        .contains("encoded video track at position 0 has the wrong codec"));
    assert!(validate_video(&one_video("hevc", 1920, 1080), to_hevc()).is_ok());
    assert!(validate_video(&one_video("h264", 1920, 1080), to_720p())
        .unwrap_err()
        .contains("encoded video track at position 0 has the wrong resolution"));
    assert!(validate_video(&one_video("h264", 1280, 720), to_720p()).is_ok());
}

#[test]
fn validation_should_skip_a_video_track_no_setting_actually_changed() {
    assert!(validate_video(&one_video("hevc", 1920, 1080), recoded(VideoCodec::H264)).is_ok());
}

#[test]
fn metadata_only_audio_edits_should_not_require_an_encoder_or_probe_technical_fields() {
    let info = media(
        r#"[
            {"index": 0, "codec_type": "video", "codec_name": "h264"},
            {"index": 1, "codec_type": "audio", "codec_name": "dts", "tags": {"language": "eng"}}
        ]"#,
    );
    let mut settings = audio_settings();
    settings.metadata.title = Some("Director commentary".to_string());
    settings.metadata.commentary = true;
    let staged = BTreeMap::from([(1, settings)]);
    assert!(validate_edit(
        &info,
        &[0, 1],
        &BTreeSet::new(),
        &BTreeSet::new(),
        &staged,
        &BTreeMap::new(),
    )
    .is_ok());
    assert!(!plan_requires_transcode(&info, &[0, 1], &staged, &BTreeMap::new()));
    assert_eq!(media_write_label(None, false, false, false), "Remuxing media");
}

#[test]
fn technical_audio_edits_should_route_to_the_transcode_pool_and_name_the_phase() {
    let info = media(
        r#"[
            {"index": 0, "codec_type": "video", "codec_name": "h264"},
            {"index": 1, "codec_type": "audio", "codec_name": "aac",
             "channels": 2, "sample_rate": "48000"}
        ]"#,
    );
    let mut settings = audio_settings();
    settings.codec = AudioCodec::Ac3;
    settings.channel_layout = AudioChannelLayout::Mono;
    let staged = BTreeMap::from([(1, settings)]);
    assert!(plan_requires_transcode(&info, &[0, 1], &staged, &BTreeMap::new()));
    assert_eq!(
        media_write_label(Some(ContainerFormat::Matroska), true, false, false),
        "Encoding audio and remuxing to MKV",
    );
    assert!(media_changes_required(
        &info,
        &[0, 1],
        &BTreeSet::new(),
        &BTreeSet::new(),
        &staged,
        &BTreeMap::new(),
        &[],
        false,
    ));
}

#[test]
fn container_conversion_should_discard_unsupported_audio_metadata_roles() {
    let info = media(
        r#"[
            {"index": 0, "codec_type": "video", "codec_name": "vp9"},
            {"index": 1, "codec_type": "audio", "codec_name": "opus",
             "tags": {"language": "eng"}, "disposition": {"comment": 1}}
        ]"#,
    );
    assert!(container_conflicts(
        &info,
        &[0, 1],
        &BTreeMap::new(),
        &BTreeMap::new(),
        &[],
        ContainerFormat::WebM,
    )
    .is_empty());
}

#[test]
fn exported_tracks_leave_the_output() {
    let info = video_and_subtitle("subrip", r#"{"language": "eng"}"#);
    let mut exported = embedded(1);
    exported.export_target = Some(SubtitleFormat::SubRip);
    assert_eq!(output_stream_order(&info, &[0, 1], &[exported]), vec![0]);
    assert_eq!(output_stream_order(&info, &[0, 1], &[embedded(1)]), vec![0, 1]);
}
