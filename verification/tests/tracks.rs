use std::collections::{BTreeMap, BTreeSet};

use reel::audio::{
    audio_bitrate_kbps, resolved_audio_sample_rate, AudioChannelLayout, AudioCodec, AudioMetadata,
    AudioRole, AudioSettings,
};
use reel::container::{ContainerFormat, ContainerMetadata};
use reel::disposition::{audio_disposition, subtitle_disposition, video_disposition};
use reel::path::FilePath;
use reel::probe::{
    audio_metadata_matches, audio_stream_title, primary_video_resolution, source_codec,
    stream_rotation, stream_sample_rate, stream_title, subtitle_metadata_matches,
    video_metadata_matches, video_stream_title, MediaInfo, Number, Object, Stream, Value,
};
use reel::subtitle::{SubtitleFlag, SubtitleFormat, SubtitleMetadata};
use reel::transcode::{
    any_audio_encode, any_video_encode, audio_metadata_for_output, audio_requires_transcode,
    audio_settings_require_encode, display_rotation_args, output_resolution_matches,
    plan_requires_transcode, should_write_audio_metadata, should_write_video_metadata,
    video_metadata_for_output,
};
use reel::video::{
    encoder_settings, resolution_filter, CustomResolution, CustomScaling, VideoCodec,
    VideoMetadata, VideoResolution, VideoRotation, VideoSettings,
};

fn value(json: &serde_json::Value) -> Value {
    match json {
        serde_json::Value::Null => Value::Null,
        serde_json::Value::Bool(truth) => Value::Bool(*truth),
        serde_json::Value::Number(number) => Value::Number(match (number.as_u64(), number.as_i64()) {
            (Some(whole), _) => Number::Whole(whole),
            (None, Some(negative)) => Number::Negative(negative),
            (None, None) => Number::Fraction(number.as_f64().unwrap().round() as i64),
        }),
        serde_json::Value::String(text) => Value::Text(text.clone()),
        serde_json::Value::Array(items) => Value::Array(items.iter().map(value).collect()),
        serde_json::Value::Object(_) => Value::Object(object(json)),
    }
}

fn object(json: &serde_json::Value) -> Object {
    Object {
        fields: json
            .as_object()
            .unwrap()
            .iter()
            .map(|(name, field)| (name.clone(), value(field)))
            .collect(),
    }
}

fn stream(json: &str) -> Stream {
    object(&serde_json::from_str(json).unwrap())
}

fn media(json: &str) -> MediaInfo {
    let parsed: serde_json::Value = serde_json::from_str(json).unwrap();
    MediaInfo {
        streams: parsed.as_array().unwrap().iter().map(object).collect(),
        format: Object { fields: vec![] },
        chapters: vec![],
    }
}

fn path(directory: &str, name: &str) -> FilePath {
    FilePath::at(directory, name)
}

fn audio_settings() -> AudioSettings {
    AudioSettings {
        codec: AudioCodec::Original,
        channel_layout: AudioChannelLayout::Original,
        metadata: AudioMetadata {
            language: "eng".to_string(),
            title: None,
            commentary: false,
            hearing_impaired: false,
            audio_description: false,
            original: false,
            dubbed: false,
        },
    }
}

fn video_metadata_of(commentary: bool) -> VideoMetadata {
    VideoMetadata { language: "und".to_string(), title: None, commentary }
}

fn video_codec(codec: VideoCodec) -> VideoSettings {
    VideoSettings { codec, ..VideoSettings::default() }
}

#[test]
fn container_format_should_detect_extensions_and_enforce_codec_compatibility() {
    assert_eq!(ContainerFormat::from_path(&path("/videos", "movie.MKV")), Some(ContainerFormat::Matroska));
    assert_eq!(ContainerFormat::from_path(&path("/videos", "movie.m4v")), Some(ContainerFormat::Mp4));
    assert_eq!(ContainerFormat::from_path(&path("/videos", "movie.mov")), Some(ContainerFormat::Mov));
    assert_eq!(ContainerFormat::from_path(&path("/videos", "movie.webm")), Some(ContainerFormat::WebM));
    assert!(ContainerFormat::Mp4.supports_codec("video", "h264", false));
    assert!(!ContainerFormat::Mp4.supports_codec("subtitle", "subrip", false));
    assert!(ContainerFormat::Mov.supports_codec("audio", "pcm_s16le", false));
    assert!(!ContainerFormat::WebM.supports_codec("video", "h264", false));
    assert!(ContainerFormat::WebM.supports_codec("video", "av1", false));
}

#[test]
fn a_path_without_a_known_extension_names_no_container() {
    assert_eq!(ContainerFormat::from_path(&path("/videos", "movie.avi")), None);
    assert_eq!(ContainerFormat::from_path(&path("/videos", "movie")), None);
    assert_eq!(ContainerFormat::from_path(&path("/videos", ".mkv")), None);
    for container in ContainerFormat::TARGETS {
        let written = path("/videos", "movie.avi").with_extension(container.extension());
        assert_eq!(ContainerFormat::from_path(&written), Some(container));
    }
}

#[test]
fn subtitle_metadata_verification_should_notice_any_single_field_disagreeing() {
    let expected = SubtitleMetadata {
        language: "nld".to_string(),
        title: Some("Dutch".to_string()),
        forced: true,
        cc: false,
        hearing_impaired: true,
        original: false,
        commentary: true,
    };
    let matching = stream(
        r#"{
            "tags": {"language": "nld", "title": "Dutch"},
            "disposition": {
                "forced": 1, "captions": 0, "hearing_impaired": 1, "original": 0, "comment": 1
            }
        }"#,
    );
    assert!(subtitle_metadata_matches(&matching, &expected));
    let mutations: [(&str, fn(&mut SubtitleMetadata)); 8] = [
        ("language", |m| m.language = "eng".to_string()),
        ("title", |m| m.title = Some("English".to_string())),
        ("cleared title", |m| m.title = None),
        ("forced", |m| m.forced = false),
        ("cc", |m| m.cc = true),
        ("hearing impaired", |m| m.hearing_impaired = false),
        ("original", |m| m.original = true),
        ("commentary", |m| m.commentary = false),
    ];
    for (label, mutate) in mutations {
        let mut altered = expected.clone();
        mutate(&mut altered);
        assert!(
            !subtitle_metadata_matches(&matching, &altered),
            "a disagreeing {label} must be detected",
        );
    }
}

#[test]
fn detect_should_recognise_an_mp4_hiding_behind_a_matroska_extension() {
    let family = Some("mov,mp4,m4a,3gp,3g2,mj2");
    assert_eq!(
        ContainerFormat::detect(&path("/videos", "movie.mkv"), family),
        Some(ContainerFormat::Mp4),
    );
    assert_eq!(
        ContainerFormat::detect(&path("/videos", "movie.webm"), family),
        Some(ContainerFormat::Mp4),
    );
}

#[test]
fn cover_art_should_be_accepted_only_where_the_container_can_carry_it() {
    assert!(ContainerFormat::Matroska.supports_codec("video", "mjpeg", true));
    assert!(ContainerFormat::Matroska.supports_codec("video", "webp", true));
    assert!(ContainerFormat::Mp4.supports_codec("video", "mjpeg", true));
    assert!(ContainerFormat::Mp4.supports_codec("video", "png", true));
    assert!(!ContainerFormat::Mp4.supports_codec("video", "h264", true));
    assert!(!ContainerFormat::Mov.supports_codec("video", "webp", true));
    assert!(!ContainerFormat::WebM.supports_codec("video", "png", true));
    assert!(!ContainerFormat::WebM.supports_codec("video", "mjpeg", true));
}

#[test]
fn detect_should_prefer_the_probed_format_over_a_mismatched_extension() {
    let renamed = path("/videos", "movie.mp4");
    assert_eq!(
        ContainerFormat::detect(&renamed, Some("matroska,webm")),
        Some(ContainerFormat::Matroska),
    );
    assert_eq!(
        ContainerFormat::detect(&path("/videos", "movie.webm"), Some("matroska,webm")),
        Some(ContainerFormat::WebM),
    );
    assert_eq!(
        ContainerFormat::detect(&path("/videos", "movie.mov"), Some("mov,mp4,m4a,3gp,3g2,mj2")),
        Some(ContainerFormat::Mov),
    );
    assert_eq!(ContainerFormat::detect(&renamed, None), Some(ContainerFormat::Mp4));
    assert_eq!(ContainerFormat::detect(&renamed, Some("wav")), Some(ContainerFormat::Mp4));
}

#[test]
fn resolution_filter_should_generate_each_custom_scaling_mode() {
    let custom = |scaling| {
        resolution_filter(VideoResolution::Custom(CustomResolution {
            width: 1280,
            height: 720,
            scaling,
        }))
    };
    let padded = "scale=1280:720:force_original_aspect_ratio=decrease:force_divisible_by=2,pad=1280:720:(ow-iw)/2:(oh-ih)/2:black,setsar=1";
    assert_eq!(resolution_filter(VideoResolution::P720).as_deref(), Some(padded));
    assert_eq!(custom(CustomScaling::FitPad).as_deref(), Some(padded));
    assert_eq!(custom(CustomScaling::Stretch).as_deref(), Some("scale=1280:720,setsar=1"));
    assert_eq!(resolution_filter(VideoResolution::Original), None);
}

#[test]
fn output_resolution_should_require_exact_custom_and_preset_dimensions() {
    let exact = stream(r#"{"width": 1280, "height": 720}"#);
    let bounded = stream(r#"{"width": 960, "height": 720}"#);
    let sized = |resolution| VideoSettings { resolution, ..VideoSettings::default() };
    let custom = |scaling| {
        sized(VideoResolution::Custom(CustomResolution { width: 1280, height: 720, scaling }))
    };
    assert!(output_resolution_matches(&exact, None, &custom(CustomScaling::FitPad)));
    assert!(output_resolution_matches(&exact, None, &custom(CustomScaling::Stretch)));
    assert!(!output_resolution_matches(&bounded, None, &custom(CustomScaling::FitPad)));
    assert!(output_resolution_matches(&exact, None, &sized(VideoResolution::P720)));
    assert!(!output_resolution_matches(&bounded, None, &sized(VideoResolution::P720)));
}

#[test]
fn the_primary_video_resolution_should_ignore_cover_art_and_undimensioned_tracks() {
    let behind_cover_art = media(
        r#"[
            {"index": 0, "codec_type": "video", "codec_name": "mjpeg", "width": 600, "height": 600,
             "disposition": {"attached_pic": 1}},
            {"index": 1, "codec_type": "video", "codec_name": "h264", "width": 1920, "height": 1080}
        ]"#,
    );
    let no_dimensions = media(r#"[{"index": 0, "codec_type": "video", "codec_name": "h264"}]"#);
    assert_eq!(primary_video_resolution(&behind_cover_art), Some((1920, 1080)));
    assert_eq!(primary_video_resolution(&no_dimensions), None);
}

#[test]
fn only_the_three_re_encodable_codecs_should_resolve_to_an_encoder() {
    let of = |codec: &str| stream(&format!(r#"{{"codec_name": "{codec}"}}"#));
    assert_eq!(source_codec(&of("h264")), Some("h264"));
    assert_eq!(source_codec(&of("hevc")), Some("hevc"));
    assert_eq!(source_codec(&of("av1")), Some("av1"));
    assert_eq!(source_codec(&of("vp9")), None);
    assert_eq!(source_codec(&stream("{}")), None);
    assert_eq!(encoder_settings("h264"), Some(("libx264", "22", "medium")));
    assert_eq!(encoder_settings("hevc"), Some(("libx265", "24", "medium")));
    assert_eq!(encoder_settings("av1"), Some(("libsvtav1", "30", "8")));
    assert_eq!(encoder_settings("vp9"), None);
}

#[test]
fn audio_title_should_ignore_only_the_generated_mp4_handler_name() {
    let title = |tags: &str| audio_stream_title(&stream(&format!(r#"{{"tags": {tags}}}"#)));
    assert_eq!(title(r#"{"handler_name": "SoundHandler"}"#), None);
    assert_eq!(title(r#"{"handler_name": "soundhandler"}"#), None);
    assert_eq!(
        title(r#"{"handler_name": "Director commentary"}"#).as_deref(),
        Some("Director commentary"),
    );
    assert_eq!(
        title(r#"{"title": "SoundHandler", "handler_name": "SoundHandler"}"#),
        Some("SoundHandler".to_string()),
    );
    assert_eq!(
        title(
            r#"{"title": "  ", "name": " Alternate name ", "handler_name": "Ignored fallback"}"#
        ),
        Some("Alternate name".to_string()),
    );
    assert_eq!(title(r#"{"handler_name": "  "}"#), None);
    assert_eq!(audio_stream_title(&stream("{}")), None);
}

#[test]
fn audio_metadata_matching_should_compare_every_field() {
    let accessible = stream(
        r#"{
            "tags": {"language": "eng", "title": "Accessible original dub"},
            "disposition": {
                "comment": 1, "hearing_impaired": 1, "visual_impaired": 1, "original": 1, "dub": 1
            }
        }"#,
    );
    let expected = AudioMetadata {
        language: "eng".to_string(),
        title: Some("Accessible original dub".to_string()),
        commentary: true,
        hearing_impaired: true,
        audio_description: true,
        original: true,
        dubbed: true,
    };
    assert!(audio_metadata_matches(&accessible, &expected));
    for changed in [
        AudioMetadata { language: "nld".to_string(), ..expected.clone() },
        AudioMetadata { title: Some("Other".to_string()), ..expected.clone() },
        AudioMetadata { commentary: false, ..expected.clone() },
        AudioMetadata { hearing_impaired: false, ..expected.clone() },
        AudioMetadata { audio_description: false, ..expected.clone() },
        AudioMetadata { original: false, ..expected.clone() },
        AudioMetadata { dubbed: false, ..expected.clone() },
    ] {
        assert!(!audio_metadata_matches(&accessible, &changed));
    }
}

#[test]
fn plan_requires_transcode_should_detect_only_a_genuine_codec_or_resolution_change() {
    let info = media(
        r#"[
            {"index": 0, "codec_type": "video", "codec_name": "h264"},
            {"index": 1, "codec_type": "audio", "codec_name": "aac"}
        ]"#,
    );
    let required = |settings: &BTreeMap<u64, VideoSettings>| {
        plan_requires_transcode(&info, &[0, 1], &BTreeMap::new(), settings)
    };
    assert!(!required(&BTreeMap::new()));
    assert!(!required(&BTreeMap::from([(0, video_codec(VideoCodec::H264))])));
    assert!(required(&BTreeMap::from([(0, video_codec(VideoCodec::Hevc))])));
    assert!(!required(&BTreeMap::from([(1, video_codec(VideoCodec::Hevc))])));
}

#[test]
fn automatic_audio_bitrates_should_scale_with_the_codec_and_channel_count() {
    assert_eq!(audio_bitrate_kbps(AudioCodec::Aac, 1), Some(96));
    assert_eq!(audio_bitrate_kbps(AudioCodec::Aac, 2), Some(192));
    assert_eq!(audio_bitrate_kbps(AudioCodec::Aac, 6), Some(512));
    assert_eq!(audio_bitrate_kbps(AudioCodec::Aac, 8), Some(640));
    assert_eq!(audio_bitrate_kbps(AudioCodec::Ac3, 6), Some(448));
    assert_eq!(audio_bitrate_kbps(AudioCodec::Eac3, 6), Some(640));
    assert_eq!(audio_bitrate_kbps(AudioCodec::Opus, 2), Some(128));
    assert_eq!(audio_bitrate_kbps(AudioCodec::Mp3, 2), Some(192));
    assert_eq!(audio_bitrate_kbps(AudioCodec::Vorbis, 8), Some(512));
    assert_eq!(audio_bitrate_kbps(AudioCodec::Ac3, 8), None);
    assert_eq!(audio_bitrate_kbps(AudioCodec::Mp3, 6), None);
    assert_eq!(audio_bitrate_kbps(AudioCodec::Aac, 0), None);
    assert_eq!(audio_bitrate_kbps(AudioCodec::Flac, 2), None);
    assert_eq!(audio_bitrate_kbps(AudioCodec::Alac, 2), None);
}

#[test]
fn audio_value_contracts_should_cover_every_variant_and_boundary() {
    let codecs = [
        (AudioCodec::Original, "Original", None, None),
        (AudioCodec::Aac, "AAC", Some("aac"), Some("aac")),
        (AudioCodec::Ac3, "Dolby Digital (AC-3)", Some("ac3"), Some("ac3")),
        (AudioCodec::Eac3, "Dolby Digital Plus (E-AC-3)", Some("eac3"), Some("eac3")),
        (AudioCodec::Opus, "Opus", Some("opus"), Some("libopus")),
        (AudioCodec::Flac, "FLAC", Some("flac"), Some("flac")),
        (AudioCodec::Alac, "ALAC", Some("alac"), Some("alac")),
        (AudioCodec::Mp3, "MP3", Some("mp3"), Some("libmp3lame")),
        (AudioCodec::Vorbis, "Vorbis", Some("vorbis"), Some("libvorbis")),
    ];
    for (codec, label, name, encoder) in codecs {
        assert_eq!(codec.label(), label);
        assert_eq!(codec.codec_name(), name);
        assert_eq!(codec.encoder(), encoder);
        if let Some(name) = name {
            assert_eq!(AudioCodec::from_codec_name(name), Some(codec));
        }
    }
    assert_eq!(AudioCodec::from_codec_name("dts"), None);
    assert!(AudioCodec::Flac.is_lossless() && AudioCodec::Alac.is_lossless());
    assert!(!AudioCodec::Aac.is_lossless());

    assert!(AudioCodec::Original.supports_channels(u8::MAX));
    for codec in [AudioCodec::Ac3, AudioCodec::Eac3] {
        assert!(codec.supports_channels(6));
        assert!(!codec.supports_channels(7));
    }
    assert!(AudioCodec::Mp3.supports_channels(2));
    assert!(!AudioCodec::Mp3.supports_channels(3));
    for codec in [
        AudioCodec::Aac,
        AudioCodec::Opus,
        AudioCodec::Flac,
        AudioCodec::Alac,
        AudioCodec::Vorbis,
    ] {
        assert!(codec.supports_channels(8));
        assert!(!codec.supports_channels(9));
    }

    for codec in [AudioCodec::Original, AudioCodec::Flac, AudioCodec::Alac, AudioCodec::Vorbis] {
        assert!(codec.supports_sample_rate(192_000));
        assert!(!codec.supports_sample_rate(10_000));
    }
    assert!(AudioCodec::Aac.supports_sample_rate(96_000));
    assert!(!AudioCodec::Aac.supports_sample_rate(192_000));
    assert!(AudioCodec::Ac3.supports_sample_rate(32_000));
    assert!(!AudioCodec::Eac3.supports_sample_rate(24_000));
    assert!(AudioCodec::Opus.supports_sample_rate(48_000));
    assert!(!AudioCodec::Opus.supports_sample_rate(44_100));
    assert!(AudioCodec::Mp3.supports_sample_rate(44_100));
    assert!(!AudioCodec::Mp3.supports_sample_rate(96_000));

    for (layout, label, channels) in [
        (AudioChannelLayout::Original, "Original", None),
        (AudioChannelLayout::Surround71, "7.1 surround", Some(8)),
        (AudioChannelLayout::Surround51, "5.1 surround", Some(6)),
        (AudioChannelLayout::Stereo, "Stereo", Some(2)),
        (AudioChannelLayout::Mono, "Mono", Some(1)),
    ] {
        assert_eq!(layout.label(), label);
        assert_eq!(layout.channels(), channels);
    }
    let mut metadata = audio_settings().metadata;
    for role in AudioRole::ALL {
        assert!(!metadata.get_role(role));
        metadata.set_role(role, true);
        assert!(metadata.get_role(role));
        assert!(!role.label().is_empty());
        metadata.set_role(role, false);
    }

    assert_eq!(stream_sample_rate(&stream(r#"{"sample_rate": "48000"}"#)), Some(48_000));
    assert_eq!(stream_sample_rate(&stream(r#"{"sample_rate": 44100}"#)), Some(44_100));
    assert_eq!(stream_sample_rate(&stream(r#"{"sample_rate": 4294967296}"#)), None);
    assert_eq!(stream_sample_rate(&stream(r#"{"sample_rate": true}"#)), None);

    let aac = stream(r#"{"codec_name": "aac", "channels": 2, "sample_rate": "48000"}"#);
    let automatic = audio_settings();
    assert!(!audio_requires_transcode(&aac, &automatic));
    assert!(!audio_settings_require_encode(&automatic));
    for changed in [
        AudioSettings { codec: AudioCodec::Ac3, ..automatic.clone() },
        AudioSettings { channel_layout: AudioChannelLayout::Mono, ..automatic.clone() },
    ] {
        assert!(audio_requires_transcode(&aac, &changed));
        assert!(audio_settings_require_encode(&changed));
    }
    assert!(!should_write_audio_metadata(Some("video"), true, true));
    assert!(should_write_audio_metadata(Some("audio"), true, false));
    assert!(should_write_audio_metadata(Some("audio"), false, true));
    assert!(!should_write_audio_metadata(Some("audio"), false, false));
    assert!(!should_write_audio_metadata(None, false, false));
}

#[test]
fn should_write_video_metadata_should_gate_on_kind_and_reason() {
    assert!(!should_write_video_metadata(Some("audio"), true, true));
    assert!(should_write_video_metadata(Some("video"), true, false));
    assert!(should_write_video_metadata(Some("video"), false, true));
    assert!(!should_write_video_metadata(Some("video"), false, false));
    assert!(!should_write_video_metadata(None, false, false));
}

#[test]
fn video_disposition_should_preserve_unrelated_flags_and_toggle_default() {
    let source = stream(r#"{"disposition": {"default": 0, "attached_pic": 1, "forced": 1}}"#);
    let plain = video_metadata_of(false);
    assert_eq!(video_disposition(&source, false, &plain), "attached_pic+forced");
    assert_eq!(video_disposition(&source, true, &plain), "attached_pic+default+forced");
}

#[test]
fn video_disposition_should_write_the_staged_commentary_flag() {
    let commented = stream(r#"{"disposition": {"comment": 1, "attached_pic": 1}}"#);
    assert_eq!(video_disposition(&commented, false, &video_metadata_of(false)), "attached_pic");
    assert_eq!(
        video_disposition(&commented, true, &video_metadata_of(true)),
        "attached_pic+comment+default",
    );
    assert_eq!(video_disposition(&stream("{}"), false, &video_metadata_of(true)), "comment");
}

#[test]
fn video_disposition_should_report_zero_when_nothing_is_set() {
    assert_eq!(video_disposition(&stream("{}"), false, &video_metadata_of(false)), "0");
}

#[test]
fn audio_disposition_keeps_unrelated_flags_and_writes_every_role() {
    let source = stream(
        r#"{"disposition": {"default": 1, "forced": 1, "comment": 1, "karaoke": 1, "dub": 0}}"#,
    );
    let mut metadata = audio_settings().metadata;
    assert_eq!(audio_disposition(&source, false, &metadata), "forced+karaoke");
    metadata.set_role(AudioRole::Dubbed, true);
    metadata.set_role(AudioRole::AudioDescription, true);
    metadata.set_role(AudioRole::HearingImpaired, true);
    assert_eq!(
        audio_disposition(&source, true, &metadata),
        "default+dub+forced+hearing_impaired+karaoke+visual_impaired",
    );
    assert_eq!(audio_disposition(&stream("{}"), false, &audio_settings().metadata), "0");
}

#[test]
fn stream_rotation_should_read_the_display_matrix_and_normalize_the_angle() {
    let rotated = |angle: &str| {
        stream(&format!(
            r#"{{"side_data_list": [{{"side_data_type": "Display Matrix", "rotation": {angle}}}]}}"#
        ))
    };
    for (reported, expected) in [
        ("90", VideoRotation::Cw90),
        ("-90", VideoRotation::Cw270),
        ("270", VideoRotation::Cw270),
        ("-180", VideoRotation::Cw180),
        ("180", VideoRotation::Cw180),
        ("0", VideoRotation::Upright),
        ("-360", VideoRotation::Upright),
        ("45", VideoRotation::Upright),
        ("90.0", VideoRotation::Cw90),
    ] {
        assert_eq!(
            stream_rotation(&rotated(reported)),
            expected,
            "a reported rotation of {reported} should read as {expected:?}",
        );
    }
    assert_eq!(stream_rotation(&stream("{}")), VideoRotation::Upright);
    assert_eq!(
        stream_rotation(&stream(r#"{"side_data_list": [{"side_data_type": "Stereo 3D"}]}"#)),
        VideoRotation::Upright,
    );
    assert_eq!(
        stream_rotation(&stream(r#"{"side_data_list": "not an array"}"#)),
        VideoRotation::Upright,
    );
}

#[test]
fn display_rotation_args_should_address_staged_tracks_by_their_video_index() {
    let info = media(
        r#"[
            {"index": 0, "codec_type": "video", "codec_name": "h264"},
            {"index": 1, "codec_type": "audio", "codec_name": "aac"},
            {"index": 2, "codec_type": "subtitle", "codec_name": "subrip"},
            {"index": 3, "codec_type": "video", "codec_name": "hevc"}
        ]"#,
    );
    let rotated = |rotation| VideoSettings { rotation, ..VideoSettings::default() };
    assert!(display_rotation_args(&info, &BTreeMap::new()).is_empty());
    assert_eq!(
        display_rotation_args(&info, &BTreeMap::from([(3, rotated(VideoRotation::Cw90))])),
        vec![("v:1".to_string(), "90".to_string())],
    );
    let both = BTreeMap::from([
        (0, rotated(VideoRotation::Upright)),
        (3, rotated(VideoRotation::Cw270)),
    ]);
    assert_eq!(
        display_rotation_args(&info, &both),
        vec![("v:0".to_string(), "0".to_string()), ("v:1".to_string(), "270".to_string())],
    );
    let audio = BTreeMap::from([(1, rotated(VideoRotation::Cw90))]);
    assert!(display_rotation_args(&info, &audio).is_empty());
}

#[test]
fn output_resolution_matches_should_expect_swapped_dimensions_for_a_baked_rotation() {
    let source = stream(r#"{"width": 1920, "height": 1080}"#);
    let portrait = stream(r#"{"width": 1080, "height": 1920}"#);
    let landscape = stream(r#"{"width": 1920, "height": 1080}"#);
    let rotated = |rotation| VideoSettings { rotation, ..VideoSettings::default() };
    assert!(output_resolution_matches(&portrait, Some(&source), &rotated(VideoRotation::Cw90)));
    assert!(!output_resolution_matches(&landscape, Some(&source), &rotated(VideoRotation::Cw90)));
    assert!(output_resolution_matches(&portrait, Some(&source), &rotated(VideoRotation::Cw270)));
    assert!(output_resolution_matches(&landscape, Some(&source), &rotated(VideoRotation::Cw180)));
    assert!(output_resolution_matches(&portrait, Some(&source), &rotated(VideoRotation::Upright)));
    let sizeless = stream("{}");
    assert!(output_resolution_matches(&portrait, Some(&sizeless), &rotated(VideoRotation::Cw90)));
    assert!(output_resolution_matches(&portrait, None, &rotated(VideoRotation::Cw90)));
}

#[test]
fn video_stream_title_should_prefer_a_real_title_over_the_generic_mp4_handler_name() {
    let title = |tags: &str| video_stream_title(&stream(&format!(r#"{{"tags": {tags}}}"#)));
    assert_eq!(title(r#"{"title": "Director's cut"}"#), Some("Director's cut".to_string()));
    assert_eq!(title(r#"{"handler_name": "VideoHandler"}"#), None);
    assert_eq!(title(r#"{"handler_name": "Extended cut"}"#), Some("Extended cut".to_string()));
    assert_eq!(video_stream_title(&stream("{}")), None);
}

#[test]
fn video_metadata_matches_should_compare_language_title_and_commentary() {
    let source = stream(r#"{"tags": {"language": "nld", "title": "Director's cut"}}"#);
    let matching = VideoMetadata {
        language: "nld".to_string(),
        title: Some("Director's cut".to_string()),
        commentary: false,
    };
    assert!(video_metadata_matches(&source, &matching));
    let wrong_language = VideoMetadata { language: "eng".to_string(), ..matching.clone() };
    assert!(!video_metadata_matches(&source, &wrong_language));
    let wrong_title =
        VideoMetadata { title: Some("Theatrical cut".to_string()), ..matching.clone() };
    assert!(!video_metadata_matches(&source, &wrong_title));
    let wrong_commentary = VideoMetadata { commentary: true, ..matching };
    assert!(!video_metadata_matches(&source, &wrong_commentary));
    let flagged = stream(
        r#"{"tags": {"language": "nld", "title": "Director's cut"}, "disposition": {"comment": 1}}"#,
    );
    assert!(video_metadata_matches(&flagged, &wrong_commentary));
}

#[test]
fn retain_supported_video_metadata_should_clear_what_the_container_cannot_store() {
    let mut metadata = VideoMetadata {
        language: "nld".to_string(),
        title: Some("Director's cut".to_string()),
        commentary: true,
    };
    ContainerFormat::Mov.retain_supported_video_metadata(&mut metadata);
    assert_eq!(metadata.language, "und");
    assert_eq!(metadata.title.as_deref(), Some("Director's cut"));
    assert!(!metadata.commentary);
    for (container, expected_language, expected_commentary) in [
        (ContainerFormat::Matroska, "nld", true),
        (ContainerFormat::Mp4, "nld", true),
        (ContainerFormat::WebM, "nld", false),
    ] {
        let mut metadata =
            VideoMetadata { language: "nld".to_string(), title: None, commentary: true };
        container.retain_supported_video_metadata(&mut metadata);
        assert_eq!(metadata.language, expected_language);
        assert_eq!(
            metadata.commentary,
            expected_commentary,
            "{container:?} should {} the commentary flag",
            if expected_commentary { "keep" } else { "clear" }
        );
    }
}

#[test]
fn the_sample_rate_should_resolve_to_the_best_rate_the_codec_accepts() {
    assert_eq!(resolved_audio_sample_rate(AudioCodec::Ac3, 48_000), Some(48_000));
    assert_eq!(resolved_audio_sample_rate(AudioCodec::Ac3, 96_000), Some(48_000));
    assert_eq!(resolved_audio_sample_rate(AudioCodec::Opus, 44_100), Some(24_000));
    assert_eq!(resolved_audio_sample_rate(AudioCodec::Ac3, 16_000), None);
}

#[test]
fn audio_metadata_should_retain_only_what_the_target_container_can_store() {
    let metadata = AudioMetadata {
        language: "eng".to_string(),
        title: Some("Original commentary".to_string()),
        commentary: true,
        hearing_impaired: true,
        audio_description: true,
        original: true,
        dubbed: false,
    };
    let mut matroska = metadata.clone();
    ContainerFormat::Matroska.retain_supported_audio_metadata(&mut matroska);
    assert_eq!(matroska, metadata.clone());

    let mut mp4 = metadata.clone();
    ContainerFormat::Mp4.retain_supported_audio_metadata(&mut mp4);
    assert_eq!(mp4.language, "eng");
    assert_eq!(mp4.title.as_deref(), Some("Original commentary"));
    assert!(mp4.commentary && mp4.hearing_impaired && mp4.audio_description);
    assert!(!mp4.original);

    for (container, language) in [(ContainerFormat::Mov, "und"), (ContainerFormat::WebM, "eng")] {
        let mut retained = metadata.clone();
        container.retain_supported_audio_metadata(&mut retained);
        assert_eq!(retained.language, language);
        assert_eq!(retained.title.as_deref(), Some("Original commentary"));
        for role in AudioRole::ALL {
            assert!(!retained.get_role(role));
        }
    }

    let source = stream(
        r#"{"tags": {"language": "eng", "title": "Source"}, "disposition": {"original": 1}}"#,
    );
    let from_source = audio_metadata_for_output(&source, None, None);
    assert_eq!(from_source.title.as_deref(), Some("Source"));
    assert!(from_source.original);
    let normalized = audio_metadata_for_output(
        &source,
        Some(&AudioSettings { metadata: metadata.clone(), ..audio_settings() }),
        Some(ContainerFormat::Mov),
    );
    assert_eq!(normalized.language, "und");
    assert!(AudioRole::ALL.into_iter().all(|role| !normalized.get_role(role)));
}

#[test]
fn matroska_should_accept_original_with_other_audio_roles() {
    for role in AudioRole::ALL {
        assert!(
            ContainerFormat::Matroska.supports_audio_role(role),
            "Matroska should support {}",
            role.label()
        );
    }
    assert!(!ContainerFormat::Mp4.supports_audio_role(AudioRole::Original));
    assert!(ContainerFormat::Mp4.supports_audio_role(AudioRole::Dubbed));
    for role in AudioRole::ALL {
        assert!(!ContainerFormat::WebM.supports_audio_role(role));
        assert!(!ContainerFormat::Mov.supports_audio_role(role));
    }
}

#[test]
fn original_and_dubbed_audio_roles_should_be_mutually_exclusive() {
    let mut metadata = audio_settings().metadata;
    metadata.set_role(AudioRole::Original, true);
    assert!(metadata.original && !metadata.dubbed);
    metadata.set_role(AudioRole::Dubbed, true);
    assert!(metadata.dubbed && !metadata.original);
    metadata.set_role(AudioRole::Original, true);
    assert!(metadata.original && !metadata.dubbed);
    metadata.set_role(AudioRole::Original, false);
    assert!(!metadata.original && !metadata.dubbed);
}

#[test]
fn container_metadata_should_only_be_empty_when_no_field_is_set() {
    assert!(ContainerMetadata::default().is_empty());
    for metadata in [
        ContainerMetadata {
            title: Some("Big Buck Bunny".to_string()),
            ..ContainerMetadata::default()
        },
        ContainerMetadata { comment: Some("a note".to_string()), ..ContainerMetadata::default() },
        ContainerMetadata { date: Some("2008".to_string()), ..ContainerMetadata::default() },
        ContainerMetadata { genre: Some("Animation".to_string()), ..ContainerMetadata::default() },
        ContainerMetadata {
            artist: Some("Blender Foundation".to_string()),
            ..ContainerMetadata::default()
        },
    ] {
        assert!(!metadata.is_empty(), "{metadata:?} sets a field");
    }
}

#[test]
fn subtitle_disposition_should_preserve_unrelated_flags_and_apply_all_editable_roles() {
    let source =
        stream(r#"{"disposition": {"default": 0, "forced": 0, "dub": 1, "comment": 0}}"#);
    let metadata = SubtitleMetadata {
        language: "eng".to_string(),
        title: Some("English CC".to_string()),
        forced: true,
        cc: true,
        hearing_impaired: true,
        original: true,
        commentary: true,
    };
    let disposition = subtitle_disposition(Some(&source), true, &metadata);
    let dispositions = disposition.split('+').collect::<Vec<_>>();
    for flag in
        ["default", "forced", "captions", "hearing_impaired", "original", "comment", "dub"]
    {
        assert!(dispositions.contains(&flag));
    }
    assert_eq!(dispositions.len(), 7);
}

#[test]
fn subtitle_metadata_matrix_should_match_supported_container_roles() {
    assert!(ContainerFormat::Matroska.supports_subtitle_flag(SubtitleFlag::Original));
    assert!(!ContainerFormat::Matroska.supports_subtitle_flag(SubtitleFlag::Cc));
    assert!(ContainerFormat::Matroska.supports_subtitle_flag(SubtitleFlag::HearingImpaired));
    assert!(ContainerFormat::Mp4.supports_subtitle_flag(SubtitleFlag::Commentary));
    assert!(ContainerFormat::Mp4.supports_subtitle_flag(SubtitleFlag::Cc));
    assert!(ContainerFormat::Mp4.supports_subtitle_flag(SubtitleFlag::HearingImpaired));
    assert!(!ContainerFormat::Mp4.supports_subtitle_flag(SubtitleFlag::Original));
    assert!(!ContainerFormat::Mov.supports_subtitle_flag(SubtitleFlag::Forced));
    assert!(ContainerFormat::WebM.supports_subtitle_flag(SubtitleFlag::Cc));
    assert!(!ContainerFormat::WebM.supports_subtitle_flag(SubtitleFlag::HearingImpaired));
    assert!(!ContainerFormat::WebM.supports_subtitle_flag(SubtitleFlag::Commentary));
}

#[test]
fn converting_containers_should_clear_subtitle_flags_the_target_cannot_hold() {
    let full = || SubtitleMetadata {
        language: "eng".to_string(),
        title: Some("English".to_string()),
        forced: true,
        cc: true,
        hearing_impaired: true,
        original: true,
        commentary: true,
    };
    let mut matroska = full();
    ContainerFormat::Matroska.retain_supported_subtitle_metadata(&mut matroska);
    assert!(!matroska.cc, "Matroska has no CC disposition");
    assert!(matroska.forced && matroska.hearing_impaired);
    assert!(matroska.original && matroska.commentary);

    let mut mp4 = full();
    ContainerFormat::Mp4.retain_supported_subtitle_metadata(&mut mp4);
    assert!(!mp4.original, "MP4 has no Original disposition");
    assert!(mp4.forced && mp4.cc && mp4.hearing_impaired && mp4.commentary);

    let mut webm = full();
    ContainerFormat::WebM.retain_supported_subtitle_metadata(&mut webm);
    assert!(webm.forced && webm.cc);
    assert!(!webm.hearing_impaired && !webm.original && !webm.commentary);

    let mut mov = full();
    ContainerFormat::Mov.retain_supported_subtitle_metadata(&mut mov);
    assert!(!mov.forced && !mov.cc && !mov.hearing_impaired);
    assert!(!mov.original && !mov.commentary);
    assert_eq!(mov.language, "eng");
    assert_eq!(mov.title.as_deref(), Some("English"));
}

#[test]
fn flags_and_formats_read_back() {
    let mut metadata = SubtitleMetadata {
        language: "eng".to_string(),
        title: None,
        forced: false,
        cc: false,
        hearing_impaired: false,
        original: false,
        commentary: false,
    };
    for flag in SubtitleFlag::ALL {
        metadata.set_flag(flag, true);
        assert!(metadata.get_flag(flag));
        metadata.set_flag(flag, false);
        assert!(!metadata.get_flag(flag));
    }
    for format in [
        SubtitleFormat::SubRip,
        SubtitleFormat::Ass,
        SubtitleFormat::MovText,
        SubtitleFormat::Pgs,
        SubtitleFormat::VobSub,
    ] {
        assert_eq!(SubtitleFormat::from_codec(format.ffmpeg_codec()), Some(format));
        assert_ne!(format.is_image(), format.is_text());
    }
}

#[test]
fn quarter_turns_read_back_and_swap_the_frame() {
    for rotation in VideoRotation::ALL {
        assert_eq!(VideoRotation::from_degrees(i64::from(rotation.degrees())), rotation);
        assert_eq!(
            VideoRotation::from_degrees(i64::from(rotation.degrees()) - 360),
            rotation,
        );
        assert_eq!(rotation.swaps_dimensions(), rotation.degrees() % 180 == 90);
    }
}

#[test]
fn only_staged_settings_make_a_track_an_encode() {
    let info = media(
        r#"[
            {"index": 0, "codec_type": "video", "codec_name": "h264"},
            {"index": 1, "codec_type": "audio", "codec_name": "aac", "channels": 2}
        ]"#,
    );
    let stereo = AudioSettings { channel_layout: AudioChannelLayout::Stereo, ..audio_settings() };
    assert!(!any_audio_encode(&info, &[0, 1], &BTreeMap::new()));
    assert!(any_audio_encode(&info, &[0, 1], &BTreeMap::from([(1, stereo.clone())])));
    assert!(!any_audio_encode(&info, &[0], &BTreeMap::from([(1, stereo)])));
    assert!(!any_video_encode(&info, &[0, 1], &BTreeMap::new()));
    assert!(any_video_encode(&info, &[0], &BTreeMap::from([(0, video_codec(VideoCodec::Av1))])));
}

#[test]
fn a_video_track_keeps_what_its_container_stores() {
    let source = stream(
        r#"{"tags": {"language": "nld", "title": "Cut"}, "disposition": {"comment": 1}}"#,
    );
    let kept = video_metadata_for_output(&source, None, None);
    assert_eq!((kept.language.as_str(), kept.commentary), ("nld", true));
    let moved = video_metadata_for_output(&source, None, Some(ContainerFormat::Mov));
    assert_eq!((moved.language.as_str(), moved.commentary), ("und", false));
    assert_eq!(stream_title(&source).as_deref(), Some("Cut"));
}

#[test]
fn target_codecs_are_distinct() {
    let names: BTreeSet<&str> = VideoCodec::TARGETS
        .into_iter()
        .filter_map(|codec| codec.codec_name())
        .collect();
    assert_eq!(names, BTreeSet::from(["av1", "h264", "hevc"]));
}

#[test]
fn extensions_are_read_in_any_case() {
    let container = |name: &str| ContainerFormat::from_path(&path("/videos", name));
    assert_eq!(container("movie.wEbM"), Some(ContainerFormat::WebM));
    assert_eq!(container("movie.Mp4"), Some(ContainerFormat::Mp4));
    assert_eq!(container("movie.MoV"), Some(ContainerFormat::Mov));
    assert_eq!(container("movie.mKv"), Some(ContainerFormat::Matroska));
}
