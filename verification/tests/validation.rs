use std::collections::{BTreeMap, BTreeSet};

use reel::audio::{
    AudioChannelLayout, AudioCodec, AudioMetadata, AudioSettings, CHANNEL_UPMIX_NOT_IMPLEMENTED,
};
use reel::files::FileFingerprint;
use reel::path::FilePath;
use reel::probe::{MediaInfo, Number, Object, Stream, Value};
use reel::sources::{
    classify_edit_error, validate_subtitle_languages, validate_subtitle_sources, EditError,
    SidecarState,
};
use reel::subtitle::{
    Languages, SidecarEntry, SubtitleChange, SubtitleFormat, SubtitleMetadata, SubtitleSource,
};
use reel::validate::{describe_index_diff, validate_deletion, validate_edit};
use reel::video::{
    CustomResolution, CustomScaling, VideoCodec, VideoMetadata, VideoResolution, VideoRotation,
    VideoSettings,
};

fn text(value: &str) -> Value {
    Value::Text(value.to_string())
}

fn whole(value: u64) -> Value {
    Value::Number(Number::Whole(value))
}

fn object(fields: Vec<(&str, Value)>) -> Object {
    Object {
        fields: fields.into_iter().map(|(name, value)| (name.to_string(), value)).collect(),
    }
}

fn media(streams: Vec<Stream>) -> MediaInfo {
    MediaInfo { streams, format: object(vec![]), chapters: vec![] }
}

fn kind(index: u64, kind: &str) -> Stream {
    object(vec![("index", whole(index)), ("codec_type", text(kind))])
}

fn track(index: u64, kind: &str, codec: &str) -> Stream {
    object(vec![("index", whole(index)), ("codec_type", text(kind)), ("codec_name", text(codec))])
}

fn video(index: u64, codec: &str, width: u64, height: u64) -> Stream {
    object(vec![
        ("index", whole(index)),
        ("codec_type", text("video")),
        ("codec_name", text(codec)),
        ("width", whole(width)),
        ("height", whole(height)),
    ])
}

fn subtitle_track(index: u64, codec: &str, language: &str) -> Stream {
    object(vec![
        ("index", whole(index)),
        ("codec_type", text("subtitle")),
        ("codec_name", text(codec)),
        ("tags", Value::Object(object(vec![("language", text(language))]))),
    ])
}

fn sized(codec: VideoCodec, resolution: VideoResolution) -> VideoSettings {
    VideoSettings {
        codec,
        resolution,
        metadata: VideoMetadata { language: "und".to_string(), title: None, commentary: false },
        rotation: VideoRotation::Upright,
    }
}

fn custom(width: u64, height: u64) -> VideoResolution {
    VideoResolution::Custom(CustomResolution { width, height, scaling: CustomScaling::FitPad })
}

fn check_video(info: &MediaInfo, order: &[u64], deleted: &[u64], index: u64, settings: VideoSettings) -> Result<(), String> {
    validate_edit(
        info,
        order,
        &deleted.iter().copied().collect(),
        &BTreeSet::new(),
        &BTreeMap::new(),
        &BTreeMap::from([(index, settings)]),
    )
}

fn plain(info: &MediaInfo, order: &[u64], deleted: &[u64], defaults: &[u64]) -> Result<(), String> {
    validate_edit(
        info,
        order,
        &deleted.iter().copied().collect(),
        &defaults.iter().copied().collect(),
        &BTreeMap::new(),
        &BTreeMap::new(),
    )
}

fn error(message: &str) -> Result<(), String> {
    Err(message.to_string())
}

fn audio_settings() -> AudioSettings {
    AudioSettings {
        codec: AudioCodec::Original,
        channel_layout: AudioChannelLayout::Original,
        metadata: AudioMetadata {
            language: "eng".to_string(),
            title: None,
            commentary: false,
            hearing_impaired: false,
            audio_description: false,
            original: false,
            dubbed: false,
        },
    }
}

fn languages() -> Languages {
    let codes = ["eng", "dan", "nld", "fra"];
    Languages {
        codes: codes.iter().map(|code| (code.to_string(), code.to_string())).collect(),
        choices: codes.iter().map(|code| code.to_string()).collect(),
    }
}

fn english_subtitle_metadata() -> SubtitleMetadata {
    SubtitleMetadata {
        language: "eng".to_string(),
        title: None,
        forced: false,
        cc: false,
        hearing_impaired: false,
        original: false,
        commentary: false,
    }
}

fn three_tracks() -> MediaInfo {
    media(vec![kind(0, "video"), kind(1, "audio"), kind(2, "subtitle")])
}

fn two_of_each() -> MediaInfo {
    media(vec![kind(0, "video"), kind(4, "video"), kind(7, "audio"), kind(9, "audio")])
}

#[test]
fn validate_deletion_should_return_error_when_last_video_is_selected() {
    assert_eq!(
        validate_deletion(&three_tracks(), &BTreeSet::from([0])),
        error("Can't delete the last remaining video track."),
    );
}

#[test]
fn validate_deletion_should_return_error_when_last_audio_is_selected() {
    assert_eq!(
        validate_deletion(&three_tracks(), &BTreeSet::from([1])),
        error("Can't delete the last remaining audio track."),
    );
}

#[test]
fn validate_deletion_should_succeed_when_subtitle_is_selected() {
    assert!(validate_deletion(&three_tracks(), &BTreeSet::from([2])).is_ok());
}

#[test]
fn validate_deletion_should_succeed_when_one_of_multiple_video_and_audio_tracks_is_selected() {
    assert!(validate_deletion(&two_of_each(), &BTreeSet::from([0, 7])).is_ok());
}

#[test]
fn validate_deletion_should_return_error_when_every_video_track_is_selected() {
    assert_eq!(
        validate_deletion(&two_of_each(), &BTreeSet::from([0, 4])),
        error("Can't delete every video track; at least one must remain."),
    );
}

#[test]
fn validate_deletion_should_return_error_when_every_audio_track_is_selected() {
    assert_eq!(
        validate_deletion(&two_of_each(), &BTreeSet::from([7, 9])),
        error("Can't delete every audio track; at least one must remain."),
    );
}

#[test]
fn validate_deletion_should_reject_an_empty_selection() {
    let info = media(vec![kind(0, "video"), kind(1, "audio")]);
    assert_eq!(
        validate_deletion(&info, &BTreeSet::new()),
        error("No tracks are selected for deletion."),
    );
}

#[test]
fn validate_deletion_should_reject_a_selection_the_file_no_longer_contains() {
    let info = media(vec![kind(0, "video"), kind(1, "audio")]);
    assert_eq!(
        validate_deletion(&info, &BTreeSet::from([7])),
        error("The file's tracks changed. Reopen it and select them again."),
    );
}

#[test]
fn validate_edit_should_return_error_when_request_omits_unmarked_stream() {
    assert_eq!(
        plain(&three_tracks(), &[0, 1], &[], &[]),
        error(
            "The file's tracks changed: track(s) [2] in the file but not in the staged edit, none in the staged edit but no longer in the file. Reopen it and try again."
        ),
    );
}

#[test]
fn validate_edit_should_return_error_when_default_stream_is_marked_for_deletion() {
    assert_eq!(
        plain(&three_tracks(), &[0, 1], &[2], &[2]),
        error("A default track is also marked for deletion."),
    );
}

#[test]
fn validate_edit_should_succeed_when_request_contains_all_streams_and_valid_default() {
    assert!(plain(&three_tracks(), &[0, 1, 2], &[], &[1]).is_ok());
}

#[test]
fn validate_edit_should_reject_resizing_an_unsupported_original_codec() {
    let info = media(vec![video(0, "ffv1", 1280, 1024)]);
    assert_eq!(
        check_video(&info, &[0], &[], 0, sized(VideoCodec::Original, VideoResolution::P480)),
        error("Can't resize the original FFV1 codec; choose H.264, HEVC, or AV1."),
    );
}

#[test]
fn validate_edit_should_reject_a_preset_that_would_upscale_either_dimension() {
    let info = media(vec![video(0, "h264", 1000, 800)]);
    assert_eq!(
        check_video(&info, &[0], &[], 0, sized(VideoCodec::Original, VideoResolution::P720)),
        error("The selected resolution must be lower than the original."),
    );
}

#[test]
fn validate_edit_should_reject_custom_upscaling_in_either_dimension() {
    for (width, height) in [(1922, 720), (1280, 1082)] {
        let info = media(vec![video(0, "h264", 1920, 1080)]);
        assert_eq!(
            check_video(&info, &[0], &[], 0, sized(VideoCodec::Original, custom(width, height))),
            error("Upscaling isn't possible yet."),
        );
    }
}

#[test]
fn validate_edit_should_reject_custom_dimensions_no_encoder_accepts() {
    let info = media(vec![video(0, "h264", 1920, 1080)]);
    let check = |width, height| {
        check_video(&info, &[0], &[], 0, sized(VideoCodec::Original, custom(width, height)))
    };
    let expected = error("Custom width and height must be at least 16 pixels.");
    assert_eq!(check(1920, 10), expected);
    assert_eq!(check(10, 1080), expected);
    assert!(check(16, 16).is_ok());
}

#[test]
fn validate_edit_should_reject_a_stream_that_has_no_usable_index() {
    let info = media(vec![kind(0, "video"), object(vec![("codec_type", text("audio"))])]);
    assert_eq!(
        plain(&info, &[0], &[], &[]),
        error("One or more tracks have no usable stream index."),
    );
}

#[test]
fn validate_edit_should_reject_a_staged_order_listing_the_same_track_twice() {
    let info = media(vec![kind(0, "video"), kind(1, "audio")]);
    let message = plain(&info, &[0, 1, 1], &[], &[]).unwrap_err();
    assert!(message.contains("appears twice"), "got {message:?}");
}

#[test]
fn validate_edit_should_reject_a_track_that_is_both_kept_and_deleted() {
    let info = media(vec![kind(0, "video"), kind(1, "audio")]);
    let message = plain(&info, &[0, 1], &[1], &[]).unwrap_err();
    assert!(message.contains("both kept and marked for deletion"), "got {message:?}");
    assert!(message.contains('1'), "got {message:?}");
}

#[test]
fn validate_edit_should_reject_encoding_settings_attached_to_a_deleted_track() {
    let info = media(vec![video(0, "h264", 1920, 1080), video(1, "h264", 1920, 1080)]);
    assert_eq!(
        check_video(&info, &[0], &[1], 1, sized(VideoCodec::Original, VideoResolution::P720)),
        error("Video settings refer to a missing or deleted track."),
    );
}

#[test]
fn validate_edit_should_reject_encoding_settings_on_a_track_that_is_not_playable_video() {
    let audio_info = media(vec![video(0, "h264", 1920, 1080), track(1, "audio", "aac")]);
    let cover = object(vec![
        ("index", whole(1)),
        ("codec_type", text("video")),
        ("codec_name", text("mjpeg")),
        ("width", whole(600)),
        ("height", whole(600)),
        ("disposition", Value::Object(object(vec![("attached_pic", whole(1))]))),
    ]);
    let cover_info = media(vec![video(0, "h264", 1920, 1080), cover]);
    let expected = error("Encoding settings can only be applied to playable video tracks.");
    for info in [audio_info, cover_info] {
        assert_eq!(
            check_video(&info, &[0, 1], &[], 1, sized(VideoCodec::Original, VideoResolution::P720)),
            expected,
        );
    }
}

#[test]
fn validate_edit_should_reject_zero_and_odd_custom_dimensions_in_either_axis() {
    let info = media(vec![video(0, "h264", 1920, 1080)]);
    let check = |width, height| {
        check_video(&info, &[0], &[], 0, sized(VideoCodec::Original, custom(width, height)))
    };
    for (width, height) in [(0, 720), (1280, 0), (0, 0), (1280, 721), (1281, 720)] {
        assert_eq!(
            check(width, height),
            error("Custom width and height must be positive even numbers."),
        );
        assert!(check(1280, 720).is_ok());
    }
}

#[test]
fn validate_edit_should_refuse_custom_scaling_when_the_source_resolution_is_unknown() {
    let info = media(vec![track(0, "video", "h264")]);
    assert_eq!(
        check_video(&info, &[0], &[], 0, sized(VideoCodec::Original, custom(1280, 720))),
        error("The source resolution is unavailable; custom scaling cannot be applied."),
    );
}

#[test]
fn validate_edit_should_reject_odd_custom_dimensions() {
    let info = media(vec![video(0, "h264", 1920, 1080)]);
    assert_eq!(
        check_video(&info, &[0], &[], 0, sized(VideoCodec::Original, custom(1279, 720))),
        error("Custom width and height must be positive even numbers."),
    );
}

#[test]
fn a_source_mismatch_should_name_the_tracks_that_disagree() {
    assert_eq!(describe_index_diff(&[]), "none");
    assert_eq!(describe_index_diff(&[1, 3]), "track(s) [1, 3]");
}

fn validate_audio(stream: Stream, index: u64, settings: AudioSettings) -> Result<(), String> {
    let info = media(vec![track(0, "video", "h264"), stream]);
    validate_edit(
        &info,
        &[0, 1],
        &BTreeSet::new(),
        &BTreeSet::new(),
        &BTreeMap::from([(index, settings)]),
        &BTreeMap::new(),
    )
}

fn audio_stream(codec: &str, channels: Option<u64>, rate: Option<&str>) -> Stream {
    let mut fields = vec![
        ("index", whole(1)),
        ("codec_type", text("audio")),
        ("codec_name", text(codec)),
    ];
    if let Some(channels) = channels {
        fields.push(("channels", whole(channels)));
    }
    if let Some(rate) = rate {
        fields.push(("sample_rate", text(rate)));
    }
    object(fields)
}

#[test]
fn audio_validation_should_report_every_invalid_technical_shape() {
    let base = || audio_stream("aac", Some(2), Some("48000"));
    let refused = |stream, index, settings| validate_audio(stream, index, settings).unwrap_err();

    assert!(refused(base(), 2, audio_settings()).contains("missing or deleted"));
    assert!(refused(track(1, "subtitle", "subrip"), 1, audio_settings())
        .contains("only be applied to audio"));
    let mut technical = audio_settings();
    technical.codec = AudioCodec::Ac3;
    assert!(refused(track(1, "audio", "aac"), 1, technical.clone()).contains("channel layout"));

    let mut upmix = technical.clone();
    upmix.channel_layout = AudioChannelLayout::Surround51;
    assert!(refused(base(), 1, upmix).contains(CHANNEL_UPMIX_NOT_IMPLEMENTED));

    let mut unknown = audio_settings();
    unknown.channel_layout = AudioChannelLayout::Mono;
    assert!(refused(audio_stream("dts", Some(2), Some("48000")), 1, unknown)
        .contains("original UNKNOWN codec"));

    let mut unsupported = technical.clone();
    unsupported.codec = AudioCodec::Mp3;
    unsupported.channel_layout = AudioChannelLayout::Surround51;
    assert!(refused(audio_stream("aac", Some(8), Some("48000")), 1, unsupported)
        .contains("does not support 6-channel"));

    assert!(refused(audio_stream("aac", Some(2), None), 1, technical.clone())
        .contains("sample rate"));
    assert!(refused(audio_stream("aac", Some(2), Some("16000")), 1, technical.clone())
        .contains("cannot use the source sample rate"));
    assert!(validate_audio(audio_stream("aac", Some(2), Some("192000")), 1, technical).is_ok());

    let mut lossless = audio_settings();
    lossless.codec = AudioCodec::Flac;
    assert!(validate_audio(base(), 1, lossless).is_ok());
}

#[test]
fn validation_should_accept_automatic_downsampling_for_the_selected_codec() {
    let mut settings = audio_settings();
    settings.codec = AudioCodec::Ac3;
    assert!(validate_audio(audio_stream("aac", Some(2), Some("96000")), 1, settings).is_ok());
}

#[test]
fn audio_validation_should_keep_incompatible_cross_field_choices_staged_but_unsavable() {
    let stream = || audio_stream("aac", Some(8), Some("48000"));
    let mut settings = audio_settings();
    settings.codec = AudioCodec::Mp3;
    settings.channel_layout = AudioChannelLayout::Surround51;
    assert_eq!(
        validate_audio(stream(), 1, settings.clone()),
        error("MP3 does not support 6-channel audio; choose another layout or codec."),
    );
    assert_eq!(settings.codec, AudioCodec::Mp3);
    assert_eq!(settings.channel_layout, AudioChannelLayout::Surround51);
    settings.codec = AudioCodec::Aac;
    settings.channel_layout = AudioChannelLayout::Stereo;
    assert!(validate_audio(stream(), 1, settings).is_ok());
}

// Staleness.

#[test]
fn every_staleness_phrase_should_discard_the_staged_edit_and_nothing_else_should() {
    let stale = [
        "The file's tracks changed: reopen it and try again.",
        "An embedded subtitle track changed. Reopen the file and try again.",
        "A subtitle sidecar changed; reload it before converting.",
        "A subtitle sidecar is no longer available.",
        "The staged defaults refer to a missing or deleted track.",
    ];
    let fixable = [
        "The selected resolution must be lower than the original.",
        "Choose a Tesseract language for OCR.",
        "MP4 can't contain VP9 video track #0.",
    ];
    for message in stale {
        assert_eq!(
            classify_edit_error(message.to_string()),
            EditError::SourceChanged(message.to_string()),
        );
    }
    for message in fixable {
        assert_eq!(
            classify_edit_error(message.to_string()),
            EditError::Failed(message.to_string()),
        );
    }
}

fn embedded_change(index: u64, source_format: SubtitleFormat) -> SubtitleChange {
    SubtitleChange {
        cue_edits: Vec::new(),
        source: SubtitleSource::Embedded(index),
        source_format,
        embedded_target: None,
        export_target: Some(SubtitleFormat::SubRip),
        import_into_media: false,
        ocr_language: None,
        metadata: None,
    }
}

fn sidecar_entry(path: &FilePath, name: &str, format: SubtitleFormat) -> SidecarEntry {
    SidecarEntry {
        path: path.clone(),
        companion: None,
        display_name: name.to_string(),
        format,
        language: "eng".to_string(),
        forced: false,
        hearing_impaired: false,
        number: None,
        fingerprint: FileFingerprint { length: 0, modified: None },
        companion_fingerprint: None,
    }
}

#[test]
fn a_subtitle_conversion_should_be_refused_once_its_embedded_source_has_moved() {
    let info = media(vec![
        track(0, "video", "h264"),
        subtitle_track(1, "subrip", "eng"),
        track(2, "audio", "aac"),
    ]);
    let check = |changes: &[SubtitleChange]| validate_subtitle_sources(&info, changes, &[], &[]);
    assert!(check(&[embedded_change(1, SubtitleFormat::SubRip)]).is_ok());
    for change in [
        embedded_change(9, SubtitleFormat::SubRip),
        embedded_change(2, SubtitleFormat::SubRip),
        embedded_change(1, SubtitleFormat::Ass),
    ] {
        assert!(check(&[change]).unwrap_err().contains("embedded subtitle track changed"));
    }
    let twice = check(&[
        embedded_change(1, SubtitleFormat::SubRip),
        embedded_change(1, SubtitleFormat::SubRip),
    ]);
    assert!(twice.unwrap_err().contains("more than one pending conversion"));
    let mut inert = embedded_change(9, SubtitleFormat::SubRip);
    inert.export_target = None;
    assert!(check(&[inert]).is_ok());
}

#[test]
fn a_subtitle_conversion_should_be_refused_once_its_sidecar_has_changed_on_disk() {
    let info = media(vec![track(0, "video", "h264")]);
    let path = FilePath::at("/videos", "movie.eng.srt");
    let companion = FilePath::at("/videos", "movie.eng.idx");
    let current = FileFingerprint { length: 2, modified: Some(7) };
    let states = [SidecarState { file: Some(current), companion: Some(current) }];
    let mut sidecar = sidecar_entry(&path, "movie.eng.srt", SubtitleFormat::SubRip);
    sidecar.fingerprint = current;
    let change = SubtitleChange {
        cue_edits: Vec::new(),
        source: SubtitleSource::Sidecar(path.clone()),
        source_format: SubtitleFormat::SubRip,
        embedded_target: Some(SubtitleFormat::Ass),
        export_target: None,
        import_into_media: true,
        ocr_language: None,
        metadata: None,
    };
    let stale = FileFingerprint { length: 0, modified: None };
    let mut stale_fingerprint = sidecar.clone();
    stale_fingerprint.fingerprint = stale;
    let mut different_format = sidecar.clone();
    different_format.format = SubtitleFormat::Ass;
    let mut stale_companion = sidecar.clone();
    stale_companion.companion = Some(companion);
    stale_companion.companion_fingerprint = Some(stale);
    let changes = [change];
    let check = |sidecars: &[SidecarEntry]| {
        validate_subtitle_sources(&info, &changes, sidecars, &states)
    };
    assert!(check(&[sidecar.clone()]).is_ok());
    assert!(check(&[]).unwrap_err().contains("no longer available"));
    assert!(check(&[stale_fingerprint]).unwrap_err().contains("sidecar changed"));
    assert!(check(&[different_format]).unwrap_err().contains("sidecar changed"));
    assert!(check(&[stale_companion]).unwrap_err().contains("sidecar changed"));
    // A file that cannot be read is not the one that was listed.
    assert!(validate_subtitle_sources(&info, &changes, &[sidecar], &[])
        .unwrap_err()
        .contains("sidecar changed"));
}

#[test]
fn an_ocr_conversion_should_be_refused_until_a_tesseract_language_is_chosen() {
    let info = media(vec![
        track(0, "video", "h264"),
        subtitle_track(1, "hdmv_pgs_subtitle", "eng"),
    ]);
    let change = embedded_change(1, SubtitleFormat::Pgs);
    let mut blank = change.clone();
    blank.ocr_language = Some(String::new());
    let mut chosen = change.clone();
    chosen.ocr_language = Some("eng".to_string());
    let check = |change: SubtitleChange| validate_subtitle_sources(&info, &[change], &[], &[]);
    assert!(check(change).unwrap_err().contains("Choose a Tesseract language"));
    assert!(check(blank).unwrap_err().contains("Choose a Tesseract language"));
    assert!(check(chosen).is_ok());
}

#[test]
fn an_undetermined_subtitle_language_should_block_the_save_unless_the_track_is_going_away() {
    let info = media(vec![track(0, "video", "h264"), subtitle_track(1, "subrip", "und")]);
    let mut retagged = embedded_change(1, SubtitleFormat::SubRip);
    let mut metadata = english_subtitle_metadata();
    metadata.language = "dan".to_string();
    retagged.metadata = Some(metadata);
    let check = |changes: &[SubtitleChange], deleted: BTreeSet<u64>| {
        validate_subtitle_languages(&languages(), &info, changes, &[], &deleted)
    };
    assert_eq!(
        check(&[], BTreeSet::new()),
        error("Choose a language for subtitle track #1; Undetermined is not allowed."),
    );
    assert!(check(&[], BTreeSet::from([1])).is_ok());
    assert!(check(&[retagged], BTreeSet::new()).is_ok());
}

#[test]
fn an_undetermined_sidecar_language_should_block_the_save_by_name() {
    let info = media(vec![track(0, "video", "h264")]);
    let path = FilePath::at("/videos", "movie.und.srt");
    let mut sidecar = sidecar_entry(&path, "movie.und.srt", SubtitleFormat::SubRip);
    sidecar.language = "und".to_string();
    let mut metadata = english_subtitle_metadata();
    metadata.language = "nld".to_string();
    let retagged = SubtitleChange {
        cue_edits: Vec::new(),
        source: SubtitleSource::Sidecar(path),
        source_format: SubtitleFormat::SubRip,
        embedded_target: None,
        export_target: None,
        import_into_media: true,
        ocr_language: None,
        metadata: Some(metadata),
    };
    let sidecars = [sidecar];
    let check = |changes: &[SubtitleChange]| {
        validate_subtitle_languages(&languages(), &info, changes, &sidecars, &BTreeSet::new())
    };
    assert_eq!(
        check(&[]),
        error("Choose a language for movie.und.srt; Undetermined is not allowed."),
    );
    assert!(check(&[retagged]).is_ok());
}

#[test]
fn a_language_is_written_in_its_canonical_code() {
    let table = Languages {
        codes: vec![("ger".to_string(), "deu".to_string())],
        choices: vec!["deu".to_string()],
    };
    let info = media(vec![track(0, "video", "h264"), subtitle_track(1, "subrip", "und")]);
    let mut change = embedded_change(1, SubtitleFormat::SubRip);
    let mut metadata = english_subtitle_metadata();
    metadata.language = "ger".to_string();
    change.metadata = Some(metadata);
    assert!(validate_subtitle_languages(&table, &info, &[change], &[], &BTreeSet::new()).is_ok());
    assert_eq!(table.canonical_language_code("ger"), Some("deu".to_string()));
    assert_eq!(table.canonical_language_code("eng"), None);
}

#[test]
fn accepted_edits_keep_every_kind_of_track() {
    // Deleting one video and one audio track leaves another of each.
    assert!(plain(&two_of_each(), &[4, 9], &[0, 7], &[4]).is_ok());
    assert!(plain(&two_of_each(), &[4], &[0, 7, 9], &[]).is_err());
    assert!(plain(&two_of_each(), &[9], &[0, 4, 7], &[]).is_err());
}

#[test]
fn numbers_and_texts_both_name_a_stream() {
    let info = media(vec![
        object(vec![("index", text("0")), ("codec_type", text("video"))]),
        object(vec![("index", text("+1")), ("codec_type", text("audio"))]),
    ]);
    assert!(plain(&info, &[0, 1], &[], &[]).is_ok());
    let unusable = media(vec![object(vec![("index", text("x1")), ("codec_type", text("video"))])]);
    assert!(plain(&unusable, &[], &[], &[]).is_err());
    let huge = media(vec![object(vec![
        ("index", text("18446744073709551616")),
        ("codec_type", text("video")),
    ])]);
    assert!(plain(&huge, &[], &[], &[]).is_err());
}

#[test]
fn an_unknown_codec_is_named_in_upper_case() {
    let info = media(vec![object(vec![
        ("index", whole(0)),
        ("codec_type", text("video")),
        ("codec_name", text("größe")),
        ("width", whole(1280)),
        ("height", whole(1024)),
    ])]);
    assert_eq!(
        check_video(&info, &[0], &[], 0, sized(VideoCodec::Original, VideoResolution::P480)),
        error("Can't resize the original GRÖSSE codec; choose H.264, HEVC, or AV1."),
    );
}
