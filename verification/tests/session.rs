use std::collections::{BTreeMap, BTreeSet};

use reel::apply::{check_output, EditRequest};
use reel::audio::{AudioChannelLayout, AudioCodec, AudioMetadata, AudioSettings};
use reel::command::{ffmpeg_arguments, Argument, FfmpegPlan};
use reel::container::{ContainerFormat, ContainerMetadata};
use reel::convert::Step;
use reel::files::FileFingerprint;
use reel::path::{FilePath, PathText};
use reel::plan::{SubtitleImport, SubtitleReplacement};
use reel::probe::{MediaInfo, Number, Object, Value};
use reel::progress::{EditResult, SaveDestination};
use reel::reports::Moment;
use reel::session::{CheckedSession, PreparedSession, PublishingSession};
use reel::sources::{EditError, SidecarState};
use reel::subtitle::{
    CueEdit, Languages, SidecarEntry, SubtitleChange, SubtitleFormat, SubtitleMetadata,
    SubtitleSource, TrackRef,
};
use reel::transaction::TransactionStep;
use reel::video::{VideoCodec, VideoResolution, VideoRotation, VideoSettings};

fn value(json: &serde_json::Value) -> Value {
    match json {
        serde_json::Value::Null => Value::Null,
        serde_json::Value::Bool(truth) => Value::Bool(*truth),
        serde_json::Value::Number(number) => Value::Number(match (number.as_u64(), number.as_i64()) {
            (Some(whole), _) => Number::Whole(whole),
            (None, Some(negative)) => Number::Negative(negative),
            (None, None) => Number::Fraction(number.as_f64().unwrap().round() as i64),
        }),
        serde_json::Value::String(text) => Value::Text(text.clone()),
        serde_json::Value::Array(items) => Value::Array(items.iter().map(value).collect()),
        serde_json::Value::Object(_) => Value::Object(object(json)),
    }
}

fn object(json: &serde_json::Value) -> Object {
    Object {
        fields: json
            .as_object()
            .unwrap()
            .iter()
            .map(|(name, field)| (name.clone(), value(field)))
            .collect(),
    }
}

fn media(json: &str) -> MediaInfo {
    let parsed: serde_json::Value = serde_json::from_str(json).unwrap();
    MediaInfo {
        streams: parsed.as_array().unwrap().iter().map(object).collect(),
        format: Object { fields: vec![] },
        chapters: vec![],
    }
}

const MOVIES: &str = "/videos";
const WORK: &str = "/videos/.reel-tui-work";

fn movie(name: &str) -> FilePath {
    FilePath::at(MOVIES, name)
}

fn work(name: &str) -> FilePath {
    FilePath::at(WORK, name)
}

fn workspace() -> PathText {
    PathText::Text(WORK.to_string())
}

fn languages() -> Languages {
    let codes = ["eng", "dan", "nld"];
    Languages {
        codes: codes.iter().map(|code| (code.to_string(), code.to_string())).collect(),
        choices: codes.iter().map(|code| code.to_string()).collect(),
    }
}

fn request(order: &[u64]) -> EditRequest {
    EditRequest {
        path: movie("movie.mkv"),
        destination: SaveDestination::ReplaceOriginal,
        container: None,
        container_metadata: None,
        stream_order: order.to_vec(),
        deleted_streams: BTreeSet::new(),
        default_streams: BTreeSet::new(),
        default_sidecars: BTreeSet::new(),
        audio_settings: BTreeMap::new(),
        video_settings: BTreeMap::new(),
        subtitle_changes: vec![],
        left_subtitle_order: vec![],
        sidecars: vec![],
    }
}

fn probed(streams: &str) -> MediaInfo {
    let mut info = media(streams);
    info.format.fields.push(("format_name".to_string(), Value::Text("matroska,webm".to_string())));
    info
}

const LISTED: FileFingerprint = FileFingerprint { length: 10, modified: Some(5) };

const ONE_VIDEO: &str = r#"[{"index": 0, "codec_type": "video", "codec_name": "ffv1"}]"#;

const VIDEO_AND_AUDIO: &str = r#"[
    {"index": 0, "codec_type": "video", "codec_name": "h264", "width": 320, "height": 240},
    {"index": 1, "codec_type": "audio", "codec_name": "aac", "channels": 2, "sample_rate": "48000",
     "tags": {"language": "eng"}}
]"#;

const AUDIO_AND_VIDEO: &str = r#"[
    {"index": 0, "codec_type": "audio", "codec_name": "aac", "channels": 2, "sample_rate": "48000",
     "tags": {"language": "eng"}},
    {"index": 1, "codec_type": "video", "codec_name": "h264", "width": 320, "height": 240}
]"#;

fn check<'a>(
    languages: &'a Languages,
    request: &'a EditRequest,
    streams: &str,
) -> Result<CheckedSession<'a>, EditError> {
    CheckedSession::check(languages, request, LISTED, probed(streams), &[], false)
}

fn expect_error<T>(result: Result<T, EditError>) -> EditError {
    match result {
        Ok(_) => panic!("the edit should be refused"),
        Err(error) => error,
    }
}

fn failed<T>(result: Result<T, EditError>) -> String {
    match expect_error(result) {
        EditError::Failed(message) => message,
        other => panic!("{other:?} is not a failure"),
    }
}

fn changed<T>(result: Result<T, EditError>) -> String {
    match expect_error(result) {
        EditError::SourceChanged(message) => message,
        other => panic!("{other:?} is not a change of the source"),
    }
}

fn texts(list: &[Argument]) -> Vec<String> {
    list.iter()
        .map(|argument| match argument {
            Argument::Text(text) => text.clone(),
            Argument::Path(path) => path.shown(),
        })
        .collect()
}

fn words(line: &str) -> Vec<String> {
    line.split_whitespace().map(|word| word.to_string()).collect()
}

/// Makes every move of an edit that is being published, and lists them.
fn carry_out(mut session: PublishingSession) -> (Vec<(String, String)>, EditResult) {
    let mut moves = Vec::new();
    loop {
        match session.next_step() {
            TransactionStep::Move { from, to, .. } => {
                assert_eq!(session.finished(), None);
                moves.push((from.shown(), to.shown()));
                session = session.step_succeeded();
            }
            TransactionStep::RemoveBackups(_) => {
                return (moves, session.finished().unwrap());
            }
        }
    }
}

fn pairs(list: &[(&str, &str)]) -> Vec<(String, String)> {
    list.iter().map(|(from, to)| (from.to_string(), to.to_string())).collect()
}

#[test]
fn apply_edits_should_treat_a_stream_order_mismatch_as_stale_rather_than_a_hard_failure() {
    let languages = languages();
    let request = request(&[0, 5]);
    assert!(changed(check(&languages, &request, ONE_VIDEO)).contains("tracks changed"));
}

#[test]
fn apply_edits_should_keep_a_genuinely_invalid_edit_as_a_hard_failure() {
    let languages = languages();
    let mut request = request(&[]);
    request.deleted_streams = BTreeSet::from([0]);
    request.default_streams = BTreeSet::from([0]);
    assert!(failed(check(&languages, &request, ONE_VIDEO)).contains("also marked for deletion"));
}

#[test]
fn cancelling_after_the_remux_finishes_should_still_leave_the_original_untouched() {
    let languages = languages();
    let request = request(&[1, 0]);
    let session = check(&languages, &request, VIDEO_AND_AUDIO).unwrap();
    let session = session.prepare(workspace(), &[movie("movie.mkv")]).unwrap();
    let PreparedSession::Media(session) = session.prepared(Ok(())).unwrap() else {
        panic!("another order of the tracks is another media file");
    };
    let (session, _) = session.write_to(movie(".reel-tui-movie.mkv"));
    assert_eq!(expect_error(session.written(true, b"", true)), EditError::Cancelled);
}

#[test]
fn a_reordered_file_is_written_checked_and_put_in_place() {
    let languages = languages();
    let request = request(&[1, 0]);
    let session = check(&languages, &request, VIDEO_AND_AUDIO).unwrap();
    let session = session.prepare(workspace(), &[movie("movie.mkv")]).unwrap();
    assert!(session.steps().is_empty());
    let PreparedSession::Media(session) = session.prepared(Ok(())).unwrap() else {
        panic!("another order of the tracks is another media file");
    };
    assert_eq!(session.phase().label(), "Remuxing media");
    let (session, list) = session.write_to(movie(".reel-tui-movie.mkv"));
    assert_eq!(
        texts(&list),
        words(
            "-v error -nostdin -y -progress pipe:1 -nostats -i /videos/movie.mkv \
             -map 0:1 -map 0:0 -map_metadata 0 -map_chapters 0 -c copy \
             -map_metadata:s:0 0:s:1 -metadata:s:0 language=eng -metadata:s:0 title= \
             -disposition:0 0 \
             -map_metadata:s:1 0:s:0 -metadata:s:1 language=und -metadata:s:1 title= \
             -disposition:1 0 \
             -f matroska /videos/.reel-tui-movie.mkv",
        ),
    );
    let session = session.written(true, b"", false).unwrap();
    assert_eq!(*session.temporary(), movie(".reel-tui-movie.mkv"));
    let session = session.probed(Ok(probed(AUDIO_AND_VIDEO))).unwrap();
    let session = session.recheck(&[], Some(LISTED)).unwrap();
    let session = session.permissions_kept(Ok(()), false).unwrap();
    let there = [movie("movie.mkv"), movie(".reel-tui-movie.mkv")];
    let session = session.settle(&there).unwrap();
    assert!(session.copies().is_empty());
    let (moves, result) = carry_out(session.publish(&there, false).unwrap());
    assert_eq!(moves.len(), 2);
    assert_eq!(moves[0].0, "/videos/movie.mkv");
    assert_eq!(
        moves[1],
        ("/videos/.reel-tui-movie.mkv".to_string(), "/videos/movie.mkv".to_string()),
    );
    assert_eq!(
        result,
        EditResult { output_path: movie("movie.mkv"), media_changed: true },
    );
}

#[test]
fn a_copy_leaves_the_source_where_it_is() {
    let languages = languages();
    let mut request = request(&[1, 0]);
    request.destination = SaveDestination::CreateCopy;
    let session = check(&languages, &request, VIDEO_AND_AUDIO).unwrap();
    let session = session.prepare(workspace(), &[movie("movie.mkv")]).unwrap();
    let PreparedSession::Media(session) = session.prepared(Ok(())).unwrap() else {
        panic!("another order of the tracks is another media file");
    };
    let (session, _) = session.write_to(movie(".reel-tui-movie.mkv"));
    let session = session.written(true, b"", false).unwrap();
    let session = session.probed(Ok(probed(AUDIO_AND_VIDEO))).unwrap();
    let session = session.recheck(&[], Some(LISTED)).unwrap();
    let session = session.permissions_kept(Ok(()), false).unwrap();
    let there =
        [movie("movie.mkv"), movie("movie-reel-edit.mkv"), movie(".reel-tui-movie.mkv")];
    let session = session.settle(&there).unwrap();
    let (moves, result) = carry_out(session.publish(&there, false).unwrap());
    assert_eq!(
        moves,
        pairs(&[("/videos/.reel-tui-movie.mkv", "/videos/movie-reel-edit-2.mkv")]),
    );
    assert_eq!(
        result,
        EditResult { output_path: movie("movie-reel-edit-2.mkv"), media_changed: true },
    );
}

#[test]
fn every_stage_stops_at_its_own_failure() {
    let languages = languages();
    let request = request(&[1, 0]);
    let begin = || {
        let session = check(&languages, &request, VIDEO_AND_AUDIO).unwrap();
        session.prepare(workspace(), &[movie("movie.mkv")]).unwrap()
    };
    let start = || match begin().prepared(Ok(())).unwrap() {
        PreparedSession::Media(session) => session.write_to(movie(".reel-tui-movie.mkv")).0,
        PreparedSession::Subtitles(_) => panic!("the media is written"),
    };
    let written = || start().written(true, b"", false).unwrap();
    let verified = || written().probed(Ok(probed(AUDIO_AND_VIDEO))).unwrap();

    assert_eq!(
        expect_error(CheckedSession::check(
            &languages,
            &request,
            LISTED,
            probed(VIDEO_AND_AUDIO),
            &[],
            true,
        )),
        EditError::Cancelled,
    );
    assert_eq!(
        expect_error(begin().prepared(Err(EditError::Failed("no".to_string())))),
        EditError::Failed("no".to_string()),
    );
    assert_eq!(
        failed(start().written(false, b"broken pipe\n", false)),
        "ffmpeg could not apply the track edits: broken pipe",
    );
    assert_eq!(failed(written().probed(Err("unreadable".to_string()))), "unreadable");
    assert_eq!(
        failed(written().probed(Ok(probed(ONE_VIDEO)))),
        "The remuxed file has 1 tracks; expected 2.",
    );
    assert!(failed(written().probed(Ok(probed(VIDEO_AND_AUDIO))))
        .contains("not in the requested order"));
    let other = FileFingerprint { length: 11, modified: Some(5) };
    assert_eq!(
        changed(verified().recheck(&[], Some(other))),
        "Source file changed; reloaded latest metadata without saving the media edit.",
    );
    assert_eq!(
        changed(verified().recheck(&[], None)),
        "Source file was removed; the media edit was not saved.",
    );
    let rechecked = || verified().recheck(&[], Some(LISTED)).unwrap();
    assert_eq!(
        failed(rechecked().permissions_kept(Err("denied".to_string()), false)),
        "Could not preserve source permissions: denied",
    );
    assert_eq!(expect_error(rechecked().permissions_kept(Ok(()), true)), EditError::Cancelled);
    let ready = rechecked().permissions_kept(Ok(()), false).unwrap();
    let settled = ready.settle(&[movie("movie.mkv")]).unwrap();
    assert_eq!(expect_error(settled.publish(&[movie("movie.mkv")], true)), EditError::Cancelled);
}

#[test]
fn a_failed_move_is_undone_from_the_last_to_the_first() {
    let languages = languages();
    let request = request(&[1, 0]);
    let session = check(&languages, &request, VIDEO_AND_AUDIO).unwrap();
    let session = session.prepare(workspace(), &[movie("movie.mkv")]).unwrap();
    let PreparedSession::Media(session) = session.prepared(Ok(())).unwrap() else {
        panic!("another order of the tracks is another media file");
    };
    let (session, _) = session.write_to(movie(".reel-tui-movie.mkv"));
    let session = session.written(true, b"", false).unwrap();
    let session = session.probed(Ok(probed(AUDIO_AND_VIDEO))).unwrap();
    let session = session.recheck(&[], Some(LISTED)).unwrap();
    let session = session.permissions_kept(Ok(()), false).unwrap();
    let there = [movie("movie.mkv"), movie(".reel-tui-movie.mkv")];
    let session = session.settle(&there).unwrap().publish(&there, false).unwrap();
    let first = session.step_failed(false, "denied");
    assert_eq!(first.remove, vec![movie("transaction-backup-0")]);
    assert!(first.restore.is_empty());
    assert_eq!(
        first.error,
        EditError::Failed("Could not stage existing file for replacement: denied".to_string()),
    );
    let session = session.step_succeeded();
    let second = session.step_failed(false, "full");
    assert_eq!(second.remove, vec![movie("movie.mkv")]);
    assert_eq!(second.restore.len(), 1);
    assert_eq!(second.restore[0].1, movie("movie.mkv"));
    assert_eq!(
        second.error,
        EditError::Failed("Could not publish the completed edit: full".to_string()),
    );
    assert_eq!(session.step_failed(true, "stopped").error, EditError::Cancelled);
}

#[test]
fn every_stage_tells_of_itself() {
    let languages = languages();
    let run = |request: &EditRequest| {
        let session = check(&languages, request, VIDEO_AND_AUDIO).unwrap();
        let mut told = vec![session.reached()];
        let session = session.prepare(workspace(), &[movie("movie.mkv")]).unwrap();
        let PreparedSession::Media(session) = session.prepared(Ok(())).unwrap() else {
            panic!("another order of the tracks is another media file");
        };
        told.push(session.reached());
        let (session, _) = session.write_to(movie(".reel-tui-movie.mkv"));
        assert_eq!(session.reached(false), None);
        told.extend(session.reached(true));
        let session = session.written(true, b"", false).unwrap();
        let session = session.probed(Ok(probed(AUDIO_AND_VIDEO))).unwrap();
        told.push(session.reached());
        let session = session.recheck(&[], Some(LISTED)).unwrap();
        told.push(session.reached());
        let session = session.permissions_kept(Ok(()), false).unwrap();
        told.extend(session.reached());
        let there = [movie("movie.mkv"), movie(".reel-tui-movie.mkv")];
        told.extend(session.names_sought(&there));
        told.push(session.settle(&there).unwrap().reached());
        told
    };
    let replaced = request(&[1, 0]);
    let mut copied = request(&[1, 0]);
    copied.destination = SaveDestination::CreateCopy;
    for request in [replaced, copied] {
        assert_eq!(
            run(&request),
            vec![
                Moment::ChangesAccepted,
                Moment::MediaPlanned("Remuxing media".to_string()),
                Moment::MediaWritten,
                Moment::OutputAccepted,
                Moment::SourcesUnchanged,
                Moment::PermissionsKept,
                Moment::NamesSought,
                Moment::NamesSettled,
            ],
        );
    }
}

#[test]
fn paths_reach_the_tools_as_they_are_spelled() {
    let languages = languages();
    let mut request = request(&[1, 0]);
    request.path = FilePath::at("/videos//new/./", "movie.mkv");
    request.container = Some(ContainerFormat::Mp4);
    let session = check(&languages, &request, VIDEO_AND_AUDIO).unwrap();
    let session = session.prepare(workspace(), &[movie("movie.mkv")]).unwrap();
    let PreparedSession::Media(session) = session.prepared(Ok(())).unwrap() else {
        panic!("another order of the tracks is another media file");
    };
    let (session, list) = session.write_to(FilePath::at("/videos//", ".reel-tui-movie.mp4"));
    let list = texts(&list);
    assert!(list.contains(&"/videos//new/./movie.mkv".to_string()));
    assert_eq!(list.last().unwrap(), "/videos//.reel-tui-movie.mp4");
    let mut output = probed(AUDIO_AND_VIDEO);
    output.format.fields[0].1 = Value::Text("mov,mp4,m4a,3gp,3g2,mj2".to_string());
    let session = session.written(true, b"", false).unwrap().probed(Ok(output)).unwrap();
    let session = session.recheck(&[], Some(LISTED)).unwrap();
    let session = session.permissions_kept(Ok(()), false).unwrap();
    // The file that is in the way is the same, however its directory is spelled.
    assert_eq!(
        failed(session.settle(&[FilePath::at("/videos/./new", "movie.mp4")])),
        "/videos//new/movie.mp4 already exists; choose Create a copy or rename it.",
    );
}

fn sidecar_entry(name: &str) -> SidecarEntry {
    SidecarEntry {
        path: movie(name),
        companion: None,
        display_name: name.to_string(),
        format: SubtitleFormat::SubRip,
        language: "eng".to_string(),
        forced: false,
        hearing_impaired: false,
        number: None,
        fingerprint: LISTED,
        companion_fingerprint: None,
    }
}

fn cue_request() -> EditRequest {
    let mut request = request(&[0]);
    request.default_streams = BTreeSet::new();
    request.sidecars = vec![sidecar_entry("movie.eng.srt")];
    request.subtitle_changes = vec![SubtitleChange {
        cue_edits: vec![CueEdit {
            cue: 0,
            original_text: "Hello".to_string(),
            original_start: 1_000,
            original_end: 2_000,
            text: "Hello, rewritten".to_string(),
            start: 1_000,
            end: 2_000,
        }],
        source: SubtitleSource::Sidecar(movie("movie.eng.srt")),
        source_format: SubtitleFormat::SubRip,
        embedded_target: None,
        export_target: None,
        import_into_media: false,
        ocr_language: None,
        metadata: None,
    }];
    request
}

#[test]
fn a_change_of_a_sidecar_leaves_the_media_alone() {
    let languages = languages();
    let request = cue_request();
    let states = [SidecarState { file: Some(LISTED), companion: None }];
    let begin = || {
        let session = CheckedSession::check(
            &languages,
            &request,
            LISTED,
            probed(ONE_VIDEO),
            &states,
            false,
        )
        .unwrap();
        let session =
            session.prepare(workspace(), &[movie("movie.mkv"), movie("movie.eng.srt")]).unwrap();
        assert!(session
            .steps()
            .iter()
            .any(|step| matches!(step, Step::RewriteCues { change: 0, .. })));
        match session.prepared(Ok(())).unwrap() {
            PreparedSession::Subtitles(session) => session,
            PreparedSession::Media(_) => panic!("the media is not written"),
        }
    };
    assert_eq!(begin().reached(), Moment::SubtitlesReady);
    let session = begin().recheck(&states, Some(LISTED), false).unwrap();
    assert_eq!(session.reached(), None);
    assert_eq!(session.names_sought(&[]), Some(Moment::NamesSought));
    let there = [movie("movie.mkv"), movie("movie.eng.srt"), work("cues-0.srt")];
    let session = session.settle(&there).unwrap();
    let (moves, result) = carry_out(session.publish(&there, false).unwrap());
    assert_eq!(moves.len(), 2);
    assert_eq!(moves[0].0, "/videos/movie.eng.srt");
    assert_eq!(
        moves[1],
        ("/videos/.reel-tui-work/cues-0.srt".to_string(), "/videos/movie.eng.srt".to_string()),
    );
    assert_eq!(result, EditResult { output_path: movie("movie.mkv"), media_changed: false });

    let other = FileFingerprint { length: 11, modified: Some(5) };
    let moved = [SidecarState { file: Some(other), companion: None }];
    assert_eq!(
        changed(begin().recheck(&moved, Some(LISTED), false)),
        "A subtitle sidecar changed; no subtitle output was saved.",
    );
    assert_eq!(
        changed(begin().recheck(&states, Some(other), false)),
        "Source file changed; no subtitle output was saved.",
    );
    assert_eq!(
        changed(begin().recheck(&states, None, false)),
        "Source file was removed; no subtitle output was saved.",
    );
    assert_eq!(expect_error(begin().recheck(&states, Some(LISTED), true)), EditError::Cancelled);
}

#[test]
fn an_incompatible_container_is_refused_with_every_conflict() {
    let languages = languages();
    let mut request = request(&[0, 1]);
    request.container = Some(ContainerFormat::Mp4);
    let streams = r#"[
        {"index": 0, "codec_type": "video", "codec_name": "vp9"},
        {"index": 1, "codec_type": "audio", "codec_name": "vorbis"}
    ]"#;
    let message = failed(check(&languages, &request, streams));
    let lines: Vec<&str> = message.lines().collect();
    assert_eq!(lines[0], "The selected container is incompatible:");
    assert_eq!(lines.len(), 3);
    assert!(lines[1].starts_with("MP4 can't contain VP9 video track #0."));
    assert!(lines[2].starts_with("MP4 can't contain VORBIS audio track #1."));
}

#[test]
fn a_remux_lists_every_argument_in_its_place() {
    let info = probed(
        r#"[
            {"index": 0, "codec_type": "video", "codec_name": "h264", "width": 1920, "height": 1080,
             "tags": {"language": "nld"}},
            {"index": 1, "codec_type": "audio", "codec_name": "aac", "channels": 6,
             "sample_rate": "96000", "disposition": {"default": 1}},
            {"index": 2, "codec_type": "subtitle", "codec_name": "ass",
             "tags": {"language": "eng", "title": "Signs"}},
            {"index": 3, "codec_type": "attachment", "codec_name": "ttf"}
        ]"#,
    );
    let languages = languages();
    let source = movie("movie.mkv");
    let temporary = movie(".reel-tui-movie.mp4");
    let audio = BTreeMap::from([(
        1,
        AudioSettings {
            codec: AudioCodec::Ac3,
            channel_layout: AudioChannelLayout::Stereo,
            metadata: AudioMetadata {
                language: "eng".to_string(),
                title: Some("Main".to_string()),
                commentary: true,
                hearing_impaired: false,
                audio_description: false,
                original: true,
                dubbed: false,
            },
        },
    )]);
    let video = BTreeMap::from([(
        0,
        VideoSettings {
            codec: VideoCodec::Hevc,
            resolution: VideoResolution::P720,
            rotation: VideoRotation::Cw90,
            ..VideoSettings::default()
        },
    )]);
    let replacements = [SubtitleReplacement {
        source_index: 2,
        target: SubtitleFormat::MovText,
        path: work("embedded-0-2.mp4"),
    }];
    let imports = [SubtitleImport {
        source_path: movie("movie.dan.srt"),
        target: SubtitleFormat::MovText,
        path: work("import-1.mp4"),
        metadata: SubtitleMetadata {
            language: "dan".to_string(),
            title: None,
            forced: true,
            cc: false,
            hearing_impaired: false,
            original: false,
            commentary: false,
        },
        default: true,
    }];
    let sidecars = [sidecar_entry("movie.dan.srt")];
    let tags = ContainerMetadata {
        title: Some("Film".to_string()),
        comment: None,
        date: Some("2008".to_string()),
        genre: None,
        artist: None,
    };
    let plan = FfmpegPlan {
        source: &source,
        temporary: &temporary,
        source_info: &info,
        stream_order: &[0, 1, 2],
        left_subtitle_order: &[TrackRef::Sidecar(0), TrackRef::Embedded(2)],
        default_streams: &BTreeSet::from([1]),
        audio_settings: &audio,
        video_settings: &video,
        replacements: &replacements,
        imports: &imports,
        subtitle_changes: &[],
        sidecars: &sidecars,
        languages: &languages,
        container: Some(ContainerFormat::Mp4),
        container_metadata: Some(&tags),
    };
    assert_eq!(
        texts(&ffmpeg_arguments(&plan)),
        words(
            "-v error -nostdin -y -progress pipe:1 -nostats -display_rotation:v:0 90 \
             -i /videos/movie.mkv -i /videos/.reel-tui-work/embedded-0-2.mp4 \
             -i /videos/.reel-tui-work/import-1.mp4 \
             -map 0:0 -map 0:1 -map 2:0 -map 1:0 \
             -map_metadata 0 -map_chapters 0 -c copy -metadata title=Film -metadata date=2008 \
             -c:v:0 libx265 -crf:v:0 24 -preset:v:0 medium -filter:v:0 \
             scale=1280:720:force_original_aspect_ratio=decrease:force_divisible_by=2,pad=1280:720:(ow-iw)/2:(oh-ih)/2:black,setsar=1 \
             -c:a:0 ac3 -ac:a:0 2 -ar:a:0 48000 -b:a:0 256k \
             -map_metadata:s:0 0:s:0 -metadata:s:0 language=und -metadata:s:0 handler_name= \
             -disposition:0 0 \
             -map_metadata:s:1 0:s:1 -metadata:s:1 language=eng -metadata:s:1 handler_name=Main \
             -disposition:1 comment+default \
             -metadata:s:2 language=dan -metadata:s:2 title= -disposition:2 default+forced \
             -map_metadata:s:3 0:s:2 -metadata:s:3 language=eng -metadata:s:3 language=eng \
             -metadata:s:3 title=Signs -disposition:3 0 \
             -movflags +faststart -f mp4 /videos/.reel-tui-movie.mp4",
        ),
    );
    let short = probed(ONE_VIDEO);
    assert_eq!(
        failed(check_output(&plan, &short, None)),
        "The remuxed file has 1 tracks; expected 4.",
    );
    assert_eq!(
        failed(check_output(&plan, &short, Some(ContainerFormat::Mp4))),
        "The completed file is not a valid MP4 container.",
    );
}
