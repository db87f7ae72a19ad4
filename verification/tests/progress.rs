use std::collections::{BTreeMap, BTreeSet};

use reel::apply::{source_unprobed, source_unreadable, EditRequest};
use reel::container::ContainerFormat;
use reel::log::edit_failure_line;
use reel::path::FilePath;
use reel::progress::{
    command_error, compact_subject, display_file_name, finish_edit, media_write_label,
    panic_failure, panic_message, subtitle_preparation_phase, worker_threads, EditOutcome,
    EditPhase, EditResult, SaveDestination, SubtitlePreparation,
};
use reel::sources::EditError;
use reel::subtitle::{SubtitleChange, SubtitleFormat, SubtitleSource};
use reel::tools::{
    copy_edit_error, poll_tool, progress_time, remux_not_started, tool_lost, tool_not_started,
    CopyAction, CopyProgress, ToolAction, ToolState,
};
use reel::video::{VideoCodec, VideoSettings};

fn subtitle_change(
    source_format: SubtitleFormat,
    embedded_target: Option<SubtitleFormat>,
    export_target: Option<SubtitleFormat>,
    import_into_media: bool,
    ocr_language: Option<&str>,
) -> SubtitleChange {
    SubtitleChange {
        cue_edits: vec![],
        source: SubtitleSource::Sidecar(FilePath::at("", "movie.eng.sup")),
        source_format,
        embedded_target,
        export_target,
        import_into_media,
        ocr_language: ocr_language.map(str::to_string),
        metadata: None,
    }
}

#[test]
fn subtitle_preparation_progress_should_describe_the_actual_conversion_phase() {
    let subrip = SubtitleFormat::SubRip;
    let ocr_import =
        subtitle_change(SubtitleFormat::Pgs, Some(subrip), None, true, Some("dan"));
    let converted_import = subtitle_change(SubtitleFormat::Ass, Some(subrip), None, true, None);
    let copied_import = subtitle_change(subrip, Some(subrip), None, true, None);
    let ocr_export =
        subtitle_change(SubtitleFormat::VobSub, None, Some(subrip), false, Some("nld"));
    let labels = [
        ("movie.dan.sup", &ocr_import, SubtitlePreparation::Import),
        ("movie.eng.ass", &converted_import, SubtitlePreparation::Import),
        ("movie.eng.srt", &copied_import, SubtitlePreparation::Import),
        ("subtitle track #3", &ocr_export, SubtitlePreparation::Export),
        ("subtitle #4", &copied_import, SubtitlePreparation::Embed),
        ("subtitle #5", &copied_import, SubtitlePreparation::Export),
        ("movie.eng.srt", &copied_import, SubtitlePreparation::Sidecar),
        ("subtitle #6", &converted_import, SubtitlePreparation::Embed),
        ("subtitle #7", &ocr_import, SubtitlePreparation::Embed),
        ("movie.eng.ass", &converted_import, SubtitlePreparation::Sidecar),
    ]
    .map(|(subject, change, preparation)| {
        subtitle_preparation_phase(subject, change, subrip, preparation).label()
    });
    assert_eq!(
        labels,
        [
            "Running OCR on movie.dan.sup → SRT (dan)",
            "Converting movie.eng.ass → SRT",
            "Copying movie.eng.srt",
            "Running OCR on subtitle track #3 → SRT (nld)",
            "Extracting subtitle #4",
            "Extracting subtitle #5",
            "Updating movie.eng.srt",
            "Converting subtitle #6 → SRT",
            "Running OCR on subtitle #7 → SRT (dan)",
            "Converting movie.eng.ass → SRT",
        ],
    );
}

#[test]
fn every_edit_phase_should_have_a_concise_action_label() {
    let text = |value: &str| value.to_string();
    let phases = [
        EditPhase::InspectSource,
        EditPhase::ValidateChanges,
        EditPhase::CreateWorkspace,
        EditPhase::ExtractSubtitle(text("subtitle #3")),
        EditPhase::CopySubtitle(text("movie.eng.srt")),
        EditPhase::UpdateSubtitle(text("movie.eng.srt")),
        EditPhase::ConvertSubtitle { subject: text("movie.eng.ass"), target: text("SRT") },
        EditPhase::OcrSubtitle {
            subject: text("movie.dan.sup"),
            target: text("SRT"),
            language: text("dan"),
        },
        EditPhase::OcrSubtitle {
            subject: text("movie.with.an.extremely.long.descriptive.subtitle.filename.dan.sup"),
            target: text("SRT"),
            language: text("dan"),
        },
        EditPhase::ValidateSubtitle(text("movie.eng.srt")),
        EditPhase::ResolveNames,
        EditPhase::WriteMedia(text("Encoding video")),
        EditPhase::ValidateOutput,
        EditPhase::RecheckSources,
        EditPhase::PreservePermissions,
        EditPhase::PreparePublication,
        EditPhase::BackupFile(text("movie.mkv")),
        EditPhase::PublishFile(text("movie.mkv")),
        EditPhase::RemoveBackups,
        EditPhase::Rollback,
        EditPhase::StopTools,
        EditPhase::Cleanup,
        EditPhase::Finished,
    ];
    let labels = phases.map(|phase| phase.label());
    assert!(labels.iter().all(|label| !label.is_empty()));
    assert!(labels.iter().all(|label| !label.contains("for import")));
    assert!(labels.iter().all(|label| !label.contains("for export")));
    assert!(labels.iter().all(|label| label.chars().count() <= 60));
}

#[test]
fn media_write_progress_should_describe_the_actual_operation() {
    let settings = BTreeMap::from([(
        0u64,
        VideoSettings { codec: VideoCodec::H264, ..VideoSettings::default() },
    )]);
    let video_encode = !settings.is_empty();
    let mp4 = Some(ContainerFormat::Mp4);
    assert_eq!(media_write_label(None, false, false, false), "Remuxing media");
    assert_eq!(media_write_label(None, false, false, true), "Updating container metadata");
    assert_eq!(media_write_label(mp4, false, false, false), "Remuxing to MP4");
    assert_eq!(media_write_label(None, false, video_encode, false), "Encoding video");
    assert_eq!(
        media_write_label(mp4, false, video_encode, false),
        "Encoding video and remuxing to MP4",
    );
    assert_eq!(media_write_label(None, true, false, false), "Encoding audio");
    assert_eq!(media_write_label(None, true, true, false), "Encoding video and audio");
}

#[test]
fn a_long_progress_subject_should_be_elided_in_the_middle() {
    assert_eq!(compact_subject("movie.eng.srt"), "movie.eng.srt");
    assert_eq!(compact_subject("123456789012345678901234"), "123456789012345678901234");
    assert_eq!(
        compact_subject("a-really-long-subtitle-name.eng.forced.srt"),
        "a-really-long-s…rced.srt",
    );
    assert_eq!(compact_subject(&"字".repeat(40)).chars().count(), 24);
}

#[test]
fn a_progress_label_should_fall_back_to_a_placeholder_for_a_nameless_path() {
    assert_eq!(display_file_name(&FilePath::at("/videos", "movie.mkv")), "movie.mkv");
    let root = FilePath { directory: None, gap: "/".to_string(), name: None, tail: String::new() };
    assert_eq!(display_file_name(&root), "file");
}

#[test]
fn command_error_should_summarise_stderr_without_letting_it_run_away() {
    assert_eq!(command_error("Could not remux", b""), "Could not remux");
    assert_eq!(
        command_error("Could not remux", b"\n  first line  \n\n  second line\n"),
        "Could not remux: first line second line",
    );
    let long = command_error("Failed", "é".repeat(500).as_bytes());
    let detail = long.strip_prefix("Failed: ").expect("the heading is kept");
    assert_eq!(detail.chars().count(), 361);
    assert!(detail.ends_with('…'), "a truncated detail is marked as such");
    // Bytes that are no text are shown with a replacement.
    assert_eq!(command_error("Failed", b"bad \xff byte"), "Failed: bad \u{fffd} byte");
}

fn edit_request() -> EditRequest {
    EditRequest {
        path: FilePath::at("/videos", "movie.mkv"),
        destination: SaveDestination::ReplaceOriginal,
        container: None,
        container_metadata: None,
        stream_order: vec![0, 1],
        deleted_streams: BTreeSet::from([1]),
        default_streams: BTreeSet::new(),
        default_sidecars: BTreeSet::new(),
        audio_settings: BTreeMap::new(),
        video_settings: BTreeMap::new(),
        subtitle_changes: vec![],
        left_subtitle_order: vec![],
        sidecars: vec![],
    }
}

#[test]
fn append_edit_failure_log_should_record_enough_context_to_diagnose_a_failure() {
    let mut request = edit_request();
    request.container = Some(ContainerFormat::Mp4);
    request
        .video_settings
        .insert(0, VideoSettings { codec: VideoCodec::H264, ..VideoSettings::default() });
    let mut change = subtitle_change(
        SubtitleFormat::SubRip,
        Some(SubtitleFormat::MovText),
        None,
        false,
        None,
    );
    change.source = SubtitleSource::Embedded(3);
    request.subtitle_changes.push(change);
    let message = "An embedded subtitle track changed. Reopen the file and try again.";
    let line = edit_failure_line(17, &request, "Failed", message);
    assert!(line.contains("/videos/movie.mkv"));
    assert!(line.contains("Failed"));
    assert!(line.contains(message));
    assert!(line.contains("container: MP4"));
    assert!(line.contains("video_settings: 1"));
    assert!(line.contains("stream_order: [0, 1]"));
    assert!(line.contains("deleted_streams: {1}"));
    assert!(line.contains("#3(embedded_target=Some(MovText)"));
    assert_eq!(line.lines().count(), 1);
    let second = edit_failure_line(18, &request, "SourceChanged", "second failure");
    assert_eq!(format!("{line}{second}").lines().count(), 2);
    assert_eq!(
        line,
        format!(
            "[17] Failed: /videos/movie.mkv (destination: ReplaceOriginal, container: MP4, \
             stream_order: [0, 1], deleted_streams: {{1}}, default_streams: {{}}, \
             audio_settings: 0, video_settings: 1, subtitle_changes: \
             [#3(embedded_target=Some(MovText), export_target=None, import=false, \
             metadata=false)]) — {message}\n"
        ),
    );
}

#[test]
fn the_failure_log_should_name_a_sidecar_change_by_its_filename() {
    let mut request = edit_request();
    let mut change =
        subtitle_change(SubtitleFormat::SubRip, None, Some(SubtitleFormat::Ass), true, None);
    change.source = SubtitleSource::Sidecar(FilePath::at("/videos", "movie.eng.srt"));
    request.subtitle_changes.push(change);
    let line = edit_failure_line(1, &request, "Failed", "conversion failed");
    assert!(line.contains("movie.eng.srt(embedded_target=None"));
    assert!(line.contains("export_target=Some(Ass)"));
    assert!(line.contains("import=true"));
    assert!(line.contains("container: unchanged"));
    assert!(
        !line.contains("/videos/movie.eng.srt"),
        "the sidecar must be named by filename, got {line:?}",
    );
}

#[test]
fn a_panicking_edit_should_become_a_failure_message_rather_than_killing_the_pool() {
    assert_eq!(panic_message(Some("a broken invariant")), "a broken invariant");
    assert_eq!(panic_message(Some("track 7 is missing")), "track 7 is missing");
    assert_eq!(panic_message(None), "an unknown internal error");
    assert_eq!(
        panic_failure(Some("a broken invariant")),
        EditError::Failed(
            "The media edit failed unexpectedly: a broken invariant. The original file was not replaced."
                .to_string()
        ),
    );
}

#[test]
fn every_failure_but_a_cancellation_is_logged() {
    let result = EditResult { output_path: FilePath::at("/videos", "a.mkv"), media_changed: true };
    assert_eq!(
        finish_edit(Ok(result)),
        (
            EditOutcome::Completed {
                output_path: FilePath::at("/videos", "a.mkv"),
                media_changed: true,
            },
            None,
        ),
    );
    assert_eq!(finish_edit(Err(EditError::Cancelled)), (EditOutcome::Cancelled, None));
    let text = || "why".to_string();
    assert_eq!(
        finish_edit(Err(EditError::SourceChanged(text()))),
        (EditOutcome::SourceChanged(text()), Some(("SourceChanged", text()))),
    );
    assert_eq!(
        finish_edit(Err(EditError::Failed(text()))),
        (EditOutcome::Failed(text()), Some(("Failed", text()))),
    );
}

#[test]
fn a_pool_has_at_least_one_worker() {
    assert_eq!(worker_threads(0), 1);
    assert_eq!(worker_threads(1), 1);
    assert_eq!(worker_threads(4), 4);
}

#[test]
fn a_running_tool_is_stopped_only_when_the_edit_is_cancelled() {
    assert_eq!(poll_tool(false, ToolState::Running), ToolAction::Wait);
    assert_eq!(poll_tool(true, ToolState::Running), ToolAction::Stop);
    assert_eq!(poll_tool(false, ToolState::Exited), ToolAction::Collect);
    assert_eq!(poll_tool(false, ToolState::Lost), ToolAction::GiveUp);
}

#[test]
fn tools_that_are_missing_are_named() {
    assert_eq!(
        remux_not_started(true, "gone"),
        EditError::Failed(
            "ffmpeg was not found in PATH. Install FFmpeg to edit media.".to_string()
        ),
    );
    assert_eq!(
        remux_not_started(false, "denied"),
        EditError::Failed("Could not start ffmpeg: denied".to_string()),
    );
    assert!(matches!(
        tool_not_started("seconv", true, "gone"),
        EditError::Failed(message) if message.contains("seconv")
    ));
    assert_eq!(progress_time("out_time_us=1500000"), Some("1500000"));
    assert_eq!(progress_time("frame=3"), None);
    assert_eq!(copy_edit_error("Could not copy", true, "stop"), EditError::Cancelled);
    assert_eq!(
        copy_edit_error("Could not copy", false, "full"),
        EditError::Failed("Could not copy: full".to_string()),
    );
}

#[test]
fn a_source_that_is_gone_is_a_changed_source() {
    let removed =
        EditError::SourceChanged("Source file was removed; the media edit was not saved.".to_string());
    assert_eq!(source_unreadable(true, "gone"), removed);
    assert_eq!(source_unprobed(true, "gone"), removed);
    assert_eq!(
        source_unreadable(false, "denied"),
        EditError::Failed("Could not read source metadata: denied".to_string()),
    );
    assert_eq!(source_unprobed(false, "broken"), EditError::Failed("broken".to_string()));
}

#[test]
fn a_copy_reports_how_far_it_has_come() {
    let start = CopyProgress { copied: 0, total: 10 };
    let CopyAction::Write { progress, report: true } = start.next(false, 4) else {
        panic!("what was read is written");
    };
    assert_eq!(progress, CopyProgress { copied: 4, total: 10 });
    assert_eq!(progress.next(false, 0), CopyAction::Finish);
    assert_eq!(progress.next(true, 4), CopyAction::Interrupt);
    let empty = CopyProgress { copied: u64::MAX, total: 0 };
    assert_eq!(
        empty.next(false, 1),
        CopyAction::Write { progress: empty, report: false },
    );
    assert_eq!(
        tool_lost("seconv", "gone"),
        EditError::Failed("Could not wait for seconv: gone".to_string()),
    );
}

#[test]
fn a_failed_edit_takes_one_line_of_the_log() {
    let mut request = edit_request();
    let plain = edit_failure_line(17, &request, "Failed", "one two  three");
    assert_eq!(edit_failure_line(17, &request, "Failed", "one\ntwo\r\nthree"), plain);
    assert!(plain.ends_with("— one two  three\n"));
    request.path = FilePath::at("/videos", "a\nb.mkv");
    let line = edit_failure_line(17, &request, "Failed", "\n");
    assert_eq!(line.matches('\n').count(), 1);
    assert!(line.ends_with('\n') && line.contains("/videos/a b.mkv"));
}

#[test]
fn labels_fit_up_to_the_longest_words_they_take() {
    let long = "x".repeat(40);
    let conversion =
        EditPhase::ConvertSubtitle { subject: long.clone(), target: "t".repeat(22) };
    assert_eq!(conversion.label().chars().count(), 60);
    let recognition = EditPhase::OcrSubtitle {
        subject: long,
        target: "t".repeat(8),
        language: "l".repeat(7),
    };
    assert_eq!(recognition.label().chars().count(), 60);
    let longest = media_write_label(Some(ContainerFormat::WebM), true, true, false);
    assert_eq!(longest, "Encoding video and audio and remuxing to WebM");
}

#[test]
fn the_failure_log_shows_paths_as_they_are_spelled() {
    let mut request = edit_request();
    request.path = FilePath::at("/videos//./", "movie.mkv");
    assert!(edit_failure_line(1, &request, "Failed", "no").contains("/videos//./movie.mkv"));
}
