use std::collections::BTreeSet;

use reel::apply::{plan_copy, plan_replacement, source_matches_fingerprint};
use reel::container::ContainerFormat;
use reel::convert::{convert_subtitle, copy_subtitle_artifact, ConversionInput, Step, Tool};
use reel::duplicates::resolve_export_duplicates;
use reel::files::FileFingerprint;
use reel::names::{
    copy_path, next_copy_path, numbered_subtitle_path, replacement_path, subtitle_input_path,
    temporary_path, temporary_workspace, work_parent,
};
use reel::path::{FileName, FilePath, PathText};
use reel::prepare::prepare_subtitle_changes;
use reel::probe::{MediaInfo, Number, Object, Value};
use reel::progress::{display_file_name, EditPhase};
use reel::publication::{
    missing_companion, retarget_publications_for_copy, sidecar_conversion_destination,
    sidecar_destination_available, subtitle_artifact_pairs, Publication,
};
use reel::sources::EditError;
use reel::subtitle::{
    CueEdit, Languages, SidecarEntry, SubtitleChange, SubtitleFormat, SubtitleMetadata,
    SubtitleSource,
};
use reel::transaction::{prepare_transaction, rollback_transaction, TransactionStep};

const MOVIES: &str = "/videos";
const WORK: &str = "/videos/.reel-tui-work";

/// Files with their contents.
struct Disk {
    files: Vec<(FilePath, String)>,
}

impl Disk {
    fn holding(files: &[(&str, &str, &str)]) -> Disk {
        Disk {
            files: files
                .iter()
                .map(|(directory, name, contents)| {
                    (FilePath::at(directory, name), contents.to_string())
                })
                .collect(),
        }
    }

    fn taken(&self) -> Vec<FilePath> {
        self.files.iter().map(|(path, _)| path.clone()).collect()
    }

    fn read(&self, path: &FilePath) -> Option<&str> {
        self.files.iter().find(|(other, _)| other.same(path)).map(|(_, text)| text.as_str())
    }

    fn movie(&self, name: &str) -> Option<&str> {
        self.read(&movie(name))
    }

    fn remove(&mut self, path: &FilePath) -> Option<String> {
        let position = self.files.iter().position(|(other, _)| other.same(path))?;
        Some(self.files.remove(position).1)
    }

    fn rename(&mut self, from: &FilePath, to: &FilePath) -> bool {
        match self.remove(from) {
            Some(contents) => {
                self.remove(to);
                self.files.push((to.clone(), contents));
                true
            }
            None => false,
        }
    }

    fn copy(&mut self, from: &FilePath, to: &FilePath) {
        let contents = self.read(from).unwrap().to_string();
        self.remove(to);
        self.files.push((to.clone(), contents));
    }

    /// Carries a transaction out, and undoes it where a move fails.
    fn publish(
        &mut self,
        media: Option<(&FilePath, &FilePath)>,
        removed: Option<&FilePath>,
        list: &[Publication],
        reported: &mut Vec<String>,
    ) -> Result<(), EditError> {
        let taken = self.taken();
        reported.push(EditPhase::PreparePublication.label());
        let mut transaction = prepare_transaction(media, removed, list, &taken, false)?;
        loop {
            match transaction.next_step() {
                TransactionStep::Move { from, to, phase } => {
                    reported.push(phase.label());
                    if self.rename(&from, &to) {
                        transaction.step_succeeded();
                    } else {
                        let rollback = transaction.step_failed(false, "no such file");
                        for path in &rollback.remove {
                            self.remove(path);
                        }
                        for (from, to) in &rollback.restore {
                            self.rename(from, to);
                        }
                        return Err(rollback.error);
                    }
                }
                TransactionStep::RemoveBackups(backups) => {
                    reported.push(EditPhase::RemoveBackups.label());
                    for backup in &backups {
                        self.remove(backup);
                    }
                    return Ok(());
                }
            }
        }
    }

    fn settle_and_publish(&mut self, list: &[Publication]) {
        let taken = self.taken();
        let settled = resolve_export_duplicates(list, &workspace(), &taken).unwrap();
        for (from, to) in &settled.copies {
            self.copy(from, to);
        }
        self.publish(None, None, &settled.publications, &mut Vec::new()).unwrap();
    }
}

fn movie(name: &str) -> FilePath {
    FilePath::at(MOVIES, name)
}

fn work(name: &str) -> FilePath {
    FilePath::at(WORK, name)
}

fn text(path: &str) -> PathText {
    PathText::Text(path.to_string())
}

fn root() -> FilePath {
    FilePath { directory: None, gap: "/".to_string(), name: None, tail: String::new() }
}

fn workspace() -> PathText {
    text(WORK)
}

fn export(staged: &str, destination: &str) -> Publication {
    Publication { staged: vec![(work(staged), movie(destination))], remove: vec![] }
}

fn failed(error: EditError) -> String {
    match error {
        EditError::Failed(message) => message,
        other => panic!("{other:?} is not a failure"),
    }
}

fn sidecar_entry(name: &str, format: SubtitleFormat) -> SidecarEntry {
    SidecarEntry {
        path: movie(name),
        companion: None,
        display_name: display_file_name(&movie(name)),
        format,
        language: "eng".to_string(),
        forced: false,
        hearing_impaired: false,
        number: None,
        fingerprint: FileFingerprint { length: 0, modified: None },
        companion_fingerprint: None,
    }
}

#[test]
fn a_container_change_should_not_rewrite_the_path_when_nothing_asked_for_one() {
    assert_eq!(replacement_path(&movie("movie.mkv"), None), Ok(movie("movie.mkv")));
    assert_eq!(
        replacement_path(&movie("movie.mkv"), Some(ContainerFormat::Mp4)),
        Ok(movie("movie.mp4")),
    );
    assert!(matches!(
        replacement_path(&root(), Some(ContainerFormat::Mp4)),
        Err(EditError::Failed(_))
    ));
}

#[test]
fn an_export_destination_should_be_refused_when_anything_else_already_owns_it() {
    let taken = [movie("movie.eng.srt"), movie("occupied.srt"), movie("pair.idx")];
    let sidecar = sidecar_entry("movie.eng.srt", SubtitleFormat::SubRip);
    let reserved = [export("work.srt", "claimed.srt")];
    let available = |name: &str, target, list: &[Publication]| {
        sidecar_destination_available(&movie(name), &sidecar, target, list, &taken)
    };
    assert!(available("free.srt", SubtitleFormat::SubRip, &[]));
    assert!(!available("occupied.srt", SubtitleFormat::SubRip, &[]));
    assert!(available("movie.eng.srt", SubtitleFormat::SubRip, &[]));
    assert!(!available("claimed.srt", SubtitleFormat::SubRip, &reserved));
    assert!(!available("pair.sub", SubtitleFormat::VobSub, &[]));
    assert!(available("pair.sub", SubtitleFormat::SubRip, &[]));
}

#[test]
fn a_vobsub_conversion_should_refuse_to_publish_without_its_idx_companion() {
    let pairs = |exists| {
        subtitle_artifact_pairs(
            &work("staged.sub"),
            &movie("movie.eng.sub"),
            SubtitleFormat::VobSub,
            exists,
        )
    };
    assert!(matches!(pairs(false), Err(EditError::Failed(_))));
    let text = subtitle_artifact_pairs(
        &work("staged.srt"),
        &movie("movie.eng.srt"),
        SubtitleFormat::SubRip,
        false,
    );
    assert_eq!(text.unwrap().len(), 1);
    assert_eq!(
        pairs(true),
        Ok(vec![
            (work("staged.sub"), movie("movie.eng.sub")),
            (work("staged.idx"), movie("movie.eng.idx")),
        ]),
    );
}

#[test]
fn a_rollback_should_undo_the_publications_and_put_the_backups_back() {
    let mut disk = Disk::holding(&[
        (MOVIES, "movie.mkv", "new"),
        (MOVIES, "movie.eng.srt", "new"),
        (MOVIES, ".movie.mkv.backup", "old"),
    ]);
    let moves =
        vec![(work("a"), movie("movie.mkv")), (work("b"), movie("movie.eng.srt"))];
    let backups = vec![(movie("movie.mkv"), movie(".movie.mkv.backup"))];
    let (remove, restore) = rollback_transaction(&moves, 2, &backups, 1);
    assert_eq!(remove, vec![movie("movie.eng.srt"), movie("movie.mkv")]);
    for path in &remove {
        disk.remove(path);
    }
    for (from, to) in &restore {
        disk.rename(from, to);
    }
    assert_eq!(disk.movie("movie.eng.srt"), None);
    assert_eq!(disk.movie(".movie.mkv.backup"), None);
    assert_eq!(disk.movie("movie.mkv"), Some("old"));
}

#[test]
fn a_rollback_should_ignore_files_that_were_never_written() {
    let mut disk = Disk::holding(&[]);
    let moves = vec![(work("staged.mkv"), movie("never-published.mkv"))];
    let backups = vec![(movie("original.mkv"), movie("missing.backup"))];
    let (remove, restore) = rollback_transaction(&moves, 1, &backups, 1);
    for path in &remove {
        disk.remove(path);
    }
    for (from, to) in &restore {
        disk.rename(from, to);
    }
    assert_eq!(disk.movie("original.mkv"), None);
    assert_eq!(rollback_transaction(&moves, 0, &backups, 0), (vec![], vec![]));
}

#[test]
fn saving_to_a_copy_should_rename_the_sidecars_onto_the_copys_name() {
    let publications = [Publication {
        staged: vec![
            (FilePath::at("/work", "staged-1.srt"), movie("movie.eng.srt")),
            (FilePath::at("/work", "staged-2.srt"), movie("extras.dan.srt")),
        ],
        remove: vec![movie("movie.old.srt")],
    }];
    let retargeted = retarget_publications_for_copy(
        &publications,
        &movie("movie.mkv"),
        &movie("movie-reel-edit.mkv"),
    )
    .unwrap();
    assert_eq!(retargeted[0].staged[0].1, movie("movie-reel-edit.eng.srt"));
    assert_eq!(retargeted[0].staged[1].1, movie("extras.dan.srt"));
    assert_eq!(retargeted[0].staged[0].0, FilePath::at("/work", "staged-1.srt"));
    assert_eq!(retargeted[0].remove, vec![movie("movie.old.srt")]);
}

#[test]
fn saving_to_a_copy_should_refuse_a_filename_that_is_not_valid_text() {
    let invalid = FilePath {
        directory: Some(text(MOVIES)),
        gap: "/".to_string(),
        name: Some(FileName {
            stem: PathText::Raw(b"mo\xffvie".to_vec()),
            extension: Some(text("mkv")),
        }),
        tail: String::new(),
    };
    let publications = [Publication {
        staged: vec![(FilePath::at("/work", "staged.srt"), movie("movie.eng.srt"))],
        remove: vec![],
    }];
    let bad_source = retarget_publications_for_copy(
        &publications,
        &invalid,
        &movie("movie-reel-edit.mkv"),
    );
    let bad_copy =
        retarget_publications_for_copy(&publications, &movie("movie.mkv"), &invalid);
    assert!(failed(bad_source.unwrap_err()).contains("source filename"));
    assert!(failed(bad_copy.unwrap_err()).contains("copy filename"));
}

#[test]
fn intermediate_files_should_land_on_local_scratch_only_for_a_network_source() {
    let scratch = text("/tmp/reel-tui-scratch");
    let local = work_parent(&movie("movie.mkv"), false, &scratch).unwrap();
    let network =
        work_parent(&FilePath::at("/mnt/share", "movie.mkv"), true, &scratch).unwrap();
    assert_eq!(local, text(MOVIES));
    assert_eq!(network, scratch);
    assert!(work_parent(&root(), false, &scratch).unwrap_err().contains("no parent directory"));
}

#[test]
fn publishing_should_refuse_before_touching_anything_it_cannot_do_safely() {
    let taken = [work("staged-1.srt"), work("staged-2.srt"), movie("already-there.srt")];
    let publish = |list: &[Publication], cancelled| {
        prepare_transaction(None, None, list, &taken, cancelled)
    };
    let collision = publish(
        &[export("staged-1.srt", "movie.eng.srt"), export("staged-2.srt", "movie.eng.srt")],
        false,
    );
    assert!(failed(collision.unwrap_err()).contains("Two subtitle outputs resolve to"));
    let overwrite = publish(&[export("staged-1.srt", "already-there.srt")], false);
    assert!(failed(overwrite.unwrap_err()).contains("already exists; no files were changed."));
    assert!(failed(publish(&[], false).unwrap_err()).contains("No staging directory is available."));
    assert_eq!(
        publish(&[export("staged-1.srt", "movie.eng.srt")], true),
        Err(EditError::Cancelled),
    );
}

#[test]
fn publishing_should_replace_the_media_and_its_sidecars_in_one_transaction() {
    let mut disk = Disk::holding(&[
        (MOVIES, ".reel-tui-staged.mkv", "new media"),
        (MOVIES, ".reel-tui-staged.srt", "new subtitle"),
        (MOVIES, "movie.mkv", "old media"),
    ]);
    let mut reported = Vec::new();
    let list = [Publication {
        staged: vec![(movie(".reel-tui-staged.srt"), movie("movie.eng.srt"))],
        remove: vec![movie("movie.mkv"), movie("movie.old.srt")],
    }];
    disk.publish(
        Some((&movie(".reel-tui-staged.mkv"), &movie("movie.mkv"))),
        None,
        &list,
        &mut reported,
    )
    .unwrap();
    assert_eq!(disk.movie("movie.mkv"), Some("new media"));
    assert_eq!(disk.movie("movie.eng.srt"), Some("new subtitle"));
    assert_eq!(disk.movie(".reel-tui-staged.mkv"), None);
    assert!(!disk
        .taken()
        .iter()
        .any(|path| display_file_name(path).contains("transaction-backup")));
    assert_eq!(reported.first().map(String::as_str), Some("Preparing to save"));
    assert!(reported.iter().any(|label| label.starts_with("Backing up")));
    assert_eq!(reported.last().map(String::as_str), Some("Removing backups"));
}

#[test]
fn a_vobsub_artifact_should_be_staged_and_read_as_a_sub_idx_pair() {
    let mut steps = Vec::new();
    copy_subtitle_artifact(
        &mut steps,
        &movie("movie.eng.sub"),
        &work("staged.sub"),
        SubtitleFormat::VobSub,
        "movie.eng.sub",
    );
    let copies: Vec<(FilePath, FilePath, String)> = steps
        .iter()
        .filter_map(|step| match step {
            Step::CopyFile { from, to, phase, .. } => {
                Some((from.clone(), to.clone(), phase.label()))
            }
            _ => None,
        })
        .collect();
    let label = "Copying movie.eng.sub".to_string();
    assert_eq!(
        copies,
        vec![
            (movie("movie.eng.sub"), work("staged.sub"), label.clone()),
            (movie("movie.eng.idx"), work("staged.idx"), label),
        ],
    );
    let mut text_steps = Vec::new();
    copy_subtitle_artifact(
        &mut text_steps,
        &movie("movie.dan.srt"),
        &work("staged.srt"),
        SubtitleFormat::SubRip,
        "movie.dan.srt",
    );
    assert!(!text_steps.iter().any(|step| matches!(step, Step::RequireCompanion(_))));
    assert_eq!(
        subtitle_input_path(&movie("movie.eng.sub"), SubtitleFormat::VobSub),
        movie("movie.eng.idx"),
    );
    assert_eq!(
        subtitle_input_path(&movie("movie.dan.srt"), SubtitleFormat::SubRip),
        movie("movie.dan.srt"),
    );
}

#[test]
fn a_missing_vobsub_companion_should_fail_the_export_rather_than_half_publish_it() {
    let mut steps = Vec::new();
    copy_subtitle_artifact(
        &mut steps,
        &movie("movie.eng.sub"),
        &work("staged.sub"),
        SubtitleFormat::VobSub,
        "movie.eng.sub",
    );
    let companion = steps
        .iter()
        .filter_map(|step| match step {
            Step::CopyFile { from, context, .. } if *from == movie("movie.eng.idx") => {
                Some(*context)
            }
            _ => None,
        })
        .next()
        .unwrap();
    assert!(companion.contains("VobSub .idx companion"));
    assert!(failed(missing_companion()).contains(".idx"));
}

#[test]
fn publish_copy_should_increment_the_suffix_instead_of_overwriting_a_copy() {
    let mut disk = Disk::holding(&[
        (MOVIES, "video.mkv", "source"),
        (MOVIES, ".temporary-video.mkv", "new copy"),
        (MOVIES, "video-reel-edit.mkv", "existing copy"),
    ]);
    let output = next_copy_path(&movie("video.mkv"), None, &disk.taken()).unwrap();
    disk.publish(
        Some((&movie(".temporary-video.mkv"), &output)),
        None,
        &[],
        &mut Vec::new(),
    )
    .unwrap();
    assert_eq!(display_file_name(&output), "video-reel-edit-2.mkv");
    assert_eq!(disk.movie("video-reel-edit.mkv"), Some("existing copy"));
    assert_eq!(disk.read(&output), Some("new copy"));
}

#[test]
fn copy_path_should_use_the_target_container_extension() {
    assert_eq!(
        copy_path(&movie("movie.mkv"), 1, Some(ContainerFormat::Mp4)),
        Ok(movie("movie-reel-edit.mp4")),
    );
    assert_eq!(
        copy_path(&movie("movie.mkv"), 2, Some(ContainerFormat::WebM)),
        Ok(movie("movie-reel-edit-2.webm")),
    );
}

#[test]
fn copy_path_should_support_files_without_an_extension() {
    assert_eq!(copy_path(&movie("movie"), 1, None), Ok(movie("movie-reel-edit")));
}

#[test]
fn cross_extension_replacement_should_publish_target_and_remove_source_transactionally() {
    let mut disk = Disk::holding(&[
        (MOVIES, "movie.mkv", "old media"),
        (MOVIES, ".reel-tui-movie.mp4", "new media"),
    ]);
    disk.publish(
        Some((&movie(".reel-tui-movie.mp4"), &movie("movie.mp4"))),
        Some(&movie("movie.mkv")),
        &[],
        &mut Vec::new(),
    )
    .unwrap();
    assert_eq!(disk.movie("movie.mkv"), None);
    assert_eq!(disk.movie(".reel-tui-movie.mp4"), None);
    assert_eq!(disk.movie("movie.mp4"), Some("new media"));
    assert_eq!(disk.files.len(), 1);
}

#[test]
fn publish_transaction_should_restore_every_backup_when_one_publish_fails() {
    let mut disk =
        Disk::holding(&[(MOVIES, "movie.eng.srt", "old subtitle"), (WORK, "staged-eng", "new subtitle")]);
    let list = [
        Publication {
            staged: vec![(work("staged-eng"), movie("movie.eng.srt"))],
            remove: vec![movie("movie.eng.srt")],
        },
        export("staged-nld", "movie.nld.srt"),
    ];
    let result = disk.publish(None, None, &list, &mut Vec::new());
    assert!(failed(result.unwrap_err()).contains("Could not publish"));
    assert_eq!(disk.movie("movie.eng.srt"), Some("old subtitle"));
    assert_eq!(disk.movie("movie.nld.srt"), None);
    assert!(!disk
        .taken()
        .iter()
        .any(|path| display_file_name(path).starts_with("transaction-backup")));
}

#[test]
fn cross_extension_replacement_should_preserve_every_file_when_target_exists() {
    let mut disk = Disk::holding(&[
        (MOVIES, "movie.mkv", "old media"),
        (MOVIES, ".reel-tui-movie.mp4", "new media"),
        (MOVIES, "movie.mp4", "existing target"),
    ]);
    let result = disk.publish(
        Some((&movie(".reel-tui-movie.mp4"), &movie("movie.mp4"))),
        Some(&movie("movie.mkv")),
        &[],
        &mut Vec::new(),
    );
    assert_eq!(
        failed(result.unwrap_err()),
        "/videos/movie.mp4 already exists; no files were changed.",
    );
    assert_eq!(disk.movie("movie.mkv"), Some("old media"));
    assert_eq!(disk.movie(".reel-tui-movie.mp4"), Some("new media"));
    assert_eq!(disk.movie("movie.mp4"), Some("existing target"));
}

#[test]
fn numbered_subtitle_path_should_refuse_a_filename_it_cannot_number() {
    let missing_extension = numbered_subtitle_path(&FilePath::at("/media", "movie"), 1);
    assert_eq!(failed(missing_extension.unwrap_err()), "Subtitle filename has no extension.");
    assert_eq!(
        numbered_subtitle_path(&FilePath::at("/media", "movie.eng.srt"), 3),
        Ok(FilePath::at("/media", "movie.eng.3.srt")),
    );
}

#[test]
fn two_new_exports_landing_on_one_name_should_be_numbered_from_one() {
    let mut disk = Disk::holding(&[(WORK, "first.srt", "first"), (WORK, "second.srt", "second")]);
    disk.settle_and_publish(&[
        export("first.srt", "movie.eng.srt"),
        export("second.srt", "movie.eng.srt"),
    ]);
    assert_eq!(disk.movie("movie.eng.srt"), None);
    assert_eq!(disk.movie("movie.eng.1.srt"), Some("first"));
    assert_eq!(disk.movie("movie.eng.2.srt"), Some("second"));
}

#[test]
fn a_lone_new_export_should_keep_its_unnumbered_name() {
    let mut disk = Disk::holding(&[(WORK, "only.srt", "only")]);
    disk.settle_and_publish(&[export("only.srt", "movie.eng.srt")]);
    assert_eq!(disk.movie("movie.eng.srt"), Some("only"));
    assert_eq!(disk.movie("movie.eng.1.srt"), None);
}

#[test]
fn a_duplicate_export_should_refuse_rather_than_overwrite_an_existing_numbered_sidecar() {
    let taken = [movie("movie.eng.srt"), movie("movie.eng.1.srt"), work("new.srt")];
    let result =
        resolve_export_duplicates(&[export("new.srt", "movie.eng.srt")], &workspace(), &taken);
    let message = failed(result.unwrap_err());
    assert!(
        message.contains("movie.eng.srt") && message.contains("movie.eng.1.srt"),
        "the message must name both files, got {message:?}",
    );
}

#[test]
fn renumbering_a_vobsub_export_should_keep_its_sub_and_idx_halves_on_the_same_number() {
    let mut disk = Disk::holding(&[
        (MOVIES, "movie.eng.sub", "old sub"),
        (MOVIES, "movie.eng.idx", "old idx"),
        (WORK, "new.sub", "new sub"),
        (WORK, "new.idx", "new idx"),
    ]);
    disk.settle_and_publish(&[Publication {
        staged: vec![
            (work("new.sub"), movie("movie.eng.sub")),
            (work("new.idx"), movie("movie.eng.idx")),
        ],
        remove: vec![],
    }]);
    assert_eq!(disk.movie("movie.eng.sub"), None);
    assert_eq!(disk.movie("movie.eng.idx"), None);
    assert_eq!(disk.movie("movie.eng.1.sub"), Some("old sub"));
    assert_eq!(disk.movie("movie.eng.1.idx"), Some("old idx"));
    assert_eq!(disk.movie("movie.eng.2.sub"), Some("new sub"));
    assert_eq!(disk.movie("movie.eng.2.idx"), Some("new idx"));
}

#[test]
fn duplicate_export_should_rename_unnumbered_sidecar_to_one_and_publish_new_as_two() {
    let mut disk = Disk::holding(&[(MOVIES, "movie.eng.srt", "old"), (WORK, "new.srt", "new")]);
    disk.settle_and_publish(&[export("new.srt", "movie.eng.srt")]);
    assert_eq!(disk.movie("movie.eng.srt"), None);
    assert_eq!(disk.movie("movie.eng.1.srt"), Some("old"));
    assert_eq!(disk.movie("movie.eng.2.srt"), Some("new"));
}

#[test]
fn sidecar_conversion_destination_should_use_next_free_number_when_duplicates_exist() {
    let taken = [movie("movie.eng.ass"), movie("movie.eng.srt"), movie("movie.eng.2.srt")];
    let sidecar = sidecar_entry("movie.eng.ass", SubtitleFormat::Ass);
    assert_eq!(
        sidecar_conversion_destination(
            &movie("movie.eng.srt"),
            &sidecar,
            SubtitleFormat::SubRip,
            &[],
            &taken,
        ),
        Ok(movie("movie.eng.3.srt")),
    );
}

#[test]
fn sidecar_conversion_destination_should_drop_source_number_when_target_has_no_duplicate() {
    let mut sidecar = sidecar_entry("movie.eng.2.srt", SubtitleFormat::SubRip);
    sidecar.number = Some(2);
    assert_eq!(
        sidecar_conversion_destination(
            &movie("movie.eng.ass"),
            &sidecar,
            SubtitleFormat::Ass,
            &[],
            &[movie("movie.eng.2.srt")],
        ),
        Ok(movie("movie.eng.ass")),
    );
}

#[test]
fn source_fingerprint_guard_should_reject_changed_and_removed_source() {
    let listed = FileFingerprint { length: 8, modified: Some(1) };
    let changed = FileFingerprint { length: 27, modified: Some(2) };
    assert!(source_matches_fingerprint(listed, listed));
    assert!(!source_matches_fingerprint(changed, listed));
    assert!(!source_matches_fingerprint(FileFingerprint { length: 8, modified: None }, listed));
}

fn one_video() -> MediaInfo {
    MediaInfo {
        streams: vec![Object {
            fields: vec![
                ("index".to_string(), Value::Number(Number::Whole(0))),
                ("codec_type".to_string(), Value::Text("video".to_string())),
            ],
        }],
        format: Object { fields: vec![] },
        chapters: vec![],
    }
}

fn languages() -> Languages {
    let codes = ["eng", "nld"];
    Languages {
        codes: codes.iter().map(|code| (code.to_string(), code.to_string())).collect(),
        choices: codes.iter().map(|code| code.to_string()).collect(),
    }
}

fn sidecar_change(name: &str) -> SubtitleChange {
    SubtitleChange {
        cue_edits: vec![],
        source: SubtitleSource::Sidecar(movie(name)),
        source_format: SubtitleFormat::SubRip,
        embedded_target: None,
        export_target: None,
        import_into_media: false,
        ocr_language: None,
        metadata: None,
    }
}

#[test]
fn a_cue_edit_should_rewrite_the_sidecar_in_place() {
    let mut change = sidecar_change("movie.English.srt");
    change.cue_edits.push(CueEdit {
        cue: 1,
        original_text: "World".to_string(),
        original_start: 3_000,
        original_end: 4_000,
        text: "World, rewritten".to_string(),
        start: 3_000,
        end: 4_000,
    });
    let prepared = prepare_subtitle_changes(
        &languages(),
        &movie("movie.mkv"),
        &one_video(),
        &[change],
        &[sidecar_entry("movie.English.srt", SubtitleFormat::SubRip)],
        &BTreeSet::new(),
        &workspace(),
        &[movie("movie.English.srt")],
    )
    .unwrap();
    assert_eq!(prepared.publications.len(), 1);
    let (staged, destination) = &prepared.publications[0].staged[0];
    assert_eq!(*destination, movie("movie.English.srt"));
    assert!(prepared.publications[0].remove.contains(&movie("movie.English.srt")));
    assert!(prepared.steps.iter().any(|step| matches!(
        step,
        Step::RewriteCues { change: 0, to, .. } if to == staged
    )));
    assert!(prepared.replacements.is_empty());
}

#[test]
fn metadata_only_sidecar_change_should_stage_a_collision_safe_filename_rename() {
    let mut change = sidecar_change("movie.eng.srt");
    change.metadata = Some(SubtitleMetadata {
        language: "nld".to_string(),
        title: None,
        forced: true,
        cc: false,
        hearing_impaired: false,
        original: false,
        commentary: false,
    });
    let prepare = |taken: &[FilePath]| {
        prepare_subtitle_changes(
            &languages(),
            &movie("movie.mkv"),
            &one_video(),
            &[change.clone()],
            &[sidecar_entry("movie.eng.srt", SubtitleFormat::SubRip)],
            &BTreeSet::new(),
            &workspace(),
            taken,
        )
        .unwrap()
    };
    let prepared = prepare(&[movie("movie.eng.srt")]);
    assert_eq!(prepared.publications.len(), 1);
    assert_eq!(prepared.publications[0].staged[0].1, movie("movie.nld.forced.srt"));
    assert!(prepared.publications[0].remove.contains(&movie("movie.eng.srt")));
    // A name that another file holds is numbered rather than taken over.
    let beside = prepare(&[movie("movie.eng.srt"), movie("movie.nld.forced.srt")]);
    assert_eq!(beside.publications[0].staged[0].1, movie("movie.nld.forced.2.srt"));
}

#[test]
fn saved_copies_take_their_exports_along() {
    let list = [export("first.srt", "movie.eng.srt")];
    let taken = [movie("movie.mkv"), movie("movie-reel-edit.mkv")];
    let copy = plan_copy(&movie("movie.mkv"), None, &list, &workspace(), &taken).unwrap();
    assert_eq!(copy.output_path, movie("movie-reel-edit-2.mkv"));
    assert_eq!(copy.exports.publications[0].staged[0].1, movie("movie-reel-edit-2.eng.srt"));
    let replaced =
        plan_replacement(&movie("movie.mkv"), None, &list, &workspace(), &taken).unwrap();
    assert_eq!(replaced.output_path, movie("movie.mkv"));
    assert_eq!(replaced.exports.publications[0].staged[0].1, movie("movie.eng.srt"));
    assert!(replaced.exports.copies.is_empty());
}

#[test]
fn work_files_stand_beside_the_source_under_a_name_of_their_own() {
    let scratch = text("/tmp/reel-tui-scratch");
    let media = temporary_path(
        &movie("movie.mkv"),
        Some(ContainerFormat::Mp4),
        false,
        &scratch,
        "7-9",
    )
    .unwrap();
    assert_eq!(media.extension(), Some("mp4"));
    assert_eq!(media.directory, Some(text(MOVIES)));
    assert!(display_file_name(&media).starts_with(".reel-tui-"));
    let directory = temporary_workspace(&movie("movie.mkv"), true, &scratch, "7-9").unwrap();
    assert_eq!(directory.directory, Some(scratch));
}

#[test]
fn a_half_copied_file_does_not_outlive_the_rollback() {
    let mut disk = Disk::holding(&[
        (MOVIES, "movie.eng.srt", "old"),
        (WORK, "staged-eng", "new"),
        (WORK, "staged-nld", "newer"),
    ]);
    let publications = [
        Publication {
            staged: vec![(work("staged-eng"), movie("movie.eng.srt"))],
            remove: vec![movie("movie.eng.srt")],
        },
        Publication {
            staged: vec![(work("staged-nld"), movie("movie.nld.srt"))],
            remove: vec![],
        },
    ];
    let taken = disk.taken();
    let mut transaction =
        prepare_transaction(None, None, &publications, &taken, false).unwrap();
    let undo = |disk: &mut Disk, remove: &[FilePath], restore: &[(FilePath, FilePath)]| {
        for path in remove {
            disk.remove(path);
        }
        for (from, to) in restore {
            disk.rename(from, to);
        }
    };

    // The kept copy of the old subtitle breaks off.
    disk.copy(&movie("movie.eng.srt"), &work("transaction-backup-0"));
    let rollback = transaction.step_failed(false, "full");
    assert_eq!(rollback.remove, vec![work("transaction-backup-0")]);
    undo(&mut disk, &rollback.remove, &rollback.restore);
    assert_eq!(disk.taken(), taken);

    // The copy of the last file into place breaks off.
    assert!(disk.rename(&movie("movie.eng.srt"), &work("transaction-backup-0")));
    transaction.step_succeeded();
    assert!(disk.rename(&work("staged-eng"), &movie("movie.eng.srt")));
    transaction.step_succeeded();
    disk.copy(&work("staged-nld"), &movie("movie.nld.srt"));
    let rollback = transaction.step_failed(true, "cancelled");
    assert_eq!(rollback.remove, vec![movie("movie.nld.srt"), movie("movie.eng.srt")]);
    undo(&mut disk, &rollback.remove, &rollback.restore);
    assert_eq!(disk.movie("movie.eng.srt"), Some("old"));
    assert_eq!(disk.movie("movie.nld.srt"), None);
    assert!(!disk.taken().contains(&work("transaction-backup-0")));
    assert!(disk.taken().contains(&work("staged-nld")));
}

#[test]
fn replaced_files_are_kept_in_the_order_of_their_paths() {
    let inner = FilePath::at("/videos/a", "x.srt");
    let outer = FilePath::at("/videos", "z.srt");
    let publications = [Publication {
        staged: vec![(work("staged"), movie("movie.srt"))],
        remove: vec![outer.clone(), inner.clone()],
    }];
    let taken = [inner.clone(), outer.clone(), work("staged")];
    let transaction = prepare_transaction(None, None, &publications, &taken, false).unwrap();
    assert_eq!(
        transaction.backups,
        vec![
            (inner, work("transaction-backup-0")),
            (outer, work("transaction-backup-1")),
        ],
    );
}

#[test]
fn a_picture_conversion_refuses_an_output_name_that_is_no_text() {
    let change = SubtitleChange {
        cue_edits: vec![],
        source: SubtitleSource::Embedded(2),
        source_format: SubtitleFormat::Pgs,
        embedded_target: None,
        export_target: Some(SubtitleFormat::SubRip),
        import_into_media: false,
        ocr_language: None,
        metadata: None,
    };
    let output = FilePath {
        directory: Some(workspace()),
        gap: "/".to_string(),
        name: Some(FileName {
            stem: PathText::Raw(b"sub\xff".to_vec()),
            extension: Some(text("srt")),
        }),
        tail: String::new(),
    };
    let media = movie("movie.mkv");
    let input = ConversionInput::Embedded { media: &media, index: 2 };
    let mut steps = vec![];
    convert_subtitle(
        &mut steps,
        input,
        &change,
        SubtitleFormat::SubRip,
        &output,
        (1920, 1080),
        "track #2",
    );
    assert_eq!(steps.len(), 4);
    assert!(matches!(&steps[0], Step::CheckCancelled));
    assert!(matches!(&steps[2], Step::Run { tool: Tool::Ffmpeg, .. }));
    let Step::Fail(error) = &steps[3] else {
        panic!("the name cannot be handed on");
    };
    assert_eq!(failed(error.clone()), "Subtitle output name is not valid UTF-8.");

    // Text is converted all the same: the path is handed on as it is.
    let mut text = change;
    text.source_format = SubtitleFormat::Ass;
    let mut steps = vec![];
    let file = movie("movie.ass");
    let input = ConversionInput::File(&file);
    convert_subtitle(
        &mut steps,
        input,
        &text,
        SubtitleFormat::SubRip,
        &output,
        (1920, 1080),
        "movie.ass",
    );
    assert!(matches!(&steps[2], Step::Run { tool: Tool::Ffmpeg, .. }));
    assert_eq!(steps.len(), 3);
}
