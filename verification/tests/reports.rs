use reel::path::FilePath;
use reel::progress::{EditPhase, EditResult};
use reel::reports::{closing, ended, narrate, Moment};
use reel::sources::EditError;

fn labels(run: &[Moment]) -> Vec<String> {
    run.iter().flat_map(narrate).map(|phase| phase.label()).collect()
}

fn saved() -> Result<EditResult, EditError> {
    Ok(EditResult { output_path: FilePath::at("/videos", "tracks.mkv"), media_changed: true })
}

#[test]
fn a_saved_media_edit_tells_of_every_stage_in_order() {
    let run = [
        Moment::Begun,
        Moment::SourceRead,
        Moment::ChangesAccepted,
        Moment::MediaPlanned("Remuxing media".to_string()),
        Moment::MediaWritten,
        Moment::OutputAccepted,
        Moment::SourcesUnchanged,
        Moment::PermissionsKept,
        Moment::NamesSought,
        Moment::NamesSettled,
        Moment::Working(EditPhase::BackupFile("tracks.mkv".to_string())),
        Moment::Working(EditPhase::PublishFile("tracks.mkv".to_string())),
        Moment::EverythingInPlace,
        closing(&saved(), true),
        ended(&saved()),
    ];
    assert_eq!(
        labels(&run),
        vec![
            "Checking source",
            "Checking edits",
            "Preparing files",
            "Remuxing media",
            "Checking output",
            "Checking source files",
            "Preserving permissions",
            "Preparing to save",
            "Choosing filenames",
            "Preparing to save",
            "Backing up tracks.mkv",
            "Saving tracks.mkv",
            "Removing backups",
            "Cleaning up",
            "Done",
        ],
    );
}

#[test]
fn an_edit_that_is_not_saved_does_not_tell_that_it_is_done() {
    let refused: Result<EditResult, EditError> = Err(EditError::Cancelled);
    assert_eq!(
        labels(&[
            Moment::Begun,
            Moment::SourceRead,
            Moment::ChangesAccepted,
            Moment::Working(EditPhase::ExtractSubtitle("track #2".to_string())),
            Moment::ToolStopping,
            Moment::ToolStopped,
            closing(&refused, true),
            ended(&refused),
        ]),
        vec![
            "Checking source",
            "Checking edits",
            "Preparing files",
            "Extracting track #2",
            "Stopping tools",
            "Cleaning up",
            "Cleaning up",
        ],
    );
    assert_eq!(
        labels(&[Moment::Begun, closing(&refused, false), ended(&refused)]),
        vec!["Checking source"],
    );
}

#[test]
fn an_edit_that_is_put_back_tells_of_it() {
    assert_eq!(labels(&[Moment::MoveFailed]), vec!["Restoring original files"]);
    assert_eq!(labels(&[Moment::RolledBack { interrupted: true }]), vec!["Cleaning up"]);
    assert!(labels(&[Moment::RolledBack { interrupted: false }]).is_empty());
    assert_eq!(labels(&[Moment::StepCancelled]), vec!["Cleaning up"]);
    assert_eq!(narrate(&Moment::SubtitlesReady), vec![EditPhase::RecheckSources]);
}
