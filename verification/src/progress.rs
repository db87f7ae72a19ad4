//! What an edit is doing, and what it came to, in words.

use vstd::prelude::*;
use vstd::string::{StrSliceExecFns, StringExecFns};

use crate::container::ContainerFormat;
use crate::path::{FilePath, PathModel};
use crate::sources::{EditError, ErrorModel};
use crate::subtitle::{SubtitleChange, SubtitleFormat};
use crate::text::{from_utf8_lossy, join, joined, lossy_text, pieces, split, texts, trim, trimmed};

verus! {

/// Where an edit is saved.
#[derive(Clone, Copy, Debug, Eq, PartialEq, Structural)]
pub enum SaveDestination {
    ReplaceOriginal,
    CreateCopy,
}

impl Default for SaveDestination {
    fn default() -> (result: SaveDestination)
        ensures
            result == SaveDestination::ReplaceOriginal,
    {
        SaveDestination::ReplaceOriginal
    }
}

// Phases.

/// A step of an edit.
#[derive(Debug, Eq, PartialEq)]
pub enum EditPhase {
    InspectSource,
    ValidateChanges,
    CreateWorkspace,
    ExtractSubtitle(String),
    CopySubtitle(String),
    UpdateSubtitle(String),
    ConvertSubtitle { subject: String, target: String },
    OcrSubtitle { subject: String, target: String, language: String },
    ValidateSubtitle(String),
    /// Writing rewritten cues into a staged subtitle file: the one step that can fail on
    /// what the reader did and not on a tool.
    RewriteCues(String),
    ResolveNames,
    WriteMedia(String),
    ValidateOutput,
    RecheckSources,
    PreservePermissions,
    PreparePublication,
    BackupFile(String),
    PublishFile(String),
    RemoveBackups,
    Rollback,
    StopTools,
    Cleanup,
    Finished,
}

/// What an [`EditPhase`] is.
pub ghost enum Phase {
    InspectSource,
    ValidateChanges,
    CreateWorkspace,
    ExtractSubtitle(Seq<char>),
    CopySubtitle(Seq<char>),
    UpdateSubtitle(Seq<char>),
    ConvertSubtitle { subject: Seq<char>, target: Seq<char> },
    OcrSubtitle { subject: Seq<char>, target: Seq<char>, language: Seq<char> },
    ValidateSubtitle(Seq<char>),
    RewriteCues(Seq<char>),
    ResolveNames,
    WriteMedia(Seq<char>),
    ValidateOutput,
    RecheckSources,
    PreservePermissions,
    PreparePublication,
    BackupFile(Seq<char>),
    PublishFile(Seq<char>),
    RemoveBackups,
    Rollback,
    StopTools,
    Cleanup,
    Finished,
}

impl View for EditPhase {
    type V = Phase;

    open spec fn view(&self) -> Phase {
        match self {
            EditPhase::InspectSource => Phase::InspectSource,
            EditPhase::ValidateChanges => Phase::ValidateChanges,
            EditPhase::CreateWorkspace => Phase::CreateWorkspace,
            EditPhase::ExtractSubtitle(subject) => Phase::ExtractSubtitle(subject@),
            EditPhase::CopySubtitle(subject) => Phase::CopySubtitle(subject@),
            EditPhase::UpdateSubtitle(subject) => Phase::UpdateSubtitle(subject@),
            EditPhase::ConvertSubtitle { subject, target } => Phase::ConvertSubtitle {
                subject: subject@,
                target: target@,
            },
            EditPhase::OcrSubtitle { subject, target, language } => Phase::OcrSubtitle {
                subject: subject@,
                target: target@,
                language: language@,
            },
            EditPhase::ValidateSubtitle(subject) => Phase::ValidateSubtitle(subject@),
            EditPhase::RewriteCues(subject) => Phase::RewriteCues(subject@),
            EditPhase::ResolveNames => Phase::ResolveNames,
            EditPhase::WriteMedia(operation) => Phase::WriteMedia(operation@),
            EditPhase::ValidateOutput => Phase::ValidateOutput,
            EditPhase::RecheckSources => Phase::RecheckSources,
            EditPhase::PreservePermissions => Phase::PreservePermissions,
            EditPhase::PreparePublication => Phase::PreparePublication,
            EditPhase::BackupFile(name) => Phase::BackupFile(name@),
            EditPhase::PublishFile(name) => Phase::PublishFile(name@),
            EditPhase::RemoveBackups => Phase::RemoveBackups,
            EditPhase::Rollback => Phase::Rollback,
            EditPhase::StopTools => Phase::StopTools,
            EditPhase::Cleanup => Phase::Cleanup,
            EditPhase::Finished => Phase::Finished,
        }
    }
}

impl Clone for EditPhase {
    fn clone(&self) -> (result: EditPhase)
        ensures
            result@ == self@,
    {
        match self {
            EditPhase::InspectSource => EditPhase::InspectSource,
            EditPhase::ValidateChanges => EditPhase::ValidateChanges,
            EditPhase::CreateWorkspace => EditPhase::CreateWorkspace,
            EditPhase::ExtractSubtitle(subject) => EditPhase::ExtractSubtitle(
                subject.as_str().to_owned(),
            ),
            EditPhase::CopySubtitle(subject) => EditPhase::CopySubtitle(
                subject.as_str().to_owned(),
            ),
            EditPhase::UpdateSubtitle(subject) => EditPhase::UpdateSubtitle(
                subject.as_str().to_owned(),
            ),
            EditPhase::ConvertSubtitle { subject, target } => EditPhase::ConvertSubtitle {
                subject: subject.as_str().to_owned(),
                target: target.as_str().to_owned(),
            },
            EditPhase::OcrSubtitle { subject, target, language } => EditPhase::OcrSubtitle {
                subject: subject.as_str().to_owned(),
                target: target.as_str().to_owned(),
                language: language.as_str().to_owned(),
            },
            EditPhase::ValidateSubtitle(subject) => EditPhase::ValidateSubtitle(
                subject.as_str().to_owned(),
            ),
            EditPhase::RewriteCues(subject) => EditPhase::RewriteCues(subject.as_str().to_owned()),
            EditPhase::ResolveNames => EditPhase::ResolveNames,
            EditPhase::WriteMedia(operation) => EditPhase::WriteMedia(
                operation.as_str().to_owned(),
            ),
            EditPhase::ValidateOutput => EditPhase::ValidateOutput,
            EditPhase::RecheckSources => EditPhase::RecheckSources,
            EditPhase::PreservePermissions => EditPhase::PreservePermissions,
            EditPhase::PreparePublication => EditPhase::PreparePublication,
            EditPhase::BackupFile(name) => EditPhase::BackupFile(name.as_str().to_owned()),
            EditPhase::PublishFile(name) => EditPhase::PublishFile(name.as_str().to_owned()),
            EditPhase::RemoveBackups => EditPhase::RemoveBackups,
            EditPhase::Rollback => EditPhase::Rollback,
            EditPhase::StopTools => EditPhase::StopTools,
            EditPhase::Cleanup => EditPhase::Cleanup,
            EditPhase::Finished => EditPhase::Finished,
        }
    }
}

/// The most characters of a name that a progress line shows.
pub const SUBJECT_LIMIT: usize = 24;

/// A name as a progress line shows it: a long one with its middle left out.
pub open spec fn compact(subject: Seq<char>) -> Seq<char> {
    if subject.len() <= SUBJECT_LIMIT {
        subject
    } else {
        subject.take(15) + "…"@ + subject.skip(subject.len() - 8)
    }
}

pub fn compact_subject(value: &str) -> (result: String)
    ensures
        result@ == compact(value@),
{
    let length: usize = value.unicode_len();
    if length <= SUBJECT_LIMIT {
        return value.to_owned();
    }
    let head = value.substring_char(0, 15);
    let tail = value.substring_char(length - 8, length);
    assert(head@ =~= value@.take(15));
    assert(tail@ =~= value@.skip(value@.len() - 8));
    let mut short = head.to_owned();
    short.append("…");
    short.append(tail);
    short
}

impl Phase {
    /// Whether the step is one of preparing a subtitle.
    pub open spec fn of_subtitle(self) -> bool {
        match self {
            Phase::ExtractSubtitle(_) => true,
            Phase::CopySubtitle(_) => true,
            Phase::UpdateSubtitle(_) => true,
            Phase::ConvertSubtitle { .. } => true,
            Phase::OcrSubtitle { .. } => true,
            Phase::ValidateSubtitle(_) => true,
            Phase::RewriteCues(_) => true,
            _ => false,
        }
    }

    /// Whether the step is one of putting a file in place.
    pub open spec fn of_move(self) -> bool {
        self is BackupFile || self is PublishFile
    }

    /// The words a reader sees while the step runs.
    pub open spec fn label(self) -> Seq<char> {
        match self {
            Phase::InspectSource => "Checking source"@,
            Phase::ValidateChanges => "Checking edits"@,
            Phase::CreateWorkspace => "Preparing files"@,
            Phase::ExtractSubtitle(subject) => "Extracting "@ + compact(subject),
            Phase::CopySubtitle(subject) => "Copying "@ + compact(subject),
            Phase::UpdateSubtitle(subject) => "Updating "@ + compact(subject),
            Phase::ConvertSubtitle { subject, target } => "Converting "@ + compact(subject)
                + " → "@ + target,
            Phase::OcrSubtitle { subject, target, language } => "Running OCR on "@ + compact(
                subject,
            ) + " → "@ + target + " ("@ + language + ")"@,
            Phase::ValidateSubtitle(subject) => "Checking "@ + compact(subject),
            Phase::RewriteCues(subject) => "Rewriting cues in "@ + compact(subject),
            Phase::ResolveNames => "Choosing filenames"@,
            Phase::WriteMedia(operation) => operation,
            Phase::ValidateOutput => "Checking output"@,
            Phase::RecheckSources => "Checking source files"@,
            Phase::PreservePermissions => "Preserving permissions"@,
            Phase::PreparePublication => "Preparing to save"@,
            Phase::BackupFile(name) => "Backing up "@ + compact(name),
            Phase::PublishFile(name) => "Saving "@ + compact(name),
            Phase::RemoveBackups => "Removing backups"@,
            Phase::Rollback => "Restoring original files"@,
            Phase::StopTools => "Stopping tools"@,
            Phase::Cleanup => "Cleaning up"@,
            Phase::Finished => "Done"@,
        }
    }
}

fn with_subject(action: &str, subject: &str) -> (result: String)
    ensures
        result@ == action@ + compact(subject@),
{
    let mut label = action.to_owned();
    label.append(compact_subject(subject).as_str());
    label
}

impl EditPhase {
    pub fn label(&self) -> (result: String)
        ensures
            result@ == self@.label(),
    {
        match self {
            EditPhase::InspectSource => "Checking source".to_owned(),
            EditPhase::ValidateChanges => "Checking edits".to_owned(),
            EditPhase::CreateWorkspace => "Preparing files".to_owned(),
            EditPhase::ExtractSubtitle(subject) => with_subject("Extracting ", subject.as_str()),
            EditPhase::CopySubtitle(subject) => with_subject("Copying ", subject.as_str()),
            EditPhase::UpdateSubtitle(subject) => with_subject("Updating ", subject.as_str()),
            EditPhase::ConvertSubtitle { subject, target } => {
                let mut label = with_subject("Converting ", subject.as_str());
                label.append(" → ");
                label.append(target.as_str());
                label
            },
            EditPhase::OcrSubtitle { subject, target, language } => {
                let mut label = with_subject("Running OCR on ", subject.as_str());
                label.append(" → ");
                label.append(target.as_str());
                label.append(" (");
                label.append(language.as_str());
                label.append(")");
                label
            },
            EditPhase::ValidateSubtitle(subject) => with_subject("Checking ", subject.as_str()),
            EditPhase::RewriteCues(subject) => with_subject("Rewriting cues in ", subject.as_str()),
            EditPhase::ResolveNames => "Choosing filenames".to_owned(),
            EditPhase::WriteMedia(operation) => operation.as_str().to_owned(),
            EditPhase::ValidateOutput => "Checking output".to_owned(),
            EditPhase::RecheckSources => "Checking source files".to_owned(),
            EditPhase::PreservePermissions => "Preserving permissions".to_owned(),
            EditPhase::PreparePublication => "Preparing to save".to_owned(),
            EditPhase::BackupFile(name) => with_subject("Backing up ", name.as_str()),
            EditPhase::PublishFile(name) => with_subject("Saving ", name.as_str()),
            EditPhase::RemoveBackups => "Removing backups".to_owned(),
            EditPhase::Rollback => "Restoring original files".to_owned(),
            EditPhase::StopTools => "Stopping tools".to_owned(),
            EditPhase::Cleanup => "Cleaning up".to_owned(),
            EditPhase::Finished => "Done".to_owned(),
        }
    }
}

/// The name that a progress line shows for a file.
pub open spec fn shown_name(path: PathModel) -> Seq<char> {
    match path.name_text() {
        Some(name) => name,
        None => "file"@,
    }
}

pub fn display_file_name(path: &FilePath) -> (result: String)
    ensures
        result@ == shown_name(path@),
{
    match path.name_text() {
        Some(name) => name,
        None => "file".to_owned(),
    }
}

/// What a subtitle is prepared for.
#[derive(Clone, Copy, Debug, Eq, PartialEq, Structural)]
pub enum SubtitlePreparation {
    Embed,
    Export,
    Import,
    Sidecar,
}

/// The language that pictures are read in.
pub open spec fn ocr_language(change: SubtitleChange) -> Seq<char> {
    match change.ocr_language {
        Some(language) => language@,
        None => "eng"@,
    }
}

pub fn language_for_ocr(change: &SubtitleChange) -> (result: &str)
    ensures
        result@ == ocr_language(*change),
{
    match &change.ocr_language {
        Some(language) => language.as_str(),
        None => "eng",
    }
}

/// The step that prepares a subtitle: reading pictures, converting, or what moves it as
/// it is.
pub open spec fn preparation_phase(
    subject: Seq<char>,
    change: SubtitleChange,
    target: SubtitleFormat,
    preparation: SubtitlePreparation,
) -> Phase {
    if change.source_format.image() && !target.image() {
        Phase::OcrSubtitle {
            subject,
            target: target.short_text(),
            language: ocr_language(change),
        }
    } else if target != change.source_format {
        Phase::ConvertSubtitle { subject, target: target.short_text() }
    } else {
        match preparation {
            SubtitlePreparation::Embed | SubtitlePreparation::Export => Phase::ExtractSubtitle(
                subject,
            ),
            SubtitlePreparation::Import => Phase::CopySubtitle(subject),
            SubtitlePreparation::Sidecar => Phase::UpdateSubtitle(subject),
        }
    }
}

pub fn subtitle_preparation_phase(
    subject: &str,
    change: &SubtitleChange,
    target: SubtitleFormat,
    preparation: SubtitlePreparation,
) -> (result: EditPhase)
    ensures
        result@ == preparation_phase(subject@, *change, target, preparation),
{
    if change.source_format.is_image() && target.is_text() {
        return EditPhase::OcrSubtitle {
            subject: subject.to_owned(),
            target: target.overview_label().to_owned(),
            language: language_for_ocr(change).to_owned(),
        };
    }
    if target != change.source_format {
        return EditPhase::ConvertSubtitle {
            subject: subject.to_owned(),
            target: target.overview_label().to_owned(),
        };
    }
    match preparation {
        SubtitlePreparation::Embed | SubtitlePreparation::Export => EditPhase::ExtractSubtitle(
            subject.to_owned(),
        ),
        SubtitlePreparation::Import => EditPhase::CopySubtitle(subject.to_owned()),
        SubtitlePreparation::Sidecar => EditPhase::UpdateSubtitle(subject.to_owned()),
    }
}

/// The words for writing the media.
pub open spec fn write_text(
    container: Option<ContainerFormat>,
    audio_encode: bool,
    video_encode: bool,
    metadata_changed: bool,
) -> Seq<char> {
    if audio_encode || video_encode {
        "Encoding "@ + (if video_encode && audio_encode {
            "video and audio"@
        } else if video_encode {
            "video"@
        } else {
            "audio"@
        }) + match container {
            Some(container) => " and remuxing to "@ + container.label_text(),
            None => ""@,
        }
    } else {
        match container {
            Some(container) => "Remuxing to "@ + container.label_text(),
            None => if metadata_changed {
                "Updating container metadata"@
            } else {
                "Remuxing media"@
            },
        }
    }
}

pub fn media_write_label(
    target_container: Option<ContainerFormat>,
    audio_encode: bool,
    video_encode: bool,
    container_metadata_changed: bool,
) -> (result: String)
    ensures
        result@ == write_text(
            target_container,
            audio_encode,
            video_encode,
            container_metadata_changed,
        ),
{
    if audio_encode || video_encode {
        let mut label = "Encoding ".to_owned();
        label.append(
            if video_encode && audio_encode {
                "video and audio"
            } else if video_encode {
                "video"
            } else {
                "audio"
            },
        );
        let mut suffix = "".to_owned();
        if let Some(container) = target_container {
            suffix = " and remuxing to ".to_owned();
            suffix.append(container.label());
        }
        label.append(suffix.as_str());
        return label;
    }
    match target_container {
        Some(container) => {
            let mut label = "Remuxing to ".to_owned();
            label.append(container.label());
            label
        },
        None => if container_metadata_changed {
            "Updating container metadata".to_owned()
        } else {
            "Remuxing media".to_owned()
        },
    }
}

// What a tool says when it fails.

/// The lines of some text that are not blank, without the white space around them.
pub open spec fn spoken_lines(lines: Seq<Seq<char>>) -> Seq<Seq<char>>
    decreases lines.len(),
{
    if lines.len() == 0 {
        Seq::empty()
    } else {
        let before = spoken_lines(lines.drop_last());
        if trimmed(lines.last()).len() > 0 {
            before.push(trimmed(lines.last()))
        } else {
            before
        }
    }
}

/// The most characters that are kept of what a tool says.
pub const DETAIL_LIMIT: usize = 360;

/// What a tool says, as one line of bounded length.
pub open spec fn detail_text(text: Seq<char>) -> Seq<char> {
    let line = joined(spoken_lines(pieces(text, '\n')), " "@);
    if line.len() > DETAIL_LIMIT {
        line.take(DETAIL_LIMIT as int) + "…"@
    } else {
        line
    }
}

/// The message about a tool that failed.
pub open spec fn tool_error_text(heading: Seq<char>, text: Seq<char>) -> Seq<char> {
    if detail_text(text).len() == 0 {
        heading
    } else {
        heading + ": "@ + detail_text(text)
    }
}

/// The message about a tool that failed and what it said.
pub fn tool_error(heading: &str, text: &str) -> (result: String)
    ensures
        result@ == tool_error_text(heading@, text@),
{
    let lines = split(text, '\n');
    let mut spoken: Vec<String> = Vec::new();
    let mut i: usize = 0;
    assert(texts(spoken@) =~= spoken_lines(texts(lines@).take(0)));
    while i < lines.len()
        invariant
            0 <= i <= lines.len(),
            texts(spoken@) == spoken_lines(texts(lines@).take(i as int)),
        decreases lines.len() - i,
    {
        let ghost before = spoken@;
        proof {
            assert(texts(lines@).take(i + 1).drop_last() =~= texts(lines@).take(i as int));
            assert(texts(lines@).take(i + 1).last() == lines@[i as int]@);
        }
        let line = trim(lines[i].as_str());
        if !line.is_empty() {
            spoken.push(line.to_owned());
            assert(texts(spoken@) =~= texts(before).push(line@));
        }
        i = i + 1;
    }
    assert(texts(lines@).take(lines@.len() as int) =~= texts(lines@));
    let detail = join(spoken.as_slice(), " ");
    let length: usize = detail.as_str().unicode_len();
    if length == 0 {
        return heading.to_owned();
    }
    let mut message = heading.to_owned();
    message.append(": ");
    if length > DETAIL_LIMIT {
        let mut short = detail.as_str().substring_char(0, DETAIL_LIMIT).to_owned();
        assert(short@ =~= detail@.take(DETAIL_LIMIT as int));
        short.append("…");
        message.append(short.as_str());
    } else {
        message.append(detail.as_str());
    }
    message
}

/// The message about a tool that failed and what it wrote.
pub fn command_error(heading: &str, stderr: &[u8]) -> (result: String)
    ensures
        result@ == tool_error_text(heading@, lossy_text(stderr@)),
{
    let text = from_utf8_lossy(stderr);
    tool_error(heading, text.as_str())
}

// What an edit came to.

/// What an edit came to.
#[derive(Clone, Debug, Eq, PartialEq)]
pub enum EditOutcome {
    Completed { output_path: FilePath, media_changed: bool },
    Cancelled,
    SourceChanged(String),
    Failed(String),
}

/// What an [`EditOutcome`] says.
pub ghost enum OutcomeModel {
    Completed { output_path: PathModel, media_changed: bool },
    Cancelled,
    SourceChanged(Seq<char>),
    Failed(Seq<char>),
}

impl View for EditOutcome {
    type V = OutcomeModel;

    open spec fn view(&self) -> OutcomeModel {
        match self {
            EditOutcome::Completed { output_path, media_changed } => OutcomeModel::Completed {
                output_path: output_path@,
                media_changed: *media_changed,
            },
            EditOutcome::Cancelled => OutcomeModel::Cancelled,
            EditOutcome::SourceChanged(message) => OutcomeModel::SourceChanged(message@),
            EditOutcome::Failed(message) => OutcomeModel::Failed(message@),
        }
    }
}

/// What a finished edit gives back.
#[derive(Clone, Debug, Eq, PartialEq)]
pub struct EditResult {
    pub output_path: FilePath,
    pub media_changed: bool,
}

/// The outcome of an edit.
pub open spec fn outcome_of(result: Result<EditResult, EditError>) -> OutcomeModel {
    match result {
        Ok(result) => OutcomeModel::Completed {
            output_path: result.output_path@,
            media_changed: result.media_changed,
        },
        Err(EditError::Cancelled) => OutcomeModel::Cancelled,
        Err(EditError::SourceChanged(message)) => OutcomeModel::SourceChanged(message@),
        Err(EditError::Failed(message)) => OutcomeModel::Failed(message@),
    }
}

/// The entry of the failure log that an edit leaves: its heading and its message.
pub open spec fn log_entry_of(result: Result<EditResult, EditError>) -> Option<
    (Seq<char>, Seq<char>),
> {
    match result {
        Err(EditError::SourceChanged(message)) => Some(("SourceChanged"@, message@)),
        Err(EditError::Failed(message)) => Some(("Failed"@, message@)),
        _ => None,
    }
}

/// The outcome of an edit, and the heading and message to log where it failed.
pub fn finish_edit(result: Result<EditResult, EditError>) -> (finished: (
    EditOutcome,
    Option<(&'static str, String)>,
))
    ensures
        finished.0@ == outcome_of(result),
        match finished.1 {
            Some(entry) => log_entry_of(result) == Some((entry.0@, entry.1@)),
            None => log_entry_of(result) is None,
        },
{
    match result {
        Ok(result) => (
            EditOutcome::Completed {
                output_path: result.output_path,
                media_changed: result.media_changed,
            },
            None,
        ),
        Err(EditError::Cancelled) => (EditOutcome::Cancelled, None),
        Err(EditError::SourceChanged(message)) => {
            let entry = message.as_str().to_owned();
            (EditOutcome::SourceChanged(message), Some(("SourceChanged", entry)))
        },
        Err(EditError::Failed(message)) => {
            let entry = message.as_str().to_owned();
            (EditOutcome::Failed(message), Some(("Failed", entry)))
        },
    }
}

/// The text of a panic: what it was given as text, or a stand-in for anything else.
pub open spec fn panic_text(payload: Option<Seq<char>>) -> Seq<char> {
    match payload {
        Some(message) => message,
        None => "an unknown internal error"@,
    }
}

/// The failure that a panic inside an edit becomes.
pub fn panic_failure(payload: Option<&str>) -> (result: EditError)
    ensures
        result@ == ErrorModel::Failed(
            "The media edit failed unexpectedly: "@ + panic_text(crate::text::opt_str(payload))
                + ". The original file was not replaced."@,
        ),
{
    let mut message = "The media edit failed unexpectedly: ".to_owned();
    message.append(panic_message(payload).as_str());
    message.append(". The original file was not replaced.");
    EditError::Failed(message)
}

pub fn panic_message(payload: Option<&str>) -> (result: String)
    ensures
        result@ == panic_text(crate::text::opt_str(payload)),
{
    match payload {
        Some(message) => message.to_owned(),
        None => "an unknown internal error".to_owned(),
    }
}

/// How many workers a pool runs: as many as asked for, and at least one.
pub fn worker_threads(worker_count: usize) -> (result: usize)
    ensures
        result == if worker_count == 0 {
            1
        } else {
            worker_count
        },
{
    if worker_count == 0 {
        1
    } else {
        worker_count
    }
}

// Laws.

/// A shown name is never longer than the limit, and a name within it is shown whole.
pub proof fn shown_names_are_short(subject: Seq<char>)
    ensures
        compact(subject).len() <= SUBJECT_LIMIT,
        subject.len() <= SUBJECT_LIMIT ==> compact(subject) == subject,
        subject.len() > SUBJECT_LIMIT ==> compact(subject).take(15) == subject.take(15)
            && compact(subject).skip(16) == subject.skip(subject.len() - 8),
{
    reveal_strlit("…");
    if subject.len() > SUBJECT_LIMIT {
        assert(compact(subject).take(15) =~= subject.take(15));
        assert(compact(subject).skip(16) =~= subject.skip(subject.len() - 8));
    }
}

/// A step with a short operation, target and language has a label of at most sixty
/// characters.
pub proof fn labels_are_short(phase: Phase)
    requires
        match phase {
            Phase::ConvertSubtitle { target, .. } => target.len() <= 22,
            Phase::OcrSubtitle { target, language, .. } => target.len() + language.len() <= 15,
            Phase::WriteMedia(operation) => operation.len() <= 60,
            _ => true,
        },
    ensures
        phase.label().len() <= 60,
{
    match phase {
        Phase::ExtractSubtitle(subject)
        | Phase::CopySubtitle(subject)
        | Phase::UpdateSubtitle(subject)
        | Phase::ValidateSubtitle(subject)
        | Phase::RewriteCues(subject)
        | Phase::BackupFile(subject)
        | Phase::PublishFile(subject)
        | Phase::ConvertSubtitle { subject, .. }
        | Phase::OcrSubtitle { subject, .. } => {
            shown_names_are_short(subject);
        },
        _ => {},
    }
    lemma_label_words();
}

/// No label is empty, but that of writing media by an operation without a name.
pub proof fn labels_say_something(phase: Phase)
    requires
        phase matches Phase::WriteMedia(operation) ==> operation.len() > 0,
    ensures
        phase.label().len() > 0,
{
    lemma_label_words();
}

/// Every way to write media has a name, and a short one.
pub proof fn media_labels_are_short(
    container: Option<ContainerFormat>,
    audio_encode: bool,
    video_encode: bool,
    metadata_changed: bool,
)
    ensures
        0 < write_text(container, audio_encode, video_encode, metadata_changed).len() <= 60,
{
    reveal_strlit("Encoding ");
    reveal_strlit("video and audio");
    reveal_strlit("video");
    reveal_strlit("audio");
    reveal_strlit(" and remuxing to ");
    reveal_strlit("");
    reveal_strlit("Remuxing to ");
    reveal_strlit("Updating container metadata");
    reveal_strlit("Remuxing media");
    reveal_strlit("MKV");
    reveal_strlit("MP4");
    reveal_strlit("MOV");
    reveal_strlit("WebM");
}

/// How long the words of the labels are.
proof fn lemma_label_words()
    ensures
        "Checking source"@.len() == 15,
        "Checking edits"@.len() == 14,
        "Preparing files"@.len() == 15,
        "Extracting "@.len() == 11,
        "Copying "@.len() == 8,
        "Updating "@.len() == 9,
        "Converting "@.len() == 11,
        " → "@.len() == 3,
        "Running OCR on "@.len() == 15,
        " ("@.len() == 2,
        ")"@.len() == 1,
        "Checking "@.len() == 9,
        "Rewriting cues in "@.len() == 18,
        "Choosing filenames"@.len() == 18,
        "Checking output"@.len() == 15,
        "Checking source files"@.len() == 21,
        "Preserving permissions"@.len() == 22,
        "Preparing to save"@.len() == 17,
        "Backing up "@.len() == 11,
        "Saving "@.len() == 7,
        "Removing backups"@.len() == 16,
        "Restoring original files"@.len() == 24,
        "Stopping tools"@.len() == 14,
        "Cleaning up"@.len() == 11,
        "Done"@.len() == 4,
{
    reveal_strlit("Checking source");
    reveal_strlit("Checking edits");
    reveal_strlit("Preparing files");
    reveal_strlit("Extracting ");
    reveal_strlit("Copying ");
    reveal_strlit("Updating ");
    reveal_strlit("Converting ");
    reveal_strlit(" → ");
    reveal_strlit("Running OCR on ");
    reveal_strlit(" (");
    reveal_strlit(")");
    reveal_strlit("Checking ");
    reveal_strlit("Rewriting cues in ");
    reveal_strlit("Choosing filenames");
    reveal_strlit("Checking output");
    reveal_strlit("Checking source files");
    reveal_strlit("Preserving permissions");
    reveal_strlit("Preparing to save");
    reveal_strlit("Backing up ");
    reveal_strlit("Saving ");
    reveal_strlit("Removing backups");
    reveal_strlit("Restoring original files");
    reveal_strlit("Stopping tools");
    reveal_strlit("Cleaning up");
    reveal_strlit("Done");
}

/// What is kept of a failed tool's words is bounded, however much it wrote.
pub proof fn details_are_bounded(text: Seq<char>)
    ensures
        detail_text(text).len() <= DETAIL_LIMIT + 1,
{
    reveal_strlit("…");
}

/// What each step is called while it runs; a long subject is shortened in it.
pub proof fn steps_have_their_names(subject: Seq<char>, target: Seq<char>, language: Seq<char>)
    ensures
        Phase::InspectSource.label() == "Checking source"@,
        Phase::ValidateChanges.label() == "Checking edits"@,
        Phase::CreateWorkspace.label() == "Preparing files"@,
        Phase::ExtractSubtitle(subject).label() == "Extracting "@ + compact(subject),
        Phase::CopySubtitle(subject).label() == "Copying "@ + compact(subject),
        Phase::UpdateSubtitle(subject).label() == "Updating "@ + compact(subject),
        (Phase::ConvertSubtitle { subject, target }).label() == "Converting "@ + compact(subject)
            + " → "@ + target,
        (Phase::OcrSubtitle { subject, target, language }).label() == "Running OCR on "@ + compact(
            subject,
        ) + " → "@ + target + " ("@ + language + ")"@,
        Phase::ValidateSubtitle(subject).label() == "Checking "@ + compact(subject),
        Phase::RewriteCues(subject).label() == "Rewriting cues in "@ + compact(subject),
        Phase::ResolveNames.label() == "Choosing filenames"@,
        Phase::WriteMedia(subject).label() == subject,
        Phase::ValidateOutput.label() == "Checking output"@,
        Phase::RecheckSources.label() == "Checking source files"@,
        Phase::PreservePermissions.label() == "Preserving permissions"@,
        Phase::PreparePublication.label() == "Preparing to save"@,
        Phase::BackupFile(subject).label() == "Backing up "@ + compact(subject),
        Phase::PublishFile(subject).label() == "Saving "@ + compact(subject),
        Phase::RemoveBackups.label() == "Removing backups"@,
        Phase::Rollback.label() == "Restoring original files"@,
        Phase::StopTools.label() == "Stopping tools"@,
        Phase::Cleanup.label() == "Cleaning up"@,
        Phase::Finished.label() == "Done"@,
{
}

/// A long name is shown as its first fifteen characters, an ellipsis and its last eight.
pub proof fn long_names_lose_their_middle(front: Seq<char>, middle: Seq<char>, back: Seq<char>)
    requires
        front.len() == 15,
        back.len() == 8,
    ensures
        middle.len() > 1 ==> compact(front + middle + back) == front + "…"@ + back,
        middle.len() <= 1 ==> compact(front + middle + back) == front + middle + back,
{
    let whole = front + middle + back;
    assert(whole.take(15) =~= front);
    assert(whole.skip(whole.len() - 8) =~= back);
}

/// Pictures that become text are read, another format is converted to, and what keeps its
/// format is taken out of the media, copied into it or updated where it lies.
pub proof fn preparations_are_called_by_what_they_do(
    subject: Seq<char>,
    change: SubtitleChange,
    target: SubtitleFormat,
    preparation: SubtitlePreparation,
)
    ensures
        ({
            let phase = preparation_phase(subject, change, target, preparation);
            let own = change.source_format;
            let pictures = own == SubtitleFormat::Pgs || own == SubtitleFormat::VobSub;
            let to_pictures = target == SubtitleFormat::Pgs || target == SubtitleFormat::VobSub;
            &&& pictures && !to_pictures ==> phase == (Phase::OcrSubtitle {
                subject,
                target: target.short_text(),
                language: match change.ocr_language {
                    Some(language) => language@,
                    None => "eng"@,
                },
            })
            &&& !(pictures && !to_pictures) && target != own ==> phase == (Phase::ConvertSubtitle {
                subject,
                target: target.short_text(),
            })
            &&& target == own && preparation == SubtitlePreparation::Embed ==> phase
                == Phase::ExtractSubtitle(subject)
            &&& target == own && preparation == SubtitlePreparation::Export ==> phase
                == Phase::ExtractSubtitle(subject)
            &&& target == own && preparation == SubtitlePreparation::Import ==> phase
                == Phase::CopySubtitle(subject)
            &&& target == own && preparation == SubtitlePreparation::Sidecar ==> phase
                == Phase::UpdateSubtitle(subject)
        }),
{
}

/// The write of the media is called by what it encodes and the container that it goes to,
/// if it goes to another.
pub proof fn media_writes_are_called_by_what_they_do(container: ContainerFormat, tags: bool)
    ensures
        write_text(None, false, false, false) == "Remuxing media"@,
        write_text(None, false, false, true) == "Updating container metadata"@,
        write_text(Some(container), false, false, tags) == "Remuxing to "@
            + container.label_text(),
        write_text(None, true, false, tags) == "Encoding audio"@,
        write_text(None, false, true, tags) == "Encoding video"@,
        write_text(None, true, true, tags) == "Encoding video and audio"@,
        write_text(Some(container), true, false, tags) == "Encoding audio and remuxing to "@
            + container.label_text(),
        write_text(Some(container), false, true, tags) == "Encoding video and remuxing to "@
            + container.label_text(),
        write_text(Some(container), true, true, tags)
            == "Encoding video and audio and remuxing to "@ + container.label_text(),
{
    reveal_strlit("");
    reveal_strlit("Encoding ");
    reveal_strlit("audio");
    reveal_strlit("video");
    reveal_strlit("video and audio");
    reveal_strlit(" and remuxing to ");
    reveal_strlit("Encoding audio");
    reveal_strlit("Encoding video");
    reveal_strlit("Encoding video and audio");
    reveal_strlit("Encoding audio and remuxing to ");
    reveal_strlit("Encoding video and remuxing to ");
    reveal_strlit("Encoding video and audio and remuxing to ");
    let label = container.label_text();
    assert(write_text(None, true, false, tags) =~= "Encoding audio"@);
    assert(write_text(None, false, true, tags) =~= "Encoding video"@);
    assert(write_text(None, true, true, tags) =~= "Encoding video and audio"@);
    assert(write_text(Some(container), true, false, tags) =~= "Encoding audio and remuxing to "@
        + label);
    assert(write_text(Some(container), false, true, tags) =~= "Encoding video and remuxing to "@
        + label);
    assert(write_text(Some(container), true, true, tags)
        =~= "Encoding video and audio and remuxing to "@ + label);
}

/// What a tool says is told in one line: its lines without the white space around them and
/// without the blank ones, with a space between two, and no more than 360 characters of it.
pub proof fn details_are_the_lines_of_the_tool(
    lines: Seq<Seq<char>>,
    text: Seq<char>,
    heading: Seq<char>,
)
    ensures
        spoken_lines(lines) == lines.map_values(|line: Seq<char>| trimmed(line)).filter(
            |line: Seq<char>| line.len() > 0,
        ),
        ({
            let line = joined(spoken_lines(pieces(text, '\n')), " "@);
            &&& line.len() <= 360 ==> detail_text(text) == line
            &&& line.len() > 360 ==> detail_text(text) == line.take(360) + "…"@
            &&& line.len() == 0 ==> tool_error_text(heading, text) == heading
            &&& line.len() > 0 ==> tool_error_text(heading, text) == heading + ": "@ + detail_text(
                text,
            )
        }),
    decreases lines.len(),
{
    reveal(Seq::filter);
    reveal_strlit("…");
    let short = |line: Seq<char>| trimmed(line);
    if lines.len() > 0 {
        let fewer = lines.drop_last();
        details_are_the_lines_of_the_tool(fewer, text, heading);
        assert(lines.map_values(short).drop_last() =~= fewer.map_values(short));
        assert(lines.map_values(short).last() == trimmed(lines.last()));
    } else {
        assert(lines.map_values(short) =~= Seq::empty());
    }
}

/// An edit ends as it went, and only one that failed, or found its source changed, is
/// logged.
pub proof fn edits_end_as_they_went(result: EditResult, message: String)
    ensures
        outcome_of(Ok(result)) == (OutcomeModel::Completed {
            output_path: result.output_path@,
            media_changed: result.media_changed,
        }),
        outcome_of(Err(EditError::Cancelled)) == OutcomeModel::Cancelled,
        outcome_of(Err(EditError::SourceChanged(message))) == OutcomeModel::SourceChanged(message@),
        outcome_of(Err(EditError::Failed(message))) == OutcomeModel::Failed(message@),
        log_entry_of(Ok(result)) is None,
        log_entry_of(Err(EditError::Cancelled)) is None,
        log_entry_of(Err(EditError::SourceChanged(message))) == Some(
            ("SourceChanged"@, message@),
        ),
        log_entry_of(Err(EditError::Failed(message))) == Some(("Failed"@, message@)),
{
}

/// A file is shown by its name, and as a file where it has none that can be written; a
/// breakdown that says nothing is an unknown one.
pub proof fn unnamed_things_have_a_name(path: PathModel, message: Seq<char>)
    ensures
        path.name_text() is Some ==> shown_name(path) == path.name_text()->0,
        path.name_text() is None ==> shown_name(path) == "file"@,
        panic_text(Some(message)) == message,
        panic_text(None) == "an unknown internal error"@,
{
}

/// The steps that work on a subtitle, and those that move a file.
pub proof fn steps_are_told_apart(phase: Phase)
    ensures
        phase.of_subtitle() <==> phase is ExtractSubtitle || phase is CopySubtitle || phase
            is UpdateSubtitle || phase is ConvertSubtitle || phase is OcrSubtitle || phase
            is ValidateSubtitle || phase is RewriteCues,
        phase.of_move() <==> phase is BackupFile || phase is PublishFile,
        !(phase.of_subtitle() && phase.of_move()),
{
}

} // verus!
