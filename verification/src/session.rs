//! An edit, stage after stage: from the check of what was staged to the files that are
//! published. A stage can only be had from the one before it, with the outcome of the work
//! that stands between the two.

use vstd::prelude::*;
use vstd::string::StringExecFns;

use crate::apply::{
    check_edit, check_output, checked_edits_can_be_carried_out, output_order, output_problem,
    plan_copy, plan_replacement, recheck_problem, recheck_sources, settles, CheckedEdit,
    CheckedModel, EditRequest, SavePlan,
};
use crate::command::{
    arguments, ffmpeg_arguments, opt_container_tags, remux_args, Argument, FfmpegPlan,
};
use crate::container::{kept_subtitle_in, ContainerFormat, ContainerTags};
use crate::convert::{steps, write_only_in, Step, StepView};
use crate::duplicates::{resolve_export_duplicates, settled_exports, Settled, SettledExports};
use crate::files::FileFingerprint;
use crate::names::{copy_of, first_free_copy, next_copy_path, replacement_of};
use crate::path::{
    in_directory, lemma_places, paths, places, FilePath, Part, PathModel, PathText, Place,
};
use crate::plan::{SubtitleImport, SubtitleReplacement};
use crate::prepare::{
    import_models, preparation, preparations_are_bounded, preparations_keep_to_the_workspace,
    prepare_subtitle_changes, replacement_models, ImportModel, PreparedModel, PreparedSubtitles,
    Surroundings,
};
use crate::probe::MediaInfo;
use crate::progress::{
    command_error, tool_error_text, EditPhase, EditResult, Phase, SaveDestination,
};
use crate::publication::{
    path_pairs, publications, retarget_publications_for_copy, retargeted_for_copy, PublicationModel,
};
use crate::reports::Moment;
use crate::result::EditModel;
use crate::sources::{EditError, ErrorModel, SidecarState};
use crate::subtitle::{Languages, SubtitleChange};
use crate::text::{decimal, lossy_text};
use crate::transaction::{
    backups_of, everything_replaced_is_taken_away, old_files_are_kept_aside, old_paths,
    prepare_transaction, prepared, staging_directory, Rollback, StepModel, Transaction,
    TransactionModel, TransactionStep,
};

verus! {

broadcast use vstd::std_specs::btree::group_btree_axioms;

impl EditRequest {
    /// Whether the tracks and files of the edit can be counted.
    pub open spec fn fits(&self) -> bool {
        self.stream_order@.len() + 2 * self.subtitle_changes@.len() < usize::MAX
    }
}

// The checked edit.

/// An edit that passed the checks.
pub struct CheckedSession<'a> {
    languages: &'a Languages,
    request: &'a EditRequest,
    fingerprint: FileFingerprint,
    info: MediaInfo,
    checked: CheckedEdit,
    states: Ghost<Seq<SidecarState>>,
}

/// What is known of a checked edit: what was staged, the source and the sidecars when they
/// were checked, and what the check gave.
pub ghost struct CheckedView {
    pub languages: Languages,
    pub request: EditRequest,
    pub fingerprint: FileFingerprint,
    pub info: MediaInfo,
    pub states: Seq<SidecarState>,
    pub checked: CheckedModel,
}

impl CheckedView {
    /// Whether the check passed.
    pub open spec fn passed(self) -> bool {
        &&& self.request.fits()
        &&& self.request.staged().checked(self.languages, self.info, self.states) == Ok::<
            CheckedModel,
            ErrorModel,
        >(self.checked)
    }
}

impl<'a> View for CheckedSession<'a> {
    type V = CheckedView;

    closed spec fn view(&self) -> CheckedView {
        CheckedView {
            languages: *self.languages,
            request: *self.request,
            fingerprint: self.fingerprint,
            info: self.info,
            states: self.states@,
            checked: self.checked@,
        }
    }
}

impl<'a> CheckedSession<'a> {
    #[verifier::type_invariant]
    spec fn sound(self) -> bool {
        self@.passed()
    }

    /// Checks what was staged against the source and the sidecars as they are now.
    pub fn check(
        languages: &'a Languages,
        request: &'a EditRequest,
        fingerprint: FileFingerprint,
        info: MediaInfo,
        states: &[SidecarState],
        cancelled: bool,
    ) -> (result: Result<CheckedSession<'a>, EditError>)
        requires
            request.fits(),
        ensures
            match result {
                Ok(session) => {
                    &&& !cancelled
                    &&& session@.passed()
                    &&& session@.languages == *languages
                    &&& session@.request == *request
                    &&& session@.fingerprint == fingerprint
                    &&& session@.info == info
                    &&& session@.states == states@
                },
                Err(error) => match request.staged().checked(*languages, info, states@) {
                    Err(problem) => error@ == problem,
                    Ok(_) => cancelled && error@ == ErrorModel::Cancelled,
                },
            },
    {
        let checked = match check_edit(
            languages,
            request.target(),
            request.edits(),
            &info,
            states,
        ) {
            Ok(checked) => checked,
            Err(error) => return Err(error),
        };
        if cancelled {
            return Err(EditError::Cancelled);
        }
        Ok(
            CheckedSession {
                languages,
                request,
                fingerprint,
                info,
                checked,
                states: Ghost(states@),
            },
        )
    }
}

// The prepared subtitles.

/// An import as a container stores it.
pub open spec fn kept_import(import: ImportModel, container: Option<ContainerFormat>) -> ImportModel {
    ImportModel { metadata: kept_subtitle_in(container, import.metadata), ..import }
}

pub open spec fn kept_imports(imports: Seq<ImportModel>, container: Option<ContainerFormat>) -> Seq<
    ImportModel,
> {
    imports.map_values(|import: ImportModel| kept_import(import, container))
}

fn keep_imports(imports: &Vec<SubtitleImport>, container: Option<ContainerFormat>) -> (result: Vec<
    SubtitleImport,
>)
    ensures
        import_models(result@) == kept_imports(import_models(imports@), container),
{
    let ghost kept = kept_imports(import_models(imports@), container);
    let mut result: Vec<SubtitleImport> = Vec::new();
    let mut i: usize = 0;
    while i < imports.len()
        invariant
            0 <= i <= imports.len(),
            kept == kept_imports(import_models(imports@), container),
            import_models(result@) =~= kept.take(i as int),
        decreases imports.len() - i,
    {
        let import = &imports[i];
        let mut metadata = import.metadata.clone();
        if let Some(container) = container {
            container.retain_supported_subtitle_metadata(&mut metadata);
        }
        let ghost before = result@;
        result.push(
            SubtitleImport {
                source_path: import.source_path.clone(),
                target: import.target,
                path: import.path.clone(),
                metadata,
                default: import.default,
            },
        );
        assert(import_models(result@) =~= import_models(before).push(kept[i as int]));
        i = i + 1;
    }
    assert(kept.take(kept.len() as int) =~= kept);
    result
}

/// An edit whose subtitles are to be prepared.
pub struct PreparingSession<'a> {
    edit: CheckedSession<'a>,
    workspace: PathText,
    prepared: PreparedSubtitles,
    taken: Ghost<Seq<Place>>,
}

/// What is known of an edit whose subtitles are prepared: the checked edit, where the work
/// files are, the files that were there, the steps of the preparation, and what they give.
pub ghost struct PreparedView {
    pub edit: CheckedView,
    pub workspace: Part,
    pub taken: Seq<Place>,
    pub steps: Seq<StepView>,
    pub replacements: Seq<SubtitleReplacement>,
    pub imports: Seq<SubtitleImport>,
    pub publications: Seq<PublicationModel>,
}

impl CheckedView {
    /// What the preparation of the subtitles comes to.
    pub open spec fn preparation(self, workspace: Part, taken: Seq<Place>) -> Result<
        PreparedModel,
        ErrorModel,
    > {
        preparation(
            self.languages,
            self.request.path@,
            self.info,
            self.request.subtitle_changes@,
            self.request.sidecars@,
            self.request.default_sidecars@,
            workspace,
            taken,
        )
    }
}

impl PreparedView {
    /// Whether everything is prepared that was staged: the steps and the files are those of
    /// the preparation, and an imported subtitle has the flags that the container stores.
    pub open spec fn planned(self) -> bool {
        &&& self.edit.passed()
        &&& match self.edit.preparation(self.workspace, self.taken) {
            Ok(prepared) => {
                &&& self.steps == prepared.steps
                &&& replacement_models(self.replacements) == prepared.replacements
                &&& import_models(self.imports) == kept_imports(
                    prepared.imports,
                    self.edit.checked.container,
                )
                &&& self.publications == prepared.publications
            },
            Err(_) => false,
        }
    }

    /// What the preparation reads besides the changes.
    pub open spec fn surroundings(self) -> Surroundings {
        let media = self.edit.request.path@;
        Surroundings {
            languages: self.edit.languages,
            media,
            stem: media.stem()->0,
            parent: media.directory->0,
            info: self.edit.info,
            sidecars: self.edit.request.sidecars@,
            default_sidecars: self.edit.request.default_sidecars@,
            workspace: self.workspace,
            taken: self.taken,
        }
    }

    /// The edit that is written.
    pub open spec fn model(self) -> EditModel {
        EditModel {
            languages: self.edit.languages,
            source: self.edit.info,
            order: self.edit.checked.order,
            chosen: self.edit.request.left_subtitle_order@,
            defaults: self.edit.request.default_streams@,
            audio: self.edit.request.audio_settings@,
            video: self.edit.request.video_settings@,
            replacements: self.replacements,
            imports: self.imports,
            changes: self.edit.request.subtitle_changes@,
            sidecars: self.edit.request.sidecars@,
            container: self.edit.checked.container,
        }
    }
}

impl<'a> View for PreparingSession<'a> {
    type V = PreparedView;

    closed spec fn view(&self) -> PreparedView {
        PreparedView {
            edit: self.edit@,
            workspace: self.workspace@,
            taken: self.taken@,
            steps: steps(self.prepared.steps@),
            replacements: self.prepared.replacements@,
            imports: self.prepared.imports@,
            publications: publications(self.prepared.publications@),
        }
    }
}

impl<'a> CheckedSession<'a> {
    /// What the edit tells of having come this far.
    pub fn reached(&self) -> (result: Moment)
        ensures
            result == Moment::ChangesAccepted,
    {
        Moment::ChangesAccepted
    }

    /// Plans the preparation of the subtitles, with work files in `workspace`. `taken` are
    /// the files beside the media.
    pub fn prepare(self, workspace: PathText, taken: &[FilePath]) -> (result: Result<
        PreparingSession<'a>,
        EditError,
    >)
        ensures
            match result {
                Ok(session) => {
                    &&& session@.planned()
                    &&& session@.edit == self@
                    &&& session@.workspace == workspace@
                    &&& session@.taken == places(paths(taken@))
                },
                Err(error) => self@.preparation(workspace@, places(paths(taken@))) == Err::<
                    PreparedModel,
                    ErrorModel,
                >(error@),
            },
    {
        proof {
            use_type_invariant(&self);
            checked_edits_can_be_carried_out(
                self@.request.staged(),
                self@.languages,
                self@.info,
                self@.states,
            );
        }
        let mut prepared = match prepare_subtitle_changes(
            self.languages,
            &self.request.path,
            &self.info,
            self.request.subtitle_changes.as_slice(),
            self.request.sidecars.as_slice(),
            &self.request.default_sidecars,
            &workspace,
            taken,
        ) {
            Ok(prepared) => prepared,
            Err(error) => return Err(error),
        };
        let imports = keep_imports(&prepared.imports, self.checked.container);
        prepared.imports = imports;
        Ok(PreparingSession { edit: self, workspace, prepared, taken: Ghost(places(paths(taken@))) })
    }
}

/// An edit whose subtitles are prepared, and what is left to do: publish files beside the
/// media, or write the media.
pub enum PreparedSession<'a> {
    Subtitles(SubtitleSession<'a>),
    Media(MediaSession<'a>),
}

/// An edit that leaves the media as it is.
pub struct SubtitleSession<'a> {
    files: PreparingSession<'a>,
}

/// An edit that writes the media.
pub struct MediaSession<'a> {
    files: PreparingSession<'a>,
}

impl<'a> View for SubtitleSession<'a> {
    type V = PreparedView;

    closed spec fn view(&self) -> PreparedView {
        self.files@
    }
}

impl<'a> View for MediaSession<'a> {
    type V = PreparedView;

    closed spec fn view(&self) -> PreparedView {
        self.files@
    }
}

impl<'a> PreparingSession<'a> {
    #[verifier::type_invariant]
    spec fn sound(self) -> bool {
        self@.planned()
    }

    /// The steps that prepare the subtitles. They make no file outside the workspace, and
    /// tell of nothing but their work on subtitles.
    pub fn steps(&self) -> (result: &Vec<Step>)
        ensures
            steps(result@) == self@.steps,
            write_only_in(self@.steps, self@.workspace),
    {
        proof {
            use_type_invariant(self);
            preparations_keep_to_the_workspace(
                self@.surroundings(),
                self@.edit.request.subtitle_changes@,
            );
        }
        &self.prepared.steps
    }

    /// Goes on where the steps were carried out, and stops where one of them failed.
    pub fn prepared(self, outcome: Result<(), EditError>) -> (result: Result<
        PreparedSession<'a>,
        EditError,
    >)
        ensures
            match result {
                Ok(session) => outcome is Ok && self@.planned() && match session {
                    PreparedSession::Subtitles(session) => session@ == self@
                        && !self@.edit.checked.media_changed,
                    PreparedSession::Media(session) => session@ == self@
                        && self@.edit.checked.media_changed,
                },
                Err(error) => outcome == Err::<(), EditError>(error),
            },
    {
        proof {
            use_type_invariant(&self);
        }
        match outcome {
            Err(error) => Err(error),
            Ok(_) => Ok(
                if self.edit.checked.media_changed {
                    PreparedSession::Media(MediaSession { files: self })
                } else {
                    PreparedSession::Subtitles(SubtitleSession { files: self })
                },
            ),
        }
    }
}

impl<'a> SubtitleSession<'a> {
    #[verifier::type_invariant]
    spec fn sound(self) -> bool {
        self@.planned() && !self@.edit.checked.media_changed
    }
}

impl<'a> MediaSession<'a> {
    #[verifier::type_invariant]
    spec fn sound(self) -> bool {
        self@.planned() && self@.edit.checked.media_changed
    }
}

// The written media.

/// An edit whose media is being written.
pub struct WritingSession<'a> {
    files: PreparingSession<'a>,
    temporary: FilePath,
}

/// An edit whose media is written.
pub struct WrittenSession<'a> {
    files: PreparingSession<'a>,
    temporary: FilePath,
}

/// What is known of an edit whose media is written: the prepared edit, and the file that
/// the media is written to.
pub ghost struct WrittenView {
    pub files: PreparedView,
    pub temporary: PathModel,
}

impl WrittenView {
    pub open spec fn planned(self) -> bool {
        self.files.planned() && self.files.edit.checked.media_changed
    }
}

impl<'a> View for WritingSession<'a> {
    type V = WrittenView;

    closed spec fn view(&self) -> WrittenView {
        WrittenView { files: self.files@, temporary: self.temporary@ }
    }
}

impl<'a> View for WrittenSession<'a> {
    type V = WrittenView;

    closed spec fn view(&self) -> WrittenView {
        WrittenView { files: self.files@, temporary: self.temporary@ }
    }
}

impl<'a> PreparingSession<'a> {
    /// The media as it is written to a file.
    fn remux<'b>(&'b self, temporary: &'b FilePath) -> (result: FfmpegPlan<'b>)
        ensures
            result.edit() == self@.model(),
            result.source@ == self@.edit.request.path@,
            result.temporary@ == temporary@,
            opt_container_tags(result.container_metadata) == file_tags(self@.edit.request),
            result.encodable(),
            result.edit().audio_is_there(),
            result.replacements@.len() + result.imports@.len() < usize::MAX,
            result.stream_order@.len() + result.imports@.len() <= usize::MAX,
    {
        let request: &EditRequest = self.edit.request;
        proof {
            use_type_invariant(self);
            let known = self@.edit;
            checked_edits_can_be_carried_out(
                known.request.staged(),
                known.languages,
                known.info,
                known.states,
            );
            lemma_output_order_is_shorter(
                known.info,
                known.request.stream_order@,
                known.request.subtitle_changes@,
            );
            preparations_are_bounded(self@.surroundings(), known.request.subtitle_changes@);
            assert(import_models(self@.imports).len() == self@.imports.len());
            assert(replacement_models(self@.replacements).len() == self@.replacements.len());
        }
        FfmpegPlan {
            source: &request.path,
            temporary,
            source_info: &self.edit.info,
            stream_order: self.edit.checked.stream_order.as_slice(),
            left_subtitle_order: request.left_subtitle_order.as_slice(),
            default_streams: &request.default_streams,
            audio_settings: &request.audio_settings,
            video_settings: &request.video_settings,
            replacements: self.prepared.replacements.as_slice(),
            imports: self.prepared.imports.as_slice(),
            subtitle_changes: request.subtitle_changes.as_slice(),
            sidecars: request.sidecars.as_slice(),
            languages: self.edit.languages,
            container: self.edit.checked.container,
            container_metadata: match &request.container_metadata {
                Some(metadata) => Some(metadata),
                None => None,
            },
        }
    }
}

/// The tags that are written for the whole file.
pub open spec fn file_tags(request: EditRequest) -> Option<ContainerTags> {
    match request.container_metadata {
        Some(metadata) => Some(metadata@),
        None => None,
    }
}

proof fn lemma_output_order_is_shorter(
    info: MediaInfo,
    order: Seq<u64>,
    changes: Seq<SubtitleChange>,
)
    ensures
        output_order(info, order, changes).len() <= order.len(),
    decreases order.len(),
{
    if order.len() > 0 {
        lemma_output_order_is_shorter(info, order.drop_last(), changes);
    }
}

impl<'a> SubtitleSession<'a> {
    /// What the edit tells of having come this far.
    pub fn reached(&self) -> (result: Moment)
        ensures
            result == Moment::SubtitlesReady,
    {
        Moment::SubtitlesReady
    }
}

impl<'a> MediaSession<'a> {
    /// What the edit tells of having come this far.
    pub fn reached(&self) -> (result: Moment)
        ensures
            result matches Moment::MediaPlanned(operation) && operation@
                == self@.edit.checked.operation,
    {
        Moment::MediaPlanned(self.files.edit.checked.operation.as_str().to_owned())
    }

    /// What is done to the media.
    pub fn phase(&self) -> (result: EditPhase)
        ensures
            result@ == Phase::WriteMedia(self@.edit.checked.operation),
    {
        EditPhase::WriteMedia(self.files.edit.checked.operation.as_str().to_owned())
    }

    /// The arguments that write the media to a file.
    pub fn write_to(self, temporary: FilePath) -> (result: (WritingSession<'a>, Vec<Argument>))
        ensures
            result.0@ == (WrittenView { files: self@, temporary: temporary@ }),
            arguments(result.1@) == remux_args(
                self@.model(),
                self@.edit.request.path@,
                temporary@,
                file_tags(self@.edit.request),
            ),
    {
        proof {
            use_type_invariant(&self);
        }
        let list = ffmpeg_arguments(&self.files.remux(&temporary));
        (WritingSession { files: self.files, temporary }, list)
    }
}

impl<'a> WritingSession<'a> {
    #[verifier::type_invariant]
    spec fn sound(self) -> bool {
        self@.planned()
    }

    /// What the edit tells once the tool is done: nothing where it failed.
    pub fn reached(&self, success: bool) -> (result: Option<Moment>)
        ensures
            result == (if success {
                Some(Moment::MediaWritten)
            } else {
                None
            }),
    {
        if success {
            Some(Moment::MediaWritten)
        } else {
            None
        }
    }

    /// Goes on where the media was written: stops where the tool failed, with the end of
    /// what it said, or where the edit is cancelled.
    pub fn written(self, success: bool, stderr: &[u8], cancelled: bool) -> (result: Result<
        WrittenSession<'a>,
        EditError,
    >)
        ensures
            match result {
                Ok(session) => success && !cancelled && session@ == self@,
                Err(error) => if !success {
                    error@ == ErrorModel::Failed(
                        tool_error_text(
                            "ffmpeg could not apply the track edits"@,
                            lossy_text(stderr@),
                        ),
                    )
                } else {
                    cancelled && error@ == ErrorModel::Cancelled
                },
            },
    {
        proof {
            use_type_invariant(&self);
        }
        if !success {
            return Err(
                EditError::Failed(command_error("ffmpeg could not apply the track edits", stderr)),
            );
        }
        if cancelled {
            return Err(EditError::Cancelled);
        }
        Ok(WrittenSession { files: self.files, temporary: self.temporary })
    }
}

/// An edit whose written media is what was asked for.
pub struct VerifiedSession<'a> {
    files: PreparingSession<'a>,
    temporary: FilePath,
    output: Ghost<MediaInfo>,
}

/// What is known of an edit whose written media was checked: what the file holds.
pub ghost struct VerifiedView {
    pub written: WrittenView,
    pub output: MediaInfo,
}

impl VerifiedView {
    /// Whether the written media is what was asked for.
    pub open spec fn verified(self) -> bool {
        &&& self.written.planned()
        &&& output_problem(
            self.written.files.model(),
            self.output,
            self.written.temporary,
            self.written.files.edit.request.container,
        ) is None
    }
}

impl<'a> View for VerifiedSession<'a> {
    type V = VerifiedView;

    closed spec fn view(&self) -> VerifiedView {
        VerifiedView {
            written: WrittenView { files: self.files@, temporary: self.temporary@ },
            output: self.output@,
        }
    }
}

impl<'a> WrittenSession<'a> {
    #[verifier::type_invariant]
    spec fn sound(self) -> bool {
        self@.planned()
    }

    /// The file that the media was written to.
    pub fn temporary(&self) -> (result: &FilePath)
        ensures
            result@ == self@.temporary,
    {
        &self.temporary
    }

    /// Checks what the written file holds, as far as it could be probed.
    pub fn probed(self, output: Result<MediaInfo, String>) -> (result: Result<
        VerifiedSession<'a>,
        EditError,
    >)
        ensures
            match result {
                Ok(session) => {
                    &&& output is Ok
                    &&& session@ == (VerifiedView { written: self@, output: output->Ok_0 })
                    &&& session@.verified()
                },
                Err(error) => match output {
                    Err(reason) => error@ == ErrorModel::Failed(reason@),
                    Ok(output) => match output_problem(
                        self@.files.model(),
                        output,
                        self@.temporary,
                        self@.files.edit.request.container,
                    ) {
                        Some(problem) => error@ == ErrorModel::Failed(problem),
                        None => false,
                    },
                },
            },
    {
        proof {
            use_type_invariant(&self);
        }
        let output = match output {
            Ok(output) => output,
            Err(reason) => return Err(EditError::Failed(reason)),
        };
        match check_output(
            &self.files.remux(&self.temporary),
            &output,
            self.files.edit.request.container,
        ) {
            Ok(_) => {},
            Err(error) => return Err(error),
        }
        Ok(
            VerifiedSession {
                files: self.files,
                temporary: self.temporary,
                output: Ghost(output),
            },
        )
    }
}

// The sources once more.

/// An edit whose written media waits for the permissions of the source.
pub struct RecheckedSession<'a> {
    files: PreparingSession<'a>,
    temporary: FilePath,
    history: Ghost<ReadyView>,
}

/// An edit that can be published.
pub struct ReadySession<'a> {
    files: PreparingSession<'a>,
    media: Option<FilePath>,
    history: Ghost<ReadyView>,
}

/// What is known of an edit that can be published: the prepared edit, the file that the
/// media was written to and what it holds, and the sources when they were checked again.
pub ghost struct ReadyView {
    pub files: PreparedView,
    pub media: Option<(PathModel, MediaInfo)>,
    pub states: Seq<SidecarState>,
    pub current: Option<FileFingerprint>,
}

impl ReadyView {
    /// The file that the media was written to.
    pub open spec fn temporary(self) -> Option<PathModel> {
        match self.media {
            Some((temporary, _)) => Some(temporary),
            None => None,
        }
    }

    /// What was found when the sources were checked again.
    pub open spec fn recheck_problem(self) -> Option<Seq<char>> {
        recheck_problem(
            self.files.edit.info.streams@,
            self.files.edit.request.subtitle_changes@,
            self.files.edit.request.sidecars@,
            self.states,
            self.current,
            self.files.edit.fingerprint,
            self.files.edit.checked.media_changed,
        )
    }

    /// Whether nothing stands against publishing the edit: it passed the checks, its
    /// subtitles were planned from what was staged, the media was written where it had to
    /// be and is what was asked for, and the sources did not change in the meantime.
    pub open spec fn cleared(self) -> bool {
        &&& self.files.planned()
        &&& self.recheck_problem() is None
        &&& match self.media {
            Some((temporary, output)) => (VerifiedView {
                written: WrittenView { files: self.files, temporary },
                output,
            }).verified(),
            None => !self.files.edit.checked.media_changed,
        }
    }
}

impl<'a> View for RecheckedSession<'a> {
    type V = ReadyView;

    closed spec fn view(&self) -> ReadyView {
        self.history@
    }
}

impl<'a> View for ReadySession<'a> {
    type V = ReadyView;

    closed spec fn view(&self) -> ReadyView {
        self.history@
    }
}

impl<'a> RecheckedSession<'a> {
    #[verifier::type_invariant]
    spec fn sound(self) -> bool {
        &&& self.history@.cleared()
        &&& self.history@.files == self.files@
        &&& self.history@.temporary() == Some(self.temporary@)
    }
}

impl<'a> ReadySession<'a> {
    #[verifier::type_invariant]
    spec fn sound(self) -> bool {
        &&& self.history@.cleared()
        &&& self.history@.files == self.files@
        &&& self.history@.temporary() == match self.media {
            Some(temporary) => Some(temporary@),
            None => None,
        }
    }
}

impl<'a> VerifiedSession<'a> {
    #[verifier::type_invariant]
    spec fn sound(self) -> bool {
        self@.verified()
    }

    /// What the edit tells of having come this far.
    pub fn reached(&self) -> (result: Moment)
        ensures
            result == Moment::OutputAccepted,
    {
        Moment::OutputAccepted
    }

    /// Checks the sources once more.
    pub fn recheck(self, states: &[SidecarState], current: Option<FileFingerprint>) -> (result:
        Result<RecheckedSession<'a>, EditError>)
        ensures
            ({
                let ready = ReadyView {
                    files: self@.written.files,
                    media: Some((self@.written.temporary, self@.output)),
                    states: states@,
                    current,
                };
                match result {
                    Ok(session) => session@ == ready && ready.cleared(),
                    Err(error) => match ready.recheck_problem() {
                        Some(problem) => error@ == ErrorModel::SourceChanged(problem),
                        None => false,
                    },
                }
            }),
    {
        proof {
            use_type_invariant(&self);
        }
        let ghost ready = ReadyView {
            files: self@.written.files,
            media: Some((self@.written.temporary, self@.output)),
            states: states@,
            current,
        };
        match self.files.recheck(states, current, true) {
            Ok(_) => {},
            Err(error) => return Err(error),
        }
        Ok(
            RecheckedSession {
                files: self.files,
                temporary: self.temporary,
                history: Ghost(ready),
            },
        )
    }
}

impl<'a> PreparingSession<'a> {
    fn recheck(
        &self,
        states: &[SidecarState],
        current: Option<FileFingerprint>,
        media_changed: bool,
    ) -> (result: Result<(), EditError>)
        ensures
            ({
                let problem = recheck_problem(
                    self@.edit.info.streams@,
                    self@.edit.request.subtitle_changes@,
                    self@.edit.request.sidecars@,
                    states@,
                    current,
                    self@.edit.fingerprint,
                    media_changed,
                );
                match result {
                    Ok(_) => problem is None,
                    Err(error) => problem is Some && error@ == ErrorModel::SourceChanged(problem->0),
                }
            }),
    {
        recheck_sources(
            &self.edit.info,
            self.edit.request.subtitle_changes.as_slice(),
            self.edit.request.sidecars.as_slice(),
            states,
            current,
            self.edit.fingerprint,
            media_changed,
        )
    }
}

impl<'a> SubtitleSession<'a> {
    /// Checks the sources once more.
    pub fn recheck(
        self,
        states: &[SidecarState],
        current: Option<FileFingerprint>,
        cancelled: bool,
    ) -> (result: Result<ReadySession<'a>, EditError>)
        ensures
            ({
                let ready = ReadyView { files: self@, media: None, states: states@, current };
                match result {
                    Ok(session) => !cancelled && session@ == ready && ready.cleared(),
                    Err(error) => match ready.recheck_problem() {
                        Some(problem) => error@ == ErrorModel::SourceChanged(problem),
                        None => cancelled && error@ == ErrorModel::Cancelled,
                    },
                }
            }),
    {
        proof {
            use_type_invariant(&self);
        }
        let ghost ready = ReadyView { files: self@, media: None, states: states@, current };
        match self.files.recheck(states, current, false) {
            Ok(_) => {},
            Err(error) => return Err(error),
        }
        if cancelled {
            return Err(EditError::Cancelled);
        }
        Ok(ReadySession { files: self.files, media: None, history: Ghost(ready) })
    }
}

impl<'a> RecheckedSession<'a> {
    /// What the edit tells of having come this far.
    pub fn reached(&self) -> (result: Moment)
        ensures
            result == Moment::SourcesUnchanged,
    {
        Moment::SourcesUnchanged
    }

    /// Goes on where the written media got the permissions of the source.
    pub fn permissions_kept(self, outcome: Result<(), String>, cancelled: bool) -> (result: Result<
        ReadySession<'a>,
        EditError,
    >)
        ensures
            match result {
                Ok(session) => outcome is Ok && !cancelled && session@ == self@ && self@.cleared(),
                Err(error) => match outcome {
                    Err(reason) => error@ == ErrorModel::Failed(
                        "Could not preserve source permissions: "@ + reason@,
                    ),
                    Ok(_) => cancelled && error@ == ErrorModel::Cancelled,
                },
            },
    {
        proof {
            use_type_invariant(&self);
        }
        match outcome {
            Ok(_) => {},
            Err(reason) => {
                let mut message = "Could not preserve source permissions: ".to_owned();
                message.append(reason.as_str());
                return Err(EditError::Failed(message));
            },
        }
        if cancelled {
            return Err(EditError::Cancelled);
        }
        Ok(
            ReadySession {
                files: self.files,
                media: Some(self.temporary),
                history: self.history,
            },
        )
    }
}

// The published files.

/// Where an edit is saved: the path of the media, and the settled exports.
pub open spec fn saved(
    ready: ReadyView,
    taken: Seq<Place>,
    output_path: PathModel,
    exports: SettledExports,
) -> bool {
    let request = ready.files.edit.request;
    let list = ready.files.publications;
    if ready.media is None {
        output_path == request.path@ && settles(exports, list, taken, ready.files.workspace)
    } else {
        match request.destination {
            SaveDestination::ReplaceOriginal => {
                &&& settles(exports, list, taken, ready.files.workspace)
                &&& replacement_of(request.path@, request.container) == Ok::<PathModel, ErrorModel>(
                    output_path,
                )
                &&& output_path.place() == request.path@.place() || !taken.contains(
                    output_path.place(),
                )
            },
            SaveDestination::CreateCopy => {
                &&& exists|number: nat| #[trigger]
                    first_free_copy(request.path@, request.container, taken, number) && copy_of(
                        request.path@,
                        number,
                        request.container,
                    ) == Ok::<PathModel, Seq<char>>(output_path)
                &&& retargeted_for_copy(list, request.path@, output_path) is Ok
                &&& settles(
                    exports,
                    retargeted_for_copy(list, request.path@, output_path)->Ok_0,
                    taken,
                    ready.files.workspace,
                )
            },
        }
    }
}

/// Why an edit cannot be saved where it has to be.
pub open spec fn unsaved(ready: ReadyView, taken: Seq<Place>, error: ErrorModel) -> bool {
    let request = ready.files.edit.request;
    let list = ready.files.publications;
    let workspace = ready.files.workspace;
    if ready.media is None {
        settled_exports(list, taken, workspace) == Err::<Settled, ErrorModel>(error)
    } else {
        match request.destination {
            SaveDestination::ReplaceOriginal => match settled_exports(list, taken, workspace) {
                Err(problem) => error == problem,
                Ok(_) => match replacement_of(request.path@, request.container) {
                    Err(problem) => error == problem,
                    Ok(path) => path.place() != request.path@.place() && taken.contains(
                        path.place(),
                    ) && error
                        == ErrorModel::Failed(
                        path.shown() + " already exists; choose Create a copy or rename it."@,
                    ),
                },
            },
            SaveDestination::CreateCopy => {
                ||| copy_of(request.path@, 1, request.container) is Err && error
                    == ErrorModel::Failed(copy_of(request.path@, 1, request.container)->Err_0)
                ||| exists|number: nat| #[trigger]
                    first_free_copy(request.path@, request.container, taken, number) && {
                        let copy = copy_of(request.path@, number, request.container)->Ok_0;
                        match retargeted_for_copy(list, request.path@, copy) {
                            Err(problem) => error == problem,
                            Ok(retargeted) => settled_exports(retargeted, taken, workspace) == Err::<
                                Settled,
                                ErrorModel,
                            >(error),
                        }
                    }
            },
        }
    }
}

/// An edit whose files have their names.
pub struct SettledSession<'a> {
    ready: ReadySession<'a>,
    output_path: FilePath,
    exports: SettledExports,
    taken: Ghost<Seq<Place>>,
}

/// What is known of an edit whose files have their names.
pub ghost struct SettledView {
    pub ready: ReadyView,
    pub taken: Seq<Place>,
    pub output_path: PathModel,
    pub exports: SettledExports,
}

impl SettledView {
    pub open spec fn settled(self) -> bool {
        self.ready.cleared() && saved(self.ready, self.taken, self.output_path, self.exports)
    }

    /// The transaction that publishes the edit, or why it is refused. The media replaces
    /// the source, or stands beside it as a copy.
    pub open spec fn transaction(self, taken: Seq<Place>, cancelled: bool) -> Result<
        TransactionModel,
        ErrorModel,
    > {
        let request = self.ready.files.edit.request;
        prepared(
            match self.ready.temporary() {
                Some(temporary) => Some((temporary, self.output_path)),
                None => None,
            },
            if self.ready.media is Some && request.destination == SaveDestination::ReplaceOriginal {
                Some(request.path@)
            } else {
                None
            },
            publications(self.exports.publications@),
            taken,
            cancelled,
        )
    }
}

impl<'a> View for SettledSession<'a> {
    type V = SettledView;

    closed spec fn view(&self) -> SettledView {
        SettledView {
            ready: self.ready@,
            taken: self.taken@,
            output_path: self.output_path@,
            exports: self.exports,
        }
    }
}

/// Why an edit does not come to naming its files: it is saved as a copy, and the copy or what
/// stands beside it cannot be named.
pub open spec fn unnamed(ready: ReadyView, taken: Seq<Place>) -> bool {
    let request = ready.files.edit.request;
    &&& ready.media is Some
    &&& request.destination == SaveDestination::CreateCopy
    &&& {
        ||| copy_of(request.path@, 1, request.container) is Err
        ||| exists|number: nat| #[trigger]
            first_free_copy(request.path@, request.container, taken, number)
                && retargeted_for_copy(
                ready.files.publications,
                request.path@,
                copy_of(request.path@, number, request.container)->Ok_0,
            ) is Err
    }
}

/// Whether an edit comes to naming its files.
pub open spec fn named(ready: ReadyView, taken: Seq<Place>) -> bool {
    let request = ready.files.edit.request;
    ready.media is Some && request.destination == SaveDestination::CreateCopy ==> exists|
        number: nat,
    | #[trigger]
        first_free_copy(request.path@, request.container, taken, number) && retargeted_for_copy(
            ready.files.publications,
            request.path@,
            copy_of(request.path@, number, request.container)->Ok_0,
        ) is Ok
}

impl<'a> ReadySession<'a> {
    /// What the edit tells of having come this far: nothing where the media stays as it is.
    pub fn reached(&self) -> (result: Option<Moment>)
        ensures
            result == (if self@.media is Some {
                Some(Moment::PermissionsKept)
            } else {
                None
            }),
    {
        proof {
            use_type_invariant(self);
        }
        if self.media.is_some() {
            Some(Moment::PermissionsKept)
        } else {
            None
        }
    }

    /// What the edit tells before its files get their names. `taken` are the files that are
    /// there.
    pub fn names_sought(&self, taken: &[FilePath]) -> (result: Option<Moment>)
        requires
            taken@.len() < usize::MAX,
        ensures
            match result {
                Some(moment) => moment == Moment::NamesSought && named(
                    self@,
                    places(paths(taken@)),
                ),
                None => unnamed(self@, places(paths(taken@))),
            },
    {
        proof {
            use_type_invariant(self);
        }
        let request: &EditRequest = self.files.edit.request;
        if self.media.is_some() && request.destination == SaveDestination::CreateCopy {
            let copy = match next_copy_path(&request.path, request.container, taken) {
                Ok(copy) => copy,
                Err(_) => return None,
            };
            let list = self.files.prepared.publications.as_slice();
            match retarget_publications_for_copy(list, &request.path, &copy) {
                Ok(_) => {},
                Err(_) => return None,
            }
        }
        Some(Moment::NamesSought)
    }

    /// Gives the files of the edit their names. `taken` are the files that are there.
    pub fn settle(self, taken: &[FilePath]) -> (result: Result<SettledSession<'a>, EditError>)
        requires
            taken@.len() < usize::MAX,
        ensures
            match result {
                Ok(session) => {
                    &&& session@.settled()
                    &&& session@.ready == self@
                    &&& session@.taken == places(paths(taken@))
                },
                Err(error) => unsaved(self@, places(paths(taken@)), error@),
            },
    {
        proof {
            use_type_invariant(&self);
        }
        let request: &EditRequest = self.files.edit.request;
        let list = self.files.prepared.publications.as_slice();
        let plan = if self.media.is_none() {
            match resolve_export_duplicates(list, &self.files.workspace, taken) {
                Ok(exports) => SavePlan { output_path: request.path.clone(), exports },
                Err(error) => return Err(error),
            }
        } else {
            let planned = match request.destination {
                SaveDestination::ReplaceOriginal => plan_replacement(
                    &request.path,
                    request.container,
                    list,
                    &self.files.workspace,
                    taken,
                ),
                SaveDestination::CreateCopy => plan_copy(
                    &request.path,
                    request.container,
                    list,
                    &self.files.workspace,
                    taken,
                ),
            };
            match planned {
                Ok(plan) => plan,
                Err(error) => return Err(error),
            }
        };
        Ok(
            SettledSession {
                ready: self,
                output_path: plan.output_path,
                exports: plan.exports,
                taken: Ghost(places(paths(taken@))),
            },
        )
    }
}

/// An edit that is being published.
pub struct PublishingSession {
    transaction: Transaction,
    output_path: FilePath,
    media_changed: bool,
    history: Ghost<SettledView>,
}

/// What is known of an edit that is being published: how it was settled, and how far the
/// transaction has come.
pub ghost struct PublishingView {
    pub settled: SettledView,
    pub transaction: TransactionModel,
}

impl View for PublishingSession {
    type V = PublishingView;

    closed spec fn view(&self) -> PublishingView {
        PublishingView { settled: self.history@, transaction: self.transaction@ }
    }
}

impl<'a> SettledSession<'a> {
    #[verifier::type_invariant]
    spec fn sound(self) -> bool {
        self@.settled()
    }

    /// What the edit tells of having come this far.
    pub fn reached(&self) -> (result: Moment)
        ensures
            result == Moment::NamesSettled,
    {
        Moment::NamesSettled
    }

    /// The copies to make before the edit can be published.
    pub fn copies(&self) -> (result: &Vec<(FilePath, FilePath)>)
        ensures
            *result == self@.exports.copies,
    {
        &self.exports.copies
    }

    /// Prepares the transaction that publishes the edit. `taken` are the files that are
    /// there.
    pub fn publish(self, taken: &[FilePath], cancelled: bool) -> (result: Result<
        PublishingSession,
        EditError,
    >)
        ensures
            self@.settled(),
            match result {
                Ok(session) => {
                    &&& session@.settled == self@
                    &&& self@.transaction(places(paths(taken@)), cancelled) == Ok::<
                        TransactionModel,
                        ErrorModel,
                    >(session@.transaction)
                },
                Err(error) => self@.transaction(places(paths(taken@)), cancelled) == Err::<
                    TransactionModel,
                    ErrorModel,
                >(error@),
            },
    {
        proof {
            use_type_invariant(&self);
            use_type_invariant(&self.ready);
        }
        let request: &EditRequest = self.ready.files.edit.request;
        let media: Option<(&FilePath, &FilePath)> = match &self.ready.media {
            Some(temporary) => Some((temporary, &self.output_path)),
            None => None,
        };
        let removed: Option<&FilePath> = if self.ready.media.is_some() && request.destination
            == SaveDestination::ReplaceOriginal {
            Some(&request.path)
        } else {
            None
        };
        match prepare_transaction(
            media,
            removed,
            self.exports.publications.as_slice(),
            taken,
            cancelled,
        ) {
            Ok(transaction) => {
                let ghost history = self@;
                let media_changed = self.ready.media.is_some();
                Ok(
                    PublishingSession {
                        transaction,
                        output_path: self.output_path,
                        media_changed,
                        history: Ghost(history),
                    },
                )
            },
            Err(error) => Err(error),
        }
    }
}

impl PublishingSession {
    #[verifier::type_invariant]
    spec fn sound(self) -> bool {
        &&& self.transaction.sound()
        &&& self.history@.settled()
        &&& self.output_path@ == self.history@.output_path
        &&& self.media_changed == self.history@.ready.media is Some
    }

    /// What to do next. Only an edit against which nothing stands gets here. A move tells of
    /// the file that it puts in place.
    pub fn next_step(&self) -> (result: TransactionStep)
        ensures
            result@ == self@.transaction.next(),
            self@.settled.ready.cleared(),
            result@ matches StepModel::Move { phase, .. } ==> phase.of_move(),
    {
        proof {
            use_type_invariant(self);
        }
        self.transaction.next_step()
    }

    /// Takes note that the next move was made.
    pub fn step_succeeded(self) -> (result: PublishingSession)
        ensures
            result@.settled == self@.settled,
            result@.transaction == (if self@.transaction.finished() {
                self@.transaction
            } else {
                TransactionModel { done: self@.transaction.done + 1, ..self@.transaction }
            }),
    {
        proof {
            use_type_invariant(&self);
        }
        let mut transaction = self.transaction;
        if transaction.backed_up < transaction.backups.len() || transaction.published
            < transaction.moves.len() {
            transaction.step_succeeded();
        }
        PublishingSession {
            transaction,
            output_path: self.output_path,
            media_changed: self.media_changed,
            history: self.history,
        }
    }

    /// How to undo everything after the next move failed, and the error to report.
    pub fn step_failed(&self, interrupted: bool, reason: &str) -> (result: Rollback)
        ensures
            paths(result.remove@) == self@.transaction.to_remove(),
            path_pairs(result.restore@) == self@.transaction.to_restore(),
            result.error@ == self@.transaction.failure(interrupted, reason@),
    {
        proof {
            use_type_invariant(self);
        }
        self.transaction.step_failed(interrupted, reason)
    }

    /// What the edit came to, once everything is in place.
    pub fn finished(&self) -> (result: Option<EditResult>)
        ensures
            match result {
                Some(result) => {
                    &&& self@.transaction.finished()
                    &&& result.output_path@ == self@.settled.output_path
                    &&& result.media_changed == self@.settled.ready.media is Some
                },
                None => !self@.transaction.finished(),
            },
    {
        proof {
            use_type_invariant(self);
        }
        assert(self@.transaction.backups.len() == self.transaction.backups@.len());
        assert(self@.transaction.moves.len() == self.transaction.moves@.len());
        if self.transaction.backed_up < self.transaction.backups.len()
            || self.transaction.published < self.transaction.moves.len() {
            return None;
        }
        Some(
            EditResult {
                output_path: self.output_path.clone(),
                media_changed: self.media_changed,
            },
        )
    }
}

/// A saved edit of subtitles alone leaves the media where it is; one of the media replaces
/// it under its own name, but for the extension of another container, or stands beside it
/// under a name that was free.
pub proof fn saved_media_has_its_name(
    ready: ReadyView,
    taken: Seq<Place>,
    output_path: PathModel,
    exports: SettledExports,
)
    requires
        saved(ready, taken, output_path, exports),
    ensures
        ({
            let request = ready.files.edit.request;
            let replaces = request.destination == SaveDestination::ReplaceOriginal;
            &&& ready.media is None ==> output_path == request.path@
            &&& ready.media is Some && replaces && request.container is None ==> output_path
                == request.path@
            &&& ready.media is Some && replaces && request.container is Some
                ==> request.path@.directory is Some && request.path@.stem() is Some && output_path
                == in_directory(
                request.path@.directory->0,
                request.path@.stem()->0 + "."@ + request.container->0.extension_text(),
            )
            &&& ready.media is Some && replaces && taken.contains(output_path.place())
                ==> output_path.place() == request.path@.place()
            &&& ready.media is Some && !replaces ==> !taken.contains(output_path.place())
        }),
{
}

/// A save of the media moves the written file to its name first of all, and keeps aside the
/// file that it replaces; a copy takes away no file but those that a publication does.
pub proof fn saves_move_the_written_media(settled: SettledView, taken: Seq<Place>, i: int)
    requires
        settled.transaction(taken, false) is Ok,
    ensures
        ({
            let request = settled.ready.files.edit.request;
            let transaction = settled.transaction(taken, false)->Ok_0;
            let replaces = settled.ready.media is Some && request.destination
                == SaveDestination::ReplaceOriginal;
            let list = publications(settled.exports.publications@);
            &&& transaction.done == 0
            &&& settled.ready.media is Some ==> transaction.moves.len() > 0 && transaction.moves[0]
                == ((settled.ready.media->0).0, settled.output_path)
            &&& replaces && taken.contains(request.path@.place()) ==> exists|k: int|
                0 <= k < transaction.backups.len() && (
                #[trigger] transaction.backups[k]).0.place() == request.path@.place()
            &&& !replaces && 0 <= i < transaction.backups.len() ==> exists|p: int, k: int|
                0 <= p < list.len() && 0 <= k < list[p].remove.len() && (
                #[trigger] list[p].remove[k]).place() == transaction.backups[i].0.place()
        }),
        settled.transaction(taken, true) == Err::<TransactionModel, ErrorModel>(
            ErrorModel::Cancelled,
        ),
{
    let request = settled.ready.files.edit.request;
    let transaction = settled.transaction(taken, false)->Ok_0;
    let replaces = settled.ready.media is Some && request.destination
        == SaveDestination::ReplaceOriginal;
    let list = publications(settled.exports.publications@);
    let removed = if replaces {
        Some(request.path@)
    } else {
        None
    };
    let media = match settled.ready.temporary() {
        Some(temporary) => Some((temporary, settled.output_path)),
        None => None,
    };
    let old = old_paths(removed, list);
    let directory = staging_directory(media, list)->0;
    assert(transaction.backups == backups_of(old, directory, taken));
    everything_replaced_is_taken_away(removed, list, request.path@.place());
    lemma_places(old, request.path@.place());
    if replaces && taken.contains(request.path@.place()) {
        let at = choose|at: int|
            0 <= at < old.len() && (#[trigger] old[at]).place() == request.path@.place();
        old_files_are_kept_aside(old, directory, taken, at);
        let pair = (
            old[at],
            in_directory(directory, "transaction-backup-"@ + decimal(at as nat)),
        );
        let k = transaction.backups.index_of(pair);
        assert(transaction.backups[k].0.place() == request.path@.place());
    }
    if !replaces && 0 <= i < transaction.backups.len() {
        let place = transaction.backups[i].0.place();
        old_files_are_kept_aside(old, directory, taken, i);
        lemma_places(old, place);
        let at = old.index_of(transaction.backups[i].0);
        assert(old[at].place() == place);
        everything_replaced_is_taken_away(removed, list, place);
    }
}

/// What is imported keeps of its names and roles what the container stores, and all else.
pub proof fn imports_keep_what_is_stored(
    imports: Seq<ImportModel>,
    container: ContainerFormat,
    i: int,
)
    requires
        0 <= i < imports.len(),
    ensures
        kept_imports(imports, None).len() == imports.len(),
        kept_imports(imports, None)[i] == imports[i],
        kept_imports(imports, Some(container))[i].metadata == container.kept_subtitle(
            imports[i].metadata,
        ),
        kept_imports(imports, Some(container))[i].source_path == imports[i].source_path,
        kept_imports(imports, Some(container))[i].path == imports[i].path,
        kept_imports(imports, Some(container))[i].target == imports[i].target,
        kept_imports(imports, Some(container))[i].default == imports[i].default,
{
}

/// What stands against a save is told: the exports, the name of the file, or a file that is
/// in its way.
pub proof fn refused_saves_say_why(ready: ReadyView, taken: Seq<Place>, error: ErrorModel)
    requires
        unsaved(ready, taken, error),
        ready.media is Some,
        ready.files.edit.request.destination == SaveDestination::ReplaceOriginal,
        settled_exports(ready.files.publications, taken, ready.files.workspace) is Ok,
        replacement_of(ready.files.edit.request.path@, ready.files.edit.request.container) is Ok,
    ensures
        ({
            let request = ready.files.edit.request;
            let path = replacement_of(request.path@, request.container)->Ok_0;
            &&& taken.contains(path.place())
            &&& path.place() != request.path@.place()
            &&& error == ErrorModel::Failed(
                path.shown() + " already exists; choose Create a copy or rename it."@,
            )
        }),
{
}

/// What is planned, written and checked is what the request says, with the order and the
/// container that the checks left of it.
pub proof fn sessions_keep_to_their_request(files: PreparedView)
    ensures
        files.model().languages == files.edit.languages,
        files.model().source == files.edit.info,
        files.model().order == files.edit.checked.order,
        files.model().container == files.edit.checked.container,
        files.model().chosen == files.edit.request.left_subtitle_order@,
        files.model().defaults == files.edit.request.default_streams@,
        files.model().audio == files.edit.request.audio_settings@,
        files.model().video == files.edit.request.video_settings@,
        files.model().changes == files.edit.request.subtitle_changes@,
        files.model().sidecars == files.edit.request.sidecars@,
        files.model().replacements == files.replacements,
        files.model().imports == files.imports,
        files.edit.request.path@.stem() is Some ==> Some(files.surroundings().stem)
            == files.edit.request.path@.stem(),
        files.edit.request.path@.directory is Some ==> Some(files.surroundings().parent)
            == files.edit.request.path@.directory,
        files.surroundings().media == files.edit.request.path@,
        files.surroundings().info == files.edit.info,
        files.surroundings().sidecars == files.edit.request.sidecars@,
        files.surroundings().default_sidecars == files.edit.request.default_sidecars@,
        files.surroundings().workspace == files.workspace,
        files.surroundings().taken == files.taken,
        file_tags(files.edit.request) == match files.edit.request.container_metadata {
            Some(metadata) => Some(metadata@),
            None => None,
        },
{
}

/// Nothing is ready to be saved before it was checked: the edit, the subtitles made for it,
/// the written media where there is one, and that the sources are still what they were.
pub proof fn ready_edits_were_checked(ready: ReadyView)
    requires
        ready.cleared(),
    ensures
        ({
            let edit = ready.files.edit;
            &&& edit.request.staged().checked(edit.languages, edit.info, edit.states) == Ok::<
                CheckedModel,
                ErrorModel,
            >(edit.checked)
            &&& ready.current == Some(edit.fingerprint)
            &&& edit.checked.media_changed == ready.media is Some
            &&& ready.media is Some ==> output_problem(
                ready.files.model(),
                (ready.media->0).1,
                (ready.media->0).0,
                edit.request.container,
            ) is None
            &&& match edit.preparation(ready.files.workspace, ready.files.taken) {
                Ok(made) => ready.files.steps == made.steps && ready.files.publications
                    == made.publications && replacement_models(ready.files.replacements)
                    == made.replacements && import_models(ready.files.imports) == kept_imports(
                    made.imports,
                    edit.checked.container,
                ),
                Err(_) => false,
            }
        }),
{
}

} // verus!
