//! The steps that prepare the subtitles of an edit, and what they give.

use std::collections::BTreeSet;

use vstd::prelude::*;
use vstd::string::StringExecFns;

use crate::command::Arg;
use crate::convert::{
    always_says, conversions_of_files_read_their_file, conversions_stay_beside_their_output,
    convert_steps, convert_subtitle, copy_steps, copy_subtitle_artifact, extract_steps,
    extract_subtitle, extractions_read_their_track, extractions_stay_beside_their_output,
    push_step, runs_ffmpeg_on, steps, takes_from, told, write_only_in, ConversionInput, InputModel,
    Step, StepView,
};
use crate::names::{input_of, subtitle_input_path};
use crate::path::{
    in_directory, names_stay_in_the_directory, names_tell_files_apart, paths, places, reached,
    FilePath, Part, PathModel, PathText, Place,
};
use crate::plan::{SubtitleImport, SubtitleReplacement};
use crate::probe::{
    find_stream, primary_size, primary_video_resolution, stream_at, stream_metadata, subtitle_tags,
    MediaInfo, Stream,
};
use crate::progress::{
    preparation_phase, subtitle_preparation_phase, EditPhase, Phase, SubtitlePreparation,
};
use crate::publication::{
    artifact_pairs, conversion_destination, path_pairs, publications,
    sidecar_conversion_destination, subtitle_artifact_pairs, Publication, PublicationModel,
};
use crate::sources::{EditError, ErrorModel};
use crate::subtitle::{
    effective_subtitle_metadata, effective_tags, find_sidecar, left_by, sidecar_at,
    sidecar_filename, sidecar_name, staged_metadata_wins, Languages, SidecarEntry, SourceModel,
    SubtitleChange, SubtitleFormat, SubtitleSource, SubtitleTags,
};
use crate::text::{decimal, number_text, numbers_read_back};

verus! {

broadcast use vstd::std_specs::btree::group_btree_axioms;

/// What a [`SubtitleReplacement`] says.
pub ghost struct ReplacementModel {
    pub source_index: u64,
    pub target: SubtitleFormat,
    pub path: PathModel,
}

/// What a [`SubtitleImport`] says.
pub ghost struct ImportModel {
    pub source_path: PathModel,
    pub target: SubtitleFormat,
    pub path: PathModel,
    pub metadata: SubtitleTags,
    pub default: bool,
}

pub open spec fn replacement_models(list: Seq<SubtitleReplacement>) -> Seq<ReplacementModel> {
    list.map_values(
        |item: SubtitleReplacement| ReplacementModel {
            source_index: item.source_index,
            target: item.target,
            path: item.path@,
        },
    )
}

pub open spec fn import_models(list: Seq<SubtitleImport>) -> Seq<ImportModel> {
    list.map_values(
        |item: SubtitleImport| ImportModel {
            source_path: item.source_path@,
            target: item.target,
            path: item.path@,
            metadata: item.metadata@,
            default: item.default,
        },
    )
}

/// The steps that prepare subtitles, and what is there once they are carried out: converted
/// tracks, files to import, and files to publish.
#[derive(Debug, Eq, PartialEq)]
pub struct PreparedSubtitles {
    pub steps: Vec<Step>,
    pub replacements: Vec<SubtitleReplacement>,
    pub imports: Vec<SubtitleImport>,
    pub publications: Vec<Publication>,
}

/// What a [`PreparedSubtitles`] holds.
pub ghost struct PreparedModel {
    pub steps: Seq<StepView>,
    pub replacements: Seq<ReplacementModel>,
    pub imports: Seq<ImportModel>,
    pub publications: Seq<PublicationModel>,
}

impl View for PreparedSubtitles {
    type V = PreparedModel;

    open spec fn view(&self) -> PreparedModel {
        PreparedModel {
            steps: steps(self.steps@),
            replacements: replacement_models(self.replacements@),
            imports: import_models(self.imports@),
            publications: publications(self.publications@),
        }
    }
}

impl PreparedModel {
    pub open spec fn and_steps(self, more: Seq<StepView>) -> PreparedModel {
        PreparedModel { steps: self.steps + more, ..self }
    }

    pub open spec fn and_replacement(self, replacement: ReplacementModel) -> PreparedModel {
        PreparedModel { replacements: self.replacements.push(replacement), ..self }
    }

    pub open spec fn and_import(self, import: ImportModel) -> PreparedModel {
        PreparedModel { imports: self.imports.push(import), ..self }
    }

    pub open spec fn and_publication(self, publication: PublicationModel) -> PreparedModel {
        PreparedModel { publications: self.publications.push(publication), ..self }
    }

    /// Whether the steps end in a failure.
    pub open spec fn failed(self) -> bool {
        self.steps.len() > 0 && self.steps.last() is Fail
    }
}

impl PreparedSubtitles {
    fn push_replacement(&mut self, source_index: u64, target: SubtitleFormat, path: &FilePath)
        ensures
            final(self)@ == old(self)@.and_replacement(
                (ReplacementModel { source_index, target, path: path@ }),
            ),
    {
        let ghost before = self.replacements@;
        let replacement = SubtitleReplacement { source_index, target, path: path.clone() };
        self.replacements.push(replacement);
        assert(replacement_models(self.replacements@) =~= replacement_models(before).push(
            ReplacementModel { source_index, target, path: path@ },
        ));
    }

    fn push_import(&mut self, import: SubtitleImport)
        ensures
            final(self)@ == old(self)@.and_import(
                (ImportModel {
                    source_path: import.source_path@,
                    target: import.target,
                    path: import.path@,
                    metadata: import.metadata@,
                    default: import.default,
                }),
            ),
    {
        let ghost before = self.imports@;
        self.imports.push(import);
        assert(import_models(self.imports@) =~= import_models(before).push(
            ImportModel {
                source_path: import.source_path@,
                target: import.target,
                path: import.path@,
                metadata: import.metadata@,
                default: import.default,
            },
        ));
    }

    fn push_publication(&mut self, publication: Publication)
        ensures
            final(self)@ == old(self)@.and_publication(publication@),
    {
        let ghost before = self.publications@;
        self.publications.push(publication);
        assert(publications(self.publications@) =~= publications(before).push(publication@));
    }
}

/// What the preparation of a change reads besides the change.
pub ghost struct Surroundings {
    pub languages: Languages,
    pub media: PathModel,
    pub stem: Seq<char>,
    pub parent: Part,
    pub info: MediaInfo,
    pub sidecars: Seq<SidecarEntry>,
    pub default_sidecars: Set<usize>,
    pub workspace: Part,
    pub taken: Seq<Place>,
}

impl Surroundings {
    /// The size that pictures are drawn for.
    pub open spec fn resolution(self) -> (u64, u64) {
        match primary_size(self.info.streams@) {
            Some(size) => size,
            None => (1920, 1080),
        }
    }

    /// A work file of a job.
    pub open spec fn work_file(self, before: Seq<char>, job: nat, after: Seq<char>) -> PathModel {
        in_directory(self.workspace, before + decimal(job) + after)
    }

    /// Work files are in the workspace.
    proof fn lemma_work_file(self, before: Seq<char>, job: nat, after: Seq<char>)
        ensures
            self.work_file(before, job, after).lies_in(self.workspace),
    {
        names_stay_in_the_directory(self.workspace, before + decimal(job) + after);
    }
}

/// The extension of a format, with its dot.
pub open spec fn dotted(format: SubtitleFormat) -> Seq<char> {
    "."@ + format.extension_text()
}

/// What a progress line calls an embedded subtitle.
pub open spec fn track_subject(index: u64) -> Seq<char> {
    "subtitle #"@ + decimal(index as nat)
}

/// The steps after a subtitle was written: what is reported and checked.
pub open spec fn check_steps(subject: Seq<char>, path: PathModel, target: SubtitleFormat) -> Seq<
    StepView,
> {
    seq![
        StepView::Report(Phase::ValidateSubtitle(subject)),
        StepView::Validate { path, target },
    ]
}

/// The step that makes sure of the companion of a two-file subtitle.
pub open spec fn companion_steps(staged: PathModel, target: SubtitleFormat) -> Seq<StepView> {
    if target == SubtitleFormat::VobSub {
        seq![StepView::RequireCompanion(staged.with_extension("idx"@))]
    } else {
        Seq::empty()
    }
}

/// The steps that rewrite cues.
pub open spec fn rewrite_steps(
    subject: Seq<char>,
    position: int,
    from: PathModel,
    to: PathModel,
) -> Seq<StepView> {
    seq![
        StepView::Report(Phase::RewriteCues(subject)),
        StepView::RewriteCues { change: position, from, to },
    ]
}

// Embedded subtitles.

/// The rewriting of the cues of an embedded subtitle: the track comes out, is rewritten,
/// and goes back in as a replacement.
pub open spec fn with_rewritten_track(
    prepared: PreparedModel,
    around: Surroundings,
    index: u64,
    position: int,
    job: nat,
) -> PreparedModel {
    let subject = track_subject(index);
    let extracted = around.work_file("cues-"@, job, "-in.srt"@);
    let staged = around.work_file("cues-"@, job, ".srt"@);
    prepared.and_steps(
        extract_steps(
            InputModel::Embedded { media: around.media, index },
            extracted,
            SubtitleFormat::SubRip,
            subject,
        ),
    ).and_steps(rewrite_steps(subject, position, extracted, staged)).and_steps(
        check_steps(subject, staged, SubtitleFormat::SubRip),
    ).and_replacement(
        ReplacementModel { source_index: index, target: SubtitleFormat::SubRip, path: staged },
    )
}

/// The work file of a converted track.
pub open spec fn embedded_file(
    around: Surroundings,
    index: u64,
    job: nat,
    target: SubtitleFormat,
) -> PathModel {
    around.work_file("embedded-"@, job, "-"@ + decimal(index as nat) + dotted(target))
}

/// The conversion of an embedded subtitle that stays in the media.
pub open spec fn with_converted_track(
    prepared: PreparedModel,
    around: Surroundings,
    change: SubtitleChange,
    index: u64,
    job: nat,
    target: SubtitleFormat,
) -> PreparedModel {
    let subject = track_subject(index);
    let staged = embedded_file(around, index, job, target);
    prepared.and_steps(
        seq![
            StepView::Report(
                preparation_phase(subject, change, target, SubtitlePreparation::Embed),
            ),
        ],
    ).and_steps(
        convert_steps(
            InputModel::Embedded { media: around.media, index },
            change,
            target,
            staged,
            around.resolution(),
            subject,
        ),
    ).and_steps(check_steps(subject, staged, target)).and_replacement(
        ReplacementModel { source_index: index, target, path: staged },
    )
}

/// The file of an embedded subtitle that an export can be copied from: the last one that
/// was made, in its format.
pub open spec fn made_file(
    around: Surroundings,
    change: SubtitleChange,
    index: u64,
    job: nat,
) -> Option<(SubtitleFormat, PathModel)> {
    if change.embedded_target is Some && change.export_target is None {
        Some(
            (
                change.embedded_target->0,
                embedded_file(around, index, job, change.embedded_target->0),
            ),
        )
    } else if change.cue_edits@.len() > 0 {
        Some((SubtitleFormat::SubRip, around.work_file("cues-"@, job, ".srt"@)))
    } else {
        None
    }
}

/// The export of an embedded subtitle.
pub open spec fn with_export(
    prepared: PreparedModel,
    around: Surroundings,
    change: SubtitleChange,
    stream: Stream,
    index: u64,
    job: nat,
    target: SubtitleFormat,
) -> PreparedModel {
    let subject = track_subject(index);
    let staged = around.work_file("export-"@, job, dotted(target));
    let tags = effective_tags(around.languages, change, subtitle_tags(stream));
    let made = made_file(around, change, index, job);
    let destination = reached(
        around.parent,
        sidecar_name(
            around.stem,
            tags.language,
            tags.forced,
            tags.cc || tags.hearing_impaired,
            None,
            target,
        ),
    );
    prepared.and_steps(
        seq![
            StepView::Report(
                preparation_phase(subject, change, target, SubtitlePreparation::Export),
            ),
        ],
    ).and_steps(
        if made is Some && (made->0).0 == target {
            copy_steps((made->0).1, staged, target, subject)
        } else {
            convert_steps(
                InputModel::Embedded { media: around.media, index },
                change,
                target,
                staged,
                around.resolution(),
                subject,
            )
        },
    ).and_steps(check_steps(subject, staged, target)).and_steps(
        companion_steps(staged, target),
    ).and_publication(
        PublicationModel {
            staged: artifact_pairs(staged, destination, target),
            remove: Seq::empty(),
        },
    )
}

/// Everything for a change of an embedded subtitle.
pub open spec fn with_track(
    prepared: PreparedModel,
    around: Surroundings,
    change: SubtitleChange,
    stream: Stream,
    index: u64,
    position: int,
    job: nat,
) -> PreparedModel {
    let rewritten = if change.cue_edits@.len() > 0 {
        with_rewritten_track(prepared, around, index, position, job)
    } else {
        prepared
    };
    let converted = if change.embedded_target is Some && change.export_target is None {
        with_converted_track(
            rewritten,
            around,
            change,
            index,
            job,
            change.embedded_target->0,
        )
    } else {
        rewritten
    };
    match change.export_target {
        Some(target) => with_export(converted, around, change, stream, index, job, target),
        None => converted,
    }
}

// Sidecars.

/// A file's name, where it is valid text.
pub open spec fn sidecar_subject(path: PathModel) -> Seq<char> {
    match path.name_text() {
        Some(name) => name,
        None => "sidecar"@,
    }
}

/// Whether a change of a sidecar only rewrites its cues: the file stays under its name.
pub open spec fn stays_in_place(change: SubtitleChange) -> bool {
    &&& change.cue_edits@.len() > 0
    &&& !change.import_into_media
    &&& change.metadata is None
    &&& change.embedded_target is None || change.embedded_target == Some(change.source_format)
}

/// The format that a sidecar ends up in.
pub open spec fn sidecar_target(change: SubtitleChange) -> SubtitleFormat {
    match change.embedded_target {
        Some(target) => target,
        None => change.source_format,
    }
}

/// The steps that copy or convert a file.
pub open spec fn file_steps(
    path: PathModel,
    change: SubtitleChange,
    target: SubtitleFormat,
    staged: PathModel,
    resolution: (u64, u64),
    subject: Seq<char>,
) -> Seq<StepView> {
    if target == change.source_format {
        copy_steps(path, staged, target, subject)
    } else {
        convert_steps(InputModel::File(path), change, target, staged, resolution, subject)
    }
}

/// The import of a sidecar into the media.
pub open spec fn with_sidecar_import(
    prepared: PreparedModel,
    around: Surroundings,
    change: SubtitleChange,
    sidecar: SidecarEntry,
    sidecar_position: int,
    path: PathModel,
    job: nat,
) -> PreparedModel {
    let target = sidecar_target(change);
    let subject = sidecar_subject(path);
    let staged = around.work_file("import-"@, job, dotted(target));
    let input = input_of(staged, target);
    prepared.and_steps(
        seq![
            StepView::Report(
                preparation_phase(subject, change, target, SubtitlePreparation::Import),
            ),
        ],
    ).and_steps(
        file_steps(path, change, target, staged, around.resolution(), subject),
    ).and_steps(check_steps(subject, input, target)).and_import(
        ImportModel {
            source_path: sidecar.path@,
            target,
            path: input,
            metadata: effective_tags(around.languages, change, sidecar.tags()),
            default: around.default_sidecars.contains(sidecar_position as usize),
        },
    ).and_publication(PublicationModel { staged: Seq::empty(), remove: sidecar.files() })
}

/// Where a changed sidecar goes.
pub open spec fn sidecar_destination(
    prepared: PreparedModel,
    around: Surroundings,
    change: SubtitleChange,
    sidecar: SidecarEntry,
) -> Result<PathModel, ErrorModel> {
    let target = sidecar_target(change);
    let tags = effective_tags(around.languages, change, sidecar.tags());
    conversion_destination(
        reached(
            around.parent,
            sidecar_name(
                around.stem,
                tags.language,
                tags.forced,
                tags.cc || tags.hearing_impaired,
                if change.embedded_target is None {
                    sidecar.number
                } else {
                    None
                },
                target,
            ),
        ),
        sidecar.files(),
        target,
        prepared.publications,
        around.taken,
    )
}

/// The change of a sidecar that stays beside the media.
pub open spec fn with_changed_sidecar(
    prepared: PreparedModel,
    around: Surroundings,
    change: SubtitleChange,
    sidecar: SidecarEntry,
    path: PathModel,
    job: nat,
) -> PreparedModel {
    let target = sidecar_target(change);
    let subject = sidecar_subject(path);
    let staged = around.work_file("sidecar-"@, job, dotted(target));
    let reported = prepared.and_steps(
        seq![
            StepView::Report(
                preparation_phase(subject, change, target, SubtitlePreparation::Sidecar),
            ),
        ],
    );
    match sidecar_destination(reported, around, change, sidecar) {
        Err(error) => reported.and_steps(seq![StepView::Fail(error)]),
        Ok(destination) => reported.and_steps(
            file_steps(path, change, target, staged, around.resolution(), subject),
        ).and_steps(check_steps(subject, staged, target)).and_steps(
            companion_steps(staged, target),
        ).and_publication(
            PublicationModel {
                staged: artifact_pairs(staged, destination, target),
                remove: sidecar.files(),
            },
        ),
    }
}

/// Everything for a change of a sidecar.
pub open spec fn with_sidecar(
    prepared: PreparedModel,
    around: Surroundings,
    change: SubtitleChange,
    sidecar_position: int,
    position: int,
    job: nat,
) -> PreparedModel {
    let sidecar = around.sidecars[sidecar_position];
    let own = sidecar.path@;
    let staged = around.work_file("cues-"@, job, ".srt"@);
    let rewritten = if change.cue_edits@.len() > 0 {
        prepared.and_steps(rewrite_steps(sidecar_subject(own), position, own, staged))
    } else {
        prepared
    };
    let path = if change.cue_edits@.len() > 0 {
        staged
    } else {
        own
    };
    if stays_in_place(change) {
        rewritten.and_publication(
            PublicationModel { staged: seq![(path, own)], remove: sidecar.files() },
        )
    } else if change.import_into_media {
        with_sidecar_import(rewritten, around, change, sidecar, sidecar_position, path, job)
    } else {
        with_changed_sidecar(rewritten, around, change, sidecar, path, job)
    }
}

// All changes.

/// Whether the source of a change is there.
pub open spec fn source_is_there(
    info: MediaInfo,
    sidecars: Seq<SidecarEntry>,
    change: SubtitleChange,
) -> bool {
    match change.source@ {
        SourceModel::Embedded(index) => stream_at(info.streams@, index) is Some,
        SourceModel::Sidecar(place) => sidecar_at(sidecars, place) is Some,
    }
}

/// Everything for one change.
pub open spec fn with_change(
    prepared: PreparedModel,
    around: Surroundings,
    change: SubtitleChange,
    position: int,
    job: nat,
) -> PreparedModel {
    let started = prepared.and_steps(seq![StepView::CheckCancelled]);
    match change.source@ {
        SourceModel::Embedded(index) => with_track(
            started,
            around,
            change,
            stream_at(around.info.streams@, index)->0,
            index,
            position,
            job,
        ),
        SourceModel::Sidecar(path) => with_sidecar(
            started,
            around,
            change,
            sidecar_at(around.sidecars, path)->0,
            position,
            job,
        ),
    }
}

/// How many changes have an effect.
pub open spec fn effective_count(changes: Seq<SubtitleChange>) -> nat
    decreases changes.len(),
{
    if changes.len() == 0 {
        0
    } else if changes.last().effective() {
        effective_count(changes.drop_last()) + 1
    } else {
        effective_count(changes.drop_last())
    }
}

/// Nothing prepared.
pub open spec fn nothing_prepared() -> PreparedModel {
    PreparedModel {
        steps: Seq::empty(),
        replacements: Seq::empty(),
        imports: Seq::empty(),
        publications: Seq::empty(),
    }
}

/// Everything for some changes, one after another, up to the first failure.
pub open spec fn with_changes(around: Surroundings, changes: Seq<SubtitleChange>) -> PreparedModel
    decreases changes.len(),
{
    if changes.len() == 0 {
        nothing_prepared()
    } else {
        let before = with_changes(around, changes.drop_last());
        if changes.last().effective() && !before.failed() {
            with_change(
                before,
                around,
                changes.last(),
                changes.len() - 1,
                effective_count(changes.drop_last()),
            )
        } else {
            before
        }
    }
}

fn work_file(workspace: &PathText, before: &str, job: u64, after: &str) -> (result: FilePath)
    ensures
        result@ == in_directory(workspace@, before@ + decimal(job as nat) + after@),
{
    let mut name = before.to_owned();
    name.append(number_text(job).as_str());
    name.append(after);
    FilePath::inside(workspace, name.as_str())
}

fn dotted_extension(format: SubtitleFormat) -> (result: String)
    ensures
        result@ == dotted(format),
{
    let mut text = ".".to_owned();
    text.append(format.extension());
    text
}

/// What the preparation of a change reads besides the change.
struct Bench<'a> {
    languages: &'a Languages,
    media: &'a FilePath,
    stem: &'a str,
    parent: &'a PathText,
    info: &'a MediaInfo,
    sidecars: &'a [SidecarEntry],
    default_sidecars: &'a BTreeSet<usize>,
    workspace: &'a PathText,
    taken: &'a [FilePath],
    resolution: (u64, u64),
}

impl<'a> Bench<'a> {
    spec fn around(self) -> Surroundings {
        Surroundings {
            languages: *self.languages,
            media: self.media@,
            stem: self.stem@,
            parent: self.parent@,
            info: *self.info,
            sidecars: self.sidecars@,
            default_sidecars: self.default_sidecars@,
            workspace: self.workspace@,
            taken: places(paths(self.taken@)),
        }
    }

    spec fn sound(self) -> bool {
        self.resolution == self.around().resolution()
    }
}

fn push_check(list: &mut Vec<Step>, subject: &str, path: &FilePath, target: SubtitleFormat)
    ensures
        steps(final(list)@) == steps(old(list)@) + check_steps(subject@, path@, target),
{
    let ghost before = steps(list@);
    push_step(list, Step::Report(EditPhase::ValidateSubtitle(subject.to_owned())));
    push_step(list, Step::Validate { path: path.clone(), target });
    assert(steps(list@) =~= before + check_steps(subject@, path@, target));
}

fn push_companion(list: &mut Vec<Step>, staged: &FilePath, target: SubtitleFormat)
    ensures
        steps(final(list)@) == steps(old(list)@) + companion_steps(staged@, target),
{
    let ghost before = steps(list@);
    if target == SubtitleFormat::VobSub {
        push_step(list, Step::RequireCompanion(staged.with_extension("idx")));
    }
    assert(steps(list@) =~= before + companion_steps(staged@, target));
}

fn push_rewrite(
    list: &mut Vec<Step>,
    subject: &str,
    position: usize,
    from: &FilePath,
    to: &FilePath,
)
    ensures
        steps(final(list)@) == steps(old(list)@) + rewrite_steps(
            subject@,
            position as int,
            from@,
            to@,
        ),
{
    let ghost before = steps(list@);
    push_step(list, Step::Report(EditPhase::RewriteCues(subject.to_owned())));
    push_step(list, Step::RewriteCues { change: position, from: from.clone(), to: to.clone() });
    assert(steps(list@) =~= before + rewrite_steps(subject@, position as int, from@, to@));
}

fn push_report(list: &mut Vec<Step>, phase: EditPhase)
    ensures
        steps(final(list)@) == steps(old(list)@) + seq![StepView::Report(phase@)],
{
    let ghost before = steps(list@);
    push_step(list, Step::Report(phase));
    assert(steps(list@) =~= before + seq![StepView::Report(phase@)]);
}

fn prepare_track(
    prepared: &mut PreparedSubtitles,
    place: &Bench<'_>,
    change: &SubtitleChange,
    index: u64,
    position: usize,
    job: u64,
)
    requires
        place.sound(),
        stream_at(place.info.streams@, index) is Some,
    ensures
        final(prepared)@ == with_track(
            old(prepared)@,
            place.around(),
            *change,
            stream_at(place.info.streams@, index)->0,
            index,
            position as int,
            job as nat,
        ),
{
    let ghost around = place.around();
    let stream: &Stream = find_stream(place.info, index).unwrap();
    let metadata = effective_subtitle_metadata(place.languages, change, stream_metadata(stream));
    let mut subject = "subtitle #".to_owned();
    subject.append(number_text(index).as_str());
    let input = ConversionInput::Embedded { media: place.media, index };
    let mut made: Option<(SubtitleFormat, FilePath)> = None;
    let ghost start = prepared@;
    if change.cue_edits.len() > 0 {
        let extracted = work_file(place.workspace, "cues-", job, "-in.srt");
        let staged = work_file(place.workspace, "cues-", job, ".srt");
        extract_subtitle(
            &mut prepared.steps,
            input,
            &extracted,
            SubtitleFormat::SubRip,
            subject.as_str(),
        );
        push_rewrite(&mut prepared.steps, subject.as_str(), position, &extracted, &staged);
        push_check(&mut prepared.steps, subject.as_str(), &staged, SubtitleFormat::SubRip);
        prepared.push_replacement(index, SubtitleFormat::SubRip, &staged);
        assert(prepared@ == with_rewritten_track(
            start,
            around,
            index,
            position as int,
            job as nat,
        ));
        made = Some((SubtitleFormat::SubRip, staged));
    }
    let ghost rewritten = prepared@;
    if let Some(target) = change.embedded_target {
        if change.export_target.is_none() {
            push_report(
                &mut prepared.steps,
                subtitle_preparation_phase(
                    subject.as_str(),
                    change,
                    target,
                    SubtitlePreparation::Embed,
                ),
            );
            let mut suffix = "-".to_owned();
            suffix.append(number_text(index).as_str());
            suffix.append(dotted_extension(target).as_str());
            let staged = work_file(place.workspace, "embedded-", job, suffix.as_str());
            convert_subtitle(
                &mut prepared.steps,
                input,
                change,
                target,
                &staged,
                place.resolution,
                subject.as_str(),
            );
            push_check(&mut prepared.steps, subject.as_str(), &staged, target);
            prepared.push_replacement(index, target, &staged);
            assert(staged@ == embedded_file(around, index, job as nat, target));
            assert(prepared@ == with_converted_track(
                rewritten,
                around,
                *change,
                index,
                job as nat,
                target,
            ));
            made = Some((target, staged));
        }
    }
    let ghost converted = prepared@;
    assert(match made {
        Some(made) => made_file(around, *change, index, job as nat) == Some((made.0, made.1@)),
        None => made_file(around, *change, index, job as nat) is None,
    });
    if let Some(target) = change.export_target {
        push_report(
            &mut prepared.steps,
            subtitle_preparation_phase(
                subject.as_str(),
                change,
                target,
                SubtitlePreparation::Export,
            ),
        );
        let name = sidecar_filename(
            place.stem,
            metadata.language.as_str(),
            metadata.forced,
            metadata.cc || metadata.hearing_impaired,
            None,
            target,
        );
        let staged = work_file(
            place.workspace,
            "export-",
            job,
            dotted_extension(target).as_str(),
        );
        let mut copied: bool = false;
        if let Some((format, path)) = &made {
            if *format == target {
                copy_subtitle_artifact(
                    &mut prepared.steps,
                    path,
                    &staged,
                    target,
                    subject.as_str(),
                );
                copied = true;
            }
        }
        if !copied {
            convert_subtitle(
                &mut prepared.steps,
                input,
                change,
                target,
                &staged,
                place.resolution,
                subject.as_str(),
            );
        }
        push_check(&mut prepared.steps, subject.as_str(), &staged, target);
        push_companion(&mut prepared.steps, &staged, target);
        let destination = FilePath::from_directory(place.parent, name.as_str());
        if let Ok(pairs) = subtitle_artifact_pairs(&staged, &destination, target, true) {
            let publication = Publication { staged: pairs, remove: Vec::new() };
            assert(publication@.remove =~= Seq::<PathModel>::empty());
            prepared.push_publication(publication);
        }
        assert(prepared@ == with_export(
            converted,
            around,
            *change,
            *stream,
            index,
            job as nat,
            target,
        ));
    }
}

fn push_file_steps(
    list: &mut Vec<Step>,
    path: &FilePath,
    change: &SubtitleChange,
    target: SubtitleFormat,
    staged: &FilePath,
    resolution: (u64, u64),
    subject: &str,
)
    requires
        staged@.directory is Some,
    ensures
        steps(final(list)@) == steps(old(list)@) + file_steps(
            path@,
            *change,
            target,
            staged@,
            resolution,
            subject@,
        ),
{
    if target == change.source_format {
        copy_subtitle_artifact(list, path, staged, target, subject);
    } else {
        convert_subtitle(
            list,
            ConversionInput::File(path),
            change,
            target,
            staged,
            resolution,
            subject,
        );
    }
}

fn subject_of(path: &FilePath) -> (result: String)
    ensures
        result@ == sidecar_subject(path@),
{
    match path.name_text() {
        Some(name) => name,
        None => "sidecar".to_owned(),
    }
}

fn prepare_import(
    prepared: &mut PreparedSubtitles,
    place: &Bench<'_>,
    change: &SubtitleChange,
    sidecar_position: usize,
    path: &FilePath,
    job: u64,
)
    requires
        place.sound(),
        sidecar_position < place.sidecars@.len(),
    ensures
        final(prepared)@ == with_sidecar_import(
            old(prepared)@,
            place.around(),
            *change,
            place.sidecars@[sidecar_position as int],
            sidecar_position as int,
            path@,
            job as nat,
        ),
{
    let ghost start = prepared@;
    let sidecar = &place.sidecars[sidecar_position];
    let metadata = effective_subtitle_metadata(place.languages, change, sidecar.metadata());
    let target = match change.embedded_target {
        Some(target) => target,
        None => change.source_format,
    };
    let subject = subject_of(path);
    push_report(
        &mut prepared.steps,
        subtitle_preparation_phase(subject.as_str(), change, target, SubtitlePreparation::Import),
    );
    let staged = work_file(place.workspace, "import-", job, dotted_extension(target).as_str());
    push_file_steps(
        &mut prepared.steps,
        path,
        change,
        target,
        &staged,
        place.resolution,
        subject.as_str(),
    );
    let input = subtitle_input_path(&staged, target);
    push_check(&mut prepared.steps, subject.as_str(), &input, target);
    prepared.push_import(
        SubtitleImport {
            source_path: sidecar.path.clone(),
            target,
            path: input,
            metadata,
            default: place.default_sidecars.contains(&sidecar_position),
        },
    );
    let publication = Publication { staged: Vec::new(), remove: sidecar.source_paths() };
    assert(publication@.staged =~= Seq::<(PathModel, PathModel)>::empty());
    prepared.push_publication(publication);
    assert(prepared@ == with_sidecar_import(
        start,
        place.around(),
        *change,
        *sidecar,
        sidecar_position as int,
        path@,
        job as nat,
    ));
}

fn prepare_changed_sidecar(
    prepared: &mut PreparedSubtitles,
    place: &Bench<'_>,
    change: &SubtitleChange,
    sidecar: &SidecarEntry,
    path: &FilePath,
    job: u64,
)
    requires
        place.sound(),
    ensures
        final(prepared)@ == with_changed_sidecar(
            old(prepared)@,
            place.around(),
            *change,
            *sidecar,
            path@,
            job as nat,
        ),
{
    let ghost start = prepared@;
    let metadata = effective_subtitle_metadata(place.languages, change, sidecar.metadata());
    let target = match change.embedded_target {
        Some(target) => target,
        None => change.source_format,
    };
    let subject = subject_of(path);
    push_report(
        &mut prepared.steps,
        subtitle_preparation_phase(subject.as_str(), change, target, SubtitlePreparation::Sidecar),
    );
    let number: Option<u32> = if change.embedded_target.is_none() {
        sidecar.number
    } else {
        None
    };
    let name = sidecar_filename(
        place.stem,
        metadata.language.as_str(),
        metadata.forced,
        metadata.cc || metadata.hearing_impaired,
        number,
        target,
    );
    let base = FilePath::from_directory(place.parent, name.as_str());
    match sidecar_conversion_destination(
        &base,
        sidecar,
        target,
        prepared.publications.as_slice(),
        place.taken,
    ) {
        Err(error) => {
            let ghost before = steps(prepared.steps@);
            push_step(&mut prepared.steps, Step::Fail(error));
            assert(steps(prepared.steps@) =~= before + seq![StepView::Fail(error@)]);
        },
        Ok(destination) => {
            let staged = work_file(
                place.workspace,
                "sidecar-",
                job,
                dotted_extension(target).as_str(),
            );
            push_file_steps(
                &mut prepared.steps,
                path,
                change,
                target,
                &staged,
                place.resolution,
                subject.as_str(),
            );
            push_check(&mut prepared.steps, subject.as_str(), &staged, target);
            push_companion(&mut prepared.steps, &staged, target);
            if let Ok(pairs) = subtitle_artifact_pairs(&staged, &destination, target, true) {
                prepared.push_publication(
                    Publication { staged: pairs, remove: sidecar.source_paths() },
                );
            }
        },
    }
    assert(prepared@ == with_changed_sidecar(
        start,
        place.around(),
        *change,
        *sidecar,
        path@,
        job as nat,
    ));
}

fn keeps_place(change: &SubtitleChange) -> (result: bool)
    ensures
        result == stays_in_place(*change),
{
    let same_format = match change.embedded_target {
        Some(target) => target == change.source_format,
        None => true,
    };
    change.cue_edits.len() > 0 && !change.import_into_media && change.metadata.is_none()
        && same_format
}

fn prepare_sidecar(
    prepared: &mut PreparedSubtitles,
    place: &Bench<'_>,
    change: &SubtitleChange,
    sidecar_position: usize,
    position: usize,
    job: u64,
)
    requires
        place.sound(),
        sidecar_position < place.sidecars@.len(),
    ensures
        final(prepared)@ == with_sidecar(
            old(prepared)@,
            place.around(),
            *change,
            sidecar_position as int,
            position as int,
            job as nat,
        ),
{
    let sidecar = &place.sidecars[sidecar_position];
    let staged = work_file(place.workspace, "cues-", job, ".srt");
    let rewrites: bool = change.cue_edits.len() > 0;
    if rewrites {
        let subject = subject_of(&sidecar.path);
        push_rewrite(&mut prepared.steps, subject.as_str(), position, &sidecar.path, &staged);
    }
    let path: FilePath = if rewrites {
        staged
    } else {
        sidecar.path.clone()
    };
    if keeps_place(change) {
        let mut pairs: Vec<(FilePath, FilePath)> = Vec::new();
        let ghost pair = (path@, sidecar.path@);
        pairs.push((path, sidecar.path.clone()));
        assert(path_pairs(pairs@) =~= seq![pair]);
        prepared.push_publication(
            Publication { staged: pairs, remove: sidecar.source_paths() },
        );
    } else if change.import_into_media {
        prepare_import(prepared, place, change, sidecar_position, &path, job);
    } else {
        prepare_changed_sidecar(prepared, place, change, sidecar, &path, job);
    }
}

proof fn lemma_sidecar_at(sidecars: Seq<SidecarEntry>, place: Place)
    ensures
        sidecar_at(sidecars, place) is Some ==> 0 <= sidecar_at(sidecars, place)->0 < sidecars.len()
            && sidecars[sidecar_at(sidecars, place)->0].path@.place() == place,
    decreases sidecars.len(),
{
    if sidecars.len() > 0 && sidecars[0].path@.place() != place {
        lemma_sidecar_at(sidecars.skip(1), place);
    }
}

fn has_failed(prepared: &PreparedSubtitles) -> (result: bool)
    ensures
        result == prepared@.failed(),
{
    assert(prepared@.steps.len() == prepared.steps@.len());
    if prepared.steps.len() == 0 {
        return false;
    }
    assert(prepared@.steps.last() == prepared.steps@.last()@);
    matches!(prepared.steps[prepared.steps.len() - 1], Step::Fail(_))
}

/// What the preparation of some changes comes to, or why it cannot begin.
pub open spec fn preparation(
    languages: Languages,
    media: PathModel,
    info: MediaInfo,
    changes: Seq<SubtitleChange>,
    sidecars: Seq<SidecarEntry>,
    default_sidecars: Set<usize>,
    workspace: Part,
    taken: Seq<Place>,
) -> Result<PreparedModel, ErrorModel> {
    match (media.stem(), media.directory) {
        (None, _) => Err(ErrorModel::Failed("The media filename is not valid UTF-8."@)),
        (_, None) => Err(ErrorModel::Failed("The media file has no parent directory."@)),
        (Some(stem), Some(parent)) => Ok(
            with_changes(
                Surroundings {
                    languages,
                    media,
                    stem,
                    parent,
                    info,
                    sidecars,
                    default_sidecars,
                    workspace,
                    taken,
                },
                changes,
            ),
        ),
    }
}

/// Lists the steps that prepare the subtitles of an edit and what they give. `taken` are
/// the files beside the media.
pub fn prepare_subtitle_changes(
    languages: &Languages,
    media_path: &FilePath,
    info: &MediaInfo,
    changes: &[SubtitleChange],
    sidecars: &[SidecarEntry],
    default_sidecars: &BTreeSet<usize>,
    workspace: &PathText,
    taken: &[FilePath],
) -> (result: Result<PreparedSubtitles, EditError>)
    requires
        forall|i: int|
            0 <= i < changes@.len() && (#[trigger] changes@[i]).effective() ==> source_is_there(
                *info,
                sidecars@,
                changes@[i],
            ),
    ensures
        match result {
            Ok(prepared) => preparation(
                *languages,
                media_path@,
                *info,
                changes@,
                sidecars@,
                default_sidecars@,
                workspace@,
                places(paths(taken@)),
            ) == Ok::<PreparedModel, ErrorModel>(prepared@),
            Err(error) => preparation(
                *languages,
                media_path@,
                *info,
                changes@,
                sidecars@,
                default_sidecars@,
                workspace@,
                places(paths(taken@)),
            ) == Err::<PreparedModel, ErrorModel>(error@),
        },
{
    let stem = match media_path.stem() {
        Some(stem) => stem,
        None => return Err(EditError::Failed("The media filename is not valid UTF-8.".to_owned())),
    };
    let parent = match &media_path.directory {
        Some(parent) => parent,
        None => return Err(
            EditError::Failed("The media file has no parent directory.".to_owned()),
        ),
    };
    let resolution = match primary_video_resolution(info) {
        Some(size) => size,
        None => (1920, 1080),
    };
    let place = Bench {
        languages,
        media: media_path,
        stem,
        parent,
        info,
        sidecars,
        default_sidecars,
        workspace,
        taken,
        resolution,
    };
    let ghost around = place.around();
    let mut prepared = PreparedSubtitles {
        steps: Vec::new(),
        replacements: Vec::new(),
        imports: Vec::new(),
        publications: Vec::new(),
    };
    proof {
        assert(steps(prepared.steps@) =~= Seq::empty());
        assert(replacement_models(prepared.replacements@) =~= Seq::empty());
        assert(import_models(prepared.imports@) =~= Seq::empty());
        assert(publications(prepared.publications@) =~= Seq::empty());
    }
    let mut job: u64 = 0;
    let mut i: usize = 0;
    while i < changes.len()
        invariant
            0 <= i <= changes.len(),
            place.sound(),
            around == place.around(),
            place.info == info,
            place.sidecars == sidecars,
            forall|k: int|
                0 <= k < changes@.len() && (#[trigger] changes@[k]).effective() ==> source_is_there(
                    *info,
                    sidecars@,
                    changes@[k],
                ),
            job == effective_count(changes@.take(i as int)),
            job <= i,
            prepared@ == with_changes(around, changes@.take(i as int)),
        decreases changes.len() - i,
    {
        let change = &changes[i];
        proof {
            assert(changes@.take(i + 1).drop_last() =~= changes@.take(i as int));
            assert(changes@.take(i + 1).last() == changes@[i as int]);
            assert(changes@.take(i + 1).len() == i + 1);
        }
        if change.has_effect() {
            if !has_failed(&prepared) {
                let ghost before = prepared@;
                push_step(&mut prepared.steps, Step::CheckCancelled);
                assert(prepared@.steps =~= before.steps + seq![StepView::CheckCancelled]);
                assert(prepared@ == before.and_steps(seq![StepView::CheckCancelled]));
                assert(source_is_there(*info, sidecars@, changes@[i as int]));
                match &change.source {
                    SubtitleSource::Embedded(index) => {
                        prepare_track(&mut prepared, &place, change, *index, i, job);
                    },
                    SubtitleSource::Sidecar(path) => {
                        proof {
                            lemma_sidecar_at(sidecars@, path@.place());
                        }
                        let found: usize = find_sidecar(sidecars, path).unwrap();
                        prepare_sidecar(&mut prepared, &place, change, found, i, job);
                    },
                }
            }
            job = job + 1;
        }
        i = i + 1;
    }
    assert(changes@.take(changes@.len() as int) =~= changes@);
    Ok(prepared)
}

// Laws.

/// Every change gives at most two files for the media: its converted track and its
/// rewritten one.
pub proof fn preparations_are_bounded(around: Surroundings, changes: Seq<SubtitleChange>)
    ensures
        with_changes(around, changes).replacements.len() + with_changes(around, changes).imports.len()
            <= 2 * changes.len(),
    decreases changes.len(),
{
    if changes.len() > 0 {
        preparations_are_bounded(around, changes.drop_last());
    }
}

/// Whether a preparation keeps to a directory: no step makes a file outside it, and what
/// is written into the media or published comes from it.
pub open spec fn keeps_to(prepared: PreparedModel, directory: Part) -> bool {
    &&& write_only_in(prepared.steps, directory)
    &&& forall|i: int|
        0 <= i < prepared.replacements.len() ==> (
        #[trigger] prepared.replacements[i]).path.lies_in(directory)
    &&& forall|i: int|
        0 <= i < prepared.imports.len() ==> (#[trigger] prepared.imports[i]).path.lies_in(directory)
    &&& forall|i: int|
        0 <= i < prepared.publications.len() ==> staged_in(
            #[trigger] prepared.publications[i],
            directory,
        )
}

/// Whether everything that a publication moves comes from a directory.
pub open spec fn staged_in(publication: PublicationModel, directory: Part) -> bool {
    forall|i: int|
        0 <= i < publication.staged.len() ==> (#[trigger] publication.staged[i]).0.lies_in(directory)
}

/// The preparation of subtitles keeps to the workspace: until the edit is published no
/// file outside it is made, and what is published are files of the workspace.
pub proof fn preparations_keep_to_the_workspace(around: Surroundings, changes: Seq<SubtitleChange>)
    ensures
        keeps_to(with_changes(around, changes), around.workspace),
    decreases changes.len(),
{
    if changes.len() > 0 {
        let before = with_changes(around, changes.drop_last());
        let change = changes.last();
        preparations_keep_to_the_workspace(around, changes.drop_last());
        if change.effective() && !before.failed() {
            let started = before.and_steps(seq![StepView::CheckCancelled]);
            let job = effective_count(changes.drop_last());
            assert(keeps_to(started, around.workspace));
            match change.source@ {
                SourceModel::Embedded(index) => lemma_track_keeps(
                    started,
                    around,
                    change,
                    stream_at(around.info.streams@, index)->0,
                    index,
                    changes.len() - 1,
                    job,
                ),
                SourceModel::Sidecar(path) => lemma_sidecar_keeps(
                    started,
                    around,
                    change,
                    sidecar_at(around.sidecars, path)->0,
                    changes.len() - 1,
                    job,
                ),
            }
        }
    }
}

#[verifier::spinoff_prover]
#[verifier::rlimit(60)]
proof fn lemma_track_keeps(
    prepared: PreparedModel,
    around: Surroundings,
    change: SubtitleChange,
    stream: Stream,
    index: u64,
    position: int,
    job: nat,
)
    requires
        keeps_to(prepared, around.workspace),
    ensures
        keeps_to(
            with_track(prepared, around, change, stream, index, position, job),
            around.workspace,
        ),
{
    let subject = track_subject(index);
    let input = InputModel::Embedded { media: around.media, index };
    let extracted = around.work_file("cues-"@, job, "-in.srt"@);
    around.lemma_work_file("cues-"@, job, "-in.srt"@);
    around.lemma_work_file("cues-"@, job, ".srt"@);
    extractions_stay_beside_their_output(
        input,
        extracted,
        SubtitleFormat::SubRip,
        subject,
        around.workspace,
    );
    let rewritten = if change.cue_edits@.len() > 0 {
        with_rewritten_track(prepared, around, index, position, job)
    } else {
        prepared
    };
    assert(keeps_to(rewritten, around.workspace));
    let converted = if change.embedded_target is Some && change.export_target is None {
        let target = change.embedded_target->0;
        around.lemma_work_file("embedded-"@, job, "-"@ + decimal(index as nat) + dotted(target));
        conversions_stay_beside_their_output(
            input,
            change,
            target,
            embedded_file(around, index, job, target),
            around.resolution(),
            subject,
            around.workspace,
        );
        with_converted_track(rewritten, around, change, index, job, target)
    } else {
        rewritten
    };
    assert(keeps_to(converted, around.workspace));
    if let Some(target) = change.export_target {
        let staged = around.work_file("export-"@, job, dotted(target));
        around.lemma_work_file("export-"@, job, dotted(target));
        conversions_stay_beside_their_output(
            input,
            change,
            target,
            staged,
            around.resolution(),
            subject,
            around.workspace,
        );
    }
}

/// More steps that keep to a directory.
proof fn lemma_steps_keep(prepared: PreparedModel, list: Seq<StepView>, directory: Part)
    requires
        keeps_to(prepared, directory),
        write_only_in(list, directory),
    ensures
        keeps_to(prepared.and_steps(list), directory),
{
}

/// A file that is copied or converted into the workspace.
proof fn lemma_file_steps_keep(
    path: PathModel,
    change: SubtitleChange,
    target: SubtitleFormat,
    staged: PathModel,
    resolution: (u64, u64),
    subject: Seq<char>,
    directory: Part,
)
    requires
        staged.lies_in(directory),
    ensures
        write_only_in(file_steps(path, change, target, staged, resolution, subject), directory),
{
    conversions_stay_beside_their_output(
        InputModel::File(path),
        change,
        target,
        staged,
        resolution,
        subject,
        directory,
    );
}

proof fn lemma_import_keeps(
    prepared: PreparedModel,
    around: Surroundings,
    change: SubtitleChange,
    sidecar: SidecarEntry,
    sidecar_position: int,
    path: PathModel,
    job: nat,
)
    requires
        keeps_to(prepared, around.workspace),
    ensures
        keeps_to(
            with_sidecar_import(prepared, around, change, sidecar, sidecar_position, path, job),
            around.workspace,
        ),
{
    let target = sidecar_target(change);
    let subject = sidecar_subject(path);
    let staged = around.work_file("import-"@, job, dotted(target));
    let first = seq![
        StepView::Report(preparation_phase(subject, change, target, SubtitlePreparation::Import)),
    ];
    let made = file_steps(path, change, target, staged, around.resolution(), subject);
    let checks = check_steps(subject, input_of(staged, target), target);
    around.lemma_work_file("import-"@, job, dotted(target));
    lemma_file_steps_keep(
        path,
        change,
        target,
        staged,
        around.resolution(),
        subject,
        around.workspace,
    );
    lemma_steps_keep(prepared, first, around.workspace);
    lemma_steps_keep(prepared.and_steps(first), made, around.workspace);
    lemma_steps_keep(prepared.and_steps(first).and_steps(made), checks, around.workspace);
}

proof fn lemma_changed_sidecar_keeps(
    prepared: PreparedModel,
    around: Surroundings,
    change: SubtitleChange,
    sidecar: SidecarEntry,
    path: PathModel,
    job: nat,
)
    requires
        keeps_to(prepared, around.workspace),
    ensures
        keeps_to(
            with_changed_sidecar(prepared, around, change, sidecar, path, job),
            around.workspace,
        ),
{
    let target = sidecar_target(change);
    let subject = sidecar_subject(path);
    let staged = around.work_file("sidecar-"@, job, dotted(target));
    let first = seq![
        StepView::Report(preparation_phase(subject, change, target, SubtitlePreparation::Sidecar)),
    ];
    let reported = prepared.and_steps(first);
    let made = file_steps(path, change, target, staged, around.resolution(), subject);
    let checks = check_steps(subject, staged, target);
    lemma_steps_keep(prepared, first, around.workspace);
    match sidecar_destination(reported, around, change, sidecar) {
        Err(error) => lemma_steps_keep(reported, seq![StepView::Fail(error)], around.workspace),
        Ok(_) => {
            around.lemma_work_file("sidecar-"@, job, dotted(target));
            lemma_file_steps_keep(
                path,
                change,
                target,
                staged,
                around.resolution(),
                subject,
                around.workspace,
            );
            lemma_steps_keep(reported, made, around.workspace);
            lemma_steps_keep(reported.and_steps(made), checks, around.workspace);
            lemma_steps_keep(
                reported.and_steps(made).and_steps(checks),
                companion_steps(staged, target),
                around.workspace,
            );
        },
    }
}

proof fn lemma_sidecar_keeps(
    prepared: PreparedModel,
    around: Surroundings,
    change: SubtitleChange,
    sidecar_position: int,
    position: int,
    job: nat,
)
    requires
        keeps_to(prepared, around.workspace),
    ensures
        keeps_to(
            with_sidecar(prepared, around, change, sidecar_position, position, job),
            around.workspace,
        ),
{
    let sidecar = around.sidecars[sidecar_position];
    let own = sidecar.path@;
    let staged = around.work_file("cues-"@, job, ".srt"@);
    let steps = rewrite_steps(sidecar_subject(own), position, own, staged);
    around.lemma_work_file("cues-"@, job, ".srt"@);
    let (rewritten, path) = if change.cue_edits@.len() > 0 {
        lemma_steps_keep(prepared, steps, around.workspace);
        (prepared.and_steps(steps), staged)
    } else {
        (prepared, own)
    };
    if !stays_in_place(change) {
        if change.import_into_media {
            lemma_import_keeps(rewritten, around, change, sidecar, sidecar_position, path, job);
        } else {
            lemma_changed_sidecar_keeps(rewritten, around, change, sidecar, path, job);
        }
    }
}

/// Whether an import is the one that a change of a sidecar asks for: of that sidecar, in the
/// format that was staged or else its own, with the metadata that was staged or else its own,
/// and as default where the sidecar was chosen to be.
pub open spec fn is_asked_import(
    around: Surroundings,
    change: SubtitleChange,
    position: int,
    import: ImportModel,
) -> bool {
    let sidecar = around.sidecars[position];
    &&& import.source_path == sidecar.path@
    &&& import.target == (match change.embedded_target {
        Some(target) => target,
        None => change.source_format,
    })
    &&& left_by(around.languages, change, sidecar.tags(), import.metadata)
    &&& import.default == around.default_sidecars.contains(position as usize)
}

/// A change that imports a sidecar adds one import, with the metadata that was staged, and
/// takes the files of the sidecar away.
#[verifier::spinoff_prover]
#[verifier::rlimit(60)]
pub proof fn imports_carry_the_staged_metadata(
    around: Surroundings,
    changes: Seq<SubtitleChange>,
    change: SubtitleChange,
    place: Place,
    position: int,
)
    requires
        change.import_into_media,
        change.source@ == SourceModel::Sidecar(place),
        sidecar_at(around.sidecars, place) == Some(position),
        !with_changes(around, changes).failed(),
    ensures
        ({
            let before = with_changes(around, changes);
            let after = with_changes(around, changes.push(change));
            &&& after.imports.len() == before.imports.len() + 1
            &&& after.imports.drop_last() == before.imports
            &&& is_asked_import(around, change, position, after.imports.last())
            &&& after.replacements == before.replacements
            &&& after.publications.len() == before.publications.len() + 1
            &&& after.publications.drop_last() == before.publications
            &&& after.publications.last().staged.len() == 0
            &&& after.publications.last().remove == around.sidecars[position].files()
        }),
{
    lemma_next_change(around, changes, change);
    staged_metadata_wins(around.languages, change, around.sidecars[position].tags());
    let before = with_changes(around, changes);
    let after = with_changes(around, changes.push(change));
    assert(after.imports.drop_last() =~= before.imports);
    assert(after.publications.drop_last() =~= before.publications);
}

/// What one more change adds.
proof fn lemma_next_change(
    around: Surroundings,
    changes: Seq<SubtitleChange>,
    change: SubtitleChange,
)
    ensures
        with_changes(around, changes.push(change)) == (if change.effective() && !with_changes(
            around,
            changes,
        ).failed() {
            with_change(
                with_changes(around, changes),
                around,
                change,
                changes.len() as int,
                effective_count(changes),
            )
        } else {
            with_changes(around, changes)
        }),
{
    assert(changes.push(change).drop_last() =~= changes);
}

/// A change without an effect adds nothing, and nothing is added behind a failure.
pub proof fn changes_without_effect_add_nothing(
    around: Surroundings,
    changes: Seq<SubtitleChange>,
    change: SubtitleChange,
)
    requires
        (change.cue_edits@.len() == 0 && change.embedded_target is None && change.export_target
            is None && !change.import_into_media && change.metadata is None) || with_changes(
            around,
            changes,
        ).failed(),
    ensures
        with_changes(around, changes.push(change)) == with_changes(around, changes),
{
    lemma_next_change(around, changes, change);
}

/// Every preparation begins with nothing, looks for a cancellation before each change, and
/// keeps what was prepared before.
pub proof fn preparations_only_grow(
    around: Surroundings,
    changes: Seq<SubtitleChange>,
    change: SubtitleChange,
)
    ensures
        with_changes(around, Seq::empty()).steps.len() == 0,
        with_changes(around, Seq::empty()).imports.len() == 0,
        with_changes(around, Seq::empty()).replacements.len() == 0,
        with_changes(around, Seq::empty()).publications.len() == 0,
        ({
            let before = with_changes(around, changes);
            let after = with_changes(around, changes.push(change));
            &&& before.steps.len() <= after.steps.len() && after.steps.take(
                before.steps.len() as int,
            ) == before.steps
            &&& change.effective() && !before.failed() ==> after.steps.len() > before.steps.len()
                && after.steps[before.steps.len() as int] == StepView::CheckCancelled
        }),
{
    lemma_next_change(around, changes, change);
    let before = with_changes(around, changes);
    let after = with_changes(around, changes.push(change));
    let started = before.and_steps(seq![StepView::CheckCancelled]);
    if change.effective() && !before.failed() {
        lemma_change_grows(started, around, change, changes.len() as int, effective_count(changes));
        assert(after.steps.take(started.steps.len() as int) == started.steps);
        assert(started.steps[before.steps.len() as int] == StepView::CheckCancelled);
        assert(after.steps[before.steps.len() as int] == after.steps.take(
            started.steps.len() as int,
        )[before.steps.len() as int]);
        assert(after.steps.take(before.steps.len() as int) =~= after.steps.take(
            started.steps.len() as int,
        ).take(before.steps.len() as int));
        assert(started.steps.take(before.steps.len() as int) =~= before.steps);
    } else {
        assert(after.steps.take(before.steps.len() as int) =~= before.steps);
    }
}

spec fn grows(before: PreparedModel, after: PreparedModel) -> bool {
    before.steps.len() <= after.steps.len() && after.steps.take(before.steps.len() as int)
        == before.steps
}

#[verifier::spinoff_prover]
#[verifier::rlimit(60)]
proof fn lemma_change_grows(
    prepared: PreparedModel,
    around: Surroundings,
    change: SubtitleChange,
    position: int,
    job: nat,
)
    ensures
        match change.source@ {
            SourceModel::Embedded(index) => grows(
                prepared,
                with_track(
                    prepared,
                    around,
                    change,
                    stream_at(around.info.streams@, index)->0,
                    index,
                    position,
                    job,
                ),
            ),
            SourceModel::Sidecar(place) => grows(
                prepared,
                with_sidecar(
                    prepared,
                    around,
                    change,
                    sidecar_at(around.sidecars, place)->0,
                    position,
                    job,
                ),
            ),
        },
{
    assert(prepared.steps.take(prepared.steps.len() as int) =~= prepared.steps);
    let all = match change.source@ {
        SourceModel::Embedded(index) => with_track(
            prepared,
            around,
            change,
            stream_at(around.info.streams@, index)->0,
            index,
            position,
            job,
        ),
        SourceModel::Sidecar(place) => with_sidecar(
            prepared,
            around,
            change,
            sidecar_at(around.sidecars, place)->0,
            position,
            job,
        ),
    };
    assert(all.steps.take(prepared.steps.len() as int) =~= prepared.steps);
}

/// A sidecar whose cues alone were edited is put back under its own name.
#[verifier::spinoff_prover]
#[verifier::rlimit(60)]
pub proof fn edited_sidecars_keep_their_name(
    around: Surroundings,
    changes: Seq<SubtitleChange>,
    change: SubtitleChange,
    place: Place,
    position: int,
)
    requires
        change.cue_edits@.len() > 0,
        !change.import_into_media,
        change.metadata is None,
        change.embedded_target is None || change.embedded_target == Some(change.source_format),
        change.source@ == SourceModel::Sidecar(place),
        sidecar_at(around.sidecars, place) == Some(position),
        !with_changes(around, changes).failed(),
    ensures
        ({
            let before = with_changes(around, changes);
            let after = with_changes(around, changes.push(change));
            let own = around.sidecars[position].path@;
            let step = after.steps.last();
            &&& after.imports == before.imports && after.replacements == before.replacements
            &&& step matches StepView::RewriteCues { change: edited, from, to } && edited
                == changes.len() && from == own && after.publications == before.publications.push(
                PublicationModel {
                    staged: seq![(to, own)],
                    remove: around.sidecars[position].files(),
                },
            )
        }),
{
    lemma_next_change(around, changes, change);
}

/// A sidecar that is converted or renamed is published under the name that its metadata
/// give it, and its files are taken away. Where no name is free, nothing of it is.
#[verifier::spinoff_prover]
#[verifier::rlimit(60)]
pub proof fn changed_sidecars_get_their_name(
    around: Surroundings,
    changes: Seq<SubtitleChange>,
    change: SubtitleChange,
    place: Place,
    position: int,
)
    requires
        !change.import_into_media,
        change.metadata is Some || (change.cue_edits@.len() == 0 && (change.embedded_target is Some
            || change.export_target is Some)) || (change.embedded_target is Some
            && change.embedded_target != Some(change.source_format)),
        change.source@ == SourceModel::Sidecar(place),
        sidecar_at(around.sidecars, place) == Some(position),
        !with_changes(around, changes).failed(),
    ensures
        ({
            let before = with_changes(around, changes);
            let after = with_changes(around, changes.push(change));
            let sidecar = around.sidecars[position];
            let target = match change.embedded_target {
                Some(target) => target,
                None => change.source_format,
            };
            &&& after.imports == before.imports && after.replacements == before.replacements
            &&& exists|tags: SubtitleTags|
                {
                    let base = reached(
                        around.parent,
                        sidecar_name(
                            around.stem,
                            tags.language,
                            tags.forced,
                            tags.cc || tags.hearing_impaired,
                            if change.embedded_target is None {
                                sidecar.number
                            } else {
                                None
                            },
                            target,
                        ),
                    );
                    &&& #[trigger] left_by(around.languages, change, sidecar.tags(), tags)
                    &&& match conversion_destination(
                        base,
                        sidecar.files(),
                        target,
                        before.publications,
                        around.taken,
                    ) {
                        Ok(destination) => !after.failed() && after.publications.len()
                            == before.publications.len() + 1 && after.publications.drop_last()
                            == before.publications && after.publications.last().remove
                            == sidecar.files() && after.publications.last().staged.len() > 0
                            && after.publications.last().staged[0].1 == destination && (target
                            == SubtitleFormat::VobSub ==> after.publications.last().staged[1].1
                            == destination.with_extension("idx"@)),
                        Err(error) => after.publications == before.publications && after.steps.last()
                            == StepView::Fail(error),
                    }
                }
        }),
{
    lemma_next_change(around, changes, change);
    let sidecar = around.sidecars[position];
    staged_metadata_wins(around.languages, change, sidecar.tags());
    let tags = effective_tags(around.languages, change, sidecar.tags());
    assert(left_by(around.languages, change, sidecar.tags(), tags));
    let before = with_changes(around, changes);
    let after = with_changes(around, changes.push(change));
    if after.publications.len() > before.publications.len() {
        assert(after.publications.drop_last() =~= before.publications);
    }
}

/// A track whose cues were edited, or that is converted, is replaced by the file that is
/// made of it; the one that is exported is published beside the media and replaces nothing.
#[verifier::spinoff_prover]
#[verifier::rlimit(60)]
pub proof fn changed_tracks_are_replaced(
    around: Surroundings,
    changes: Seq<SubtitleChange>,
    change: SubtitleChange,
    index: u64,
)
    requires
        change.source@ == SourceModel::Embedded(index),
        change.effective(),
        !with_changes(around, changes).failed(),
    ensures
        ({
            let before = with_changes(around, changes);
            let after = with_changes(around, changes.push(change));
            let rewritten = change.cue_edits@.len() > 0;
            let converted = change.embedded_target is Some && change.export_target is None;
            &&& after.imports == before.imports
            &&& after.replacements.len() == before.replacements.len() + (if rewritten {
                1int
            } else {
                0
            }) + (if converted {
                1int
            } else {
                0
            })
            &&& after.replacements.take(before.replacements.len() as int) == before.replacements
            &&& forall|i: int|
                before.replacements.len() <= i < after.replacements.len() ==> (
                #[trigger] after.replacements[i]).source_index == index
            &&& rewritten ==> after.replacements[before.replacements.len() as int].target
                == SubtitleFormat::SubRip
            &&& converted ==> after.replacements.last().target == change.embedded_target->0
            &&& change.export_target is None ==> after.publications == before.publications
        }),
{
    lemma_next_change(around, changes, change);
    let before = with_changes(around, changes);
    let after = with_changes(around, changes.push(change));
    assert(after.replacements.take(before.replacements.len() as int) =~= before.replacements);
}

/// An exported track is published under the name that its metadata give it, beside the
/// media, and nothing is taken away.
#[verifier::spinoff_prover]
#[verifier::rlimit(60)]
pub proof fn exports_are_named_by_their_metadata(
    around: Surroundings,
    changes: Seq<SubtitleChange>,
    change: SubtitleChange,
    index: u64,
    stream: Stream,
)
    requires
        change.source@ == SourceModel::Embedded(index),
        change.export_target is Some,
        stream_at(around.info.streams@, index) == Some(stream),
        !with_changes(around, changes).failed(),
    ensures
        ({
            let before = with_changes(around, changes);
            let after = with_changes(around, changes.push(change));
            let target = change.export_target->0;
            &&& after.publications.len() == before.publications.len() + 1
            &&& after.publications.drop_last() == before.publications
            &&& after.publications.last().remove.len() == 0
            &&& after.publications.last().staged.len() == (if target == SubtitleFormat::VobSub {
                2int
            } else {
                1
            })
            &&& exists|tags: SubtitleTags| #[trigger]
                left_by(around.languages, change, subtitle_tags(stream), tags)
                    && after.publications.last().staged[0].1 == reached(
                    around.parent,
                    sidecar_name(
                        around.stem,
                        tags.language,
                        tags.forced,
                        tags.cc || tags.hearing_impaired,
                        None,
                        target,
                    ),
                )
        }),
{
    lemma_next_change(around, changes, change);
    staged_metadata_wins(around.languages, change, subtitle_tags(stream));
    let tags = effective_tags(around.languages, change, subtitle_tags(stream));
    assert(left_by(around.languages, change, subtitle_tags(stream), tags));
    let before = with_changes(around, changes);
    let after = with_changes(around, changes.push(change));
    assert(after.publications.drop_last() =~= before.publications);
}

/// What is prepared is checked: every replacement, import and published subtitle, but one
/// whose cues alone were edited in place, is a file that a step found to be of its format.
pub open spec fn is_checked(list: Seq<StepView>, path: PathModel, target: SubtitleFormat) -> bool {
    list.contains(StepView::Validate { path, target })
}

proof fn lemma_checked(before: PreparedModel, after: PreparedModel)
    requires
        grows(before, after),
        forall|i: int|
            0 <= i < before.replacements.len() ==> is_checked(
                before.steps,
                (#[trigger] before.replacements[i]).path,
                before.replacements[i].target,
            ),
        forall|i: int|
            0 <= i < before.imports.len() ==> is_checked(
                before.steps,
                (#[trigger] before.imports[i]).path,
                before.imports[i].target,
            ),
    ensures
        forall|i: int|
            0 <= i < before.replacements.len() ==> is_checked(
                after.steps,
                (#[trigger] before.replacements[i]).path,
                before.replacements[i].target,
            ),
        forall|i: int|
            0 <= i < before.imports.len() ==> is_checked(
                after.steps,
                (#[trigger] before.imports[i]).path,
                before.imports[i].target,
            ),
{
    assert forall|step: StepView| #[trigger] before.steps.contains(step) implies after.steps.contains(
        step,
    ) by {
        let k = choose|k: int| 0 <= k < before.steps.len() && before.steps[k] == step;
        assert(after.steps.take(before.steps.len() as int)[k] == step);
        assert(after.steps[k] == step);
    }
}

/// Every file that goes into the media was checked to be a subtitle of its format.
pub proof fn prepared_files_are_checked(around: Surroundings, changes: Seq<SubtitleChange>)
    ensures
        forall|i: int|
            0 <= i < with_changes(around, changes).replacements.len() ==> is_checked(
                with_changes(around, changes).steps,
                (#[trigger] with_changes(around, changes).replacements[i]).path,
                with_changes(around, changes).replacements[i].target,
            ),
        forall|i: int|
            0 <= i < with_changes(around, changes).imports.len() ==> is_checked(
                with_changes(around, changes).steps,
                (#[trigger] with_changes(around, changes).imports[i]).path,
                with_changes(around, changes).imports[i].target,
            ),
    decreases changes.len(),
{
    if changes.len() > 0 {
        let shorter = changes.drop_last();
        let change = changes.last();
        prepared_files_are_checked(around, shorter);
        assert(shorter.push(change) =~= changes);
        preparations_only_grow(around, shorter, change);
        let before = with_changes(around, shorter);
        let after = with_changes(around, changes);
        lemma_checked(before, after);
        if change.effective() && !before.failed() {
            let started = before.and_steps(seq![StepView::CheckCancelled]);
            let job = effective_count(shorter);
            match change.source@ {
                SourceModel::Embedded(index) => lemma_track_checked(
                    started,
                    around,
                    change,
                    index,
                    shorter.len() as int,
                    job,
                ),
                SourceModel::Sidecar(place) => lemma_sidecar_checked(
                    started,
                    around,
                    change,
                    sidecar_at(around.sidecars, place)->0,
                    shorter.len() as int,
                    job,
                ),
            }
        }
    }
}

#[verifier::spinoff_prover]
#[verifier::rlimit(60)]
proof fn lemma_track_checked(
    prepared: PreparedModel,
    around: Surroundings,
    change: SubtitleChange,
    index: u64,
    position: int,
    job: nat,
)
    ensures
        ({
            let after = with_track(
                prepared,
                around,
                change,
                stream_at(around.info.streams@, index)->0,
                index,
                position,
                job,
            );
            &&& after.imports == prepared.imports
            &&& after.replacements.len() >= prepared.replacements.len()
            &&& forall|i: int|
                0 <= i < after.replacements.len() ==> if i < prepared.replacements.len() {
                    #[trigger] after.replacements[i] == prepared.replacements[i]
                } else {
                    is_checked(
                        after.steps,
                        after.replacements[i].path,
                        after.replacements[i].target,
                    )
                }
        }),
{
    let stream = stream_at(around.info.streams@, index)->0;
    let rewritten = if change.cue_edits@.len() > 0 {
        with_rewritten_track(prepared, around, index, position, job)
    } else {
        prepared
    };
    let converted = if change.embedded_target is Some && change.export_target is None {
        with_converted_track(rewritten, around, change, index, job, change.embedded_target->0)
    } else {
        rewritten
    };
    let after = with_track(prepared, around, change, stream, index, position, job);
    if change.cue_edits@.len() > 0 {
        let staged = around.work_file("cues-"@, job, ".srt"@);
        let step = StepView::Validate { path: staged, target: SubtitleFormat::SubRip };
        assert(rewritten.steps.last() == step);
        assert(rewritten.steps[rewritten.steps.len() - 1] == step);
        assert(converted.steps[rewritten.steps.len() - 1] == step);
        assert(after.steps[rewritten.steps.len() - 1] == step);
        assert(after.steps.contains(step));
    }
    if change.embedded_target is Some && change.export_target is None {
        let target = change.embedded_target->0;
        let step = StepView::Validate { path: embedded_file(around, index, job, target), target };
        assert(converted.steps.last() == step);
        assert(after.steps[converted.steps.len() - 1] == step);
        assert(after.steps.contains(step));
    }
}

#[verifier::spinoff_prover]
#[verifier::rlimit(60)]
proof fn lemma_sidecar_checked(
    prepared: PreparedModel,
    around: Surroundings,
    change: SubtitleChange,
    sidecar_position: int,
    position: int,
    job: nat,
)
    ensures
        ({
            let after = with_sidecar(prepared, around, change, sidecar_position, position, job);
            &&& after.replacements == prepared.replacements
            &&& after.imports == prepared.imports || (after.imports.len() == prepared.imports.len()
                + 1 && after.imports.drop_last() == prepared.imports && is_checked(
                after.steps,
                after.imports.last().path,
                after.imports.last().target,
            ))
        }),
{
    let after = with_sidecar(prepared, around, change, sidecar_position, position, job);
    if !stays_in_place(change) && change.import_into_media {
        let import = after.imports.last();
        let step = StepView::Validate { path: import.path, target: import.target };
        assert(after.steps.last() == step);
        assert(after.steps[after.steps.len() - 1] == step);
        assert(after.imports.drop_last() =~= prepared.imports);
    }
}

/// The size that pictures are drawn for: that of the first video that plays, or else 1080p.
pub proof fn pictures_are_drawn_for_the_video(around: Surroundings)
    ensures
        primary_size(around.info.streams@) is Some ==> around.resolution() == primary_size(
            around.info.streams@,
        )->0,
        primary_size(around.info.streams@) is None ==> around.resolution() == (1920u64, 1080u64),
{
}

/// That some steps are among others, one after the other.
pub open spec fn includes(list: Seq<StepView>, part: Seq<StepView>) -> bool {
    exists|at: int|
        0 <= at <= list.len() - part.len() && #[trigger] list.subrange(at, at + part.len()) == part
}

proof fn lemma_includes(before: Seq<StepView>, part: Seq<StepView>, after: Seq<StepView>)
    ensures
        includes(before + part + after, part),
{
    let all = before + part + after;
    let at = before.len() as int;
    assert(all.subrange(at, at + part.len()) =~= part);
}

proof fn lemma_still_includes(list: Seq<StepView>, part: Seq<StepView>, more: Seq<StepView>)
    requires
        includes(list, part),
    ensures
        includes(list + more, part),
{
    let at = choose|at: int|
        0 <= at <= list.len() - part.len() && #[trigger] list.subrange(at, at + part.len()) == part;
    assert((list + more).subrange(at, at + part.len()) =~= list.subrange(at, at + part.len()));
}

/// How many of some changes have an effect.
pub open spec fn jobs(changes: Seq<SubtitleChange>) -> nat {
    changes.filter(|change: SubtitleChange| change.effective()).len()
}

proof fn lemma_jobs(changes: Seq<SubtitleChange>)
    ensures
        effective_count(changes) == jobs(changes),
    decreases changes.len(),
{
    reveal(Seq::filter);
    if changes.len() > 0 {
        lemma_jobs(changes.drop_last());
    }
}

/// The file in the workspace that a change works on, by what it is for and its number.
pub open spec fn work_place(
    around: Surroundings,
    purpose: Seq<char>,
    number: nat,
    ending: Seq<char>,
) -> PathModel {
    in_directory(around.workspace, purpose + decimal(number) + ending)
}

/// Every change that has an effect has a number of its own, and its work files are apart
/// from those of any other.
pub proof fn changes_work_on_files_of_their_own(
    around: Surroundings,
    purpose: Seq<char>,
    one: nat,
    other: nat,
    ending: Seq<char>,
    changes: Seq<SubtitleChange>,
    change: SubtitleChange,
)
    requires
        purpose.len() > 2,
    ensures
        one != other ==> work_place(around, purpose, one, ending).place() != work_place(
            around,
            purpose,
            other,
            ending,
        ).place(),
        change.effective() ==> jobs(changes.push(change)) == jobs(changes) + 1,
        !change.effective() ==> jobs(changes.push(change)) == jobs(changes),
{
    lemma_jobs(changes);
    lemma_jobs(changes.push(change));
    assert(changes.push(change).drop_last() =~= changes);
    if one != other {
        let left = purpose + decimal(one) + ending;
        let right = purpose + decimal(other) + ending;
        numbers_read_back(one);
        numbers_read_back(other);
        if left == right {
            assert(decimal(one).len() == decimal(other).len());
            let start = purpose.len() as int;
            assert(left.subrange(start, start + decimal(one).len()) =~= decimal(one));
            assert(right.subrange(start, start + decimal(other).len()) =~= decimal(other));
            assert(false);
        }
        names_tell_files_apart(around.workspace, left, right);
    }
}

/// The cues of a track are taken out of that track of the media, written anew with the edits
/// of the change, checked, and replace the track.
#[verifier::spinoff_prover]
#[verifier::rlimit(60)]
pub proof fn edited_tracks_are_rewritten(
    around: Surroundings,
    changes: Seq<SubtitleChange>,
    change: SubtitleChange,
    index: u64,
)
    requires
        change.source@ == SourceModel::Embedded(index),
        change.cue_edits@.len() > 0,
        !with_changes(around, changes).failed(),
    ensures
        ({
            let before = with_changes(around, changes);
            let after = with_changes(around, changes.push(change));
            let at = before.steps.len() as int;
            let extracted = work_place(around, "cues-"@, jobs(changes), "-in.srt"@);
            let staged = work_place(around, "cues-"@, jobs(changes), ".srt"@);
            &&& after.steps.len() >= at + 7
            &&& runs_ffmpeg_on(after.steps[at + 2], around.media)
            &&& told(after.steps[at + 2]).last() == Arg::Path(extracted)
            &&& always_says(
                told(after.steps[at + 2]),
                "-map"@,
                "0:"@ + decimal(index as nat),
            )
            &&& after.steps[at + 3] == StepView::Report(
                Phase::RewriteCues("subtitle #"@ + decimal(index as nat)),
            )
            &&& after.steps[at + 4] == (StepView::RewriteCues {
                change: changes.len() as int,
                from: extracted,
                to: staged,
            })
            &&& after.steps[at + 6] == (StepView::Validate {
                path: staged,
                target: SubtitleFormat::SubRip,
            })
            &&& after.replacements[before.replacements.len() as int].path == staged
        }),
{
    lemma_next_change(around, changes, change);
    lemma_jobs(changes);
    let before = with_changes(around, changes);
    let after = with_changes(around, changes.push(change));
    let at = before.steps.len() as int;
    let subject = track_subject(index);
    let extracted = around.work_file("cues-"@, jobs(changes), "-in.srt"@);
    let input = InputModel::Embedded { media: around.media, index };
    let list = extract_steps(input, extracted, SubtitleFormat::SubRip, subject);
    extractions_read_their_track(
        around.media,
        index,
        extracted,
        SubtitleFormat::SubRip,
        subject,
    );
    assert(!runs_ffmpeg_on(list[0], around.media));
    assert(runs_ffmpeg_on(list[1], around.media));
    let started = before.and_steps(seq![StepView::CheckCancelled]);
    let rewritten = with_rewritten_track(
        started,
        around,
        index,
        changes.len() as int,
        jobs(changes),
    );
    assert(rewritten.steps.len() == at + 7);
    assert(after.steps.take(at + 7) =~= rewritten.steps);
    assert(after.steps[at + 2] == after.steps.take(at + 7)[at + 2]);
    assert(after.steps[at + 3] == after.steps.take(at + 7)[at + 3]);
    assert(after.steps[at + 4] == after.steps.take(at + 7)[at + 4]);
    assert(after.steps[at + 6] == after.steps.take(at + 7)[at + 6]);
    assert(rewritten.steps[at + 2] == list[1]);
}

/// The parts that a preparation is made of, and what it therefore holds.
proof fn lemma_put_together(
    first: Seq<StepView>,
    report: Seq<StepView>,
    part: Seq<StepView>,
    check: Seq<StepView>,
    companion: Seq<StepView>,
)
    requires
        report.len() == 1,
        check.len() == 2,
    ensures
        ({
            let all = first + report + part + check + companion;
            &&& includes(all, part)
            &&& all.contains(check[1])
            &&& companion.len() == 0 ==> all.last() == check[1]
            &&& companion.len() > 0 ==> all.last() == companion.last()
            &&& forall|k: int| 0 <= k < part.len() ==> all[first.len() + 1 + k] == #[trigger] part[k]
            &&& all.len() == first.len() + 3 + part.len() + companion.len()
        }),
{
    let all = first + report + part + check + companion;
    lemma_includes(first + report, part, check);
    lemma_still_includes(first + report + part + check, part, companion);
    assert(all[first.len() as int + part.len() + 2] == check[1]);
}

/// A track with its cues edited first, where they are.
spec fn track_started(
    around: Surroundings,
    changes: Seq<SubtitleChange>,
    change: SubtitleChange,
    index: u64,
) -> PreparedModel {
    let started = with_changes(around, changes).and_steps(seq![StepView::CheckCancelled]);
    if change.cue_edits@.len() > 0 {
        with_rewritten_track(started, around, index, changes.len() as int, effective_count(changes))
    } else {
        started
    }
}

/// A track that is converted is replaced by what the conversion of that track makes, which
/// is checked.
#[verifier::spinoff_prover]
#[verifier::rlimit(60)]
pub proof fn conversions_replace_their_track(
    around: Surroundings,
    changes: Seq<SubtitleChange>,
    change: SubtitleChange,
    index: u64,
    target: SubtitleFormat,
)
    requires
        change.source@ == SourceModel::Embedded(index),
        change.embedded_target == Some(target),
        change.export_target is None,
        !with_changes(around, changes).failed(),
    ensures
        ({
            let after = with_changes(around, changes.push(change));
            let staged = work_place(
                around,
                "embedded-"@,
                jobs(changes),
                "-"@ + decimal(index as nat) + ("."@ + target.extension_text()),
            );
            &&& after.replacements.last().path == staged
            &&& after.replacements.last().target == target
            &&& includes(
                after.steps,
                convert_steps(
                    InputModel::Embedded { media: around.media, index },
                    change,
                    target,
                    staged,
                    around.resolution(),
                    "subtitle #"@ + decimal(index as nat),
                ),
            )
            &&& after.steps.last() == (StepView::Validate { path: staged, target })
        }),
{
    lemma_next_change(around, changes, change);
    lemma_jobs(changes);
    let job = effective_count(changes);
    let rewritten = track_started(around, changes, change, index);
    let staged = embedded_file(around, index, job, target);
    lemma_converted(rewritten, around, change, index, job, target);
    assert(with_changes(around, changes.push(change)) == with_converted_track(
        rewritten,
        around,
        change,
        index,
        job,
        target,
    ));
}

#[verifier::spinoff_prover]
#[verifier::rlimit(60)]
proof fn lemma_converted(
    prepared: PreparedModel,
    around: Surroundings,
    change: SubtitleChange,
    index: u64,
    job: nat,
    target: SubtitleFormat,
)
    ensures
        ({
            let after = with_converted_track(prepared, around, change, index, job, target);
            let staged = embedded_file(around, index, job, target);
            &&& after.replacements.last().path == staged
            &&& after.replacements.last().target == target
            &&& includes(
                after.steps,
                convert_steps(
                    InputModel::Embedded { media: around.media, index },
                    change,
                    target,
                    staged,
                    around.resolution(),
                    track_subject(index),
                ),
            )
            &&& after.steps.last() == (StepView::Validate { path: staged, target })
        }),
{
    let subject = track_subject(index);
    let staged = embedded_file(around, index, job, target);
    let input = InputModel::Embedded { media: around.media, index };
    let report = seq![
        StepView::Report(preparation_phase(subject, change, target, SubtitlePreparation::Embed)),
    ];
    let part = convert_steps(input, change, target, staged, around.resolution(), subject);
    let check = check_steps(subject, staged, target);
    lemma_put_together(prepared.steps, report, part, check, Seq::empty());
    assert(prepared.steps + report + part + check + Seq::<StepView>::empty() =~= prepared.steps
        + report + part + check);
}

/// A track that is exported is published as what its conversion makes, or as its edited cues
/// where they are in that format already; it is checked, and its index is asked for where it
/// has one.
#[verifier::spinoff_prover]
#[verifier::rlimit(60)]
pub proof fn exports_are_made_of_their_track(
    around: Surroundings,
    changes: Seq<SubtitleChange>,
    change: SubtitleChange,
    index: u64,
    target: SubtitleFormat,
)
    requires
        change.source@ == SourceModel::Embedded(index),
        change.export_target == Some(target),
        !with_changes(around, changes).failed(),
    ensures
        ({
            let after = with_changes(around, changes.push(change));
            let subject = "subtitle #"@ + decimal(index as nat);
            let staged = work_place(
                around,
                "export-"@,
                jobs(changes),
                "."@ + target.extension_text(),
            );
            let edited = change.cue_edits@.len() > 0 && target == SubtitleFormat::SubRip;
            &&& after.publications.last().staged[0].0 == staged
            &&& after.steps.contains(StepView::Validate { path: staged, target })
            &&& target == SubtitleFormat::VobSub ==> after.steps.last()
                == StepView::RequireCompanion(staged.with_extension("idx"@))
            &&& includes(
                after.steps,
                if edited {
                    copy_steps(
                        work_place(around, "cues-"@, jobs(changes), ".srt"@),
                        staged,
                        target,
                        subject,
                    )
                } else {
                    convert_steps(
                        InputModel::Embedded { media: around.media, index },
                        change,
                        target,
                        staged,
                        around.resolution(),
                        subject,
                    )
                },
            )
        }),
{
    lemma_next_change(around, changes, change);
    lemma_jobs(changes);
    let job = effective_count(changes);
    let rewritten = track_started(around, changes, change, index);
    let stream = stream_at(around.info.streams@, index)->0;
    lemma_exported(rewritten, around, change, stream, index, job, target);
    assert(with_changes(around, changes.push(change)) == with_export(
        rewritten,
        around,
        change,
        stream,
        index,
        job,
        target,
    ));
}

#[verifier::spinoff_prover]
#[verifier::rlimit(60)]
proof fn lemma_exported(
    prepared: PreparedModel,
    around: Surroundings,
    change: SubtitleChange,
    stream: Stream,
    index: u64,
    job: nat,
    target: SubtitleFormat,
)
    requires
        change.export_target == Some(target),
    ensures
        ({
            let after = with_export(prepared, around, change, stream, index, job, target);
            let subject = track_subject(index);
            let staged = around.work_file("export-"@, job, dotted(target));
            let edited = change.cue_edits@.len() > 0 && target == SubtitleFormat::SubRip;
            &&& after.publications.last().staged[0].0 == staged
            &&& after.steps.contains(StepView::Validate { path: staged, target })
            &&& target == SubtitleFormat::VobSub ==> after.steps.last()
                == StepView::RequireCompanion(staged.with_extension("idx"@))
            &&& includes(
                after.steps,
                if edited {
                    copy_steps(
                        around.work_file("cues-"@, job, ".srt"@),
                        staged,
                        target,
                        subject,
                    )
                } else {
                    convert_steps(
                        InputModel::Embedded { media: around.media, index },
                        change,
                        target,
                        staged,
                        around.resolution(),
                        subject,
                    )
                },
            )
        }),
{
    let subject = track_subject(index);
    let staged = around.work_file("export-"@, job, dotted(target));
    let input = InputModel::Embedded { media: around.media, index };
    let report = seq![
        StepView::Report(preparation_phase(subject, change, target, SubtitlePreparation::Export)),
    ];
    let part = if change.cue_edits@.len() > 0 && target == SubtitleFormat::SubRip {
        copy_steps(around.work_file("cues-"@, job, ".srt"@), staged, target, subject)
    } else {
        convert_steps(input, change, target, staged, around.resolution(), subject)
    };
    let check = check_steps(subject, staged, target);
    let companion = companion_steps(staged, target);
    lemma_put_together(prepared.steps, report, part, check, companion);
}

proof fn lemma_file_steps_take(
    path: PathModel,
    change: SubtitleChange,
    target: SubtitleFormat,
    staged: PathModel,
    resolution: (u64, u64),
    subject: Seq<char>,
) -> (k: int)
    requires
        staged.name_text() is Some,
    ensures
        0 <= k < file_steps(path, change, target, staged, resolution, subject).len(),
        takes_from(file_steps(path, change, target, staged, resolution, subject)[k], path),
{
    if target == change.source_format {
        assert(takes_from(copy_steps(path, staged, target, subject)[0], path));
        0
    } else {
        conversions_of_files_read_their_file(path, change, target, staged, resolution, subject);
        choose|i: int|
            0 <= i < convert_steps(
                InputModel::File(path),
                change,
                target,
                staged,
                resolution,
                subject,
            ).len() && takes_from(
                #[trigger] convert_steps(
                    InputModel::File(path),
                    change,
                    target,
                    staged,
                    resolution,
                    subject,
                )[i],
                path,
            )
    }
}

/// The file that a change of a sidecar works on: the sidecar, or its edited cues.
pub open spec fn worked_on(
    around: Surroundings,
    changes: Seq<SubtitleChange>,
    change: SubtitleChange,
    own: PathModel,
) -> PathModel {
    if change.cue_edits@.len() > 0 {
        work_place(around, "cues-"@, jobs(changes), ".srt"@)
    } else {
        own
    }
}

/// What is imported is made of that sidecar, with its cues written anew first where they
/// were edited, and is checked.
#[verifier::spinoff_prover]
#[verifier::rlimit(60)]
pub proof fn imports_are_made_of_their_sidecar(
    around: Surroundings,
    changes: Seq<SubtitleChange>,
    change: SubtitleChange,
    place: Place,
    position: int,
)
    requires
        change.source@ == SourceModel::Sidecar(place),
        sidecar_at(around.sidecars, place) == Some(position),
        change.import_into_media,
        !with_changes(around, changes).failed(),
    ensures
        ({
            let before = with_changes(around, changes);
            let after = with_changes(around, changes.push(change));
            let own = around.sidecars[position].path@;
            let made = worked_on(around, changes, change, own);
            let target = if change.embedded_target is Some {
                change.embedded_target->0
            } else {
                change.source_format
            };
            let staged = work_place(
                around,
                "import-"@,
                jobs(changes),
                "."@ + target.extension_text(),
            );
            &&& change.cue_edits@.len() > 0 ==> after.steps[before.steps.len() as int + 2] == (
            StepView::RewriteCues { change: changes.len() as int, from: own, to: made })
            &&& after.imports.last().path == if target == SubtitleFormat::VobSub {
                staged.with_extension("idx"@)
            } else {
                staged
            }
            &&& exists|i: int|
                before.steps.len() < i < after.steps.len() && takes_from(
                    #[trigger] after.steps[i],
                    made,
                )
            &&& after.steps.last() == (StepView::Validate {
                path: after.imports.last().path,
                target,
            })
        }),
{
    lemma_next_change(around, changes, change);
    lemma_jobs(changes);
    let before = with_changes(around, changes);
    let job = effective_count(changes);
    let sidecar = around.sidecars[position];
    let made = worked_on(around, changes, change, sidecar.path@);
    let rewritten = sidecar_started(around, changes, change, sidecar.path@);
    lemma_imported(rewritten, around, change, sidecar, position, made, job);
    assert(with_changes(around, changes.push(change)) == with_sidecar_import(
        rewritten,
        around,
        change,
        sidecar,
        position,
        made,
        job,
    ));
    assert(before.steps.len() < rewritten.steps.len());
}

/// A sidecar with its cues edited first, where they are.
spec fn sidecar_started(
    around: Surroundings,
    changes: Seq<SubtitleChange>,
    change: SubtitleChange,
    own: PathModel,
) -> PreparedModel {
    let started = with_changes(around, changes).and_steps(seq![StepView::CheckCancelled]);
    if change.cue_edits@.len() > 0 {
        started.and_steps(
            rewrite_steps(
                sidecar_subject(own),
                changes.len() as int,
                own,
                around.work_file("cues-"@, effective_count(changes), ".srt"@),
            ),
        )
    } else {
        started
    }
}

#[verifier::spinoff_prover]
#[verifier::rlimit(60)]
proof fn lemma_imported(
    prepared: PreparedModel,
    around: Surroundings,
    change: SubtitleChange,
    sidecar: SidecarEntry,
    position: int,
    made: PathModel,
    job: nat,
)
    ensures
        ({
            let after = with_sidecar_import(
                prepared,
                around,
                change,
                sidecar,
                position,
                made,
                job,
            );
            let target = sidecar_target(change);
            let staged = around.work_file("import-"@, job, dotted(target));
            &&& after.imports.last().path == input_of(staged, target)
            &&& after.steps.len() > prepared.steps.len()
            &&& forall|i: int|
                0 <= i < prepared.steps.len() ==> #[trigger] after.steps[i] == prepared.steps[i]
            &&& exists|i: int|
                prepared.steps.len() <= i < after.steps.len() && takes_from(
                    #[trigger] after.steps[i],
                    made,
                )
            &&& after.steps.last() == (StepView::Validate {
                path: input_of(staged, target),
                target,
            })
        }),
{
    let target = sidecar_target(change);
    let subject = sidecar_subject(made);
    let staged = around.work_file("import-"@, job, dotted(target));
    names_stay_in_the_directory(around.workspace, "import-"@ + decimal(job) + dotted(target));
    let report = seq![
        StepView::Report(preparation_phase(subject, change, target, SubtitlePreparation::Import)),
    ];
    let part = file_steps(made, change, target, staged, around.resolution(), subject);
    let check = check_steps(subject, input_of(staged, target), target);
    lemma_put_together(prepared.steps, report, part, check, Seq::empty());
    let after = with_sidecar_import(prepared, around, change, sidecar, position, made, job);
    assert(prepared.steps + report + part + check + Seq::<StepView>::empty() =~= after.steps);
    let k = lemma_file_steps_take(made, change, target, staged, around.resolution(), subject);
    assert(takes_from(after.steps[prepared.steps.len() + 1 + k], made));
}

/// What a changed sidecar is published as is made of that sidecar, with its cues written
/// anew first where they were edited; it is checked, and its index is asked for where it has
/// one.
#[verifier::spinoff_prover]
#[verifier::rlimit(60)]
pub proof fn changed_sidecars_are_made_of_themselves(
    around: Surroundings,
    changes: Seq<SubtitleChange>,
    change: SubtitleChange,
    place: Place,
    position: int,
)
    requires
        change.source@ == SourceModel::Sidecar(place),
        sidecar_at(around.sidecars, place) == Some(position),
        !change.import_into_media,
        change.metadata is Some || (change.cue_edits@.len() == 0 && (change.embedded_target is Some
            || change.export_target is Some)) || (change.embedded_target is Some
            && change.embedded_target != Some(change.source_format)),
        !with_changes(around, changes).failed(),
        with_changes(around, changes.push(change)).publications.len() > with_changes(
            around,
            changes,
        ).publications.len(),
    ensures
        ({
            let before = with_changes(around, changes);
            let after = with_changes(around, changes.push(change));
            let own = around.sidecars[position].path@;
            let made = worked_on(around, changes, change, own);
            let target = if change.embedded_target is Some {
                change.embedded_target->0
            } else {
                change.source_format
            };
            let staged = work_place(
                around,
                "sidecar-"@,
                jobs(changes),
                "."@ + target.extension_text(),
            );
            &&& change.cue_edits@.len() > 0 ==> after.steps[before.steps.len() as int + 2] == (
            StepView::RewriteCues { change: changes.len() as int, from: own, to: made })
            &&& after.publications.last().staged[0].0 == staged
            &&& exists|i: int|
                before.steps.len() < i < after.steps.len() && takes_from(
                    #[trigger] after.steps[i],
                    made,
                )
            &&& after.steps.contains(StepView::Validate { path: staged, target })
            &&& target == SubtitleFormat::VobSub ==> after.steps.last()
                == StepView::RequireCompanion(staged.with_extension("idx"@))
        }),
{
    lemma_next_change(around, changes, change);
    lemma_jobs(changes);
    let before = with_changes(around, changes);
    let job = effective_count(changes);
    let sidecar = around.sidecars[position];
    let made = worked_on(around, changes, change, sidecar.path@);
    let rewritten = sidecar_started(around, changes, change, sidecar.path@);
    assert(with_changes(around, changes.push(change)) == with_changed_sidecar(
        rewritten,
        around,
        change,
        sidecar,
        made,
        job,
    ));
    lemma_changed(rewritten, around, change, sidecar, made, job);
    assert(before.steps.len() < rewritten.steps.len());
}

#[verifier::spinoff_prover]
#[verifier::rlimit(60)]
proof fn lemma_changed(
    prepared: PreparedModel,
    around: Surroundings,
    change: SubtitleChange,
    sidecar: SidecarEntry,
    made: PathModel,
    job: nat,
)
    requires
        with_changed_sidecar(
            prepared,
            around,
            change,
            sidecar,
            made,
            job,
        ).publications.len() > prepared.publications.len(),
    ensures
        ({
            let after = with_changed_sidecar(prepared, around, change, sidecar, made, job);
            let target = sidecar_target(change);
            let staged = around.work_file("sidecar-"@, job, dotted(target));
            &&& after.publications.last().staged[0].0 == staged
            &&& after.steps.len() > prepared.steps.len()
            &&& forall|i: int|
                0 <= i < prepared.steps.len() ==> #[trigger] after.steps[i] == prepared.steps[i]
            &&& exists|i: int|
                prepared.steps.len() <= i < after.steps.len() && takes_from(
                    #[trigger] after.steps[i],
                    made,
                )
            &&& after.steps.contains(StepView::Validate { path: staged, target })
            &&& target == SubtitleFormat::VobSub ==> after.steps.last()
                == StepView::RequireCompanion(staged.with_extension("idx"@))
        }),
{
    let target = sidecar_target(change);
    let subject = sidecar_subject(made);
    let staged = around.work_file("sidecar-"@, job, dotted(target));
    names_stay_in_the_directory(around.workspace, "sidecar-"@ + decimal(job) + dotted(target));
    let report = seq![
        StepView::Report(preparation_phase(subject, change, target, SubtitlePreparation::Sidecar)),
    ];
    let part = file_steps(made, change, target, staged, around.resolution(), subject);
    let check = check_steps(subject, staged, target);
    let companion = companion_steps(staged, target);
    lemma_put_together(prepared.steps, report, part, check, companion);
    let after = with_changed_sidecar(prepared, around, change, sidecar, made, job);
    let reported = prepared.and_steps(report);
    assert(sidecar_destination(reported, around, change, sidecar) is Ok);
    let destination = sidecar_destination(reported, around, change, sidecar)->Ok_0;
    assert(after == reported.and_steps(part).and_steps(check).and_steps(companion).and_publication(
        PublicationModel {
            staged: artifact_pairs(staged, destination, target),
            remove: sidecar.files(),
        },
    ));
    let k = lemma_file_steps_take(made, change, target, staged, around.resolution(), subject);
    assert(takes_from(after.steps[prepared.steps.len() + 1 + k], made));
}

} // verus!
