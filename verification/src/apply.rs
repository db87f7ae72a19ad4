//! The decisions of an edit, from the checked request to the files that are published.

use std::collections::{BTreeMap, BTreeSet};

use vstd::prelude::*;
use vstd::string::StringExecFns;

use crate::audio::AudioSettings;
use crate::command::{audio_encodable, order_encodable, track_encodable, video_encodable};
use crate::conflicts::{
    conflicts_of, container_conflicts, import_conflicts, imported_subtitle_conflicts,
    subtitle_metadata_conflicts,
};
use crate::container::{ContainerFormat, ContainerMetadata};
use crate::duplicates::{resolve_export_duplicates, settled_exports, Settled, SettledExports};
use crate::files::FileFingerprint;
use crate::names::{copy_of, first_free_copy, next_copy_path, replacement_of, replacement_path};
use crate::path::{holds_path, paths, places, FilePath, Part, PathModel, PathText, Place};
use crate::plan::{is_written, streams_written, track_is_written, written_streams};
use crate::prepare::source_is_there;
use crate::probe::{
    flagged, format_name, format_name_of, index_of, is_default, is_kind, stream_at, stream_index,
    MediaInfo, Stream,
};
use crate::progress::{media_write_label, write_text, SaveDestination};
use crate::publication::{
    path_pairs, publications, retarget_publications_for_copy, retargeted_for_copy, Publication,
    PublicationModel,
};
use crate::result::{
    in_container, result_problem, validate_output_container, validate_result, EditModel,
};
use crate::sets::{number_set, same_numbers};
use crate::sources::{
    classified, classify_edit_error, languages_problem, sources_problem,
    validate_subtitle_languages, validate_subtitle_sources, EditError, ErrorModel, SidecarState,
};
use crate::subtitle::{
    leaves_media, track_leaves_media, Languages, SidecarEntry, SubtitleChange, TrackRef,
};
use crate::text::{decimal, join, joined, number_text, texts};
use crate::transcode::{any_audio_encode, any_video_encode, some_audio_encode, some_video_encode};
use crate::validate::{
    audio_track_problem, audio_tracks_problem, edit_problem, first_of, indices, lemma_indices,
    order_problem, stream_indices, validate_edit, video_track_problem, video_tracks_problem,
};
use crate::video::VideoSettings;

verus! {

broadcast use vstd::std_specs::btree::group_btree_axioms;

/// What is edited and where it is saved.
#[derive(Clone, Copy)]
pub struct EditTarget<'a> {
    pub source: &'a FilePath,
    pub destination: SaveDestination,
    pub container: Option<ContainerFormat>,
    pub container_metadata: Option<&'a ContainerMetadata>,
}

/// What is staged for the tracks.
#[derive(Clone, Copy)]
pub struct TrackEdits<'a> {
    pub stream_order: &'a [u64],
    pub deleted_streams: &'a BTreeSet<u64>,
    pub default_streams: &'a BTreeSet<u64>,
    pub default_sidecars: &'a BTreeSet<usize>,
    pub audio_settings: &'a BTreeMap<u64, AudioSettings>,
    pub video_settings: &'a BTreeMap<u64, VideoSettings>,
    pub subtitle_changes: &'a [SubtitleChange],
    pub left_subtitle_order: &'a [TrackRef],
    pub sidecars: &'a [SidecarEntry],
}

/// Everything that is staged for one file.
#[derive(Clone, Debug)]
pub struct EditRequest {
    pub path: FilePath,
    pub destination: SaveDestination,
    pub container: Option<ContainerFormat>,
    pub container_metadata: Option<ContainerMetadata>,
    pub stream_order: Vec<u64>,
    pub deleted_streams: BTreeSet<u64>,
    pub default_streams: BTreeSet<u64>,
    pub default_sidecars: BTreeSet<usize>,
    pub audio_settings: BTreeMap<u64, AudioSettings>,
    pub video_settings: BTreeMap<u64, VideoSettings>,
    pub subtitle_changes: Vec<SubtitleChange>,
    pub left_subtitle_order: Vec<TrackRef>,
    pub sidecars: Vec<SidecarEntry>,
}

impl EditRequest {
    /// What is edited and where it is saved.
    pub open spec fn target_model(&self) -> EditTarget<'_> {
        EditTarget {
            source: &self.path,
            destination: self.destination,
            container: self.container,
            container_metadata: match &self.container_metadata {
                Some(metadata) => Some(metadata),
                None => None,
            },
        }
    }

    /// The edit as it was staged.
    pub open spec fn staged(&self) -> StagedModel {
        StagedModel {
            source: self.path@,
            container: self.container,
            writes_file_tags: self.container_metadata is Some,
            order: self.stream_order@,
            deleted: self.deleted_streams@,
            defaults: self.default_streams@,
            audio: self.audio_settings@,
            video: self.video_settings@,
            changes: self.subtitle_changes@,
            sidecars: self.sidecars@,
        }
    }

    pub fn target(&self) -> (result: EditTarget<'_>)
        ensures
            result == self.target_model(),
    {
        EditTarget {
            source: &self.path,
            destination: self.destination,
            container: self.container,
            container_metadata: match &self.container_metadata {
                Some(metadata) => Some(metadata),
                None => None,
            },
        }
    }

    /// What is staged for the tracks.
    pub fn edits(&self) -> (result: TrackEdits<'_>)
        ensures
            staged_edit(self.target_model(), result) == self.staged(),
            result.default_sidecars@ == self.default_sidecars@,
            result.left_subtitle_order@ == self.left_subtitle_order@,
    {
        TrackEdits {
            stream_order: self.stream_order.as_slice(),
            deleted_streams: &self.deleted_streams,
            default_streams: &self.default_streams,
            default_sidecars: &self.default_sidecars,
            audio_settings: &self.audio_settings,
            video_settings: &self.video_settings,
            subtitle_changes: self.subtitle_changes.as_slice(),
            left_subtitle_order: self.left_subtitle_order.as_slice(),
            sidecars: self.sidecars.as_slice(),
        }
    }
}

// Reading the source.

/// The failure to read the source, which may be gone.
pub fn source_unreadable(not_found: bool, reason: &str) -> (result: EditError)
    ensures
        result@ == (if not_found {
            ErrorModel::SourceChanged("Source file was removed; the media edit was not saved."@)
        } else {
            ErrorModel::Failed("Could not read source metadata: "@ + reason@)
        }),
{
    if not_found {
        return EditError::SourceChanged(
            "Source file was removed; the media edit was not saved.".to_owned(),
        );
    }
    let mut message = "Could not read source metadata: ".to_owned();
    message.append(reason);
    EditError::Failed(message)
}

/// The failure to probe the source, which may have gone in the meantime.
pub fn source_unprobed(removed: bool, reason: &str) -> (result: EditError)
    ensures
        result@ == (if removed {
            ErrorModel::SourceChanged("Source file was removed; the media edit was not saved."@)
        } else {
            ErrorModel::Failed(reason@)
        }),
{
    if removed {
        EditError::SourceChanged(
            "Source file was removed; the media edit was not saved.".to_owned(),
        )
    } else {
        EditError::Failed(reason.to_owned())
    }
}

// Which tracks are written.

/// The kept tracks that are written: not those that an export moves out, nor the chapter
/// list.
pub open spec fn output_order(
    info: MediaInfo,
    order: Seq<u64>,
    changes: Seq<SubtitleChange>,
) -> Seq<u64>
    decreases order.len(),
{
    if order.len() == 0 {
        Seq::empty()
    } else {
        let before = output_order(info, order.drop_last(), changes);
        if !leaves_media(changes, order.last()) && is_written(info, order.last()) {
            before.push(order.last())
        } else {
            before
        }
    }
}

pub fn output_stream_order(
    info: &MediaInfo,
    stream_order: &[u64],
    changes: &[SubtitleChange],
) -> (result: Vec<u64>)
    ensures
        result@ == output_order(*info, stream_order@, changes@),
{
    let mut result: Vec<u64> = Vec::new();
    let mut i: usize = 0;
    while i < stream_order.len()
        invariant
            0 <= i <= stream_order.len(),
            result@ == output_order(*info, stream_order@.take(i as int), changes@),
        decreases stream_order.len() - i,
    {
        let index: u64 = stream_order[i];
        proof {
            assert(stream_order@.take(i + 1).drop_last() =~= stream_order@.take(i as int));
            assert(stream_order@.take(i + 1).last() == index);
        }
        if !track_leaves_media(changes, index) && track_is_written(info, index) {
            result.push(index);
        }
        i = i + 1;
    }
    assert(stream_order@.take(stream_order@.len() as int) =~= stream_order@);
    result
}

/// The indices of the streams that are flagged as default, in order.
pub open spec fn default_indices(streams: Seq<Stream>) -> Seq<u64>
    decreases streams.len(),
{
    if streams.len() == 0 {
        Seq::empty()
    } else {
        let before = default_indices(streams.drop_last());
        if flagged(streams.last(), "default"@) && index_of(streams.last()) is Some {
            before.push(index_of(streams.last())->0)
        } else {
            before
        }
    }
}

fn list_default_indices(info: &MediaInfo) -> (result: Vec<u64>)
    ensures
        result@ == default_indices(info.streams@),
{
    let mut result: Vec<u64> = Vec::new();
    let mut i: usize = 0;
    while i < info.streams.len()
        invariant
            0 <= i <= info.streams.len(),
            result@ == default_indices(info.streams@.take(i as int)),
        decreases info.streams.len() - i,
    {
        proof {
            assert(info.streams@.take(i + 1).drop_last() =~= info.streams@.take(i as int));
            assert(info.streams@.take(i + 1).last() == info.streams@[i as int]);
        }
        if is_default(&info.streams[i]) {
            if let Some(index) = stream_index(&info.streams[i]) {
                result.push(index);
            }
        }
        i = i + 1;
    }
    assert(info.streams@.take(info.streams@.len() as int) =~= info.streams@);
    result
}

/// Whether a subtitle change shows in the media.
pub open spec fn some_change_remuxes(changes: Seq<SubtitleChange>) -> bool {
    exists|i: int| 0 <= i < changes.len() && (#[trigger] changes[i]).remuxes()
}

/// Whether the media has to be written anew: for a change of container or metadata, of the
/// order, of the tracks or their defaults, for settings, or for a subtitle.
pub open spec fn media_changes(
    info: MediaInfo,
    order: Seq<u64>,
    deleted: Set<u64>,
    defaults: Set<u64>,
    audio: Map<u64, AudioSettings>,
    video: Map<u64, VideoSettings>,
    changes: Seq<SubtitleChange>,
    container_changed: bool,
) -> bool {
    ||| container_changed
    ||| indices(info.streams@) != order
    ||| deleted != Set::<u64>::empty()
    ||| default_indices(info.streams@).to_set() != defaults
    ||| audio.dom() != Set::<u64>::empty()
    ||| video.dom() != Set::<u64>::empty()
    ||| some_change_remuxes(changes)
}

fn same_order(left: &Vec<u64>, right: &[u64]) -> (result: bool)
    ensures
        result == (left@ == right@),
{
    if left.len() != right.len() {
        return false;
    }
    let mut i: usize = 0;
    while i < left.len()
        invariant
            0 <= i <= left.len(),
            left@.len() == right@.len(),
            forall|k: int| 0 <= k < i ==> left@[k] == right@[k],
        decreases left.len() - i,
    {
        if left[i] != right[i] {
            return false;
        }
        i = i + 1;
    }
    assert(left@ =~= right@);
    true
}

fn any_change_remuxes(changes: &[SubtitleChange]) -> (result: bool)
    ensures
        result == some_change_remuxes(changes@),
{
    let mut i: usize = 0;
    while i < changes.len()
        invariant
            0 <= i <= changes.len(),
            forall|k: int| 0 <= k < i ==> !(#[trigger] changes@[k]).remuxes(),
        decreases changes.len() - i,
    {
        if changes[i].changes_media() {
            return true;
        }
        i = i + 1;
    }
    false
}

fn has_keys<V>(map: &BTreeMap<u64, V>) -> (result: bool)
    ensures
        result == (map@.dom() != Set::<u64>::empty()),
{
    let keys = crate::sets::keys_in_order(map);
    proof {
        if keys@.len() > 0 {
            assert(keys@.to_set().contains(keys@[0]));
        } else {
            assert(map@.dom() =~= Set::<u64>::empty());
        }
    }
    keys.len() > 0
}

fn has_numbers(set: &BTreeSet<u64>) -> (result: bool)
    ensures
        result == (set@ != Set::<u64>::empty()),
{
    let numbers = crate::sets::numbers_in_order(set);
    proof {
        if numbers@.len() > 0 {
            assert(numbers@.to_set().contains(numbers@[0]));
        } else {
            assert(set@ =~= Set::<u64>::empty());
        }
    }
    numbers.len() > 0
}

pub fn media_changes_required(
    source_info: &MediaInfo,
    stream_order: &[u64],
    deleted_streams: &BTreeSet<u64>,
    default_streams: &BTreeSet<u64>,
    audio_settings: &BTreeMap<u64, AudioSettings>,
    video_settings: &BTreeMap<u64, VideoSettings>,
    subtitle_changes: &[SubtitleChange],
    container_changed: bool,
) -> (result: bool)
    ensures
        result == media_changes(
            *source_info,
            stream_order@,
            deleted_streams@,
            default_streams@,
            audio_settings@,
            video_settings@,
            subtitle_changes@,
            container_changed,
        ),
{
    let source_order = stream_indices(source_info);
    let (source_defaults, _) = number_set(list_default_indices(source_info).as_slice());
    container_changed || !same_order(&source_order, stream_order) || has_numbers(deleted_streams)
        || !same_numbers(&source_defaults, default_streams) || has_keys(audio_settings)
        || has_keys(video_settings) || any_change_remuxes(subtitle_changes)
}

// Checking the edit.

/// An edit that was checked: the tracks that are written, the container they are written
/// in, whether the media is written at all, and the words for that.
#[derive(Debug, Eq, PartialEq)]
pub struct CheckedEdit {
    pub stream_order: Vec<u64>,
    pub container: Option<ContainerFormat>,
    pub media_changed: bool,
    pub operation: String,
}

/// What a [`CheckedEdit`] says.
pub ghost struct CheckedModel {
    pub order: Seq<u64>,
    pub container: Option<ContainerFormat>,
    pub media_changed: bool,
    pub operation: Seq<char>,
}

impl View for CheckedEdit {
    type V = CheckedModel;

    open spec fn view(&self) -> CheckedModel {
        CheckedModel {
            order: self.stream_order@,
            container: self.container,
            media_changed: self.media_changed,
            operation: self.operation@,
        }
    }
}

/// An edit as it was staged.
pub ghost struct StagedModel {
    pub source: PathModel,
    pub container: Option<ContainerFormat>,
    pub writes_file_tags: bool,
    pub order: Seq<u64>,
    pub deleted: Set<u64>,
    pub defaults: Set<u64>,
    pub audio: Map<u64, AudioSettings>,
    pub video: Map<u64, VideoSettings>,
    pub changes: Seq<SubtitleChange>,
    pub sidecars: Seq<SidecarEntry>,
}

/// The edit that a target and track edits stage.
pub open spec fn staged_edit(target: EditTarget<'_>, edits: TrackEdits<'_>) -> StagedModel {
    StagedModel {
        source: target.source@,
        container: target.container,
        writes_file_tags: target.container_metadata is Some,
        order: edits.stream_order@,
        deleted: edits.deleted_streams@,
        defaults: edits.default_streams@,
        audio: edits.audio_settings@,
        video: edits.video_settings@,
        changes: edits.subtitle_changes@,
        sidecars: edits.sidecars@,
    }
}

impl StagedModel {
    /// The first problem that a check of the staged edit finds.
    pub open spec fn problem(
        self,
        languages: Languages,
        info: MediaInfo,
        states: Seq<SidecarState>,
    ) -> Option<Seq<char>> {
        first_of(
            edit_problem(
                info.streams@,
                self.order,
                self.deleted,
                self.defaults,
                self.audio,
                self.video,
            ),
            first_of(
                sources_problem(info.streams@, self.changes, self.sidecars, states),
                languages_problem(
                    languages,
                    info.streams@,
                    self.changes,
                    self.sidecars,
                    self.deleted,
                ),
            ),
        )
    }

    /// The container that the source is in.
    pub open spec fn detected(self, info: MediaInfo) -> Option<ContainerFormat> {
        ContainerFormat::detected(self.source, format_name_of(info))
    }

    /// The container that is written: the one asked for, or else the source's.
    pub open spec fn written_container(self, info: MediaInfo) -> Option<ContainerFormat> {
        match self.container {
            Some(container) => Some(container),
            None => self.detected(info),
        }
    }

    /// What the written container cannot hold. Tracks that stay in their container are not
    /// asked about.
    pub open spec fn conflicts(self, info: MediaInfo, container: ContainerFormat) -> Seq<
        Seq<char>,
    > {
        (if self.container is Some {
            conflicts_of(
                info,
                output_order(info, self.order, self.changes),
                self.audio,
                self.video,
                self.changes,
                container,
            ).map_values(|entry: (u64, Seq<char>)| entry.1)
        } else {
            Seq::empty()
        }) + import_conflicts(self.changes, self.sidecars, container)
    }

    pub open spec fn imports_something(self) -> bool {
        exists|i: int| 0 <= i < self.changes.len() && (#[trigger] self.changes[i]).import_into_media
    }

    /// Why the container does not fit.
    pub open spec fn container_problem(self, info: MediaInfo) -> Option<Seq<char>> {
        match self.written_container(info) {
            Some(container) => if self.conflicts(info, container).len() > 0 {
                Some(
                    "The selected container is incompatible:\n"@ + joined(
                        self.conflicts(info, container),
                        "\n"@,
                    ),
                )
            } else {
                None
            },
            None => if self.imports_something() {
                Some("Choose a supported container before importing subtitles."@)
            } else {
                None
            },
        }
    }

    /// What the checked edit comes to.
    pub open spec fn outcome(self, info: MediaInfo) -> CheckedModel {
        let order = output_order(info, self.order, self.changes);
        CheckedModel {
            order,
            container: self.written_container(info),
            media_changed: media_changes(
                info,
                order,
                self.deleted,
                self.defaults,
                self.audio,
                self.video,
                self.changes,
                (self.container is Some && self.detected(info) != self.container)
                    || self.writes_file_tags,
            ),
            operation: write_text(
                self.container,
                some_audio_encode(info, order, self.audio),
                some_video_encode(info, order, self.video),
                self.writes_file_tags,
            ),
        }
    }

    /// The checked edit, or why it is refused.
    pub open spec fn checked(
        self,
        languages: Languages,
        info: MediaInfo,
        states: Seq<SidecarState>,
    ) -> Result<CheckedModel, ErrorModel> {
        match self.problem(languages, info, states) {
            Some(problem) => Err(classified(problem)),
            None => match self.container_problem(info) {
                Some(problem) => Err(ErrorModel::Failed(problem)),
                None => Ok(self.outcome(info)),
            },
        }
    }
}

fn any_import(changes: &[SubtitleChange]) -> (result: bool)
    ensures
        result == exists|i: int|
            0 <= i < changes@.len() && (#[trigger] changes@[i]).import_into_media,
{
    let mut i: usize = 0;
    while i < changes.len()
        invariant
            0 <= i <= changes.len(),
            forall|k: int| 0 <= k < i ==> !(#[trigger] changes@[k]).import_into_media,
        decreases changes.len() - i,
    {
        if changes[i].import_into_media {
            return true;
        }
        i = i + 1;
    }
    false
}

/// Checks a staged edit against what the probe reports and what the sidecars are now.
pub fn check_edit(
    languages: &Languages,
    target: EditTarget<'_>,
    edits: TrackEdits<'_>,
    info: &MediaInfo,
    states: &[SidecarState],
) -> (result: Result<CheckedEdit, EditError>)
    ensures
        match result {
            Ok(checked) => staged_edit(target, edits).checked(*languages, *info, states@) == Ok::<
                CheckedModel,
                ErrorModel,
            >(checked@),
            Err(error) => staged_edit(target, edits).checked(*languages, *info, states@) == Err::<
                CheckedModel,
                ErrorModel,
            >(error@),
        },
{
    let ghost staged = staged_edit(target, edits);
    match validate_edit(
        info,
        edits.stream_order,
        edits.deleted_streams,
        edits.default_streams,
        edits.audio_settings,
        edits.video_settings,
    ) {
        Ok(_) => {},
        Err(message) => return Err(classify_edit_error(message)),
    }
    match validate_subtitle_sources(info, edits.subtitle_changes, edits.sidecars, states) {
        Ok(_) => {},
        Err(message) => return Err(classify_edit_error(message)),
    }
    match validate_subtitle_languages(
        languages,
        info,
        edits.subtitle_changes,
        edits.sidecars,
        edits.deleted_streams,
    ) {
        Ok(_) => {},
        Err(message) => return Err(classify_edit_error(message)),
    }
    let order = output_stream_order(info, edits.stream_order, edits.subtitle_changes);
    let detected = ContainerFormat::detect(target.source, format_name(info));
    let container = match target.container {
        Some(container) => Some(container),
        None => detected,
    };
    if let Some(container) = container {
        let mut conflicts: Vec<String> = if target.container.is_some() {
            container_conflicts(
                info,
                order.as_slice(),
                edits.audio_settings,
                edits.video_settings,
                edits.subtitle_changes,
                container,
            )
        } else {
            Vec::new()
        };
        let ghost first = conflicts@;
        let mut imports = imported_subtitle_conflicts(
            edits.subtitle_changes,
            edits.sidecars,
            container,
        );
        let ghost second = imports@;
        conflicts.append(&mut imports);
        assert(texts(conflicts@) =~= texts(first) + texts(second));
        let mut flags = subtitle_metadata_conflicts(
            languages,
            info,
            edits.subtitle_changes,
            edits.sidecars,
            container,
            target.container.is_some(),
        );
        let ghost third = flags@;
        let ghost two = conflicts@;
        conflicts.append(&mut flags);
        assert(texts(third).len() == third.len());
        assert(conflicts@ =~= two);
        assert(texts(conflicts@) =~= staged.conflicts(*info, container)) by {
            if target.container is None {
                assert(texts(first) =~= Seq::<Seq<char>>::empty());
            }
        }
        assert(texts(conflicts@).len() == conflicts@.len());
        if conflicts.len() > 0 {
            let mut message = "The selected container is incompatible:\n".to_owned();
            message.append(join(conflicts.as_slice(), "\n").as_str());
            return Err(EditError::Failed(message));
        }
    } else if any_import(edits.subtitle_changes) {
        return Err(
            EditError::Failed(
                "Choose a supported container before importing subtitles.".to_owned(),
            ),
        );
    }
    let container_changed: bool = match target.container {
        Some(container) => match detected {
            Some(detected) => detected != container,
            None => true,
        },
        None => false,
    };
    let media_changed = media_changes_required(
        info,
        order.as_slice(),
        edits.deleted_streams,
        edits.default_streams,
        edits.audio_settings,
        edits.video_settings,
        edits.subtitle_changes,
        container_changed || target.container_metadata.is_some(),
    );
    let operation = media_write_label(
        target.container,
        any_audio_encode(info, order.as_slice(), edits.audio_settings),
        any_video_encode(info, order.as_slice(), edits.video_settings),
        target.container_metadata.is_some(),
    );
    Ok(CheckedEdit { stream_order: order, container, media_changed, operation })
}

// Checking the written file.

/// What is wrong with a written file: its container, the number of its tracks, or one of
/// its tracks.
pub open spec fn output_problem(
    edit: EditModel,
    output: MediaInfo,
    temporary: PathModel,
    asked: Option<ContainerFormat>,
) -> Option<Seq<char>> {
    let written = written_streams(output, output.streams@).len();
    let expected = edit.order.len() + edit.imports.len();
    if asked is Some && !in_container(output, temporary, asked->0) {
        Some("The completed file is not a valid "@ + asked->0.label_text() + " container."@)
    } else if written != expected {
        Some(
            "The remuxed file has "@ + decimal(written) + " tracks; expected "@ + decimal(expected)
                + "."@,
        )
    } else {
        result_problem(edit, output)
    }
}

/// Checks a written file against the edit it was written for.
pub fn check_output(
    plan: &crate::command::FfmpegPlan<'_>,
    output: &MediaInfo,
    asked: Option<ContainerFormat>,
) -> (result: Result<(), EditError>)
    requires
        plan.edit().audio_is_there(),
        plan.stream_order@.len() + plan.imports@.len() <= usize::MAX,
    ensures
        match result {
            Ok(_) => output_problem(plan.edit(), *output, plan.temporary@, asked) is None,
            Err(error) => output_problem(plan.edit(), *output, plan.temporary@, asked) is Some
                && error@ == ErrorModel::Failed(
                output_problem(plan.edit(), *output, plan.temporary@, asked)->0,
            ),
        },
{
    if let Some(container) = asked {
        match validate_output_container(output, plan.temporary, container) {
            Ok(_) => {},
            Err(message) => return Err(EditError::Failed(message)),
        }
    }
    let expected: usize = plan.stream_order.len() + plan.imports.len();
    let streams = streams_written(output);
    let written: usize = streams.len();
    assert(crate::plan::derefs(streams@).len() == streams@.len());
    if written != expected {
        let mut message = "The remuxed file has ".to_owned();
        message.append(number_text(written as u64).as_str());
        message.append(" tracks; expected ");
        message.append(number_text(expected as u64).as_str());
        message.append(".");
        return Err(EditError::Failed(message));
    }
    match validate_result(
        plan.languages,
        plan.source_info,
        output,
        plan.stream_order,
        plan.left_subtitle_order,
        plan.default_streams,
        plan.audio_settings,
        plan.video_settings,
        plan.replacements,
        plan.imports,
        plan.subtitle_changes,
        plan.sidecars,
        plan.container,
    ) {
        Ok(_) => Ok(()),
        Err(message) => Err(EditError::Failed(message)),
    }
}

// Checking the sources again.

/// Whether a file still is the version that a fingerprint was taken of.
pub fn source_matches_fingerprint(current: FileFingerprint, expected: FileFingerprint) -> (result:
    bool)
    ensures
        result == (current == expected),
{
    current.same(expected)
}

/// Why nothing is saved after all: a sidecar changed, or the source did or is gone.
pub open spec fn recheck_problem(
    streams: Seq<Stream>,
    changes: Seq<SubtitleChange>,
    sidecars: Seq<SidecarEntry>,
    states: Seq<SidecarState>,
    current: Option<FileFingerprint>,
    expected: FileFingerprint,
    media_changed: bool,
) -> Option<Seq<char>> {
    if sources_problem(streams, changes, sidecars, states) is Some {
        Some(
            if media_changed {
                "A subtitle sidecar changed; no media or subtitle output was saved."@
            } else {
                "A subtitle sidecar changed; no subtitle output was saved."@
            },
        )
    } else {
        match current {
            None => Some(
                if media_changed {
                    "Source file was removed; the media edit was not saved."@
                } else {
                    "Source file was removed; no subtitle output was saved."@
                },
            ),
            Some(current) => if current != expected {
                Some(
                    if media_changed {
                        "Source file changed; reloaded latest metadata without saving the media edit."@
                    } else {
                        "Source file changed; no subtitle output was saved."@
                    },
                )
            } else {
                None
            },
        }
    }
}

/// Checks the sources once more before anything is published.
pub fn recheck_sources(
    info: &MediaInfo,
    changes: &[SubtitleChange],
    sidecars: &[SidecarEntry],
    states: &[SidecarState],
    current: Option<FileFingerprint>,
    expected: FileFingerprint,
    media_changed: bool,
) -> (result: Result<(), EditError>)
    ensures
        match result {
            Ok(_) => recheck_problem(
                info.streams@,
                changes@,
                sidecars@,
                states@,
                current,
                expected,
                media_changed,
            ) is None,
            Err(error) => match recheck_problem(
                info.streams@,
                changes@,
                sidecars@,
                states@,
                current,
                expected,
                media_changed,
            ) {
                Some(problem) => error@ == ErrorModel::SourceChanged(problem),
                None => false,
            },
        },
{
    match validate_subtitle_sources(info, changes, sidecars, states) {
        Ok(_) => {},
        Err(_) => return Err(
            EditError::SourceChanged(
                if media_changed {
                    "A subtitle sidecar changed; no media or subtitle output was saved.".to_owned()
                } else {
                    "A subtitle sidecar changed; no subtitle output was saved.".to_owned()
                },
            ),
        ),
    }
    match current {
        None => Err(
            EditError::SourceChanged(
                if media_changed {
                    "Source file was removed; the media edit was not saved.".to_owned()
                } else {
                    "Source file was removed; no subtitle output was saved.".to_owned()
                },
            ),
        ),
        Some(current) => if source_matches_fingerprint(current, expected) {
            Ok(())
        } else {
            Err(
                EditError::SourceChanged(
                    if media_changed {
                        "Source file changed; reloaded latest metadata without saving the media edit.".to_owned()
                    } else {
                        "Source file changed; no subtitle output was saved.".to_owned()
                    },
                ),
            )
        },
    }
}

// Where the result goes.

/// Where the media is saved and what is published with it.
#[derive(Debug, Eq, PartialEq)]
pub struct SavePlan {
    pub output_path: FilePath,
    pub exports: SettledExports,
}

/// Whether a save plan is the settled form of some publications.
pub open spec fn settles(
    exports: SettledExports,
    list: Seq<PublicationModel>,
    taken: Seq<Place>,
    workspace: Part,
) -> bool {
    match settled_exports(list, taken, workspace) {
        Ok(settled) => publications(exports.publications@) == settled.publications + settled.added
            && path_pairs(exports.copies@) == settled.copies,
        Err(_) => false,
    }
}

/// Settles an edit in place: the names of the exports, and the path of the media, which
/// must not be that of another file.
pub fn plan_replacement(
    source: &FilePath,
    container: Option<ContainerFormat>,
    list: &[Publication],
    workspace: &PathText,
    taken: &[FilePath],
) -> (result: Result<SavePlan, EditError>)
    ensures
        match result {
            Ok(plan) => {
                &&& settles(plan.exports, publications(list@), places(paths(taken@)), workspace@)
                &&& replacement_of(source@, container) == Ok::<PathModel, ErrorModel>(
                    plan.output_path@,
                )
                &&& plan.output_path@.place() == source@.place() || !places(paths(taken@)).contains(
                    plan.output_path@.place(),
                )
            },
            Err(error) => match settled_exports(publications(list@), places(paths(taken@)), workspace@) {
                Err(problem) => error@ == problem,
                Ok(_) => match replacement_of(source@, container) {
                    Err(problem) => error@ == problem,
                    Ok(path) => path.place() != source@.place() && places(paths(taken@)).contains(
                        path.place(),
                    ) && error@ == ErrorModel::Failed(
                        path.shown() + " already exists; choose Create a copy or rename it."@,
                    ),
                },
            },
        },
{
    let exports = match resolve_export_duplicates(list, workspace, taken) {
        Ok(exports) => exports,
        Err(error) => return Err(error),
    };
    let output_path = match replacement_path(source, container) {
        Ok(path) => path,
        Err(error) => return Err(error),
    };
    if !output_path.same(source) && holds_path(taken, &output_path) {
        let mut message = output_path.shown();
        message.append(" already exists; choose Create a copy or rename it.");
        return Err(EditError::Failed(message));
    }
    Ok(SavePlan { output_path, exports })
}

/// Settles an edit that is saved as a copy: the path of the copy, and the names of the
/// exports beside it.
pub fn plan_copy(
    source: &FilePath,
    container: Option<ContainerFormat>,
    list: &[Publication],
    workspace: &PathText,
    taken: &[FilePath],
) -> (result: Result<SavePlan, EditError>)
    requires
        taken@.len() < usize::MAX,
    ensures
        match result {
            Ok(plan) => {
                &&& exists|number: nat| #[trigger]
                    first_free_copy(source@, container, places(paths(taken@)), number) && copy_of(
                        source@,
                        number,
                        container,
                    ) == Ok::<PathModel, Seq<char>>(plan.output_path@)
                &&& retargeted_for_copy(publications(list@), source@, plan.output_path@) is Ok
                &&& settles(
                    plan.exports,
                    retargeted_for_copy(publications(list@), source@, plan.output_path@)->Ok_0,
                    places(paths(taken@)),
                    workspace@,
                )
            },
            Err(error) => {
                ||| copy_of(source@, 1, container) is Err && error@ == ErrorModel::Failed(
                    copy_of(source@, 1, container)->Err_0,
                )
                ||| exists|number: nat| #[trigger]
                    first_free_copy(source@, container, places(paths(taken@)), number) && {
                        let copy = copy_of(source@, number, container)->Ok_0;
                        match retargeted_for_copy(publications(list@), source@, copy) {
                            Err(problem) => error@ == problem,
                            Ok(retargeted) => settled_exports(
                                retargeted,
                                places(paths(taken@)),
                                workspace@,
                            ) == Err::<Settled, ErrorModel>(error@),
                        }
                    }
            },
        },
{
    let output_path = match next_copy_path(source, container, taken) {
        Ok(path) => path,
        Err(error) => return Err(error),
    };
    let retargeted = match retarget_publications_for_copy(list, source, &output_path) {
        Ok(retargeted) => retargeted,
        Err(error) => return Err(error),
    };
    let exports = match resolve_export_duplicates(retargeted.as_slice(), workspace, taken) {
        Ok(exports) => exports,
        Err(error) => return Err(error),
    };
    Ok(SavePlan { output_path, exports })
}

// Laws.

proof fn lemma_output_order(info: MediaInfo, order: Seq<u64>, changes: Seq<SubtitleChange>)
    ensures
        forall|i: int|
            0 <= i < output_order(info, order, changes).len() ==> order.contains(
                #[trigger] output_order(info, order, changes)[i],
            ),
    decreases order.len(),
{
    if order.len() > 0 {
        let shorter = order.drop_last();
        lemma_output_order(info, shorter, changes);
        let written = output_order(info, order, changes);
        let before = output_order(info, shorter, changes);
        assert forall|i: int| 0 <= i < written.len() implies order.contains(
            #[trigger] written[i],
        ) by {
            if i < before.len() {
                assert(written[i] == before[i]);
                let k = choose|k: int| 0 <= k < shorter.len() && shorter[k] == before[i];
                assert(order[k] == written[i]);
            } else {
                assert(order[order.len() - 1] == written[i]);
            }
        }
    }
}

proof fn lemma_audio_tracks(
    streams: Seq<Stream>,
    tracks: Seq<u64>,
    settings: Map<u64, AudioSettings>,
    index: u64,
)
    requires
        audio_tracks_problem(streams, tracks, settings) is None,
        tracks.contains(index),
        stream_at(streams, index) is Some,
    ensures
        audio_track_problem(stream_at(streams, index)->0, index, settings[index]) is None,
    decreases tracks.len(),
{
    if tracks[0] != index {
        let i = choose|i: int| 0 <= i < tracks.len() && tracks[i] == index;
        assert(tracks.skip(1)[i - 1] == index);
        lemma_audio_tracks(streams, tracks.skip(1), settings, index);
    }
}

proof fn lemma_video_tracks(
    streams: Seq<Stream>,
    tracks: Seq<u64>,
    settings: Map<u64, VideoSettings>,
    index: u64,
)
    requires
        video_tracks_problem(streams, tracks, settings) is None,
        tracks.contains(index),
        stream_at(streams, index) is Some,
    ensures
        video_track_problem(stream_at(streams, index)->0, settings[index]) is None,
    decreases tracks.len(),
{
    if tracks[0] != index {
        let i = choose|i: int| 0 <= i < tracks.len() && tracks[i] == index;
        assert(tracks.skip(1)[i - 1] == index);
        lemma_video_tracks(streams, tracks.skip(1), settings, index);
    }
}

proof fn lemma_sources(
    streams: Seq<Stream>,
    changes: Seq<SubtitleChange>,
    sidecars: Seq<SidecarEntry>,
    states: Seq<SidecarState>,
    position: int,
)
    requires
        sources_problem(streams, changes, sidecars, states) is None,
        0 <= position < changes.len(),
        changes[position].effective(),
    ensures
        crate::sources::source_problem(streams, changes[position], sidecars, states) is None,
    decreases changes.len(),
{
    if position < changes.len() - 1 {
        lemma_sources(streams, changes.drop_last(), sidecars, states, position);
    }
}

proof fn lemma_kept_streams(
    streams: Seq<Stream>,
    order: Seq<u64>,
    deleted: Set<u64>,
    defaults: Set<u64>,
    index: u64,
)
    requires
        order_problem(streams, order, deleted, defaults) is None,
        order.contains(index),
    ensures
        stream_at(streams, index) is Some,
{
    let available = indices(streams).to_set();
    assert(order.to_set().contains(index));
    assert(order.to_set().union(deleted).contains(index));
    assert(available.contains(index));
    lemma_indices(streams, index);
}

/// An edit that passed the checks can be carried out: every track that is written is in
/// the source, every encode that is asked for has an encoder and a rate, and the source of
/// every subtitle change is there.
pub proof fn checked_edits_can_be_carried_out(
    staged: StagedModel,
    languages: Languages,
    info: MediaInfo,
    states: Seq<SidecarState>,
)
    requires
        staged.checked(languages, info, states) is Ok,
        staged.audio.dom().finite(),
        staged.video.dom().finite(),
    ensures
        order_encodable(info, staged.outcome(info).order, staged.audio, staged.video),
        forall|index: u64| #[trigger]
            staged.outcome(info).order.contains(index) ==> stream_at(info.streams@, index) is Some,
        forall|i: int|
            0 <= i < staged.changes.len() && (#[trigger] staged.changes[i]).effective()
                ==> source_is_there(info, staged.sidecars, staged.changes[i]),
{
    let order = staged.outcome(info).order;
    let streams = info.streams@;
    lemma_output_order(info, staged.order, staged.changes);
    crate::order::lemma_order_of_finite(staged.audio.dom());
    crate::order::lemma_order_of_finite(staged.video.dom());
    assert forall|i: int| 0 <= i < order.len() implies track_encodable(
        info,
        #[trigger] order[i],
        staged.audio,
        staged.video,
    ) by {
        let index = order[i];
        assert(staged.order.contains(index));
        lemma_kept_streams(streams, staged.order, staged.deleted, staged.defaults, index);
        let stream = stream_at(streams, index)->0;
        if staged.video.contains_key(index) {
            let tracks = crate::order::in_order(staged.video.dom());
            assert(tracks.to_set().contains(index));
            lemma_video_tracks(streams, tracks, staged.video, index);
            assert(video_encodable(stream, staged.video[index]));
        }
        if staged.audio.contains_key(index) {
            let tracks = crate::order::in_order(staged.audio.dom());
            assert(tracks.to_set().contains(index));
            lemma_audio_tracks(streams, tracks, staged.audio, index);
            if is_kind(stream, "audio"@) {
                assert(audio_encodable(stream, staged.audio[index]));
            }
        }
    }
    assert forall|index: u64| #[trigger] order.contains(index) implies stream_at(streams, index)
        is Some by {
        let i = choose|i: int| 0 <= i < order.len() && order[i] == index;
        assert(staged.order.contains(order[i]));
        lemma_kept_streams(streams, staged.order, staged.deleted, staged.defaults, index);
    }
    assert forall|i: int| 0 <= i < staged.changes.len() && (
    #[trigger] staged.changes[i]).effective() implies source_is_there(
        info,
        staged.sidecars,
        staged.changes[i],
    ) by {
        lemma_sources(streams, staged.changes, staged.sidecars, states, i);
    }
}

/// An edit that changes nothing of the media leaves it alone: with the order, the defaults
/// and the container of the source, no deletion, no settings and only changes of sidecars,
/// the media is not written.
pub proof fn untouched_media_is_not_written(staged: StagedModel, info: MediaInfo)
    requires
        staged.container is None || staged.container == staged.detected(info),
        !staged.writes_file_tags,
        output_order(info, staged.order, staged.changes) == indices(info.streams@),
        staged.deleted == Set::<u64>::empty(),
        staged.defaults == default_indices(info.streams@).to_set(),
        staged.audio.dom() == Set::<u64>::empty(),
        staged.video.dom() == Set::<u64>::empty(),
        !some_change_remuxes(staged.changes),
    ensures
        !staged.outcome(info).media_changed,
{
}

/// The tracks that are written are those of the order, as they stand there, that no change
/// takes out of the media and that are not chapters.
pub proof fn written_orders_keep_the_order(
    info: MediaInfo,
    order: Seq<u64>,
    changes: Seq<SubtitleChange>,
)
    ensures
        output_order(info, order, changes) == order.filter(
            |index: u64| !leaves_media(changes, index) && is_written(info, index),
        ),
    decreases order.len(),
{
    reveal(Seq::filter);
    if order.len() > 0 {
        written_orders_keep_the_order(info, order.drop_last(), changes);
    }
}

/// The default tracks of a file are those that are flagged so.
pub proof fn default_tracks_are_flagged(streams: Seq<Stream>, index: u64)
    ensures
        default_indices(streams).contains(index) <==> exists|i: int|
            0 <= i < streams.len() && flagged(#[trigger] streams[i], "default"@) && index_of(
                streams[i],
            ) == Some(index),
    decreases streams.len(),
{
    if streams.len() > 0 {
        let fewer = streams.drop_last();
        let before = default_indices(fewer);
        let all = default_indices(streams);
        default_tracks_are_flagged(fewer, index);
        assert forall|i: int| 0 <= i < fewer.len() implies #[trigger] streams[i] == fewer[i] by {}
        assert forall|i: int| 0 <= i < fewer.len() implies #[trigger] fewer[i] == streams[i] by {}
        assert(streams[streams.len() - 1] == streams.last());
        if before.contains(index) {
            assert(all[before.index_of(index)] == index);
        }
        if all.len() > before.len() && all.last() == index {
            assert(all[before.len() as int] == index);
        }
        if all.contains(index) {
            let at = all.index_of(index);
            if at < before.len() {
                assert(before[at] == index);
            }
        }
    }
}

/// The media is written anew where the container or its names change, tracks move, leave or
/// become default, a track has settings, or a change of a subtitle reaches into it; and
/// where none of this is so it is left alone.
pub proof fn media_is_written_where_it_changes(staged: StagedModel, info: MediaInfo)
    ensures
        staged.outcome(info).media_changed <==> (staged.container is Some && staged.container
            != ContainerFormat::detected(staged.source, format_name_of(info)))
            || staged.writes_file_tags || staged.outcome(info).order != indices(info.streams@)
            || staged.deleted != Set::<u64>::empty() || staged.defaults != default_indices(
            info.streams@,
        ).to_set() || staged.audio.dom() != Set::<u64>::empty() || staged.video.dom() != Set::<
            u64,
        >::empty() || exists|i: int|
            0 <= i < staged.changes.len() && (#[trigger] staged.changes[i]).remuxes(),
{
}

/// A file is written in the container that is asked for, or else in its own.
pub proof fn files_keep_their_container(staged: StagedModel, info: MediaInfo)
    ensures
        staged.container is Some ==> staged.outcome(info).container == staged.container,
        staged.container is None ==> staged.outcome(info).container == ContainerFormat::detected(
            staged.source,
            format_name_of(info),
        ),
        staged.outcome(info).order == output_order(info, staged.order, staged.changes),
        staged.outcome(info).operation == write_text(
            staged.container,
            some_audio_encode(info, staged.outcome(info).order, staged.audio),
            some_video_encode(info, staged.outcome(info).order, staged.video),
            staged.writes_file_tags,
        ),
{
}

/// An edit is checked whole: first its tracks, then the sources of its subtitles, then their
/// languages, then the container. It passes where none of them objects; the first objection
/// is told, and one about a source that changed as such.
pub proof fn edits_pass_every_check(
    staged: StagedModel,
    languages: Languages,
    info: MediaInfo,
    states: Seq<SidecarState>,
)
    ensures
        ({
            let on_edit = edit_problem(
                info.streams@,
                staged.order,
                staged.deleted,
                staged.defaults,
                staged.audio,
                staged.video,
            );
            let on_sources = sources_problem(
                info.streams@,
                staged.changes,
                staged.sidecars,
                states,
            );
            let on_languages = languages_problem(
                languages,
                info.streams@,
                staged.changes,
                staged.sidecars,
                staged.deleted,
            );
            let on_container = staged.container_problem(info);
            let result = staged.checked(languages, info, states);
            &&& result is Ok <==> on_edit is None && on_sources is None && on_languages is None
                && on_container is None
            &&& result is Ok ==> result->Ok_0 == staged.outcome(info)
            &&& on_edit is Some ==> result->Err_0 == classified(on_edit->0)
            &&& on_edit is None && on_sources is Some ==> result->Err_0 == classified(on_sources->0)
            &&& on_edit is None && on_sources is None && on_languages is Some ==> result->Err_0
                == classified(on_languages->0)
            &&& on_edit is None && on_sources is None && on_languages is None && on_container
                is Some ==> result->Err_0 == ErrorModel::Failed(on_container->0)
        }),
{
}

/// A container is fine where it stores every written track, which is asked only of another
/// container, and every subtitle that is imported; a file whose container is not known
/// takes no import.
pub proof fn containers_must_store_everything(staged: StagedModel, info: MediaInfo)
    ensures
        staged.outcome(info).container is Some ==> {
            let container = staged.outcome(info).container->0;
            let told = conflicts_of(
                info,
                staged.outcome(info).order,
                staged.audio,
                staged.video,
                staged.changes,
                container,
            );
            let imports = import_conflicts(staged.changes, staged.sidecars, container);
            &&& staged.container_problem(info) is None <==> (staged.container is None || told.len()
                == 0) && imports.len() == 0
            &&& staged.container is None && imports.len() > 0 ==> staged.container_problem(info)
                == Some("The selected container is incompatible:\n"@ + joined(imports, "\n"@))
            &&& staged.container is Some && told.len() > 0 && imports.len() == 0
                ==> staged.container_problem(info) == Some(
                "The selected container is incompatible:\n"@ + joined(
                    told.map_values(|entry: (u64, Seq<char>)| entry.1),
                    "\n"@,
                ),
            )
        },
        staged.outcome(info).container is None ==> staged.container_problem(info) == if exists|
            i: int,
        |
            0 <= i < staged.changes.len() && (#[trigger] staged.changes[i]).import_into_media {
            Some("Choose a supported container before importing subtitles."@)
        } else {
            None
        },
{
    if staged.outcome(info).container is Some {
        let container = staged.outcome(info).container->0;
        let told = conflicts_of(
            info,
            staged.outcome(info).order,
            staged.audio,
            staged.video,
            staged.changes,
            container,
        ).map_values(|entry: (u64, Seq<char>)| entry.1);
        let imports = import_conflicts(staged.changes, staged.sidecars, container);
        assert(Seq::<Seq<char>>::empty() + imports =~= imports);
        if imports.len() == 0 {
            assert(told + imports =~= told);
        }
    }
}

/// A file that was written is accepted where it is in the container that was asked for, has
/// as many tracks as were to be written, and each of them is as planned.
pub proof fn outputs_are_checked_in_turn(
    edit: EditModel,
    output: MediaInfo,
    temporary: PathModel,
    asked: ContainerFormat,
)
    ensures
        ({
            let written = written_streams(output, output.streams@).len();
            let expected = edit.order.len() + edit.imports.len();
            let problem = output_problem(edit, output, temporary, Some(asked));
            &&& problem is None <==> in_container(output, temporary, asked) && written == expected
                && result_problem(edit, output) is None
            &&& !in_container(output, temporary, asked) ==> problem == Some(
                "The completed file is not a valid "@ + asked.label_text() + " container."@,
            )
            &&& in_container(output, temporary, asked) && written != expected ==> problem == Some(
                "The remuxed file has "@ + decimal(written) + " tracks; expected "@ + decimal(
                    expected,
                ) + "."@,
            )
            &&& in_container(output, temporary, asked) && written == expected ==> problem
                == result_problem(edit, output)
            &&& output_problem(edit, output, temporary, None) is None <==> written == expected
                && result_problem(edit, output) is None
        }),
{
}

/// Before anything is saved, the sidecars must be as they were and the media must be there
/// and untouched; what is said tells whether the media would have been written.
pub proof fn nothing_is_saved_over_a_changed_source(
    streams: Seq<Stream>,
    changes: Seq<SubtitleChange>,
    sidecars: Seq<SidecarEntry>,
    states: Seq<SidecarState>,
    current: Option<FileFingerprint>,
    expected: FileFingerprint,
)
    ensures
        ({
            let stale = sources_problem(streams, changes, sidecars, states) is Some;
            let media = recheck_problem(
                streams,
                changes,
                sidecars,
                states,
                current,
                expected,
                true,
            );
            let alone = recheck_problem(
                streams,
                changes,
                sidecars,
                states,
                current,
                expected,
                false,
            );
            &&& media is None <==> !stale && current == Some(expected)
            &&& alone is None <==> !stale && current == Some(expected)
            &&& stale ==> media == Some(
                "A subtitle sidecar changed; no media or subtitle output was saved."@,
            ) && alone == Some("A subtitle sidecar changed; no subtitle output was saved."@)
            &&& !stale && current is None ==> media == Some(
                "Source file was removed; the media edit was not saved."@,
            ) && alone == Some("Source file was removed; no subtitle output was saved."@)
            &&& !stale && current is Some && current->0 != expected ==> media == Some(
                "Source file changed; reloaded latest metadata without saving the media edit."@,
            ) && alone == Some("Source file changed; no subtitle output was saved."@)
        }),
{
}

/// A request is checked as it was made.
pub proof fn requests_are_staged_whole(request: EditRequest)
    ensures
        request.staged().source == request.path@,
        request.staged().container == request.container,
        request.staged().writes_file_tags == (request.container_metadata is Some),
        request.staged().order == request.stream_order@,
        request.staged().deleted == request.deleted_streams@,
        request.staged().defaults == request.default_streams@,
        request.staged().audio == request.audio_settings@,
        request.staged().video == request.video_settings@,
        request.staged().changes == request.subtitle_changes@,
        request.staged().sidecars == request.sidecars@,
{
}

} // verus!
