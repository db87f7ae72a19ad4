//! Whether the subtitles an edit starts from are still what they were.

use std::collections::BTreeSet;

use vstd::prelude::*;
use vstd::string::StringExecFns;

use crate::files::FileFingerprint;
use crate::path::FilePath;
use crate::probe::{
    codec_of, find_stream, index_of, is_kind, kind_of, stream_at, stream_codec, stream_index, stream_is,
    stream_metadata, subtitle_tags, MediaInfo, Stream,
};
use crate::subtitle::{
    change_of, effective_subtitle_metadata, effective_tags, file_change, find_sidecar, sidecar_at,
    track_change, Languages, SidecarEntry, SourceModel, SubtitleChange, SubtitleFormat,
    SubtitleSource, SubtitleTags,
};
use crate::text::{
    contains, decimal, number_text, occurs, occurs_at, parts_occur_where_they_stand,
};
use crate::validate::{first_of, says};

verus! {

broadcast use vstd::std_specs::btree::group_btree_axioms;

/// Why an edit was not carried out. A stale edit no longer fits the file; any other
/// failure is the reader's to fix.
#[derive(Clone, Debug, Eq, PartialEq)]
pub enum EditError {
    Cancelled,
    SourceChanged(String),
    Failed(String),
}

/// What an [`EditError`] says.
pub ghost enum ErrorModel {
    Cancelled,
    SourceChanged(Seq<char>),
    Failed(Seq<char>),
}

impl View for EditError {
    type V = ErrorModel;

    open spec fn view(&self) -> ErrorModel {
        match self {
            EditError::Cancelled => ErrorModel::Cancelled,
            EditError::SourceChanged(message) => ErrorModel::SourceChanged(message@),
            EditError::Failed(message) => ErrorModel::Failed(message@),
        }
    }
}

/// Whether a message says that the file no longer is what the edit was staged for.
pub open spec fn is_stale(message: Seq<char>) -> bool {
    ||| occurs(message, "tracks changed"@)
    ||| occurs(message, "track changed"@)
    ||| occurs(message, "sidecar changed"@)
    ||| occurs(message, "sidecar is no longer available"@)
    ||| occurs(message, "refer to a missing or deleted track"@)
}

/// The error that a failed validation becomes.
pub open spec fn classified(message: Seq<char>) -> ErrorModel {
    if is_stale(message) {
        ErrorModel::SourceChanged(message)
    } else {
        ErrorModel::Failed(message)
    }
}

pub fn classify_edit_error(message: String) -> (result: EditError)
    ensures
        result@ == classified(message@),
{
    let text = message.as_str();
    let stale = contains(text, "tracks changed") || contains(text, "track changed") || contains(
        text,
        "sidecar changed",
    ) || contains(text, "sidecar is no longer available") || contains(
        text,
        "refer to a missing or deleted track",
    );
    if stale {
        EditError::SourceChanged(message)
    } else {
        EditError::Failed(message)
    }
}

/// What the files of a sidecar are now; `None` for one that cannot be read.
#[derive(Clone, Copy, Debug, Eq, PartialEq, Structural)]
pub struct SidecarState {
    pub file: Option<FileFingerprint>,
    pub companion: Option<FileFingerprint>,
}

/// The state of the sidecar at a position; one that was not looked at cannot be read.
pub open spec fn state_at(states: Seq<SidecarState>, position: int) -> SidecarState {
    if 0 <= position < states.len() {
        states[position]
    } else {
        SidecarState { file: None, companion: None }
    }
}

/// Whether the files of a sidecar are what they were when it was listed.
pub open spec fn sidecar_unchanged(sidecar: SidecarEntry, state: SidecarState) -> bool {
    &&& state.file == Some(sidecar.fingerprint)
    &&& sidecar.companion is Some ==> state.companion == sidecar.companion_fingerprint
}

fn same_fingerprint(left: Option<FileFingerprint>, right: Option<FileFingerprint>) -> (result: bool)
    ensures
        result == (left == right),
{
    match (left, right) {
        (Some(left), Some(right)) => left.same(right),
        (None, None) => true,
        _ => false,
    }
}

fn check_sidecar(sidecar: &SidecarEntry, state: SidecarState) -> (result: bool)
    ensures
        result == sidecar_unchanged(*sidecar, state),
{
    same_fingerprint(state.file, Some(sidecar.fingerprint)) && (sidecar.companion.is_none()
        || same_fingerprint(state.companion, sidecar.companion_fingerprint))
}

/// What is wrong with the embedded source of a change: the track has to be there, and to
/// be a subtitle in the format that the change was staged for.
pub open spec fn embedded_source_problem(
    streams: Seq<Stream>,
    index: u64,
    format: SubtitleFormat,
) -> Option<Seq<char>> {
    match stream_at(streams, index) {
        Some(stream) if is_kind(stream, "subtitle"@) && codec_of(stream) is Some
            && SubtitleFormat::of_codec(codec_of(stream)->0) == Some(format) => None,
        _ => Some("An embedded subtitle track changed. Reopen the file and try again."@),
    }
}

/// What is wrong with the source of a change.
pub open spec fn source_problem(
    streams: Seq<Stream>,
    change: SubtitleChange,
    sidecars: Seq<SidecarEntry>,
    states: Seq<SidecarState>,
) -> Option<Seq<char>> {
    match change.source {
        SubtitleSource::Embedded(index) => embedded_source_problem(
            streams,
            index,
            change.source_format,
        ),
        SubtitleSource::Sidecar(path) => match sidecar_at(sidecars, path@.place()) {
            None => Some("A subtitle sidecar is no longer available."@),
            Some(position) => if sidecars[position].format != change.source_format
                || !sidecar_unchanged(sidecars[position], state_at(states, position)) {
                Some("A subtitle sidecar changed; reload it before converting."@)
            } else {
                None
            },
        },
    }
}

/// Whether pictures are to be read as text and no language was chosen to read them in.
pub open spec fn lacks_ocr_language(change: SubtitleChange) -> bool {
    change.reads_images() && match change.ocr_language {
        Some(language) => language@.len() == 0,
        None => true,
    }
}

/// Whether an effective change of a source is among some changes.
pub open spec fn already_changed(earlier: Seq<SubtitleChange>, source: SourceModel) -> bool {
    exists|i: int|
        0 <= i < earlier.len() && (#[trigger] earlier[i]).effective() && earlier[i].source@
            == source
}

/// What is wrong with one change, after the changes that come before it.
pub open spec fn change_problem(
    streams: Seq<Stream>,
    earlier: Seq<SubtitleChange>,
    change: SubtitleChange,
    sidecars: Seq<SidecarEntry>,
    states: Seq<SidecarState>,
) -> Option<Seq<char>> {
    if !change.effective() {
        None
    } else if already_changed(earlier, change.source@) {
        Some("A subtitle source has more than one pending conversion."@)
    } else {
        first_of(
            source_problem(streams, change, sidecars, states),
            if lacks_ocr_language(change) {
                Some("Choose a Tesseract language for OCR."@)
            } else {
                None
            },
        )
    }
}

/// The first problem of the subtitle changes.
pub open spec fn sources_problem(
    streams: Seq<Stream>,
    changes: Seq<SubtitleChange>,
    sidecars: Seq<SidecarEntry>,
    states: Seq<SidecarState>,
) -> Option<Seq<char>>
    decreases changes.len(),
{
    if changes.len() == 0 {
        None
    } else {
        first_of(
            sources_problem(streams, changes.drop_last(), sidecars, states),
            change_problem(streams, changes.drop_last(), changes.last(), sidecars, states),
        )
    }
}

fn check_source(
    info: &MediaInfo,
    change: &SubtitleChange,
    sidecars: &[SidecarEntry],
    states: &[SidecarState],
) -> (result: Result<(), String>)
    ensures
        says(result, source_problem(info.streams@, *change, sidecars@, states@)),
{
    match &change.source {
        SubtitleSource::Embedded(index) => {
            if let Some(stream) = find_stream(info, *index) {
                if stream_is(stream, "subtitle") {
                    if let Some(codec) = stream_codec(stream) {
                        if let Some(format) = SubtitleFormat::from_codec(codec) {
                            if format == change.source_format {
                                return Ok(());
                            }
                        }
                    }
                }
            }
            Err("An embedded subtitle track changed. Reopen the file and try again.".to_owned())
        },
        SubtitleSource::Sidecar(path) => {
            let position: usize = match find_sidecar(sidecars, path) {
                Some(position) => position,
                None => return Err("A subtitle sidecar is no longer available.".to_owned()),
            };
            let state: SidecarState = if position < states.len() {
                states[position]
            } else {
                SidecarState { file: None, companion: None }
            };
            if sidecars[position].format != change.source_format || !check_sidecar(
                &sidecars[position],
                state,
            ) {
                return Err(
                    "A subtitle sidecar changed; reload it before converting.".to_owned(),
                );
            }
            Ok(())
        },
    }
}

fn find_earlier(changes: &[SubtitleChange], position: usize) -> (result: bool)
    requires
        position < changes@.len(),
    ensures
        result == already_changed(
            changes@.take(position as int),
            changes@[position as int].source@,
        ),
{
    let ghost earlier = changes@.take(position as int);
    let mut k: usize = 0;
    while k < position
        invariant
            0 <= k <= position,
            position < changes@.len(),
            earlier == changes@.take(position as int),
            forall|j: int|
                0 <= j < k ==> !((#[trigger] earlier[j]).effective() && earlier[j].source@
                    == changes@[position as int].source@),
        decreases position - k,
    {
        assert(earlier[k as int] == changes@[k as int]);
        if changes[k].has_effect() && changes[k].source.same(&changes[position].source) {
            return true;
        }
        k = k + 1;
    }
    false
}

fn lacks_language(change: &SubtitleChange) -> (result: bool)
    ensures
        result == lacks_ocr_language(*change),
{
    change.needs_ocr() && match &change.ocr_language {
        Some(language) => language.as_str().is_empty(),
        None => true,
    }
}

/// Checks the source of every change that has an effect, against what the probe reports
/// and what the sidecars are now.
pub fn validate_subtitle_sources(
    info: &MediaInfo,
    changes: &[SubtitleChange],
    sidecars: &[SidecarEntry],
    states: &[SidecarState],
) -> (result: Result<(), String>)
    ensures
        says(result, sources_problem(info.streams@, changes@, sidecars@, states@)),
{
    let mut i: usize = 0;
    while i < changes.len()
        invariant
            0 <= i <= changes.len(),
            sources_problem(info.streams@, changes@.take(i as int), sidecars@, states@) is None,
        decreases changes.len() - i,
    {
        let change = &changes[i];
        let ghost longer = changes@.take(i + 1);
        proof {
            assert(longer.drop_last() =~= changes@.take(i as int));
            assert(longer.last() == changes@[i as int]);
            lemma_first_problem(info.streams@, changes@, i + 1, sidecars@, states@);
        }
        if change.has_effect() {
            if find_earlier(changes, i) {
                return Err("A subtitle source has more than one pending conversion.".to_owned());
            }
            match check_source(info, change, sidecars, states) {
                Ok(_) => {},
                Err(message) => return Err(message),
            }
            if lacks_language(change) {
                return Err("Choose a Tesseract language for OCR.".to_owned());
            }
        }
        i = i + 1;
    }
    assert(changes@.take(changes@.len() as int) =~= changes@);
    Ok(())
}

/// A problem of some changes is the problem of more changes too.
proof fn lemma_first_problem(
    streams: Seq<Stream>,
    changes: Seq<SubtitleChange>,
    some: int,
    sidecars: Seq<SidecarEntry>,
    states: Seq<SidecarState>,
)
    requires
        0 <= some <= changes.len(),
    ensures
        sources_problem(streams, changes.take(some), sidecars, states) is Some ==> sources_problem(
            streams,
            changes,
            sidecars,
            states,
        ) == sources_problem(streams, changes.take(some), sidecars, states),
    decreases changes.len(),
{
    if some == changes.len() {
        assert(changes.take(some) =~= changes);
    } else {
        lemma_first_problem(streams, changes.drop_last(), some, sidecars, states);
        assert(changes.drop_last().take(some) =~= changes.take(some));
    }
}

// Languages.

/// The metadata an embedded subtitle ends up with.
pub open spec fn track_tags_after(
    languages: Languages,
    changes: Seq<SubtitleChange>,
    stream: Stream,
    index: u64,
) -> SubtitleTags {
    match change_of(changes, SourceModel::Embedded(index)) {
        Some(change) => effective_tags(languages, change, subtitle_tags(stream)),
        None => subtitle_tags(stream),
    }
}

/// Whether an embedded subtitle stays without a language to choose.
pub open spec fn track_language_problem(
    languages: Languages,
    stream: Stream,
    changes: Seq<SubtitleChange>,
    deleted: Set<u64>,
) -> Option<Seq<char>> {
    match index_of(stream) {
        Some(index) if is_kind(stream, "subtitle"@) && !deleted.contains(index)
            && !languages.offers(
            track_tags_after(languages, changes, stream, index).language,
        ) => Some(
            "Choose a language for subtitle track #"@ + decimal(index as nat)
                + "; Undetermined is not allowed."@,
        ),
        _ => None,
    }
}

/// The first embedded subtitle that stays without a language.
pub open spec fn track_languages_problem(
    languages: Languages,
    streams: Seq<Stream>,
    changes: Seq<SubtitleChange>,
    deleted: Set<u64>,
) -> Option<Seq<char>>
    decreases streams.len(),
{
    if streams.len() == 0 {
        None
    } else {
        first_of(
            track_language_problem(languages, streams[0], changes, deleted),
            track_languages_problem(languages, streams.skip(1), changes, deleted),
        )
    }
}

/// The metadata a sidecar ends up with.
pub open spec fn sidecar_tags_after(
    languages: Languages,
    changes: Seq<SubtitleChange>,
    sidecar: SidecarEntry,
) -> SubtitleTags {
    match change_of(changes, SourceModel::Sidecar(sidecar.path@.place())) {
        Some(change) => effective_tags(languages, change, sidecar.tags()),
        None => sidecar.tags(),
    }
}

/// The first sidecar that stays without a language.
pub open spec fn sidecar_languages_problem(
    languages: Languages,
    sidecars: Seq<SidecarEntry>,
    changes: Seq<SubtitleChange>,
) -> Option<Seq<char>>
    decreases sidecars.len(),
{
    if sidecars.len() == 0 {
        None
    } else if !languages.offers(sidecar_tags_after(languages, changes, sidecars[0]).language) {
        Some(
            "Choose a language for "@ + sidecars[0].display_name@
                + "; Undetermined is not allowed."@,
        )
    } else {
        sidecar_languages_problem(languages, sidecars.skip(1), changes)
    }
}

/// The first subtitle that stays without a language: of the media, then beside it.
pub open spec fn languages_problem(
    languages: Languages,
    streams: Seq<Stream>,
    changes: Seq<SubtitleChange>,
    sidecars: Seq<SidecarEntry>,
    deleted: Set<u64>,
) -> Option<Seq<char>> {
    first_of(
        track_languages_problem(languages, streams, changes, deleted),
        sidecar_languages_problem(languages, sidecars, changes),
    )
}

/// Checks that every subtitle that stays has a language.
pub fn validate_subtitle_languages(
    languages: &Languages,
    info: &MediaInfo,
    changes: &[SubtitleChange],
    sidecars: &[SidecarEntry],
    deleted_streams: &BTreeSet<u64>,
) -> (result: Result<(), String>)
    ensures
        says(
            result,
            languages_problem(
                *languages,
                info.streams@,
                changes@,
                sidecars@,
                deleted_streams@,
            ),
        ),
{
    let mut i: usize = 0;
    assert(info.streams@.skip(0) =~= info.streams@);
    while i < info.streams.len()
        invariant
            0 <= i <= info.streams.len(),
            track_languages_problem(*languages, info.streams@, changes@, deleted_streams@)
                == track_languages_problem(
                *languages,
                info.streams@.skip(i as int),
                changes@,
                deleted_streams@,
            ),
        decreases info.streams.len() - i,
    {
        let stream = &info.streams[i];
        assert(info.streams@.skip(i as int).skip(1) =~= info.streams@.skip(i + 1));
        if stream_is(stream, "subtitle") {
            if let Some(index) = stream_index(stream) {
                if !deleted_streams.contains(&index) {
                    let metadata = match track_change(changes, index) {
                        Some(change) => effective_subtitle_metadata(
                            languages,
                            change,
                            stream_metadata(stream),
                        ),
                        None => stream_metadata(stream),
                    };
                    if !languages.language_choice(metadata.language.as_str()) {
                        let mut message = "Choose a language for subtitle track #".to_owned();
                        message.append(number_text(index).as_str());
                        message.append("; Undetermined is not allowed.");
                        return Err(message);
                    }
                }
            }
        }
        i = i + 1;
    }
    let mut k: usize = 0;
    assert(sidecars@.skip(0) =~= sidecars@);
    while k < sidecars.len()
        invariant
            0 <= k <= sidecars.len(),
            track_languages_problem(*languages, info.streams@, changes@, deleted_streams@) is None,
            sidecar_languages_problem(*languages, sidecars@, changes@)
                == sidecar_languages_problem(*languages, sidecars@.skip(k as int), changes@),
        decreases sidecars.len() - k,
    {
        let sidecar = &sidecars[k];
        assert(sidecars@.skip(k as int).skip(1) =~= sidecars@.skip(k + 1));
        let metadata = match file_change(changes, &sidecar.path) {
            Some(change) => effective_subtitle_metadata(languages, change, sidecar.metadata()),
            None => sidecar.metadata(),
        };
        if !languages.language_choice(metadata.language.as_str()) {
            let mut message = "Choose a language for ".to_owned();
            message.append(sidecar.display_name.as_str());
            message.append("; Undetermined is not allowed.");
            return Err(message);
        }
        k = k + 1;
    }
    Ok(())
}

// Laws.

proof fn lemma_occurs_in_front(front: Seq<char>, rest: Seq<char>, part: Seq<char>, at: int)
    requires
        occurs_at(front, part, at),
    ensures
        occurs(front + rest, part),
{
    assert((front + rest).subrange(at, at + part.len()) =~= front.subrange(at, at + part.len()));
    assert(occurs_at(front + rest, part, at));
}

/// A message that begins by saying that the file's tracks changed discards the edit.
pub proof fn changed_tracks_are_stale(rest: Seq<char>)
    ensures
        classified("The file's tracks changed: "@ + rest) == ErrorModel::SourceChanged(
            "The file's tracks changed: "@ + rest,
        ),
        classified("The file's tracks changed. Reopen it and try again."@) is SourceChanged,
        classified("The file's tracks changed. Reopen it and select them again."@)
            is SourceChanged,
{
    reveal_strlit("The file's tracks changed: ");
    reveal_strlit("The file's tracks changed. Reopen it and try again.");
    reveal_strlit("The file's tracks changed. Reopen it and select them again.");
    reveal_strlit("tracks changed");
    let part = "tracks changed"@;
    let colon = "The file's tracks changed: "@;
    let again = "The file's tracks changed. Reopen it and try again."@;
    let select = "The file's tracks changed. Reopen it and select them again."@;
    assert(colon.subrange(11, 25) =~= part);
    assert(again.subrange(11, 25) =~= part);
    assert(select.subrange(11, 25) =~= part);
    lemma_occurs_in_front(colon, rest, part, 11);
    assert(occurs_at(again, part, 11));
    assert(occurs_at(select, part, 11));
}

/// An edit that does not name the tracks of the file is stale, and is discarded.
pub proof fn mismatched_orders_are_stale(
    streams: Seq<Stream>,
    order: Seq<u64>,
    deleted: Set<u64>,
    defaults: Set<u64>,
)
    requires
        crate::validate::well_indexed(streams),
        !order.no_duplicates() || order.to_set().intersect(deleted) != Set::<u64>::empty()
            || order.to_set().union(deleted) != crate::validate::indices(streams).to_set(),
    ensures
        match crate::validate::order_problem(streams, order, deleted, defaults) {
            Some(problem) => classified(problem) is SourceChanged,
            None => false,
        },
{
    let kept = order.to_set();
    let available = crate::validate::indices(streams).to_set();
    let staged = kept.union(deleted);
    let colon = "The file's tracks changed: "@;
    if !order.no_duplicates() {
        let message =
            "The file's tracks changed: the same track appears twice in the staged order. Reopen it and try again."@;
        reveal_strlit(
            "The file's tracks changed: the same track appears twice in the staged order. Reopen it and try again.",
        );
        reveal_strlit("tracks changed");
        assert(message.subrange(11, 25) =~= "tracks changed"@);
        assert(occurs_at(message, "tracks changed"@, 11));
    } else if kept.intersect(deleted) != Set::<u64>::empty() {
        let message = crate::validate::order_problem(streams, order, deleted, defaults)->0;
        reveal_strlit("The file's tracks changed: track(s) ");
        reveal_strlit("tracks changed");
        let front = "The file's tracks changed: track(s) "@;
        assert(front.subrange(11, 25) =~= "tracks changed"@);
        let rest = crate::sets::bracketed(crate::order::in_order(kept.intersect(deleted)))
            + " are both kept and marked for deletion. Reopen it and try again."@;
        lemma_occurs_in_front(front, rest, "tracks changed"@, 11);
        assert(message =~= front + rest);
    } else {
        let message = crate::validate::order_problem(streams, order, deleted, defaults)->0;
        let missing = crate::validate::named_tracks(
            crate::order::in_order(available.difference(staged)),
        );
        let extra = crate::validate::named_tracks(
            crate::order::in_order(staged.difference(available)),
        );
        let rest = missing + " in the file but not in the staged edit, "@ + extra
            + " in the staged edit but no longer in the file. Reopen it and try again."@;
        changed_tracks_are_stale(rest);
        assert(message =~= colon + rest);
    }
}

/// A subtitle source that changed or is gone makes the edit stale, and it is discarded.
pub proof fn changed_sources_are_stale(
    streams: Seq<Stream>,
    change: SubtitleChange,
    sidecars: Seq<SidecarEntry>,
    states: Seq<SidecarState>,
)
    ensures
        match source_problem(streams, change, sidecars, states) {
            Some(problem) => classified(problem) is SourceChanged,
            None => true,
        },
{
    reveal_strlit("An embedded subtitle track changed. Reopen the file and try again.");
    reveal_strlit("A subtitle sidecar is no longer available.");
    reveal_strlit("A subtitle sidecar changed; reload it before converting.");
    reveal_strlit("track changed");
    reveal_strlit("sidecar changed");
    reveal_strlit("sidecar is no longer available");
    let embedded = "An embedded subtitle track changed. Reopen the file and try again."@;
    let gone = "A subtitle sidecar is no longer available."@;
    let changed = "A subtitle sidecar changed; reload it before converting."@;
    assert(embedded.subrange(21, 34) =~= "track changed"@);
    assert(occurs_at(embedded, "track changed"@, 21));
    assert(gone.subrange(11, 41) =~= "sidecar is no longer available"@);
    assert(occurs_at(gone, "sidecar is no longer available"@, 11));
    assert(changed.subrange(11, 26) =~= "sidecar changed"@);
    assert(occurs_at(changed, "sidecar changed"@, 11));
}

/// A failed validation keeps its words, whatever it becomes.
pub proof fn classified_errors_keep_their_words(message: Seq<char>)
    ensures
        classified(message) == ErrorModel::SourceChanged(message) || classified(message)
            == ErrorModel::Failed(message),
{
}

/// An error is about a changed source where it says so in one of five ways, and is a plain
/// failure otherwise.
pub proof fn errors_are_classified_by_their_words(
    before: Seq<char>,
    after: Seq<char>,
    message: Seq<char>,
)
    ensures
        classified(before + "tracks changed"@ + after) is SourceChanged,
        classified(before + "track changed"@ + after) is SourceChanged,
        classified(before + "sidecar changed"@ + after) is SourceChanged,
        classified(before + "sidecar is no longer available"@ + after) is SourceChanged,
        classified(before + "refer to a missing or deleted track"@ + after) is SourceChanged,
        !occurs(message, "tracks changed"@) && !occurs(message, "track changed"@) && !occurs(
            message,
            "sidecar changed"@,
        ) && !occurs(message, "sidecar is no longer available"@) && !occurs(
            message,
            "refer to a missing or deleted track"@,
        ) ==> classified(message) == ErrorModel::Failed(message),
{
    parts_occur_where_they_stand(before, "tracks changed"@, after);
    parts_occur_where_they_stand(before, "track changed"@, after);
    parts_occur_where_they_stand(before, "sidecar changed"@, after);
    parts_occur_where_they_stand(before, "sidecar is no longer available"@, after);
    parts_occur_where_they_stand(before, "refer to a missing or deleted track"@, after);
}

/// A change of a track is in order where the file still has a subtitle track with that index
/// in the format that the change was made for.
pub proof fn tracks_are_as_they_were(streams: Seq<Stream>, index: u64, format: SubtitleFormat)
    ensures
        embedded_source_problem(streams, index, format) is None <==> stream_at(streams, index)
            is Some && {
            let stream = stream_at(streams, index)->0;
            &&& kind_of(stream) == Some("subtitle"@)
            &&& codec_of(stream) is Some
            &&& SubtitleFormat::of_codec(codec_of(stream)->0) == Some(format)
        },
        embedded_source_problem(streams, index, format) is Some ==> embedded_source_problem(
            streams,
            index,
            format,
        ) == Some("An embedded subtitle track changed. Reopen the file and try again."@),
{
}

/// A change of a sidecar is in order where the sidecar is still listed, has the format that
/// the change was made for, and neither it nor its companion was touched.
pub proof fn sidecars_are_as_they_were(
    streams: Seq<Stream>,
    change: SubtitleChange,
    path: FilePath,
    sidecars: Seq<SidecarEntry>,
    states: Seq<SidecarState>,
    position: int,
)
    requires
        change.source == SubtitleSource::Sidecar(path),
    ensures
        sidecar_at(sidecars, path@.place()) is None ==> source_problem(
            streams,
            change,
            sidecars,
            states,
        ) == Some("A subtitle sidecar is no longer available."@),
        sidecar_at(sidecars, path@.place()) == Some(position) && 0 <= position < states.len() ==> {
            let sidecar = sidecars[position];
            let state = states[position];
            let unchanged = sidecar.format == change.source_format && state.file == Some(
                sidecar.fingerprint,
            ) && (sidecar.companion is None || state.companion == sidecar.companion_fingerprint);
            source_problem(streams, change, sidecars, states) == if unchanged {
                None
            } else {
                Some("A subtitle sidecar changed; reload it before converting."@)
            }
        },
        sidecar_at(sidecars, path@.place()) == Some(position) && position >= states.len()
            ==> source_problem(streams, change, sidecars, states) == Some(
            "A subtitle sidecar changed; reload it before converting."@,
        ),
{
}

/// That a change can be made after the ones before it.
pub open spec fn can_follow(
    streams: Seq<Stream>,
    changes: Seq<SubtitleChange>,
    sidecars: Seq<SidecarEntry>,
    states: Seq<SidecarState>,
    i: int,
) -> bool {
    let change = changes[i];
    change.effective() ==> {
        &&& forall|k: int|
            0 <= k < i && (#[trigger] changes[k]).effective() ==> changes[k].source@
                != change.source@
        &&& source_problem(streams, change, sidecars, states) is None
        &&& change.reads_images() ==> change.ocr_language is Some && change.ocr_language->0@.len()
            > 0
    }
}

proof fn lemma_can_follow(
    streams: Seq<Stream>,
    changes: Seq<SubtitleChange>,
    sidecars: Seq<SidecarEntry>,
    states: Seq<SidecarState>,
    i: int,
)
    requires
        0 <= i < changes.len(),
    ensures
        can_follow(streams, changes, sidecars, states, i) <==> change_problem(
            streams,
            changes.take(i),
            changes[i],
            sidecars,
            states,
        ) is None,
{
    let earlier = changes.take(i);
    if already_changed(earlier, changes[i].source@) {
        let k = choose|k: int|
            0 <= k < earlier.len() && (#[trigger] earlier[k]).effective() && earlier[k].source@
                == changes[i].source@;
        assert(changes[k] == earlier[k]);
        assert(changes[k].effective());
    } else {
        assert forall|k: int| 0 <= k < i && (#[trigger] changes[k]).effective() implies changes[k].source@
            != changes[i].source@ by {
            assert(earlier[k] == changes[k]);
        }
    }
}

/// Changes are accepted where no source is changed twice, every source is as it was, and
/// every reading of pictures has a language; changes without effect do not count. The first
/// change that is not in order is the one that is told.
pub proof fn changes_are_accepted_one_by_one(
    streams: Seq<Stream>,
    changes: Seq<SubtitleChange>,
    sidecars: Seq<SidecarEntry>,
    states: Seq<SidecarState>,
    i: int,
)
    ensures
        sources_problem(streams, changes, sidecars, states) is None <==> forall|k: int|
            0 <= k < changes.len() ==> #[trigger] can_follow(
                streams,
                changes,
                sidecars,
                states,
                k,
            ),
        0 <= i < changes.len() && !can_follow(streams, changes, sidecars, states, i) && (forall|
            k: int,
        |
            0 <= k < i ==> #[trigger] can_follow(streams, changes, sidecars, states, k))
            ==> sources_problem(streams, changes, sidecars, states) == if exists|k: int|
            0 <= k < i && (#[trigger] changes[k]).effective() && changes[k].source@
                == changes[i].source@ {
            Some("A subtitle source has more than one pending conversion."@)
        } else if source_problem(streams, changes[i], sidecars, states) is Some {
            source_problem(streams, changes[i], sidecars, states)
        } else {
            Some("Choose a Tesseract language for OCR."@)
        },
    decreases changes.len(),
{
    if changes.len() > 0 {
        let fewer = changes.drop_last();
        let last = changes.len() - 1;
        changes_are_accepted_one_by_one(streams, fewer, sidecars, states, i);
        assert(fewer =~= changes.take(last));
        assert forall|k: int| 0 <= k < last implies #[trigger] can_follow(
            streams,
            changes,
            sidecars,
            states,
            k,
        ) == can_follow(streams, fewer, sidecars, states, k) by {
            assert forall|j: int| 0 <= j < k implies #[trigger] fewer[j] == changes[j] by {}
            if can_follow(streams, fewer, sidecars, states, k) {
                assert forall|j: int|
                    0 <= j < k && (#[trigger] changes[j]).effective() && changes[k].effective() implies changes[j].source@
                    != changes[k].source@ by {
                    assert(fewer[j].effective());
                }
            }
            if can_follow(streams, changes, sidecars, states, k) {
                assert forall|j: int|
                    0 <= j < k && (#[trigger] fewer[j]).effective() && fewer[k].effective() implies fewer[j].source@
                    != fewer[k].source@ by {
                    assert(changes[j].effective());
                }
            }
        }
        assert forall|k: int| 0 <= k < last implies #[trigger] can_follow(
            streams,
            fewer,
            sidecars,
            states,
            k,
        ) == can_follow(streams, changes, sidecars, states, k) by {}
        lemma_can_follow(streams, changes, sidecars, states, last);
        if 0 <= i < last {
            if exists|k: int|
                0 <= k < i && (#[trigger] changes[k]).effective() && changes[k].source@
                    == changes[i].source@ {
                let k = choose|k: int|
                    0 <= k < i && (#[trigger] changes[k]).effective() && changes[k].source@
                        == changes[i].source@;
                assert(fewer[k].effective() && fewer[k].source@ == fewer[i].source@);
            }
            if exists|k: int|
                0 <= k < i && (#[trigger] fewer[k]).effective() && fewer[k].source@
                    == fewer[i].source@ {
                let k = choose|k: int|
                    0 <= k < i && (#[trigger] fewer[k]).effective() && fewer[k].source@
                        == fewer[i].source@;
                assert(changes[k].effective() && changes[k].source@ == changes[i].source@);
            }
        }
        if i == last {
            let earlier = changes.take(last);
            if already_changed(earlier, changes[i].source@) {
                let k = choose|k: int|
                    0 <= k < earlier.len() && (#[trigger] earlier[k]).effective()
                        && earlier[k].source@ == changes[i].source@;
                assert(changes[k].effective());
            }
            if exists|k: int|
                0 <= k < i && (#[trigger] changes[k]).effective() && changes[k].source@
                    == changes[i].source@ {
                let k = choose|k: int|
                    0 <= k < i && (#[trigger] changes[k]).effective() && changes[k].source@
                        == changes[i].source@;
                assert(earlier[k].effective());
            }
        }
    }
}

/// That a track needs no language, or has one that can be chosen after the changes.
pub open spec fn track_has_language(
    languages: Languages,
    stream: Stream,
    changes: Seq<SubtitleChange>,
    deleted: Set<u64>,
) -> bool {
    kind_of(stream) == Some("subtitle"@) && index_of(stream) is Some && !deleted.contains(
        index_of(stream)->0,
    ) ==> languages.offers(
        match change_of(changes, SourceModel::Embedded(index_of(stream)->0)) {
            Some(change) => effective_tags(languages, change, subtitle_tags(stream)).language,
            None => subtitle_tags(stream).language,
        },
    )
}

/// That a sidecar has a language that can be chosen after the changes.
pub open spec fn sidecar_has_language(
    languages: Languages,
    sidecar: SidecarEntry,
    changes: Seq<SubtitleChange>,
) -> bool {
    languages.offers(
        match change_of(changes, SourceModel::Sidecar(sidecar.path@.place())) {
            Some(change) => effective_tags(languages, change, sidecar.tags()).language,
            None => sidecar.tags().language,
        },
    )
}

/// An edit is accepted where every subtitle track that it keeps and every sidecar has a
/// language that can be chosen; the first one without is the one that is told.
pub proof fn every_subtitle_needs_a_language(
    languages: Languages,
    streams: Seq<Stream>,
    changes: Seq<SubtitleChange>,
    sidecars: Seq<SidecarEntry>,
    deleted: Set<u64>,
    i: int,
)
    ensures
        languages_problem(languages, streams, changes, sidecars, deleted) is None <==> (forall|
            k: int,
        |
            0 <= k < streams.len() ==> track_has_language(
                languages,
                #[trigger] streams[k],
                changes,
                deleted,
            )) && (forall|k: int|
            0 <= k < sidecars.len() ==> sidecar_has_language(
                languages,
                #[trigger] sidecars[k],
                changes,
            )),
        0 <= i < streams.len() && !track_has_language(languages, streams[i], changes, deleted) && (
        forall|k: int|
            0 <= k < i ==> track_has_language(languages, #[trigger] streams[k], changes, deleted))
            ==> languages_problem(languages, streams, changes, sidecars, deleted) == Some(
            "Choose a language for subtitle track #"@ + decimal(index_of(streams[i])->0 as nat)
                + "; Undetermined is not allowed."@,
        ),
        (forall|k: int|
            0 <= k < streams.len() ==> track_has_language(
                languages,
                #[trigger] streams[k],
                changes,
                deleted,
            )) && 0 <= i < sidecars.len() && !sidecar_has_language(languages, sidecars[i], changes)
            && (forall|k: int|
            0 <= k < i ==> sidecar_has_language(languages, #[trigger] sidecars[k], changes))
            ==> languages_problem(languages, streams, changes, sidecars, deleted) == Some(
            "Choose a language for "@ + sidecars[i].display_name@
                + "; Undetermined is not allowed."@,
        ),
{
    lemma_track_languages(languages, streams, changes, deleted, i);
    lemma_sidecar_languages(languages, sidecars, changes, i);
}

proof fn lemma_track_languages(
    languages: Languages,
    streams: Seq<Stream>,
    changes: Seq<SubtitleChange>,
    deleted: Set<u64>,
    i: int,
)
    ensures
        track_languages_problem(languages, streams, changes, deleted) is None <==> forall|k: int|
            0 <= k < streams.len() ==> track_has_language(
                languages,
                #[trigger] streams[k],
                changes,
                deleted,
            ),
        0 <= i < streams.len() && !track_has_language(languages, streams[i], changes, deleted) && (
        forall|k: int|
            0 <= k < i ==> track_has_language(languages, #[trigger] streams[k], changes, deleted))
            ==> track_languages_problem(languages, streams, changes, deleted) == Some(
            "Choose a language for subtitle track #"@ + decimal(index_of(streams[i])->0 as nat)
                + "; Undetermined is not allowed."@,
        ),
    decreases streams.len(),
{
    if streams.len() > 0 {
        let rest = streams.skip(1);
        lemma_track_languages(languages, rest, changes, deleted, i - 1);
        assert forall|k: int| 0 <= k < rest.len() implies #[trigger] rest[k] == streams[k + 1] by {}
        assert forall|k: int| 0 < k < streams.len() implies #[trigger] streams[k] == rest[k - 1] by {}
        assert(track_has_language(languages, streams[0], changes, deleted)
            == (track_language_problem(languages, streams[0], changes, deleted) is None));
        if forall|k: int|
            0 <= k < rest.len() ==> track_has_language(
                languages,
                #[trigger] rest[k],
                changes,
                deleted,
            ) {
            assert forall|k: int| 0 < k < streams.len() implies track_has_language(
                languages,
                #[trigger] streams[k],
                changes,
                deleted,
            ) by {
                assert(streams[k] == rest[k - 1]);
            }
        }
    }
}

proof fn lemma_sidecar_languages(
    languages: Languages,
    sidecars: Seq<SidecarEntry>,
    changes: Seq<SubtitleChange>,
    i: int,
)
    ensures
        sidecar_languages_problem(languages, sidecars, changes) is None <==> forall|k: int|
            0 <= k < sidecars.len() ==> sidecar_has_language(
                languages,
                #[trigger] sidecars[k],
                changes,
            ),
        0 <= i < sidecars.len() && !sidecar_has_language(languages, sidecars[i], changes) && (
        forall|k: int|
            0 <= k < i ==> sidecar_has_language(languages, #[trigger] sidecars[k], changes))
            ==> sidecar_languages_problem(languages, sidecars, changes) == Some(
            "Choose a language for "@ + sidecars[i].display_name@
                + "; Undetermined is not allowed."@,
        ),
    decreases sidecars.len(),
{
    if sidecars.len() > 0 {
        let rest = sidecars.skip(1);
        lemma_sidecar_languages(languages, rest, changes, i - 1);
        assert forall|k: int| 0 <= k < rest.len() implies #[trigger] rest[k] == sidecars[k + 1] by {}
        assert forall|k: int| 0 < k < sidecars.len() implies #[trigger] sidecars[k] == rest[k - 1] by {}
        if forall|k: int|
            0 <= k < rest.len() ==> sidecar_has_language(languages, #[trigger] rest[k], changes) {
            assert forall|k: int| 0 < k < sidecars.len() implies sidecar_has_language(
                languages,
                #[trigger] sidecars[k],
                changes,
            ) by {
                assert(sidecars[k] == rest[k - 1]);
            }
        }
    }
}

} // verus!
