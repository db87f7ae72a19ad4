//! Which tracks the written file has, and in what order.

use std::collections::BTreeSet;

use vstd::prelude::*;

use crate::container::ContainerFormat;
use crate::path::{FilePath, Place};
use crate::probe::{
    find_stream, index_of, is_chapter_track, is_chapters, is_kind, kind_of, stream_at, stream_index,
    stream_is, stream_kind, MediaInfo, Stream,
};
use crate::subtitle::{SidecarEntry, SubtitleFormat, SubtitleMetadata, TrackRef};
use crate::text::{opt_str, same_optional_text};

verus! {

broadcast use vstd::std_specs::btree::group_btree_axioms;

/// A track of the written file: one of the source's, or an imported subtitle.
#[derive(Clone, Copy, Debug, Eq, PartialEq, Structural)]
pub enum OutputTrack {
    Existing(u64),
    Imported(usize),
}

/// An embedded subtitle that is written from a converted file.
#[derive(Clone, Debug, Eq, PartialEq)]
pub struct SubtitleReplacement {
    pub source_index: u64,
    pub target: SubtitleFormat,
    pub path: FilePath,
}

/// A subtitle file that becomes a track.
#[derive(Clone, Debug, Eq, PartialEq)]
pub struct SubtitleImport {
    pub source_path: FilePath,
    pub target: SubtitleFormat,
    pub path: FilePath,
    pub metadata: SubtitleMetadata,
    pub default: bool,
}

// The tracks of the source that are written.

/// Whether a track of the source is written. The chapter list is not: the chapters are
/// written on their own.
pub open spec fn is_written(source: MediaInfo, index: u64) -> bool {
    match stream_at(source.streams@, index) {
        Some(stream) => !is_chapters(source, stream),
        None => true,
    }
}

pub fn track_is_written(source: &MediaInfo, index: u64) -> (result: bool)
    ensures
        result == is_written(*source, index),
{
    match find_stream(source, index) {
        Some(stream) => !is_chapter_track(source, stream),
        None => true,
    }
}

/// The tracks of an order that are written.
pub open spec fn written_order(source: MediaInfo, order: Seq<u64>) -> Seq<u64>
    decreases order.len(),
{
    if order.len() == 0 {
        Seq::empty()
    } else if is_written(source, order.last()) {
        written_order(source, order.drop_last()).push(order.last())
    } else {
        written_order(source, order.drop_last())
    }
}

fn keep_written(source: &MediaInfo, stream_order: &[u64]) -> (result: Vec<u64>)
    ensures
        result@ == written_order(*source, stream_order@),
{
    let mut result: Vec<u64> = Vec::new();
    let mut i: usize = 0;
    while i < stream_order.len()
        invariant
            0 <= i <= stream_order.len(),
            result@ == written_order(*source, stream_order@.take(i as int)),
        decreases stream_order.len() - i,
    {
        let index: u64 = stream_order[i];
        proof {
            assert(stream_order@.take(i + 1).drop_last() =~= stream_order@.take(i as int));
            assert(stream_order@.take(i + 1).last() == index);
        }
        if track_is_written(source, index) {
            result.push(index);
        }
        i = i + 1;
    }
    assert(stream_order@.take(stream_order@.len() as int) =~= stream_order@);
    result
}

/// Whether the track `index` of the source is of a kind.
pub open spec fn track_is(source: MediaInfo, index: u64, kind: Seq<char>) -> bool {
    match stream_at(source.streams@, index) {
        Some(stream) => is_kind(stream, kind),
        None => false,
    }
}

/// Whether the source has the track `index` and it is video or audio.
pub open spec fn plays(source: MediaInfo, index: u64) -> bool {
    track_is(source, index, "video"@) || track_is(source, index, "audio"@)
}

/// Whether the source has the track `index` and it is neither video nor audio.
pub open spec fn does_not_play(source: MediaInfo, index: u64) -> bool {
    stream_at(source.streams@, index) is Some && !plays(source, index)
}

/// Whether the source has the track `index` and it is no video, audio or subtitle.
pub open spec fn is_extra(source: MediaInfo, index: u64) -> bool {
    does_not_play(source, index) && !track_is(source, index, "subtitle"@)
}

/// Whether a stream of the source has the index and is a subtitle.
pub open spec fn has_subtitle(source: MediaInfo, index: u64) -> bool {
    exists|i: int|
        0 <= i < source.streams@.len() && index_of(#[trigger] source.streams@[i]) == Some(index)
            && is_kind(source.streams@[i], "subtitle"@)
}

fn track_plays(source: &MediaInfo, index: u64) -> (result: bool)
    ensures
        result == plays(*source, index),
{
    match find_stream(source, index) {
        Some(stream) => stream_is(stream, "video") || stream_is(stream, "audio"),
        None => false,
    }
}

fn track_is_subtitle(source: &MediaInfo, index: u64) -> (result: bool)
    ensures
        result == track_is(*source, index, "subtitle"@),
{
    match find_stream(source, index) {
        Some(stream) => stream_is(stream, "subtitle"),
        None => false,
    }
}

fn any_subtitle(source: &MediaInfo, index: u64) -> (result: bool)
    ensures
        result == has_subtitle(*source, index),
{
    let mut i: usize = 0;
    while i < source.streams.len()
        invariant
            0 <= i <= source.streams.len(),
            forall|k: int|
                0 <= k < i ==> !(index_of(#[trigger] source.streams@[k]) == Some(index) && is_kind(
                    source.streams@[k],
                    "subtitle"@,
                )),
        decreases source.streams.len() - i,
    {
        let stream = &source.streams[i];
        let own = match stream_index(stream) {
            Some(own) => own == index,
            None => false,
        };
        if own && stream_is(stream, "subtitle") {
            return true;
        }
        i = i + 1;
    }
    false
}

// Where imports go when no order was chosen.

/// The position after the last subtitle of an order, if it has one.
pub open spec fn after_subtitles(source: MediaInfo, order: Seq<u64>) -> Option<int>
    decreases order.len(),
{
    if order.len() == 0 {
        None
    } else if track_is(source, order.last(), "subtitle"@) {
        Some(order.len() as int)
    } else {
        after_subtitles(source, order.drop_last())
    }
}

/// The position of the first track that is neither video nor audio, or the end.
pub open spec fn after_playing(source: MediaInfo, order: Seq<u64>) -> int
    decreases order.len(),
{
    if order.len() == 0 {
        0
    } else if does_not_play(source, order[0]) {
        0
    } else {
        after_playing(source, order.skip(1)) + 1
    }
}

/// Where imported subtitles go: after the subtitles of the source, or else after its
/// video and audio.
pub open spec fn import_position(source: MediaInfo, order: Seq<u64>) -> int {
    match after_subtitles(source, order) {
        Some(position) => position,
        None => after_playing(source, order),
    }
}

/// Imports go somewhere in the order.
pub proof fn lemma_import_position(source: MediaInfo, order: Seq<u64>)
    ensures
        0 <= import_position(source, order) <= order.len(),
{
    lemma_after_subtitles(source, order);
    lemma_after_playing(source, order);
}

proof fn lemma_after_subtitles(source: MediaInfo, order: Seq<u64>)
    ensures
        after_subtitles(source, order) is Some ==> 0 < after_subtitles(source, order)->0
            <= order.len(),
    decreases order.len(),
{
    if order.len() > 0 {
        lemma_after_subtitles(source, order.drop_last());
    }
}

proof fn lemma_after_playing(source: MediaInfo, order: Seq<u64>)
    ensures
        0 <= after_playing(source, order) <= order.len(),
    decreases order.len(),
{
    if order.len() > 0 {
        lemma_after_playing(source, order.skip(1));
    }
}

fn find_import_position(source: &MediaInfo, order: &Vec<u64>) -> (result: usize)
    ensures
        result == import_position(*source, order@),
        result <= order@.len(),
{
    let mut end: usize = order.len();
    assert(order@.take(order@.len() as int) =~= order@);
    while end > 0
        invariant
            0 <= end <= order.len(),
            after_subtitles(*source, order@) == after_subtitles(*source, order@.take(end as int)),
        decreases end,
    {
        if track_is_subtitle(source, order[end - 1]) {
            return end;
        }
        assert(order@.take(end as int).drop_last() =~= order@.take(end - 1));
        end = end - 1;
    }
    let mut start: usize = 0;
    assert(order@.skip(0) =~= order@);
    while start < order.len()
        invariant
            0 <= start <= order.len(),
            after_subtitles(*source, order@) is None,
            after_playing(*source, order@) == start + after_playing(
                *source,
                order@.skip(start as int),
            ),
        decreases order.len() - start,
    {
        if find_stream(source, order[start]).is_some() && !track_plays(source, order[start]) {
            return start;
        }
        assert(order@.skip(start as int).skip(1) =~= order@.skip(start + 1));
        start = start + 1;
    }
    start
}

/// Some tracks of the source, in order.
pub open spec fn existing(order: Seq<u64>) -> Seq<OutputTrack> {
    order.map_values(|index: u64| OutputTrack::Existing(index))
}

/// All imported subtitles, in order.
pub open spec fn all_imports(count: nat) -> Seq<OutputTrack> {
    Seq::new(count, |position: int| OutputTrack::Imported(position as usize))
}

/// The plan without a chosen order: the tracks of the source in their order, the imports
/// together in their place.
pub open spec fn plain_plan(source: MediaInfo, order: Seq<u64>, imports: nat) -> Seq<OutputTrack> {
    let position = import_position(source, order);
    existing(order.take(position)) + all_imports(imports) + existing(order.skip(position))
}

fn push_existing(tracks: &mut Vec<OutputTrack>, order: &Vec<u64>, start: usize, end: usize)
    requires
        start <= end <= order@.len(),
    ensures
        final(tracks)@ == old(tracks)@ + existing(order@.subrange(start as int, end as int)),
{
    let ghost before = tracks@;
    let mut i: usize = start;
    assert(before =~= before + existing(order@.subrange(start as int, start as int)));
    while i < end
        invariant
            start <= i <= end <= order@.len(),
            tracks@ == before + existing(order@.subrange(start as int, i as int)),
        decreases end - i,
    {
        tracks.push(OutputTrack::Existing(order[i]));
        assert(tracks@ =~= before + existing(order@.subrange(start as int, i + 1)));
        i = i + 1;
    }
}

fn push_imports(tracks: &mut Vec<OutputTrack>, count: usize)
    ensures
        final(tracks)@ == old(tracks)@ + all_imports(count as nat),
{
    let ghost before = tracks@;
    let mut i: usize = 0;
    assert(before =~= before + all_imports(0));
    while i < count
        invariant
            0 <= i <= count,
            tracks@ == before + all_imports(i as nat),
        decreases count - i,
    {
        tracks.push(OutputTrack::Imported(i));
        assert(tracks@ =~= before + all_imports((i + 1) as nat));
        i = i + 1;
    }
}

// The plan by a chosen order of subtitles.

/// The first import of a file.
pub open spec fn import_of(imports: Seq<SubtitleImport>, place: Place) -> Option<int>
    decreases imports.len(),
{
    if imports.len() == 0 {
        None
    } else if imports[0].source_path@.place() == place {
        Some(0)
    } else {
        match import_of(imports.skip(1), place) {
            Some(position) => Some(position + 1),
            None => None,
        }
    }
}

fn find_import(imports: &[SubtitleImport], path: &FilePath) -> (result: Option<usize>)
    ensures
        match result {
            Some(position) => import_of(imports@, path@.place()) == Some(position as int) && position
                < imports@.len(),
            None => import_of(imports@, path@.place()) is None,
        },
{
    let mut i: usize = 0;
    assert(imports@.skip(0) =~= imports@);
    while i < imports.len()
        invariant
            0 <= i <= imports.len(),
            import_of(imports@, path@.place()) == (match import_of(imports@.skip(i as int), path@.place()) {
                Some(position) => Some(position + i),
                None => None,
            }),
        decreases imports.len() - i,
    {
        if imports[i].source_path.same(path) {
            return Some(i);
        }
        assert(imports@.skip(i as int).skip(1) =~= imports@.skip(i + 1));
        i = i + 1;
    }
    None
}

/// The subtitles that a chosen order names and that are written, as it names them. An
/// import is placed once, where it is named first.
pub open spec fn placed(
    source: MediaInfo,
    order: Seq<u64>,
    chosen: Seq<TrackRef>,
    imports: Seq<SubtitleImport>,
    sidecars: Seq<SidecarEntry>,
) -> Seq<OutputTrack>
    decreases chosen.len(),
{
    if chosen.len() == 0 {
        Seq::empty()
    } else {
        let before = placed(source, order, chosen.drop_last(), imports, sidecars);
        match chosen.last() {
            TrackRef::Embedded(index) => if order.contains(index) && has_subtitle(source, index) {
                before.push(OutputTrack::Existing(index))
            } else {
                before
            },
            TrackRef::Sidecar(position) => if position < sidecars.len() && import_of(
                imports,
                sidecars[position as int].path@.place(),
            ) is Some && !before.contains(
                OutputTrack::Imported(
                    import_of(imports, sidecars[position as int].path@.place())->0 as usize,
                ),
            ) {
                before.push(
                    OutputTrack::Imported(
                        import_of(imports, sidecars[position as int].path@.place())->0 as usize,
                    ),
                )
            } else {
                before
            },
            TrackRef::Other => before,
        }
    }
}

fn holds_track(tracks: &Vec<OutputTrack>, track: OutputTrack) -> (result: bool)
    ensures
        result == tracks@.contains(track),
{
    let mut i: usize = 0;
    while i < tracks.len()
        invariant
            0 <= i <= tracks.len(),
            forall|k: int| 0 <= k < i ==> tracks@[k] != track,
        decreases tracks.len() - i,
    {
        if tracks[i] == track {
            return true;
        }
        i = i + 1;
    }
    false
}

fn holds_index(order: &Vec<u64>, index: u64) -> (result: bool)
    ensures
        result == order@.contains(index),
{
    let mut i: usize = 0;
    while i < order.len()
        invariant
            0 <= i <= order.len(),
            forall|k: int| 0 <= k < i ==> order@[k] != index,
        decreases order.len() - i,
    {
        if order[i] == index {
            return true;
        }
        i = i + 1;
    }
    false
}

fn place_chosen(
    source: &MediaInfo,
    order: &Vec<u64>,
    chosen: &[TrackRef],
    imports: &[SubtitleImport],
    sidecars: &[SidecarEntry],
) -> (result: Vec<OutputTrack>)
    ensures
        result@ == placed(*source, order@, chosen@, imports@, sidecars@),
{
    let mut result: Vec<OutputTrack> = Vec::new();
    let mut i: usize = 0;
    while i < chosen.len()
        invariant
            0 <= i <= chosen.len(),
            result@ == placed(*source, order@, chosen@.take(i as int), imports@, sidecars@),
        decreases chosen.len() - i,
    {
        proof {
            assert(chosen@.take(i + 1).drop_last() =~= chosen@.take(i as int));
            assert(chosen@.take(i + 1).last() == chosen@[i as int]);
        }
        match chosen[i] {
            TrackRef::Embedded(index) => {
                if holds_index(order, index) && any_subtitle(source, index) {
                    result.push(OutputTrack::Existing(index));
                }
            },
            TrackRef::Sidecar(position) => {
                if position < sidecars.len() {
                    if let Some(import) = find_import(imports, &sidecars[position].path) {
                        if !holds_track(&result, OutputTrack::Imported(import)) {
                            result.push(OutputTrack::Imported(import));
                        }
                    }
                }
            },
            TrackRef::Other => {},
        }
        i = i + 1;
    }
    assert(chosen@.take(chosen@.len() as int) =~= chosen@);
    result
}

/// The video and audio tracks of an order.
pub open spec fn playing(source: MediaInfo, order: Seq<u64>) -> Seq<OutputTrack>
    decreases order.len(),
{
    if order.len() == 0 {
        Seq::empty()
    } else if plays(source, order.last()) {
        playing(source, order.drop_last()).push(OutputTrack::Existing(order.last()))
    } else {
        playing(source, order.drop_last())
    }
}

/// The subtitles of an order that were not placed.
pub open spec fn left_subtitles(
    source: MediaInfo,
    order: Seq<u64>,
    placed: Seq<OutputTrack>,
) -> Seq<OutputTrack>
    decreases order.len(),
{
    if order.len() == 0 {
        Seq::empty()
    } else {
        let before = left_subtitles(source, order.drop_last(), placed);
        let track = OutputTrack::Existing(order.last());
        if has_subtitle(source, order.last()) && !placed.contains(track) {
            before.push(track)
        } else {
            before
        }
    }
}

/// The imports that were not placed.
pub open spec fn left_imports(count: nat, placed: Seq<OutputTrack>) -> Seq<OutputTrack>
    decreases count,
{
    if count == 0 {
        Seq::empty()
    } else {
        let before = left_imports((count - 1) as nat, placed);
        let track = OutputTrack::Imported((count - 1) as usize);
        if placed.contains(track) {
            before
        } else {
            before.push(track)
        }
    }
}

/// The tracks of an order that are no video, audio or subtitle.
pub open spec fn extras(source: MediaInfo, order: Seq<u64>) -> Seq<OutputTrack>
    decreases order.len(),
{
    if order.len() == 0 {
        Seq::empty()
    } else if is_extra(source, order.last()) {
        extras(source, order.drop_last()).push(OutputTrack::Existing(order.last()))
    } else {
        extras(source, order.drop_last())
    }
}

/// The plan by a chosen order: video and audio, the subtitles as chosen, the subtitles
/// and imports that the choice does not name, and whatever else there is.
pub open spec fn chosen_plan(
    source: MediaInfo,
    order: Seq<u64>,
    chosen: Seq<TrackRef>,
    imports: Seq<SubtitleImport>,
    sidecars: Seq<SidecarEntry>,
) -> Seq<OutputTrack> {
    let subtitles = placed(source, order, chosen, imports, sidecars);
    playing(source, order) + subtitles + left_subtitles(source, order, subtitles) + left_imports(
        imports.len(),
        subtitles,
    ) + extras(source, order)
}

/// The tracks of the written file, in order.
pub open spec fn track_plan(
    source: MediaInfo,
    order: Seq<u64>,
    chosen: Seq<TrackRef>,
    imports: Seq<SubtitleImport>,
    sidecars: Seq<SidecarEntry>,
) -> Seq<OutputTrack> {
    let written = written_order(source, order);
    if chosen.len() == 0 {
        plain_plan(source, written, imports.len())
    } else {
        chosen_plan(source, written, chosen, imports, sidecars)
    }
}

pub fn output_track_plan(
    source: &MediaInfo,
    stream_order: &[u64],
    left_subtitle_order: &[TrackRef],
    subtitle_imports: &[SubtitleImport],
    sidecars: &[SidecarEntry],
) -> (result: Vec<OutputTrack>)
    ensures
        result@ == track_plan(
            *source,
            stream_order@,
            left_subtitle_order@,
            subtitle_imports@,
            sidecars@,
        ),
{
    let order = keep_written(source, stream_order);
    let mut tracks: Vec<OutputTrack> = Vec::new();
    if left_subtitle_order.len() == 0 {
        let insert_at: usize = find_import_position(source, &order);
        push_existing(&mut tracks, &order, 0, insert_at);
        push_imports(&mut tracks, subtitle_imports.len());
        push_existing(&mut tracks, &order, insert_at, order.len());
        proof {
            assert(order@.subrange(0, insert_at as int) =~= order@.take(insert_at as int));
            assert(order@.subrange(insert_at as int, order@.len() as int) =~= order@.skip(
                insert_at as int,
            ));
            assert(tracks@ =~= plain_plan(*source, order@, subtitle_imports@.len()));
        }
        return tracks;
    }
    let mut i: usize = 0;
    while i < order.len()
        invariant
            0 <= i <= order.len(),
            tracks@ == playing(*source, order@.take(i as int)),
        decreases order.len() - i,
    {
        proof {
            assert(order@.take(i + 1).drop_last() =~= order@.take(i as int));
            assert(order@.take(i + 1).last() == order@[i as int]);
        }
        if track_plays(source, order[i]) {
            tracks.push(OutputTrack::Existing(order[i]));
        }
        i = i + 1;
    }
    assert(order@.take(order@.len() as int) =~= order@);
    let mut chosen = place_chosen(source, &order, left_subtitle_order, subtitle_imports, sidecars);
    let ghost subtitles = chosen@;
    let ghost first = tracks@;
    let mut rest: Vec<OutputTrack> = Vec::new();
    i = 0;
    while i < order.len()
        invariant
            0 <= i <= order.len(),
            chosen@ == subtitles,
            rest@ == left_subtitles(*source, order@.take(i as int), subtitles),
        decreases order.len() - i,
    {
        proof {
            assert(order@.take(i + 1).drop_last() =~= order@.take(i as int));
            assert(order@.take(i + 1).last() == order@[i as int]);
        }
        if any_subtitle(source, order[i]) && !holds_track(
            &chosen,
            OutputTrack::Existing(order[i]),
        ) {
            rest.push(OutputTrack::Existing(order[i]));
        }
        i = i + 1;
    }
    let ghost second = rest@;
    i = 0;
    assert(rest@ =~= second + left_imports(0, subtitles));
    while i < subtitle_imports.len()
        invariant
            0 <= i <= subtitle_imports.len(),
            chosen@ == subtitles,
            rest@ == second + left_imports(i as nat, subtitles),
        decreases subtitle_imports.len() - i,
    {
        if !holds_track(&chosen, OutputTrack::Imported(i)) {
            rest.push(OutputTrack::Imported(i));
        }
        assert(rest@ =~= second + left_imports((i + 1) as nat, subtitles));
        i = i + 1;
    }
    let ghost third = rest@;
    i = 0;
    assert(rest@ =~= third + extras(*source, order@.take(0)));
    while i < order.len()
        invariant
            0 <= i <= order.len(),
            rest@ == third + extras(*source, order@.take(i as int)),
        decreases order.len() - i,
    {
        proof {
            assert(order@.take(i + 1).drop_last() =~= order@.take(i as int));
            assert(order@.take(i + 1).last() == order@[i as int]);
        }
        if find_stream(source, order[i]).is_some() && !track_plays(source, order[i])
            && !track_is_subtitle(source, order[i]) {
            rest.push(OutputTrack::Existing(order[i]));
        }
        assert(rest@ =~= third + extras(*source, order@.take(i + 1)));
        i = i + 1;
    }
    tracks.append(&mut chosen);
    tracks.append(&mut rest);
    proof {
        assert(order@.take(order@.len() as int) =~= order@);
        assert(tracks@ =~= chosen_plan(
            *source,
            order@,
            left_subtitle_order@,
            subtitle_imports@,
            sidecars@,
        ));
    }
    tracks
}

// What a plan is made of.

proof fn lemma_import_of(imports: Seq<SubtitleImport>, place: Place)
    ensures
        import_of(imports, place) is Some ==> 0 <= import_of(imports, place)->0 < imports.len(),
    decreases imports.len(),
{
    if imports.len() > 0 && imports[0].source_path@.place() != place {
        lemma_import_of(imports.skip(1), place);
    }
}

/// Whether a planned import is one of the first few.
pub open spec fn import_within(track: OutputTrack, count: nat) -> bool {
    track is Imported ==> track->Imported_0 < count
}

proof fn lemma_placed_within(
    source: MediaInfo,
    order: Seq<u64>,
    chosen: Seq<TrackRef>,
    imports: Seq<SubtitleImport>,
    sidecars: Seq<SidecarEntry>,
)
    requires
        imports.len() <= usize::MAX,
    ensures
        forall|i: int|
            0 <= i < placed(source, order, chosen, imports, sidecars).len() ==> import_within(
                #[trigger] placed(source, order, chosen, imports, sidecars)[i],
                imports.len(),
            ),
    decreases chosen.len(),
{
    if chosen.len() > 0 {
        lemma_placed_within(source, order, chosen.drop_last(), imports, sidecars);
        if let TrackRef::Sidecar(position) = chosen.last() {
            if position < sidecars.len() {
                lemma_import_of(imports, sidecars[position as int].path@.place());
            }
        }
        let before = placed(source, order, chosen.drop_last(), imports, sidecars);
        let after = placed(source, order, chosen, imports, sidecars);
        assert forall|i: int| 0 <= i < after.len() implies import_within(
            #[trigger] after[i],
            imports.len(),
        ) by {
            if i < before.len() {
                assert(after[i] == before[i]);
            }
        }
    }
}

proof fn lemma_left_imports_within(count: nat, placed: Seq<OutputTrack>)
    requires
        count <= usize::MAX,
    ensures
        forall|i: int|
            0 <= i < left_imports(count, placed).len() ==> import_within(
                #[trigger] left_imports(count, placed)[i],
                count,
            ),
    decreases count,
{
    if count > 0 {
        lemma_left_imports_within((count - 1) as nat, placed);
        let before = left_imports((count - 1) as nat, placed);
        let after = left_imports(count, placed);
        assert forall|i: int| 0 <= i < after.len() implies import_within(
            #[trigger] after[i],
            count,
        ) by {
            if i < before.len() {
                assert(after[i] == before[i]);
                assert(import_within(before[i], (count - 1) as nat));
            }
        }
    }
}

proof fn lemma_existing_only(source: MediaInfo, order: Seq<u64>, placed: Seq<OutputTrack>)
    ensures
        forall|i: int|
            0 <= i < playing(source, order).len() ==> #[trigger] playing(source, order)[i]
                is Existing,
        forall|i: int|
            0 <= i < left_subtitles(source, order, placed).len() ==> #[trigger] left_subtitles(
                source,
                order,
                placed,
            )[i] is Existing,
        forall|i: int|
            0 <= i < extras(source, order).len() ==> #[trigger] extras(source, order)[i]
                is Existing,
    decreases order.len(),
{
    if order.len() > 0 {
        lemma_existing_only(source, order.drop_last(), placed);
    }
}

/// A plan holds only imports that there are.
pub proof fn lemma_plan_within(
    source: MediaInfo,
    order: Seq<u64>,
    chosen: Seq<TrackRef>,
    imports: Seq<SubtitleImport>,
    sidecars: Seq<SidecarEntry>,
)
    requires
        imports.len() <= usize::MAX,
    ensures
        forall|i: int|
            0 <= i < track_plan(source, order, chosen, imports, sidecars).len() ==> import_within(
                #[trigger] track_plan(source, order, chosen, imports, sidecars)[i],
                imports.len(),
            ),
{
    let written = written_order(source, order);
    let plan = track_plan(source, order, chosen, imports, sidecars);
    if chosen.len() == 0 {
        lemma_import_position(source, written);
    } else {
        let subtitles = placed(source, written, chosen, imports, sidecars);
        lemma_placed_within(source, written, chosen, imports, sidecars);
        lemma_left_imports_within(imports.len(), subtitles);
        lemma_existing_only(source, written, subtitles);
        let a = playing(source, written);
        let b = left_subtitles(source, written, subtitles);
        let c = left_imports(imports.len(), subtitles);
        let d = extras(source, written);
        assert forall|i: int| 0 <= i < plan.len() implies import_within(
            #[trigger] plan[i],
            imports.len(),
        ) by {
            if i < a.len() {
                assert(plan[i] == a[i]);
            } else if i < a.len() + subtitles.len() {
                assert(plan[i] == subtitles[i - a.len()]);
            } else if i < a.len() + subtitles.len() + b.len() {
                assert(plan[i] == b[i - a.len() - subtitles.len()]);
            } else if i < a.len() + subtitles.len() + b.len() + c.len() {
                assert(plan[i] == c[i - a.len() - subtitles.len() - b.len()]);
            } else {
                assert(plan[i] == d[i - a.len() - subtitles.len() - b.len() - c.len()]);
            }
        }
    }
}

/// The written tracks of an order are tracks of the order.
proof fn lemma_written_order(source: MediaInfo, order: Seq<u64>)
    ensures
        forall|i: int|
            0 <= i < written_order(source, order).len() ==> order.contains(
                #[trigger] written_order(source, order)[i],
            ),
    decreases order.len(),
{
    if order.len() > 0 {
        lemma_written_order(source, order.drop_last());
        let shorter = written_order(source, order.drop_last());
        let written = written_order(source, order);
        assert forall|i: int| 0 <= i < written.len() implies order.contains(
            #[trigger] written[i],
        ) by {
            if i < shorter.len() {
                assert(written[i] == shorter[i]);
                let k = choose|k: int|
                    0 <= k < order.drop_last().len() && order.drop_last()[k] == shorter[i];
                assert(order[k] == written[i]);
            } else {
                assert(order[order.len() - 1] == written[i]);
            }
        }
    }
}

/// Whether the tracks of a list that are of the source are in an order.
pub open spec fn within_order(tracks: Seq<OutputTrack>, order: Seq<u64>) -> bool {
    forall|i: int|
        0 <= i < tracks.len() && (#[trigger] tracks[i]) is Existing ==> order.contains(
            tracks[i]->Existing_0,
        )
}

proof fn lemma_segments_within(
    source: MediaInfo,
    order: Seq<u64>,
    placed: Seq<OutputTrack>,
    whole: Seq<u64>,
)
    requires
        forall|i: int| 0 <= i < order.len() ==> whole.contains(#[trigger] order[i]),
    ensures
        within_order(playing(source, order), whole),
        within_order(left_subtitles(source, order, placed), whole),
        within_order(extras(source, order), whole),
    decreases order.len(),
{
    if order.len() > 0 {
        assert forall|i: int| 0 <= i < order.drop_last().len() implies whole.contains(
            #[trigger] order.drop_last()[i],
        ) by {
            assert(order.drop_last()[i] == order[i]);
        }
        lemma_segments_within(source, order.drop_last(), placed, whole);
        assert(whole.contains(order[order.len() - 1]));
    }
}

proof fn lemma_placed_in_order(
    source: MediaInfo,
    order: Seq<u64>,
    chosen: Seq<TrackRef>,
    imports: Seq<SubtitleImport>,
    sidecars: Seq<SidecarEntry>,
)
    ensures
        within_order(placed(source, order, chosen, imports, sidecars), order),
    decreases chosen.len(),
{
    if chosen.len() > 0 {
        lemma_placed_in_order(source, order, chosen.drop_last(), imports, sidecars);
    }
}

proof fn lemma_left_imports_in_order(count: nat, placed: Seq<OutputTrack>, order: Seq<u64>)
    ensures
        within_order(left_imports(count, placed), order),
    decreases count,
{
    if count > 0 {
        lemma_left_imports_in_order((count - 1) as nat, placed, order);
    }
}

proof fn lemma_within_subset(tracks: Seq<OutputTrack>, order: Seq<u64>, whole: Seq<u64>)
    requires
        within_order(tracks, order),
        forall|i: int| 0 <= i < order.len() ==> whole.contains(#[trigger] order[i]),
    ensures
        within_order(tracks, whole),
{
    assert forall|i: int| 0 <= i < tracks.len() && (#[trigger] tracks[i])
        is Existing implies whole.contains(tracks[i]->Existing_0) by {
        let k = choose|k: int| 0 <= k < order.len() && order[k] == tracks[i]->Existing_0;
        assert(whole.contains(order[k]));
    }
}

/// A plan holds only tracks that are written.
pub proof fn lemma_plan_of_written(
    source: MediaInfo,
    order: Seq<u64>,
    chosen: Seq<TrackRef>,
    imports: Seq<SubtitleImport>,
    sidecars: Seq<SidecarEntry>,
)
    ensures
        within_order(
            track_plan(source, order, chosen, imports, sidecars),
            written_order(source, order),
        ),
{
    let written = written_order(source, order);
    let plan = track_plan(source, order, chosen, imports, sidecars);
    if chosen.len() == 0 {
        lemma_import_position(source, written);
        let position = import_position(source, written);
        assert forall|i: int| 0 <= i < plan.len() && (#[trigger] plan[i])
            is Existing implies written.contains(plan[i]->Existing_0) by {
            if i < position {
                assert(plan[i] == OutputTrack::Existing(written[i]));
            } else if i >= position + imports.len() {
                assert(plan[i] == OutputTrack::Existing(written[i - imports.len()]));
            }
        }
    } else {
        let subtitles = placed(source, written, chosen, imports, sidecars);
        lemma_placed_in_order(source, written, chosen, imports, sidecars);
        lemma_segments_within(source, written, subtitles, written);
        lemma_left_imports_in_order(imports.len(), subtitles, written);
        let a = playing(source, written);
        let b = left_subtitles(source, written, subtitles);
        let c = left_imports(imports.len(), subtitles);
        let d = extras(source, written);
        assert forall|i: int| 0 <= i < plan.len() && (#[trigger] plan[i])
            is Existing implies written.contains(plan[i]->Existing_0) by {
            if i < a.len() {
                assert(plan[i] == a[i]);
            } else if i < a.len() + subtitles.len() {
                assert(plan[i] == subtitles[i - a.len()]);
            } else if i < a.len() + subtitles.len() + b.len() {
                assert(plan[i] == b[i - a.len() - subtitles.len()]);
            } else if i < a.len() + subtitles.len() + b.len() + c.len() {
                assert(plan[i] == c[i - a.len() - subtitles.len() - b.len()]);
            } else {
                assert(plan[i] == d[i - a.len() - subtitles.len() - b.len() - c.len()]);
            }
        }
    }
}

/// A plan holds only tracks that were kept.
pub proof fn lemma_plan_in_order(
    source: MediaInfo,
    order: Seq<u64>,
    chosen: Seq<TrackRef>,
    imports: Seq<SubtitleImport>,
    sidecars: Seq<SidecarEntry>,
)
    ensures
        within_order(track_plan(source, order, chosen, imports, sidecars), order),
{
    lemma_plan_of_written(source, order, chosen, imports, sidecars);
    lemma_written_order(source, order);
    lemma_within_subset(
        track_plan(source, order, chosen, imports, sidecars),
        written_order(source, order),
        order,
    );
}

// What the muxer does by itself.

/// The streams of a written file, without the chapter list that the muxer adds.
pub open spec fn written_streams(info: MediaInfo, streams: Seq<Stream>) -> Seq<Stream>
    decreases streams.len(),
{
    if streams.len() == 0 {
        Seq::empty()
    } else if is_chapters(info, streams.last()) {
        written_streams(info, streams.drop_last())
    } else {
        written_streams(info, streams.drop_last()).push(streams.last())
    }
}

/// The streams behind a list of references.
pub open spec fn derefs(streams: Seq<&Stream>) -> Seq<Stream> {
    streams.map_values(|stream: &Stream| *stream)
}

pub fn streams_written(info: &MediaInfo) -> (result: Vec<&Stream>)
    ensures
        derefs(result@) == written_streams(*info, info.streams@),
{
    let mut result: Vec<&Stream> = Vec::new();
    let mut i: usize = 0;
    assert(derefs(result@) =~= written_streams(*info, info.streams@.take(0)));
    while i < info.streams.len()
        invariant
            0 <= i <= info.streams.len(),
            derefs(result@) == written_streams(*info, info.streams@.take(i as int)),
        decreases info.streams.len() - i,
    {
        let stream = &info.streams[i];
        let ghost before = result@;
        proof {
            assert(info.streams@.take(i + 1).drop_last() =~= info.streams@.take(i as int));
            assert(info.streams@.take(i + 1).last() == *stream);
        }
        if !is_chapter_track(info, stream) {
            result.push(stream);
            assert(derefs(result@) =~= derefs(before).push(*stream));
        }
        i = i + 1;
    }
    assert(info.streams@.take(info.streams@.len() as int) =~= info.streams@);
    result
}

/// Whether a default was asked for at a position.
pub open spec fn default_asked(expected: Seq<bool>, position: int) -> bool {
    0 <= position < expected.len() && expected[position]
}

/// Whether MP4 and MOV enable a track by themselves: the first of its kind, where no
/// track of that kind was asked for as a default.
pub open spec fn is_forced_default(
    streams: Seq<Stream>,
    expected: Seq<bool>,
    position: int,
) -> bool {
    &&& 0 <= position < streams.len()
    &&& kind_of(streams[position]) is Some
    &&& forall|earlier: int|
        0 <= earlier < position ==> kind_of(#[trigger] streams[earlier]) != kind_of(
            streams[position],
        )
    &&& forall|other: int|
        0 <= other < streams.len() && kind_of(#[trigger] streams[other]) == kind_of(
            streams[position],
        ) ==> !default_asked(expected, other)
}

/// The positions that the muxer may flag as default though nothing asked for it.
pub open spec fn forced_defaults(
    output: MediaInfo,
    expected: Seq<bool>,
    container: Option<ContainerFormat>,
    position: int,
) -> bool {
    &&& container is Some && container->0.iso()
    &&& is_forced_default(written_streams(output, output.streams@), expected, position)
}

fn forced_at(streams: &Vec<&Stream>, expected: &[bool], position: usize) -> (result: bool)
    requires
        position < streams@.len(),
    ensures
        result == is_forced_default(derefs(streams@), expected@, position as int),
{
    let kind = stream_kind(streams[position]);
    if kind.is_none() {
        return false;
    }
    let mut i: usize = 0;
    while i < streams.len()
        invariant
            0 <= i <= streams.len(),
            position < streams@.len(),
            opt_str(kind) == kind_of(derefs(streams@)[position as int]),
            forall|other: int|
                0 <= other < i && kind_of(#[trigger] derefs(streams@)[other]) == kind_of(
                    derefs(streams@)[position as int],
                ) ==> other >= position && !default_asked(expected@, other),
        decreases streams.len() - i,
    {
        assert(derefs(streams@)[i as int] == *streams@[i as int]);
        if same_optional_text(stream_kind(streams[i]), kind) {
            if i < position || (i < expected.len() && expected[i]) {
                return false;
            }
        }
        i = i + 1;
    }
    true
}

pub fn muxer_forced_default_positions(
    output: &MediaInfo,
    expected_defaults: &[bool],
    container: Option<ContainerFormat>,
) -> (result: BTreeSet<usize>)
    ensures
        forall|position: usize|
            #[trigger] result@.contains(position) == forced_defaults(
                *output,
                expected_defaults@,
                container,
                position as int,
            ),
{
    let mut result: BTreeSet<usize> = BTreeSet::new();
    let iso = match container {
        Some(container) => matches!(container, ContainerFormat::Mp4 | ContainerFormat::Mov),
        None => false,
    };
    if !iso {
        return result;
    }
    let streams = streams_written(output);
    let mut i: usize = 0;
    while i < streams.len()
        invariant
            0 <= i <= streams.len(),
            derefs(streams@) == written_streams(*output, output.streams@),
            forall|position: usize|
                #[trigger] result@.contains(position) == (position < i && is_forced_default(
                    derefs(streams@),
                    expected_defaults@,
                    position as int,
                )),
        decreases streams.len() - i,
    {
        if forced_at(&streams, expected_defaults, i) {
            result.insert(i);
        }
        i = i + 1;
    }
    assert(derefs(streams@).len() == streams@.len());
    result
}

// Laws.

/// Whether two lists hold no track in common.
spec fn apart(left: Seq<OutputTrack>, right: Seq<OutputTrack>) -> bool {
    forall|track: OutputTrack| left.contains(track) ==> !(#[trigger] right.contains(track))
}

proof fn lemma_concat(left: Seq<OutputTrack>, right: Seq<OutputTrack>)
    ensures
        forall|track: OutputTrack| #[trigger]
            (left + right).contains(track) <==> left.contains(track) || right.contains(track),
        left.no_duplicates() && right.no_duplicates() && apart(left, right) ==> (left
            + right).no_duplicates(),
{
    let both = left + right;
    assert forall|track: OutputTrack| #[trigger] both.contains(track) <==> left.contains(track)
        || right.contains(track) by {
        if left.contains(track) {
            let i = choose|i: int| 0 <= i < left.len() && left[i] == track;
            assert(both[i] == track);
        }
        if right.contains(track) {
            let i = choose|i: int| 0 <= i < right.len() && right[i] == track;
            assert(both[left.len() + i] == track);
        }
        if both.contains(track) {
            let i = choose|i: int| 0 <= i < both.len() && both[i] == track;
            if i < left.len() {
                assert(left[i] == track);
            } else {
                assert(right[i - left.len()] == track);
            }
        }
    }
    if left.no_duplicates() && right.no_duplicates() && apart(left, right) {
        assert forall|i: int, j: int|
            0 <= i < both.len() && 0 <= j < both.len() && i != j implies both[i] != both[j] by {
            let low = if i < j { i } else { j };
            let high = if i < j { j } else { i };
            if high < left.len() {
                assert(left[low] != left[high]);
            } else if low >= left.len() {
                assert(right[low - left.len()] != right[high - left.len()]);
            } else {
                assert(left.contains(left[low]));
                assert(right.contains(right[high - left.len()]));
            }
        }
    }
}

proof fn lemma_push(tracks: Seq<OutputTrack>, track: OutputTrack)
    ensures
        forall|other: OutputTrack| #[trigger]
            tracks.push(track).contains(other) <==> tracks.contains(other) || other == track,
        tracks.no_duplicates() && !tracks.contains(track) ==> tracks.push(track).no_duplicates(),
{
    let longer = tracks.push(track);
    assert forall|other: OutputTrack| #[trigger] longer.contains(other) <==> tracks.contains(other)
        || other == track by {
        if tracks.contains(other) {
            let i = choose|i: int| 0 <= i < tracks.len() && tracks[i] == other;
            assert(longer[i] == other);
        }
        assert(longer[tracks.len() as int] == track);
        if longer.contains(other) {
            let i = choose|i: int| 0 <= i < longer.len() && longer[i] == other;
            if i < tracks.len() {
                assert(tracks[i] == other);
            }
        }
    }
    if tracks.no_duplicates() && !tracks.contains(track) {
        assert forall|i: int, j: int|
            0 <= i < longer.len() && 0 <= j < longer.len() && i != j implies longer[i]
            != longer[j] by {
            if i < tracks.len() && j < tracks.len() {
                assert(tracks[i] != tracks[j]);
            } else if i < tracks.len() {
                assert(tracks.contains(tracks[i]));
            } else {
                assert(tracks.contains(tracks[j]));
            }
        }
    }
}

proof fn lemma_push_number(numbers: Seq<u64>, number: u64)
    ensures
        forall|other: u64| #[trigger]
            numbers.push(number).contains(other) <==> numbers.contains(other) || other == number,
{
    let longer = numbers.push(number);
    assert forall|other: u64| #[trigger] longer.contains(other) <==> numbers.contains(other)
        || other == number by {
        if numbers.contains(other) {
            let i = choose|i: int| 0 <= i < numbers.len() && numbers[i] == other;
            assert(longer[i] == other);
        }
        assert(longer[numbers.len() as int] == number);
        if longer.contains(other) {
            let i = choose|i: int| 0 <= i < longer.len() && longer[i] == other;
            if i < numbers.len() {
                assert(numbers[i] == other);
            }
        }
    }
}

proof fn lemma_shorter(order: Seq<u64>)
    requires
        order.len() > 0,
        order.no_duplicates(),
    ensures
        order.drop_last().no_duplicates(),
        !order.drop_last().contains(order.last()),
        forall|index: u64| #[trigger]
            order.contains(index) <==> order.drop_last().contains(index) || index == order.last(),
{
    assert(order =~= order.drop_last().push(order.last()));
    lemma_push_number(order.drop_last(), order.last());
    if order.drop_last().contains(order.last()) {
        let i = choose|i: int|
            0 <= i < order.drop_last().len() && order.drop_last()[i] == order.last();
        assert(order[i] == order[order.len() - 1]);
    }
    assert forall|i: int, j: int|
        0 <= i < order.drop_last().len() && 0 <= j < order.drop_last().len() && i
            != j implies order.drop_last()[i] != order.drop_last()[j] by {
        assert(order[i] != order[j]);
    }
}

/// The written tracks of an order are those of its tracks that are written, each once.
pub proof fn lemma_written_members(source: MediaInfo, order: Seq<u64>)
    requires
        order.no_duplicates(),
    ensures
        written_order(source, order).no_duplicates(),
        forall|index: u64| #[trigger]
            written_order(source, order).contains(index) <==> order.contains(index) && is_written(
                source,
                index,
            ),
    decreases order.len(),
{
    if order.len() > 0 {
        lemma_shorter(order);
        let shorter = written_order(source, order.drop_last());
        lemma_written_members(source, order.drop_last());
        lemma_push_number(shorter, order.last());
        if is_written(source, order.last()) {
            assert forall|i: int, j: int|
                0 <= i < shorter.len() + 1 && 0 <= j < shorter.len() + 1 && i
                    != j implies shorter.push(order.last())[i] != shorter.push(order.last())[j] by {
                if i < shorter.len() && j < shorter.len() {
                    assert(shorter[i] != shorter[j]);
                } else if i < shorter.len() {
                    assert(shorter.contains(shorter[i]));
                } else {
                    assert(shorter.contains(shorter[j]));
                }
            }
        }
    }
}

/// What the parts of a chosen plan hold, for an order without repeats.
proof fn lemma_parts(source: MediaInfo, order: Seq<u64>, placed: Seq<OutputTrack>)
    requires
        order.no_duplicates(),
    ensures
        playing(source, order).no_duplicates(),
        forall|track: OutputTrack| #[trigger]
            playing(source, order).contains(track) <==> track is Existing && order.contains(
                track->Existing_0,
            ) && plays(source, track->Existing_0),
        left_subtitles(source, order, placed).no_duplicates(),
        forall|track: OutputTrack| #[trigger]
            left_subtitles(source, order, placed).contains(track) <==> track is Existing
                && order.contains(track->Existing_0) && has_subtitle(source, track->Existing_0)
                && !placed.contains(track),
        extras(source, order).no_duplicates(),
        forall|track: OutputTrack| #[trigger]
            extras(source, order).contains(track) <==> track is Existing && order.contains(
                track->Existing_0,
            ) && is_extra(source, track->Existing_0),
    decreases order.len(),
{
    if order.len() > 0 {
        lemma_shorter(order);
        let track = OutputTrack::Existing(order.last());
        lemma_parts(source, order.drop_last(), placed);
        lemma_push(playing(source, order.drop_last()), track);
        lemma_push(left_subtitles(source, order.drop_last(), placed), track);
        lemma_push(extras(source, order.drop_last()), track);
    }
}

proof fn lemma_left_imports(count: nat, placed: Seq<OutputTrack>)
    requires
        count <= usize::MAX,
    ensures
        left_imports(count, placed).no_duplicates(),
        forall|track: OutputTrack| #[trigger]
            left_imports(count, placed).contains(track) <==> track is Imported
                && track->Imported_0 < count && !placed.contains(track),
    decreases count,
{
    if count > 0 {
        lemma_left_imports((count - 1) as nat, placed);
        lemma_push(
            left_imports((count - 1) as nat, placed),
            OutputTrack::Imported((count - 1) as usize),
        );
    }
}

/// Whether a chosen order names no embedded track twice.
pub open spec fn chosen_once(chosen: Seq<TrackRef>) -> bool {
    forall|i: int, j: int|
        0 <= i < j < chosen.len() && (#[trigger] chosen[i]) is Embedded ==> chosen[i]
            != #[trigger] chosen[j]
}

proof fn lemma_placed(
    source: MediaInfo,
    order: Seq<u64>,
    chosen: Seq<TrackRef>,
    imports: Seq<SubtitleImport>,
    sidecars: Seq<SidecarEntry>,
)
    requires
        chosen_once(chosen),
        imports.len() <= usize::MAX,
    ensures
        placed(source, order, chosen, imports, sidecars).no_duplicates(),
        forall|track: OutputTrack| #[trigger]
            placed(source, order, chosen, imports, sidecars).contains(track) ==> match track {
                OutputTrack::Existing(index) => order.contains(index) && has_subtitle(source, index)
                    && chosen.contains(TrackRef::Embedded(index)),
                OutputTrack::Imported(import) => import < imports.len(),
            },
    decreases chosen.len(),
{
    if chosen.len() > 0 {
        let earlier = chosen.drop_last();
        let before = placed(source, order, earlier, imports, sidecars);
        let after = placed(source, order, chosen, imports, sidecars);
        assert(chosen_once(earlier)) by {
            assert forall|i: int, j: int|
                0 <= i < j < earlier.len() && (#[trigger] earlier[i]) is Embedded implies earlier[i]
                != #[trigger] earlier[j] by {
                assert(chosen[i] != chosen[j]);
            }
        }
        lemma_placed(source, order, earlier, imports, sidecars);
        assert forall|item: TrackRef| earlier.contains(item) implies #[trigger] chosen.contains(
            item,
        ) by {
            let i = choose|i: int| 0 <= i < earlier.len() && earlier[i] == item;
            assert(chosen[i] == item);
        }
        assert(chosen.contains(chosen[chosen.len() - 1]));
        match chosen.last() {
            TrackRef::Embedded(index) => {
                lemma_push(before, OutputTrack::Existing(index));
                if before.contains(OutputTrack::Existing(index)) {
                    let i = choose|i: int|
                        0 <= i < earlier.len() && earlier[i] == TrackRef::Embedded(index);
                    assert(chosen[i] is Embedded);
                    assert(chosen[i] != chosen[chosen.len() - 1]);
                }
            },
            TrackRef::Sidecar(position) => {
                if position < sidecars.len() {
                    lemma_import_of(imports, sidecars[position as int].path@.place());
                    if import_of(imports, sidecars[position as int].path@.place()) is Some {
                        lemma_push(
                            before,
                            OutputTrack::Imported(
                                import_of(imports, sidecars[position as int].path@.place())->0 as usize,
                            ),
                        );
                    }
                }
            },
            TrackRef::Other => {},
        }
    }
}

proof fn lemma_existing(order: Seq<u64>)
    ensures
        order.no_duplicates() ==> existing(order).no_duplicates(),
        forall|track: OutputTrack| #[trigger]
            existing(order).contains(track) <==> track is Existing && order.contains(
                track->Existing_0,
            ),
{
    assert forall|track: OutputTrack| #[trigger] existing(order).contains(track) <==> track
        is Existing && order.contains(track->Existing_0) by {
        if existing(order).contains(track) {
            let i = choose|i: int| 0 <= i < existing(order).len() && existing(order)[i] == track;
            assert(order[i] == track->Existing_0);
        }
        if track is Existing && order.contains(track->Existing_0) {
            let i = choose|i: int| 0 <= i < order.len() && order[i] == track->Existing_0;
            assert(existing(order)[i] == track);
        }
    }
    if order.no_duplicates() {
        assert forall|i: int, j: int|
            0 <= i < existing(order).len() && 0 <= j < existing(order).len() && i
                != j implies existing(order)[i] != existing(order)[j] by {
            assert(order[i] != order[j]);
        }
    }
}

proof fn lemma_all_imports(count: nat)
    requires
        count <= usize::MAX,
    ensures
        all_imports(count).no_duplicates(),
        forall|track: OutputTrack| #[trigger]
            all_imports(count).contains(track) <==> track is Imported && track->Imported_0 < count,
{
    assert forall|track: OutputTrack| #[trigger] all_imports(count).contains(track) <==> track
        is Imported && track->Imported_0 < count by {
        if track is Imported && track->Imported_0 < count {
            assert(all_imports(count)[track->Imported_0 as int] == track);
        }
    }
}

/// Where no two streams share an index, a subtitle stream is the stream of its index.
proof fn lemma_one_stream(source: MediaInfo, index: u64)
    requires
        indices_differ(source.streams@),
    ensures
        has_subtitle(source, index) == track_is(source, index, "subtitle"@),
{
    crate::probe::lemma_stream_at(source.streams@, index);
    match stream_at(source.streams@, index) {
        Some(stream) => {
            let i = choose|i: int|
                0 <= i < source.streams@.len() && source.streams@[i] == stream;
            if has_subtitle(source, index) {
                let k = choose|k: int|
                    0 <= k < source.streams@.len() && index_of(#[trigger] source.streams@[k])
                        == Some(index) && is_kind(source.streams@[k], "subtitle"@);
                assert(index_of(source.streams@[i]) == Some(index));
                assert(k == i);
            }
            if is_kind(stream, "subtitle"@) {
                assert(index_of(source.streams@[i]) == Some(index));
            }
        },
        None => {},
    }
}

/// Whether no two streams share an index.
pub open spec fn indices_differ(streams: Seq<Stream>) -> bool {
    forall|i: int, k: int|
        0 <= i < streams.len() && 0 <= k < streams.len() && i != k && index_of(
            #[trigger] streams[i],
        ) is Some ==> index_of(streams[i]) != index_of(#[trigger] streams[k])
}

/// The plan of a sound edit holds every kept track but the chapter list once, every import
/// once, and nothing else, whether an order was chosen or not.
pub proof fn plans_hold_everything_once(
    source: MediaInfo,
    order: Seq<u64>,
    chosen: Seq<TrackRef>,
    imports: Seq<SubtitleImport>,
    sidecars: Seq<SidecarEntry>,
)
    requires
        indices_differ(source.streams@),
        order.no_duplicates(),
        forall|i: int|
            0 <= i < order.len() ==> stream_at(source.streams@, #[trigger] order[i]) is Some,
        chosen_once(chosen),
        imports.len() <= usize::MAX,
    ensures
        track_plan(source, order, chosen, imports, sidecars).no_duplicates(),
        forall|index: u64|
            #![trigger track_plan(source, order, chosen, imports, sidecars).contains(
                OutputTrack::Existing(index),
            )]
            track_plan(source, order, chosen, imports, sidecars).contains(
                OutputTrack::Existing(index),
            ) <==> order.contains(index) && is_written(source, index),
        forall|import: usize|
            #![trigger track_plan(source, order, chosen, imports, sidecars).contains(
                OutputTrack::Imported(import),
            )]
            track_plan(source, order, chosen, imports, sidecars).contains(
                OutputTrack::Imported(import),
            ) <==> import < imports.len(),
        track_plan(source, order, chosen, imports, sidecars).len() == written_order(
            source,
            order,
        ).len() + imports.len(),
{
    let plan = track_plan(source, order, chosen, imports, sidecars);
    let written = written_order(source, order);
    let count = imports.len();
    lemma_written_members(source, order);
    lemma_all_imports(count);
    lemma_existing(written);
    if chosen.len() == 0 {
        lemma_import_position(source, written);
        let position = import_position(source, written);
        let head = written.take(position);
        let tail = written.skip(position);
        assert(head.no_duplicates());
        assert(tail.no_duplicates());
        lemma_existing(head);
        lemma_existing(tail);
        lemma_concat(existing(head), all_imports(count));
        assert forall|index: u64| written.contains(index) <==> head.contains(index)
            || tail.contains(index) by {
            if written.contains(index) {
                let i = choose|i: int| 0 <= i < written.len() && written[i] == index;
                if i < position {
                    assert(head[i] == index);
                } else {
                    assert(tail[i - position] == index);
                }
            }
            if head.contains(index) {
                let i = choose|i: int| 0 <= i < head.len() && head[i] == index;
                assert(written[i] == index);
            }
            if tail.contains(index) {
                let i = choose|i: int| 0 <= i < tail.len() && tail[i] == index;
                assert(written[i + position] == index);
            }
        }
        assert forall|index: u64| head.contains(index) implies !tail.contains(index) by {
            let i = choose|i: int| 0 <= i < head.len() && head[i] == index;
            if tail.contains(index) {
                let k = choose|k: int| 0 <= k < tail.len() && tail[k] == index;
                assert(written[i] == written[k + position]);
            }
        }
        assert(apart(existing(head), all_imports(count)));
        assert(apart(existing(head) + all_imports(count), existing(tail)));
        lemma_concat(existing(head) + all_imports(count), existing(tail));
    } else {
        let subtitles = placed(source, written, chosen, imports, sidecars);
        lemma_placed(source, written, chosen, imports, sidecars);
        lemma_parts(source, written, subtitles);
        lemma_left_imports(count, subtitles);
        reveal_strlit("video");
        reveal_strlit("audio");
        reveal_strlit("subtitle");
        assert("video"@.len() == 5 && "audio"@.len() == 5 && "subtitle"@.len() == 8);
        assert("video"@[0] == 'v' && "audio"@[0] == 'a');
        assert forall|index: u64| #[trigger] has_subtitle(source, index) == track_is(
            source,
            index,
            "subtitle"@,
        ) by {
            lemma_one_stream(source, index);
        }
        assert forall|index: u64| written.contains(index) implies #[trigger] stream_at(
            source.streams@,
            index,
        ) is Some by {
            let i = choose|i: int| 0 <= i < order.len() && order[i] == index;
            assert(stream_at(source.streams@, order[i]) is Some);
        }
        let a = playing(source, written);
        let b = left_subtitles(source, written, subtitles);
        let c = left_imports(count, subtitles);
        let d = extras(source, written);
        assert(apart(a, subtitles));
        lemma_concat(a, subtitles);
        assert(apart(a + subtitles, b));
        lemma_concat(a + subtitles, b);
        assert(apart(a + subtitles + b, c));
        lemma_concat(a + subtitles + b, c);
        assert(apart(a + subtitles + b + c, d));
        lemma_concat(a + subtitles + b + c, d);
    }
    let all = existing(written) + all_imports(count);
    lemma_concat(existing(written), all_imports(count));
    assert(apart(existing(written), all_imports(count)));
    assert(plan.to_set() =~= all.to_set()) by {
        assert forall|track: OutputTrack| plan.to_set().contains(track) == all.to_set().contains(
            track,
        ) by {
            assert(plan.contains(track) == all.contains(track));
        }
    }
    plan.unique_seq_to_set();
    all.unique_seq_to_set();
}

/// The chapter list is never mapped into the written file.
pub proof fn chapters_are_never_mapped(
    source: MediaInfo,
    order: Seq<u64>,
    chosen: Seq<TrackRef>,
    imports: Seq<SubtitleImport>,
    sidecars: Seq<SidecarEntry>,
    index: u64,
)
    requires
        stream_at(source.streams@, index) is Some,
        is_chapters(source, stream_at(source.streams@, index)->0),
    ensures
        !track_plan(source, order, chosen, imports, sidecars).contains(
            OutputTrack::Existing(index),
        ),
{
    let plan = track_plan(source, order, chosen, imports, sidecars);
    let written = written_order(source, order);
    lemma_plan_of_written(source, order, chosen, imports, sidecars);
    lemma_not_written(source, order, index);
    if plan.contains(OutputTrack::Existing(index)) {
        let i = choose|i: int| 0 <= i < plan.len() && plan[i] == OutputTrack::Existing(index);
        assert(plan[i] is Existing);
    }
}

proof fn lemma_not_written(source: MediaInfo, order: Seq<u64>, index: u64)
    requires
        !is_written(source, index),
    ensures
        !written_order(source, order).contains(index),
    decreases order.len(),
{
    if order.len() > 0 {
        lemma_not_written(source, order.drop_last(), index);
        lemma_push_number(written_order(source, order.drop_last()), order.last());
    }
}

/// The written streams are all but the chapter track of the muxer, in order.
pub proof fn written_streams_are_all_but_chapters(info: MediaInfo, streams: Seq<Stream>)
    ensures
        forall|stream: Stream| #[trigger]
            written_streams(info, streams).contains(stream) <==> streams.contains(stream)
                && !is_chapters(info, stream),
        written_streams(info, streams).len() <= streams.len(),
        (forall|i: int| 0 <= i < streams.len() ==> !is_chapters(info, #[trigger] streams[i]))
            ==> written_streams(info, streams) == streams,
    decreases streams.len(),
{
    if streams.len() > 0 {
        let before = streams.drop_last();
        written_streams_are_all_but_chapters(info, before);
        let all = written_streams(info, streams);
        let shorter = written_streams(info, before);
        assert(forall|i: int| 0 <= i < before.len() ==> #[trigger] before[i] == streams[i]);
        assert forall|stream: Stream| #[trigger] all.contains(stream) <==> streams.contains(stream)
            && !is_chapters(info, stream) by {
            if all.contains(stream) {
                let i = choose|i: int| 0 <= i < all.len() && all[i] == stream;
                if i < shorter.len() {
                    assert(shorter.contains(shorter[i]));
                    assert(before.contains(stream));
                    let k = choose|k: int| 0 <= k < before.len() && before[k] == stream;
                    assert(streams[k] == stream);
                } else {
                    assert(streams[streams.len() - 1] == stream);
                }
            }
            if streams.contains(stream) && !is_chapters(info, stream) {
                let k = choose|k: int| 0 <= k < streams.len() && streams[k] == stream;
                if k < before.len() {
                    assert(before[k] == stream);
                    assert(shorter.contains(stream));
                    let i = choose|i: int| 0 <= i < shorter.len() && shorter[i] == stream;
                    assert(all[i] == stream);
                } else {
                    assert(all[all.len() - 1] == stream);
                }
            }
        }
        if forall|i: int| 0 <= i < streams.len() ==> !is_chapters(info, #[trigger] streams[i]) {
            assert(!is_chapters(info, streams[streams.len() - 1]));
            assert(all =~= streams);
        }
    }
}

/// The tracks of a plan that are of a kind in the source.
pub open spec fn planned_of_kind(
    source: MediaInfo,
    plan: Seq<OutputTrack>,
    kind: Seq<char>,
) -> Seq<OutputTrack> {
    plan.filter(|track: OutputTrack| is_planned_kind(source, track, kind))
}

/// Whether a planned track is one of the source, of a kind.
pub open spec fn is_planned_kind(source: MediaInfo, track: OutputTrack, kind: Seq<char>) -> bool {
    track matches OutputTrack::Existing(index) && stream_at(source.streams@, index) is Some
        && kind_of(stream_at(source.streams@, index)->0) == Some(kind)
}

/// The tracks of an order that are of a kind in the source.
pub open spec fn ordered_of_kind(source: MediaInfo, order: Seq<u64>, kind: Seq<char>) -> Seq<u64> {
    order.filter(|index: u64| is_planned_kind(source, OutputTrack::Existing(index), kind))
}

proof fn lemma_none_of_kind(source: MediaInfo, plan: Seq<OutputTrack>, kind: Seq<char>)
    requires
        forall|i: int| 0 <= i < plan.len() ==> !is_planned_kind(source, #[trigger] plan[i], kind),
    ensures
        planned_of_kind(source, plan, kind) == Seq::<OutputTrack>::empty(),
    decreases plan.len(),
{
    reveal(Seq::filter);
    if plan.len() > 0 {
        assert(!is_planned_kind(source, plan[plan.len() - 1], kind));
        assert forall|i: int| 0 <= i < plan.drop_last().len() implies !is_planned_kind(
            source,
            #[trigger] plan.drop_last()[i],
            kind,
        ) by {
            assert(plan[i] == plan.drop_last()[i]);
        }
        lemma_none_of_kind(source, plan.drop_last(), kind);
    }
}

proof fn lemma_existing_of_kind(source: MediaInfo, order: Seq<u64>, kind: Seq<char>)
    ensures
        planned_of_kind(source, existing(order), kind) == existing(
            ordered_of_kind(source, order, kind),
        ),
    decreases order.len(),
{
    reveal(Seq::filter);
    if order.len() > 0 {
        lemma_existing_of_kind(source, order.drop_last(), kind);
        assert(existing(order).drop_last() =~= existing(order.drop_last()));
        assert(existing(order).last() == OutputTrack::Existing(order.last()));
    }
    assert(planned_of_kind(source, existing(order), kind) =~= existing(
        ordered_of_kind(source, order, kind),
    ));
}

proof fn lemma_written_of_kind(source: MediaInfo, order: Seq<u64>, kind: Seq<char>)
    requires
        kind != "data"@,
    ensures
        ordered_of_kind(source, written_order(source, order), kind) == ordered_of_kind(
            source,
            order,
            kind,
        ),
    decreases order.len(),
{
    reveal(Seq::filter);
    if order.len() > 0 {
        lemma_written_of_kind(source, order.drop_last(), kind);
        let before = written_order(source, order.drop_last());
        if is_written(source, order.last()) {
            assert(before.push(order.last()).drop_last() =~= before);
        }
    }
}

proof fn lemma_playing_of_kind(source: MediaInfo, order: Seq<u64>, kind: Seq<char>)
    requires
        kind == "video"@ || kind == "audio"@,
    ensures
        planned_of_kind(source, playing(source, order), kind) == existing(
            ordered_of_kind(source, order, kind),
        ),
    decreases order.len(),
{
    reveal(Seq::filter);
    if order.len() > 0 {
        lemma_playing_of_kind(source, order.drop_last(), kind);
        let before = playing(source, order.drop_last());
        let last = OutputTrack::Existing(order.last());
        if plays(source, order.last()) {
            assert(before.push(last).drop_last() =~= before);
        }
        assert(existing(ordered_of_kind(source, order, kind)) =~= (if is_planned_kind(
            source,
            last,
            kind,
        ) {
            existing(ordered_of_kind(source, order.drop_last(), kind)).push(last)
        } else {
            existing(ordered_of_kind(source, order.drop_last(), kind))
        }));
    } else {
        assert(existing(ordered_of_kind(source, order, kind)) =~= Seq::<OutputTrack>::empty());
    }
}

proof fn lemma_subtitles_do_not_play(
    source: MediaInfo,
    order: Seq<u64>,
    chosen: Seq<TrackRef>,
    imports: Seq<SubtitleImport>,
    sidecars: Seq<SidecarEntry>,
    kind: Seq<char>,
)
    requires
        indices_differ(source.streams@),
        kind == "video"@ || kind == "audio"@,
    ensures
        forall|i: int|
            0 <= i < placed(source, order, chosen, imports, sidecars).len() ==> !is_planned_kind(
                source,
                #[trigger] placed(source, order, chosen, imports, sidecars)[i],
                kind,
            ),
    decreases chosen.len(),
{
    lemma_kinds_apart();
    if chosen.len() > 0 {
        lemma_subtitles_do_not_play(source, order, chosen.drop_last(), imports, sidecars, kind);
        if let TrackRef::Embedded(index) = chosen.last() {
            lemma_one_stream(source, index);
        }
        let before = placed(source, order, chosen.drop_last(), imports, sidecars);
        let all = placed(source, order, chosen, imports, sidecars);
        assert forall|i: int| 0 <= i < all.len() implies !is_planned_kind(
            source,
            #[trigger] all[i],
            kind,
        ) by {
            if i < before.len() {
                assert(all[i] == before[i]);
            }
        }
    }
}

proof fn lemma_kinds_apart()
    ensures
        "video"@ != "subtitle"@,
        "audio"@ != "subtitle"@,
        "video"@ != "audio"@,
        "video"@ != "data"@,
        "audio"@ != "data"@,
{
    reveal_strlit("video");
    reveal_strlit("audio");
    reveal_strlit("subtitle");
    reveal_strlit("data");
    assert("video"@[0] == 'v' && "audio"@[0] == 'a' && "subtitle"@[0] == 's' && "data"@[0] == 'd');
}

proof fn lemma_left_do_not_play(
    source: MediaInfo,
    order: Seq<u64>,
    subtitles: Seq<OutputTrack>,
    kind: Seq<char>,
)
    requires
        indices_differ(source.streams@),
        kind == "video"@ || kind == "audio"@,
    ensures
        forall|i: int|
            0 <= i < left_subtitles(source, order, subtitles).len() ==> !is_planned_kind(
                source,
                #[trigger] left_subtitles(source, order, subtitles)[i],
                kind,
            ),
        forall|i: int|
            0 <= i < extras(source, order).len() ==> !is_planned_kind(
                source,
                #[trigger] extras(source, order)[i],
                kind,
            ),
    decreases order.len(),
{
    lemma_kinds_apart();
    if order.len() > 0 {
        lemma_left_do_not_play(source, order.drop_last(), subtitles, kind);
        lemma_one_stream(source, order.last());
        let before = left_subtitles(source, order.drop_last(), subtitles);
        let all = left_subtitles(source, order, subtitles);
        assert forall|i: int| 0 <= i < all.len() implies !is_planned_kind(
            source,
            #[trigger] all[i],
            kind,
        ) by {
            if i < before.len() {
                assert(all[i] == before[i]);
            }
        }
        let fewer = extras(source, order.drop_last());
        let others = extras(source, order);
        assert forall|i: int| 0 <= i < others.len() implies !is_planned_kind(
            source,
            #[trigger] others[i],
            kind,
        ) by {
            if i < fewer.len() {
                assert(others[i] == fewer[i]);
            }
        }
    }
}

proof fn lemma_imports_are_no_tracks(source: MediaInfo, count: nat, placed: Seq<OutputTrack>, kind: Seq<char>)
    ensures
        forall|i: int|
            0 <= i < left_imports(count, placed).len() ==> !is_planned_kind(
                source,
                #[trigger] left_imports(count, placed)[i],
                kind,
            ),
    decreases count,
{
    if count > 0 {
        lemma_imports_are_no_tracks(source, (count - 1) as nat, placed, kind);
        let before = left_imports((count - 1) as nat, placed);
        let all = left_imports(count, placed);
        assert forall|i: int| 0 <= i < all.len() implies !is_planned_kind(
            source,
            #[trigger] all[i],
            kind,
        ) by {
            if i < before.len() {
                assert(all[i] == before[i]);
            }
        }
    }
}

/// The videos and the soundtracks of the source are written in the order that was asked for:
/// their numbers among the written tracks of their kind are those in the order.
pub proof fn plans_keep_the_order(
    source: MediaInfo,
    order: Seq<u64>,
    chosen: Seq<TrackRef>,
    imports: Seq<SubtitleImport>,
    sidecars: Seq<SidecarEntry>,
    kind: Seq<char>,
)
    requires
        indices_differ(source.streams@),
        kind == "video"@ || kind == "audio"@,
    ensures
        planned_of_kind(source, track_plan(source, order, chosen, imports, sidecars), kind)
            == ordered_of_kind(source, order, kind).map_values(
            |index: u64| OutputTrack::Existing(index),
        ),
{
    lemma_kinds_apart();
    let written = written_order(source, order);
    let wanted = |track: OutputTrack| is_planned_kind(source, track, kind);
    lemma_written_of_kind(source, order, kind);
    let plan = track_plan(source, order, chosen, imports, sidecars);
    let result = existing(ordered_of_kind(source, written, kind));
    if chosen.len() == 0 {
        let position = import_position(source, written);
        lemma_import_position(source, written);
        let one = existing(written.take(position));
        let two = all_imports(imports.len());
        let three = existing(written.skip(position));
        assert(plan == one + two + three);
        Seq::filter_distributes_over_add(one + two, three, wanted);
        Seq::filter_distributes_over_add(one, two, wanted);
        lemma_none_of_kind(source, two, kind);
        assert(one.filter(wanted) + Seq::<OutputTrack>::empty() =~= one.filter(wanted));
        Seq::filter_distributes_over_add(one, three, wanted);
        assert(one + three =~= existing(written));
        lemma_existing_of_kind(source, written, kind);
        assert(planned_of_kind(source, plan, kind) == result);
    } else {
        let subtitles = placed(source, written, chosen, imports, sidecars);
        let left = left_subtitles(source, written, subtitles);
        let rest = left_imports(imports.len(), subtitles);
        let others = extras(source, written);
        let first = playing(source, written);
        lemma_subtitles_do_not_play(source, written, chosen, imports, sidecars, kind);
        lemma_left_do_not_play(source, written, subtitles, kind);
        lemma_imports_are_no_tracks(source, imports.len(), subtitles, kind);
        lemma_none_of_kind(source, subtitles, kind);
        lemma_none_of_kind(source, left, kind);
        lemma_none_of_kind(source, rest, kind);
        lemma_none_of_kind(source, others, kind);
        Seq::filter_distributes_over_add(first + subtitles + left + rest, others, wanted);
        Seq::filter_distributes_over_add(first + subtitles + left, rest, wanted);
        Seq::filter_distributes_over_add(first + subtitles, left, wanted);
        Seq::filter_distributes_over_add(first, subtitles, wanted);
        lemma_playing_of_kind(source, written, kind);
        assert(planned_of_kind(source, plan, kind) =~= result);
    }
}

/// The track that a choice stands for, where it is written at all.
pub open spec fn chosen_track(
    source: MediaInfo,
    order: Seq<u64>,
    choice: TrackRef,
    imports: Seq<SubtitleImport>,
    sidecars: Seq<SidecarEntry>,
) -> Option<OutputTrack> {
    match choice {
        TrackRef::Embedded(index) => if order.contains(index) && has_subtitle(source, index) {
            Some(OutputTrack::Existing(index))
        } else {
            None
        },
        TrackRef::Sidecar(position) => if position < sidecars.len() {
            match import_of(imports, sidecars[position as int].path@.place()) {
                Some(import) => Some(OutputTrack::Imported(import as usize)),
                None => None,
            }
        } else {
            None
        },
        TrackRef::Other => None,
    }
}

proof fn lemma_placed_prefix(
    source: MediaInfo,
    order: Seq<u64>,
    chosen: Seq<TrackRef>,
    imports: Seq<SubtitleImport>,
    sidecars: Seq<SidecarEntry>,
    count: int,
)
    requires
        0 <= count <= chosen.len(),
    ensures
        placed(source, order, chosen.take(count), imports, sidecars).len() <= placed(
            source,
            order,
            chosen,
            imports,
            sidecars,
        ).len(),
        forall|i: int|
            0 <= i < placed(source, order, chosen.take(count), imports, sidecars).len()
                ==> #[trigger] placed(source, order, chosen, imports, sidecars)[i] == placed(
                source,
                order,
                chosen.take(count),
                imports,
                sidecars,
            )[i],
    decreases chosen.len() - count,
{
    if count == chosen.len() {
        assert(chosen.take(count) =~= chosen);
    } else {
        lemma_placed_prefix(source, order, chosen, imports, sidecars, count + 1);
        assert(chosen.take(count + 1).drop_last() =~= chosen.take(count));
        let shorter = placed(source, order, chosen.take(count), imports, sidecars);
        let longer = placed(source, order, chosen.take(count + 1), imports, sidecars);
        let all = placed(source, order, chosen, imports, sidecars);
        assert forall|i: int| 0 <= i < shorter.len() implies #[trigger] all[i] == shorter[i] by {
            assert(longer[i] == shorter[i]);
        }
    }
}

proof fn lemma_placed_at(
    source: MediaInfo,
    order: Seq<u64>,
    chosen: Seq<TrackRef>,
    imports: Seq<SubtitleImport>,
    sidecars: Seq<SidecarEntry>,
    track: OutputTrack,
)
    ensures
        placed(source, order, chosen, imports, sidecars).contains(track) ==> exists|i: int|
            0 <= i < chosen.len() && chosen_track(
                source,
                order,
                #[trigger] chosen[i],
                imports,
                sidecars,
            ) == Some(track),
    decreases chosen.len(),
{
    if chosen.len() > 0 {
        let shorter = chosen.drop_last();
        lemma_placed_at(source, order, shorter, imports, sidecars, track);
        let before = placed(source, order, shorter, imports, sidecars);
        let all = placed(source, order, chosen, imports, sidecars);
        if all.contains(track) {
            let k = choose|k: int| 0 <= k < all.len() && all[k] == track;
            if k < before.len() {
                assert(before[k] == track);
                let i = choose|i: int|
                    0 <= i < shorter.len() && chosen_track(
                        source,
                        order,
                        #[trigger] shorter[i],
                        imports,
                        sidecars,
                    ) == Some(track);
                assert(chosen[i] == shorter[i]);
            } else {
                assert(chosen_track(
                    source,
                    order,
                    chosen[chosen.len() - 1],
                    imports,
                    sidecars,
                ) == Some(track));
            }
        }
    }
}

proof fn lemma_placed_as_chosen(
    source: MediaInfo,
    order: Seq<u64>,
    chosen: Seq<TrackRef>,
    imports: Seq<SubtitleImport>,
    sidecars: Seq<SidecarEntry>,
    one: int,
    other: int,
    first: OutputTrack,
    second: OutputTrack,
) -> (result: (int, int))
    requires
        0 <= one < other < chosen.len(),
        chosen_track(source, order, chosen[one], imports, sidecars) == Some(first),
        chosen_track(source, order, chosen[other], imports, sidecars) == Some(second),
        forall|k: int|
            0 <= k < other ==> chosen_track(
                source,
                order,
                #[trigger] chosen[k],
                imports,
                sidecars,
            ) != Some(second),
    ensures
        0 <= result.0 < result.1 < placed(source, order, chosen, imports, sidecars).len(),
        placed(source, order, chosen, imports, sidecars)[result.0] == first,
        placed(source, order, chosen, imports, sidecars)[result.1] == second,
{
    let all = placed(source, order, chosen, imports, sidecars);
    let upto = placed(source, order, chosen.take(other), imports, sidecars);
    let with = placed(source, order, chosen.take(other + 1), imports, sidecars);
    let early = placed(source, order, chosen.take(one), imports, sidecars);
    let soon = placed(source, order, chosen.take(one + 1), imports, sidecars);
    assert(chosen.take(other + 1).drop_last() =~= chosen.take(other));
    assert(chosen.take(one + 1).drop_last() =~= chosen.take(one));
    assert(chosen.take(one + 1).last() == chosen[one]);
    assert(chosen.take(other + 1).last() == chosen[other]);
    assert(soon.contains(first)) by {
        if soon.len() > early.len() {
            assert(soon[soon.len() - 1] == first);
        } else {
            assert(early.contains(first));
        }
    }
    let p = choose|p: int| 0 <= p < soon.len() && soon[p] == first;
    lemma_placed_prefix(source, order, chosen.take(other), imports, sidecars, one + 1);
    assert(chosen.take(other).take(one + 1) =~= chosen.take(one + 1));
    assert(upto[p] == first);
    lemma_placed_at(source, order, chosen.take(other), imports, sidecars, second);
    if upto.contains(second) {
        let i = choose|i: int|
            0 <= i < chosen.take(other).len() && chosen_track(
                source,
                order,
                #[trigger] chosen.take(other)[i],
                imports,
                sidecars,
            ) == Some(second);
        assert(chosen[i] == chosen.take(other)[i]);
        assert(false);
    }
    assert(with == upto.push(second));
    lemma_placed_prefix(source, order, chosen, imports, sidecars, other);
    lemma_placed_prefix(source, order, chosen, imports, sidecars, other + 1);
    let q = upto.len() as int;
    assert(with[q] == second);
    assert(all[p] == upto[p] && all[q] == with[q]);
    (p, q)
}

/// Subtitles are written in the order in which they were chosen.
pub proof fn subtitles_are_written_as_chosen(
    source: MediaInfo,
    order: Seq<u64>,
    chosen: Seq<TrackRef>,
    imports: Seq<SubtitleImport>,
    sidecars: Seq<SidecarEntry>,
    one: int,
    other: int,
    first: OutputTrack,
    second: OutputTrack,
)
    requires
        0 <= one < other < chosen.len(),
        chosen_track(source, written_order(source, order), chosen[one], imports, sidecars) == Some(
            first,
        ),
        chosen_track(source, written_order(source, order), chosen[other], imports, sidecars)
            == Some(second),
        forall|k: int|
            0 <= k < other ==> chosen_track(
                source,
                written_order(source, order),
                #[trigger] chosen[k],
                imports,
                sidecars,
            ) != Some(second),
    ensures
        exists|p: int, q: int|
            0 <= p < q < track_plan(source, order, chosen, imports, sidecars).len()
                && #[trigger] track_plan(source, order, chosen, imports, sidecars)[p] == first
                && #[trigger] track_plan(source, order, chosen, imports, sidecars)[q] == second,
{
    let written = written_order(source, order);
    let (p, q) = lemma_placed_as_chosen(
        source,
        written,
        chosen,
        imports,
        sidecars,
        one,
        other,
        first,
        second,
    );
    let all = placed(source, written, chosen, imports, sidecars);
    let before = playing(source, written);
    let plan = track_plan(source, order, chosen, imports, sidecars);
    let left = left_subtitles(source, written, all);
    let rest = left_imports(imports.len(), all);
    let others = extras(source, written);
    assert(plan == before + all + left + rest + others);
    lemma_second_part(before, all, left, rest, others, p);
    lemma_second_part(before, all, left, rest, others, q);
    assert(plan[before.len() + p] == first);
    assert(plan[before.len() + q] == second);
}

proof fn lemma_second_part(
    a: Seq<OutputTrack>,
    b: Seq<OutputTrack>,
    c: Seq<OutputTrack>,
    d: Seq<OutputTrack>,
    e: Seq<OutputTrack>,
    i: int,
)
    requires
        0 <= i < b.len(),
    ensures
        (a + b + c + d + e).len() >= a.len() + b.len(),
        (a + b + c + d + e)[a.len() + i] == b[i],
{
}

/// Where nothing was chosen, the imports stand together behind the last subtitle of the
/// source or, where it has none, behind the tracks that play; everything else keeps the
/// order that was asked for.
pub proof fn imports_stand_behind_the_subtitles(
    source: MediaInfo,
    order: Seq<u64>,
    imports: Seq<SubtitleImport>,
    sidecars: Seq<SidecarEntry>,
)
    ensures
        exists|at: int|
            0 <= at <= written_order(source, order).len() && #[trigger] imports_at(
                source,
                written_order(source, order),
                at,
            ) && track_plan(source, order, Seq::empty(), imports, sidecars) == existing(
                written_order(source, order).take(at),
            ) + Seq::new(imports.len(), |i: int| OutputTrack::Imported(i as usize)) + existing(
                written_order(source, order).skip(at),
            ),
{
    let written = written_order(source, order);
    lemma_import_position(source, written);
    lemma_after_last_subtitle(source, written);
    lemma_before_first_other(source, written);
    assert(imports_at(source, written, import_position(source, written)));
}

/// Whether a position of an order is right behind its last subtitle or, where it has none,
/// right before the first track that does not play.
pub open spec fn imports_at(source: MediaInfo, order: Seq<u64>, at: int) -> bool {
    &&& forall|i: int|
        at <= i < order.len() ==> !track_is(source, #[trigger] order[i], "subtitle"@)
    &&& (exists|i: int|
        0 <= i < order.len() && track_is(source, #[trigger] order[i], "subtitle"@)) ==> at > 0
        && track_is(source, order[at - 1], "subtitle"@)
    &&& (forall|i: int|
        0 <= i < order.len() ==> !track_is(source, #[trigger] order[i], "subtitle"@)) ==> (forall|
        i: int,
    |
        0 <= i < at ==> !does_not_play(source, #[trigger] order[i])) && (at < order.len()
        ==> does_not_play(source, order[at]))
}

proof fn lemma_after_last_subtitle(source: MediaInfo, order: Seq<u64>)
    ensures
        match after_subtitles(source, order) {
            Some(at) => 0 < at <= order.len() && track_is(source, order[at - 1], "subtitle"@)
                && forall|i: int|
                at <= i < order.len() ==> !track_is(source, #[trigger] order[i], "subtitle"@),
            None => forall|i: int|
                0 <= i < order.len() ==> !track_is(source, #[trigger] order[i], "subtitle"@),
        },
    decreases order.len(),
{
    if order.len() > 0 {
        let shorter = order.drop_last();
        lemma_after_last_subtitle(source, shorter);
        assert(forall|i: int| 0 <= i < shorter.len() ==> #[trigger] shorter[i] == order[i]);
        assert forall|i: int| 0 <= i < order.len() - 1 implies #[trigger] order[i]
            == shorter[i] by {}
        assert(order[order.len() - 1] == order.last());
    }
}

proof fn lemma_before_first_other(source: MediaInfo, order: Seq<u64>)
    ensures
        0 <= after_playing(source, order) <= order.len(),
        forall|i: int|
            0 <= i < after_playing(source, order) ==> !does_not_play(source, #[trigger] order[i]),
        after_playing(source, order) < order.len() ==> does_not_play(
            source,
            order[after_playing(source, order)],
        ),
    decreases order.len(),
{
    if order.len() > 0 && !does_not_play(source, order[0]) {
        let rest = order.skip(1);
        lemma_before_first_other(source, rest);
        assert forall|i: int| 1 <= i < order.len() implies #[trigger] order[i] == rest[i - 1] by {}
    }
}

/// The tracks that are written are those of the order, in that order, without the chapter
/// track that the muxer makes anew.
pub proof fn written_tracks_are_all_but_chapters(source: MediaInfo, order: Seq<u64>)
    ensures
        written_order(source, order) == order.filter(
            |index: u64|
                !(stream_at(source.streams@, index) is Some && is_chapters(
                    source,
                    stream_at(source.streams@, index)->0,
                )),
        ),
    decreases order.len(),
{
    reveal(Seq::filter);
    if order.len() > 0 {
        written_tracks_are_all_but_chapters(source, order.drop_last());
    }
}

/// The default flags that a muxer sets on its own: in MP4 and MOV, that of the first track
/// of a kind of which none was asked to be default.
pub proof fn muxers_force_the_first_default(
    output: MediaInfo,
    expected: Seq<bool>,
    container: Option<ContainerFormat>,
    position: int,
)
    ensures
        forced_defaults(output, expected, container, position) ==> container == Some(
            ContainerFormat::Mp4,
        ) || container == Some(ContainerFormat::Mov),
        forced_defaults(output, expected, container, position) && 0 <= position < expected.len()
            ==> !expected[position],
        ({
            let streams = written_streams(output, output.streams@);
            &&& forced_defaults(output, expected, container, position) ==> 0 <= position
                < streams.len() && (forall|i: int|
                0 <= i < position ==> kind_of(#[trigger] streams[i]) != kind_of(streams[position]))
            &&& forall|other: int|
                forced_defaults(output, expected, container, position) && 0 <= other < streams.len()
                    && kind_of(#[trigger] streams[other]) == kind_of(streams[position]) && other
                    < expected.len() ==> !expected[other]
            &&& container == Some(ContainerFormat::Mp4) && 0 <= position < streams.len() && kind_of(
                streams[position],
            ) is Some && (forall|i: int|
                0 <= i < position ==> kind_of(#[trigger] streams[i]) != kind_of(streams[position]))
                && (forall|i: int| 0 <= i < expected.len() ==> !#[trigger] expected[i])
                ==> forced_defaults(output, expected, container, position)
        }),
{
    let streams = written_streams(output, output.streams@);
    if forced_defaults(output, expected, container, position) {
        assert(kind_of(streams[position]) == kind_of(streams[position]));
        assert(!default_asked(expected, position));
        assert forall|other: int| 0 <= other < streams.len() && kind_of(#[trigger] streams[other])
            == kind_of(streams[position]) && other < expected.len() implies !expected[other] by {
            assert(!default_asked(expected, other));
        }
    }
    if container == Some(ContainerFormat::Mp4) && 0 <= position < streams.len() && kind_of(
        streams[position],
    ) is Some && (forall|i: int|
        0 <= i < position ==> kind_of(#[trigger] streams[i]) != kind_of(streams[position])) && (
    forall|i: int| 0 <= i < expected.len() ==> !#[trigger] expected[i]) {
        assert forall|other: int| 0 <= other < streams.len() && kind_of(#[trigger] streams[other])
            == kind_of(streams[position]) implies !default_asked(expected, other) by {
            if other < expected.len() {
                assert(!expected[other]);
            }
        }
    }
}

} // verus!
