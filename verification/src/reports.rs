//! What an edit tells of itself while it is carried out, and in which order.

use vstd::prelude::*;

use crate::progress::{EditPhase, EditResult, Phase};
use crate::sources::EditError;

verus! {

/// A moment of an edit at which it may have something to tell.
#[derive(Debug, Eq, PartialEq)]
pub enum Moment {
    /// The edit begins.
    Begun,
    /// The source was read.
    SourceRead,
    /// Nothing stands against the edit.
    ChangesAccepted,
    /// A step of the work begins, or goes on.
    Working(EditPhase),
    /// The subtitles are prepared, and the media stays as it is.
    SubtitlesReady,
    /// The subtitles are prepared, and the media is written next.
    MediaPlanned(String),
    /// The media was written.
    MediaWritten,
    /// The written media is what was asked for.
    OutputAccepted,
    /// The sources are still what they were.
    SourcesUnchanged,
    /// The written media has the permissions of the source.
    PermissionsKept,
    /// The files are given their names.
    NamesSought,
    /// The files have their names.
    NamesSettled,
    /// A file could not be put in place.
    MoveFailed,
    /// Everything is back where it was.
    RolledBack { interrupted: bool },
    /// Every file is in place.
    EverythingInPlace,
    /// The edit was cancelled between two steps.
    StepCancelled,
    /// The edit was cancelled while a tool runs.
    ToolStopping,
    /// The tool of a cancelled edit has stopped.
    ToolStopped,
    /// The work is over: whether the edit was saved, and whether work files are left to
    /// remove.
    Closing { saved: bool, left_behind: bool },
    /// The edit is over, and nothing is left of it but what was saved.
    Ended { saved: bool },
}

/// One phase, or none.
pub open spec fn only_if(condition: bool, phase: Phase) -> Seq<Phase> {
    if condition {
        seq![phase]
    } else {
        Seq::empty()
    }
}

impl Moment {
    /// What is told at a moment.
    pub open spec fn told(self) -> Seq<Phase> {
        match self {
            Moment::Begun => seq![Phase::InspectSource],
            Moment::SourceRead => seq![Phase::ValidateChanges],
            Moment::ChangesAccepted => seq![Phase::CreateWorkspace],
            Moment::Working(phase) => seq![phase@],
            Moment::SubtitlesReady => seq![Phase::RecheckSources],
            Moment::MediaPlanned(operation) => seq![Phase::WriteMedia(operation@)],
            Moment::MediaWritten => seq![Phase::ValidateOutput],
            Moment::OutputAccepted => seq![Phase::RecheckSources],
            Moment::SourcesUnchanged => seq![Phase::PreservePermissions],
            Moment::PermissionsKept => seq![Phase::PreparePublication],
            Moment::NamesSought => seq![Phase::ResolveNames],
            Moment::NamesSettled => seq![Phase::PreparePublication],
            Moment::MoveFailed => seq![Phase::Rollback],
            Moment::RolledBack { interrupted } => only_if(interrupted, Phase::Cleanup),
            Moment::EverythingInPlace => seq![Phase::RemoveBackups],
            Moment::StepCancelled => seq![Phase::Cleanup],
            Moment::ToolStopping => seq![Phase::StopTools],
            Moment::ToolStopped => seq![Phase::Cleanup],
            Moment::Closing { left_behind, .. } => only_if(left_behind, Phase::Cleanup),
            Moment::Ended { saved } => only_if(saved, Phase::Finished),
        }
    }
}

/// Some phases as their models.
pub open spec fn phases(list: Seq<EditPhase>) -> Seq<Phase> {
    list.map_values(|phase: EditPhase| phase@)
}

fn push_if(list: &mut Vec<EditPhase>, condition: bool, phase: EditPhase)
    ensures
        phases(final(list)@) == phases(old(list)@) + only_if(condition, phase@),
{
    if condition {
        list.push(phase);
    }
    assert(phases(list@) =~= phases(old(list)@) + only_if(condition, phase@));
}

/// What to tell at a moment.
pub fn narrate(moment: &Moment) -> (result: Vec<EditPhase>)
    ensures
        phases(result@) == moment.told(),
{
    let mut list: Vec<EditPhase> = Vec::new();
    match moment {
        Moment::Begun => list.push(EditPhase::InspectSource),
        Moment::SourceRead => list.push(EditPhase::ValidateChanges),
        Moment::ChangesAccepted => list.push(EditPhase::CreateWorkspace),
        Moment::Working(phase) => list.push(phase.clone()),
        Moment::SubtitlesReady => list.push(EditPhase::RecheckSources),
        Moment::MediaPlanned(operation) => list.push(
            EditPhase::WriteMedia(operation.as_str().to_owned()),
        ),
        Moment::MediaWritten => list.push(EditPhase::ValidateOutput),
        Moment::OutputAccepted => list.push(EditPhase::RecheckSources),
        Moment::SourcesUnchanged => list.push(EditPhase::PreservePermissions),
        Moment::PermissionsKept => list.push(EditPhase::PreparePublication),
        Moment::NamesSought => list.push(EditPhase::ResolveNames),
        Moment::NamesSettled => list.push(EditPhase::PreparePublication),
        Moment::MoveFailed => list.push(EditPhase::Rollback),
        Moment::RolledBack { interrupted } => push_if(&mut list, *interrupted, EditPhase::Cleanup),
        Moment::EverythingInPlace => list.push(EditPhase::RemoveBackups),
        Moment::StepCancelled => list.push(EditPhase::Cleanup),
        Moment::ToolStopping => list.push(EditPhase::StopTools),
        Moment::ToolStopped => list.push(EditPhase::Cleanup),
        Moment::Closing { left_behind, .. } => {
            push_if(&mut list, *left_behind, EditPhase::Cleanup);
        },
        Moment::Ended { saved } => push_if(&mut list, *saved, EditPhase::Finished),
    }
    assert(phases(list@) =~= moment.told());
    list
}

/// The end of the work of an edit, by what it came to.
pub fn closing(outcome: &Result<EditResult, EditError>, left_behind: bool) -> (result: Moment)
    ensures
        result == (Moment::Closing { saved: outcome is Ok, left_behind }),
{
    Moment::Closing { saved: outcome.is_ok(), left_behind }
}

/// The end of an edit, by what it came to.
pub fn ended(outcome: &Result<EditResult, EditError>) -> (result: Moment)
    ensures
        result == (Moment::Ended { saved: outcome is Ok }),
{
    Moment::Ended { saved: outcome.is_ok() }
}

// The order of the moments.

impl Moment {
    /// Whether a moment can come next, by the last one at which the edit reached a new stage.
    pub open spec fn may_come(self, stage: Option<Moment>) -> bool {
        match self {
            Moment::Begun => stage is None,
            Moment::SourceRead => stage == Some(Moment::Begun),
            Moment::ChangesAccepted => stage == Some(Moment::SourceRead),
            Moment::Working(phase) => match stage {
                Some(Moment::ChangesAccepted) => phase@.of_subtitle(),
                Some(Moment::MediaPlanned(operation)) => phase@ == Phase::WriteMedia(operation@),
                Some(Moment::NamesSettled) => phase@.of_move(),
                _ => false,
            },
            Moment::SubtitlesReady => stage == Some(Moment::ChangesAccepted),
            Moment::MediaPlanned(_) => stage == Some(Moment::ChangesAccepted),
            Moment::MediaWritten => stage matches Some(Moment::MediaPlanned(_)),
            Moment::OutputAccepted => stage == Some(Moment::MediaWritten),
            Moment::SourcesUnchanged => stage == Some(Moment::OutputAccepted),
            Moment::PermissionsKept => stage == Some(Moment::SourcesUnchanged),
            Moment::NamesSought => stage == Some(Moment::SubtitlesReady) || stage == Some(
                Moment::PermissionsKept,
            ),
            Moment::NamesSettled => stage == Some(Moment::NamesSought),
            Moment::MoveFailed => stage == Some(Moment::NamesSettled),
            Moment::RolledBack { .. } => stage == Some(Moment::MoveFailed),
            Moment::EverythingInPlace => stage == Some(Moment::NamesSettled),
            Moment::StepCancelled => {
                ||| stage == Some(Moment::ChangesAccepted)
                ||| stage == Some(Moment::MediaWritten)
                ||| stage == Some(Moment::NamesSettled)
            },
            Moment::ToolStopping => {
                ||| stage == Some(Moment::ChangesAccepted)
                ||| stage matches Some(Moment::MediaPlanned(_))
            },
            Moment::ToolStopped => {
                ||| stage == Some(Moment::ToolStopping)
                ||| stage matches Some(Moment::MediaPlanned(_))
            },
            Moment::Closing { saved, .. } => match stage {
                None => false,
                Some(Moment::Closing { .. }) => false,
                Some(Moment::Ended { .. }) => false,
                Some(moment) => saved == (moment == Moment::EverythingInPlace),
            },
            Moment::Ended { saved } => match stage {
                Some(Moment::Closing { saved: in_place, .. }) => saved == in_place,
                _ => false,
            },
        }
    }
}

/// The moments at which an edit reached a new stage, without the work in between.
pub open spec fn stages(run: Seq<Moment>) -> Seq<Moment>
    decreases run.len(),
{
    if run.len() == 0 {
        Seq::empty()
    } else if run.last() is Working {
        stages(run.drop_last())
    } else {
        stages(run.drop_last()).push(run.last())
    }
}

/// The last stage that an edit reached.
pub open spec fn stage(run: Seq<Moment>) -> Option<Moment> {
    if stages(run).len() == 0 {
        None
    } else {
        Some(stages(run).last())
    }
}

/// Whether the moments of an edit come in an order that an edit can take.
pub open spec fn in_order(run: Seq<Moment>) -> bool
    decreases run.len(),
{
    run.len() == 0 || (in_order(run.drop_last()) && run.last().may_come(stage(run.drop_last())))
}

/// Everything that an edit told.
pub open spec fn all_told(run: Seq<Moment>) -> Seq<Phase>
    decreases run.len(),
{
    if run.len() == 0 {
        Seq::empty()
    } else {
        all_told(run.drop_last()) + run.last().told()
    }
}

/// The stages of an edit that leaves the media as it is, up to the files in place.
pub open spec fn subtitle_stages() -> Seq<Moment> {
    seq![
        Moment::Begun,
        Moment::SourceRead,
        Moment::ChangesAccepted,
        Moment::SubtitlesReady,
        Moment::NamesSought,
        Moment::NamesSettled,
        Moment::EverythingInPlace,
    ]
}

/// The stages of an edit that writes the media, up to the files in place.
pub open spec fn media_stages(operation: String) -> Seq<Moment> {
    seq![
        Moment::Begun,
        Moment::SourceRead,
        Moment::ChangesAccepted,
        Moment::MediaPlanned(operation),
        Moment::MediaWritten,
        Moment::OutputAccepted,
        Moment::SourcesUnchanged,
        Moment::PermissionsKept,
        Moment::NamesSought,
        Moment::NamesSettled,
        Moment::EverythingInPlace,
    ]
}

/// Whether the stages are those of an edit that was saved, up to the end of the work.
pub open spec fn saved_stages(list: Seq<Moment>, left_behind: bool) -> bool {
    let closing = Moment::Closing { saved: true, left_behind };
    list == subtitle_stages().push(closing) || exists|operation: String|
        list == (#[trigger] media_stages(operation)).push(closing)
}

// Laws.

/// An edit tells first that it looks at the source, and never again. It tells last that it
/// is finished, exactly where it was saved, and never before.
pub proof fn edits_begin_and_end_in_words(run: Seq<Moment>)
    requires
        in_order(run),
        run.len() > 0,
        run.last() is Ended,
    ensures
        all_told(run).len() > 0,
        all_told(run)[0] == Phase::InspectSource,
        forall|i: int|
            0 < i < all_told(run).len() ==> (#[trigger] all_told(run)[i]) != Phase::InspectSource,
        (all_told(run).last() == Phase::Finished) == (run.last() matches Moment::Ended { saved }
            && saved),
        forall|i: int|
            0 <= i < all_told(run).len() - 1 ==> (#[trigger] all_told(run)[i]) != Phase::Finished,
{
    let before = run.drop_last();
    lemma_middle(before);
    lemma_open_run(before);
    let told = all_told(before);
    let end = run.last().told();
    assert forall|i: int| 0 < i < all_told(run).len() implies (#[trigger] all_told(run)[i])
        != Phase::InspectSource by {
        if i >= told.len() {
            assert(all_told(run)[i] == end[i - told.len()]);
        }
    }
    assert forall|i: int| 0 <= i < all_told(run).len() - 1 implies (#[trigger] all_told(run)[i])
        != Phase::Finished by {
        if i >= told.len() {
            assert(all_told(run)[i] == end[i - told.len()]);
        }
    }
    if end.len() == 0 {
        assert(all_told(run) =~= told);
    } else {
        assert(all_told(run).last() == end.last());
    }
}

/// A run whose last stage is not the end holds no end.
proof fn lemma_open_run(run: Seq<Moment>)
    requires
        in_order(run),
        stage(run) is Some,
        !(stage(run)->0 is Ended),
    ensures
        forall|i: int| 0 <= i < run.len() ==> !((#[trigger] run[i]) is Ended),
    decreases run.len(),
{
    if run.len() > 0 {
        let before = run.drop_last();
        if stage(before) is Some && !(stage(before)->0 is Ended) {
            lemma_open_run(before);
            assert forall|i: int| 0 <= i < run.len() implies !((#[trigger] run[i]) is Ended) by {
                if i < before.len() {
                    assert(before[i] == run[i]);
                }
            }
        } else {
            lemma_empty_start(before);
        }
    }
}

/// Without a stage nothing happened.
proof fn lemma_empty_start(run: Seq<Moment>)
    requires
        in_order(run),
    ensures
        stage(run) is None ==> run.len() == 0,
    decreases run.len(),
{
    if run.len() > 0 {
        lemma_empty_start(run.drop_last());
    }
}

/// What is told before the end.
proof fn lemma_middle(run: Seq<Moment>)
    requires
        in_order(run),
        stage(run) is Some,
        !(stage(run)->0 is Ended),
    ensures
        all_told(run).len() > 0,
        all_told(run)[0] == Phase::InspectSource,
        forall|i: int|
            0 < i < all_told(run).len() ==> (#[trigger] all_told(run)[i]) != Phase::InspectSource,
        forall|i: int|
            0 <= i < all_told(run).len() ==> (#[trigger] all_told(run)[i]) != Phase::Finished,
    decreases run.len(),
{
    let before = run.drop_last();
    let told = all_told(before);
    let more = run.last().told();
    if stage(before) is None {
        lemma_empty_start(before);
        assert(all_told(run) =~= more);
    } else {
        lemma_middle(before);
        assert forall|i: int| 0 <= i < all_told(run).len() implies (#[trigger] all_told(run)[i])
            != Phase::Finished && (i > 0 ==> all_told(run)[i] != Phase::InspectSource) by {
            if i >= told.len() {
                assert(all_told(run)[i] == more[i - told.len()]);
            }
        }
    }
}

/// An edit that is saved passed every stage, in order.
pub proof fn saved_edits_pass_every_stage(run: Seq<Moment>)
    requires
        in_order(run),
        run.len() > 0,
        run.last() matches Moment::Ended { saved } && saved,
    ensures
        exists|left_behind: bool| #[trigger]
            saved_stages(stages(run).drop_last(), left_behind),
        stages(run).last() == run.last(),
{
    let before = run.drop_last();
    lemma_stages(before);
    assert(stages(run).drop_last() =~= stages(before));
}

/// Which stages lie before each of those of an edit that goes well.
proof fn lemma_stages(run: Seq<Moment>)
    requires
        in_order(run),
    ensures
        match stage(run) {
            None => stages(run).len() == 0,
            Some(Moment::Begun) => stages(run) == subtitle_stages().take(1),
            Some(Moment::SourceRead) => stages(run) == subtitle_stages().take(2),
            Some(Moment::ChangesAccepted) => stages(run) == subtitle_stages().take(3),
            Some(Moment::SubtitlesReady) => stages(run) == subtitle_stages().take(4),
            Some(Moment::MediaPlanned(_)) => passed(run, 4),
            Some(Moment::MediaWritten) => passed(run, 5),
            Some(Moment::OutputAccepted) => passed(run, 6),
            Some(Moment::SourcesUnchanged) => passed(run, 7),
            Some(Moment::PermissionsKept) => passed(run, 8),
            Some(Moment::NamesSought) => stages(run) == subtitle_stages().take(5) || passed(run, 9),
            Some(Moment::NamesSettled) => stages(run) == subtitle_stages().take(6) || passed(run, 10),
            Some(Moment::EverythingInPlace) => stages(run) == subtitle_stages() || passed(run, 11),
            Some(Moment::Closing { saved: true, left_behind }) => saved_stages(
                stages(run),
                left_behind,
            ),
            _ => true,
        },
    decreases run.len(),
{
    if run.len() > 0 {
        let before = run.drop_last();
        lemma_stages(before);
        let all = subtitle_stages();
        match run.last() {
            Moment::Begun => assert(stages(run) =~= all.take(1)),
            Moment::SourceRead => assert(stages(run) =~= all.take(2)),
            Moment::ChangesAccepted => assert(stages(run) =~= all.take(3)),
            Moment::SubtitlesReady => assert(stages(run) =~= all.take(4)),
            Moment::MediaPlanned(operation) => {
                assert(stages(run) =~= media_stages(operation).take(4));
            },
            Moment::MediaWritten => lemma_passed(run, 4),
            Moment::OutputAccepted => lemma_passed(run, 5),
            Moment::SourcesUnchanged => lemma_passed(run, 6),
            Moment::PermissionsKept => lemma_passed(run, 7),
            Moment::NamesSought => {
                if stage(before) == Some(Moment::SubtitlesReady) {
                    assert(stages(run) =~= all.take(5));
                } else {
                    lemma_passed(run, 8);
                }
            },
            Moment::NamesSettled => {
                if stages(before) == all.take(5) {
                    assert(stages(run) =~= all.take(6));
                } else {
                    lemma_passed(run, 9);
                }
            },
            Moment::EverythingInPlace => {
                if stages(before) == all.take(6) {
                    assert(stages(run) =~= all);
                } else {
                    lemma_passed(run, 10);
                }
            },
            Moment::Closing { saved: true, left_behind } => {
                if passed(before, 11) {
                    let operation = choose|operation: String|
                        stages(before) == (#[trigger] media_stages(operation)).take(11);
                    assert(stages(run) =~= media_stages(operation).push(run.last()));
                }
            },
            _ => {},
        }
    }
}

/// One stage more lies behind.
proof fn lemma_passed(run: Seq<Moment>, count: int)
    requires
        run.len() > 0,
        !(run.last() is Working),
        4 <= count < 11,
        passed(run.drop_last(), count),
        forall|operation: String| (#[trigger] media_stages(operation))[count] == run.last(),
    ensures
        passed(run, count + 1),
{
    let operation = choose|operation: String|
        stages(run.drop_last()) == (#[trigger] media_stages(operation)).take(count);
    assert(media_stages(operation)[count] == run.last());
    assert(stages(run) =~= media_stages(operation).take(count + 1));
}

/// Whether the first stages of an edit that writes the media lie behind.
spec fn passed(run: Seq<Moment>, count: int) -> bool {
    exists|operation: String| stages(run) == (#[trigger] media_stages(operation)).take(count)
}

/// What is told at each turn of an edit.
pub proof fn every_turn_is_told(phase: EditPhase, operation: String, saved: bool)
    ensures
        Moment::Begun.told() == seq![Phase::InspectSource],
        Moment::SourceRead.told() == seq![Phase::ValidateChanges],
        Moment::ChangesAccepted.told() == seq![Phase::CreateWorkspace],
        Moment::Working(phase).told() == seq![phase@],
        Moment::SubtitlesReady.told() == seq![Phase::RecheckSources],
        Moment::MediaPlanned(operation).told() == seq![Phase::WriteMedia(operation@)],
        Moment::MediaWritten.told() == seq![Phase::ValidateOutput],
        Moment::OutputAccepted.told() == seq![Phase::RecheckSources],
        Moment::SourcesUnchanged.told() == seq![Phase::PreservePermissions],
        Moment::PermissionsKept.told() == seq![Phase::PreparePublication],
        Moment::NamesSought.told() == seq![Phase::ResolveNames],
        Moment::NamesSettled.told() == seq![Phase::PreparePublication],
        Moment::MoveFailed.told() == seq![Phase::Rollback],
        (Moment::RolledBack { interrupted: true }).told() == seq![Phase::Cleanup],
        (Moment::RolledBack { interrupted: false }).told().len() == 0,
        Moment::EverythingInPlace.told() == seq![Phase::RemoveBackups],
        Moment::StepCancelled.told() == seq![Phase::Cleanup],
        Moment::ToolStopping.told() == seq![Phase::StopTools],
        Moment::ToolStopped.told() == seq![Phase::Cleanup],
        (Moment::Closing { saved, left_behind: true }).told() == seq![Phase::Cleanup],
        (Moment::Closing { saved, left_behind: false }).told().len() == 0,
        (Moment::Ended { saved: true }).told() == seq![Phase::Finished],
        (Moment::Ended { saved: false }).told().len() == 0,
{
}

/// An edit can be cancelled while subtitles are prepared, once the media is written and
/// while files are moved, and a tool can be stopped wherever one runs; what was cancelled
/// or failed is not saved.
pub proof fn cancelled_edits_are_not_saved(
    stage: Option<Moment>,
    operation: String,
    left_behind: bool,
    saved: bool,
)
    ensures
        Moment::StepCancelled.may_come(Some(Moment::ChangesAccepted)),
        Moment::StepCancelled.may_come(Some(Moment::MediaWritten)),
        Moment::StepCancelled.may_come(Some(Moment::NamesSettled)),
        Moment::ToolStopping.may_come(Some(Moment::ChangesAccepted)),
        Moment::ToolStopping.may_come(Some(Moment::MediaPlanned(operation))),
        Moment::ToolStopped.may_come(Some(Moment::ToolStopping)),
        !Moment::StepCancelled.may_come(Some(Moment::EverythingInPlace)),
        !Moment::StepCancelled.may_come(Some(Moment::Ended { saved })),
        !Moment::ToolStopping.may_come(Some(Moment::NamesSettled)),
        (Moment::Closing { saved: true, left_behind }).may_come(stage) <==> stage == Some(
            Moment::EverythingInPlace,
        ),
        (Moment::Closing { saved: false, left_behind }).may_come(Some(Moment::StepCancelled)),
        (Moment::Closing { saved: false, left_behind }).may_come(Some(Moment::ToolStopped)),
        (Moment::Closing { saved: false, left_behind }).may_come(Some(Moment::MoveFailed)),
        !(Moment::Closing { saved: false, left_behind }).may_come(None),
        Moment::MoveFailed.may_come(stage) <==> stage == Some(Moment::NamesSettled),
        Moment::EverythingInPlace.may_come(stage) <==> stage == Some(Moment::NamesSettled),
{
}

/// After what each turn of an edit may come.
pub proof fn turns_follow_one_another(
    stage: Option<Moment>,
    phase: EditPhase,
    operation: String,
    interrupted: bool,
    saved: bool,
)
    ensures
        Moment::Begun.may_come(stage) <==> stage is None,
        Moment::SourceRead.may_come(stage) <==> stage == Some(Moment::Begun),
        Moment::ChangesAccepted.may_come(stage) <==> stage == Some(Moment::SourceRead),
        Moment::SubtitlesReady.may_come(stage) <==> stage == Some(Moment::ChangesAccepted),
        Moment::MediaPlanned(operation).may_come(stage) <==> stage == Some(
            Moment::ChangesAccepted,
        ),
        Moment::MediaWritten.may_come(stage) <==> stage is Some && stage->0 is MediaPlanned,
        Moment::OutputAccepted.may_come(stage) <==> stage == Some(Moment::MediaWritten),
        Moment::SourcesUnchanged.may_come(stage) <==> stage == Some(Moment::OutputAccepted),
        Moment::PermissionsKept.may_come(stage) <==> stage == Some(Moment::SourcesUnchanged),
        Moment::NamesSought.may_come(stage) <==> stage == Some(Moment::SubtitlesReady) || stage
            == Some(Moment::PermissionsKept),
        Moment::NamesSettled.may_come(stage) <==> stage == Some(Moment::NamesSought),
        (Moment::RolledBack { interrupted }).may_come(stage) <==> stage == Some(Moment::MoveFailed),
        Moment::StepCancelled.may_come(stage) <==> stage == Some(Moment::ChangesAccepted) || stage
            == Some(Moment::MediaWritten) || stage == Some(Moment::NamesSettled),
        Moment::ToolStopping.may_come(stage) <==> stage == Some(Moment::ChangesAccepted) || (stage
            is Some && stage->0 is MediaPlanned),
        Moment::ToolStopped.may_come(stage) <==> stage == Some(Moment::ToolStopping) || (stage
            is Some && stage->0 is MediaPlanned),
        (Moment::Ended { saved }).may_come(stage) <==> (stage is Some && stage->0 is Closing
            && stage->0->Closing_saved == saved),
        Moment::Working(phase).may_come(Some(Moment::ChangesAccepted)) == phase@.of_subtitle(),
        Moment::Working(phase).may_come(Some(Moment::NamesSettled)) == (phase@ is BackupFile
            || phase@ is PublishFile),
        Moment::Working(phase).may_come(Some(Moment::MediaPlanned(operation))) == (phase@
            == Phase::WriteMedia(operation@)),
        Moment::Working(phase).may_come(stage) ==> stage is Some && (stage->0 is ChangesAccepted
            || stage->0 is NamesSettled || stage->0 is MediaPlanned),
{
}

} // verus!
