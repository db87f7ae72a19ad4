//! Putting finished files in place, all or none.

use vstd::prelude::*;
use vstd::string::StringExecFns;

use crate::path::{
    holds_path, in_directory, insert_path, inserted, lemma_inserted_once, lemma_places,
    names_tell_files_apart, opt_part, ordered, ordered_paths_are_the_same, paths, places, FilePath,
    Part, PathModel, PathText, Place,
};
use crate::progress::{display_file_name, shown_name, EditPhase, Phase};
use crate::publication::{copy_pairs, path_pairs, publications, Publication, PublicationModel};
use crate::sources::{EditError, ErrorModel};
use crate::text::{decimal, number_text, numbers_read_back};
use crate::validate::first_of;

verus! {

// What a transaction is made of.

/// A pair of borrowed paths.
pub open spec fn opt_pair(pair: Option<(&FilePath, &FilePath)>) -> Option<(PathModel, PathModel)> {
    match pair {
        Some(pair) => Some((pair.0@, pair.1@)),
        None => None,
    }
}

/// The path behind an optional reference.
pub open spec fn opt_ref(path: Option<&FilePath>) -> Option<PathModel> {
    match path {
        Some(path) => Some(path@),
        None => None,
    }
}

/// All staged files of some publications with their destinations, in order.
pub open spec fn all_staged(list: Seq<PublicationModel>) -> Seq<(PathModel, PathModel)>
    decreases list.len(),
{
    if list.len() == 0 {
        Seq::empty()
    } else {
        all_staged(list.drop_last()) + list.last().staged
    }
}

/// All files that go in exchange for some publications, in order.
pub open spec fn all_removed(list: Seq<PublicationModel>) -> Seq<PathModel>
    decreases list.len(),
{
    if list.len() == 0 {
        Seq::empty()
    } else {
        all_removed(list.drop_last()) + list.last().remove
    }
}

/// Everything that is moved into place: the media first.
pub open spec fn all_moves(
    media: Option<(PathModel, PathModel)>,
    list: Seq<PublicationModel>,
) -> Seq<(PathModel, PathModel)> {
    match media {
        Some(pair) => seq![pair] + all_staged(list),
        None => all_staged(list),
    }
}

/// The files that may be replaced, in order.
pub open spec fn old_paths(removed_media: Option<PathModel>, list: Seq<PublicationModel>) -> Seq<
    PathModel,
> {
    match removed_media {
        Some(path) => inserted(ordered(all_removed(list)), path),
        None => ordered(all_removed(list)),
    }
}

/// The directory that files are kept in while others take their place: that of the staged
/// media, or else of the first staged file.
pub open spec fn staging_directory(
    media: Option<(PathModel, PathModel)>,
    list: Seq<PublicationModel>,
) -> Option<Part> {
    match media {
        Some(pair) if pair.0.directory is Some => pair.0.directory,
        _ => if all_staged(list).len() > 0 {
            all_staged(list)[0].0.directory
        } else {
            None
        },
    }
}

/// Whether a file comes up as a destination among some moves.
pub open spec fn is_destination(moves: Seq<(Place, Place)>, place: Place) -> bool {
    exists|i: int| 0 <= i < moves.len() && (#[trigger] moves[i]).1 == place
}

/// The files that some pairs of paths mean.
pub open spec fn placed_pairs(pairs: Seq<(PathModel, PathModel)>) -> Seq<(Place, Place)> {
    pairs.map_values(|pair: (PathModel, PathModel)| (pair.0.place(), pair.1.place()))
}

/// What is wrong with one destination after those before it.
pub open spec fn destination_problem(
    earlier: Seq<(PathModel, PathModel)>,
    destination: PathModel,
    old: Seq<PathModel>,
    taken: Seq<Place>,
) -> Option<Seq<char>> {
    if is_destination(placed_pairs(earlier), destination.place()) {
        Some("Two subtitle outputs resolve to "@ + destination.shown() + "."@)
    } else if taken.contains(destination.place()) && !places(old).contains(destination.place()) {
        Some(destination.shown() + " already exists; no files were changed."@)
    } else {
        None
    }
}

/// The first problem of the destinations: two files to one, or a file that is there and is
/// not to be replaced.
pub open spec fn destinations_problem(
    moves: Seq<(PathModel, PathModel)>,
    old: Seq<PathModel>,
    taken: Seq<Place>,
) -> Option<Seq<char>>
    decreases moves.len(),
{
    if moves.len() == 0 {
        None
    } else {
        first_of(
            destinations_problem(moves.drop_last(), old, taken),
            destination_problem(moves.drop_last(), moves.last().1, old, taken),
        )
    }
}

/// The name a replaced file is kept under.
pub open spec fn backup_name(number: nat) -> Seq<char> {
    "transaction-backup-"@ + decimal(number)
}

/// The replaced files that are there, each with where it is kept.
pub open spec fn backups_of(old: Seq<PathModel>, directory: Part, taken: Seq<Place>) -> Seq<
    (PathModel, PathModel),
>
    decreases old.len(),
{
    if old.len() == 0 {
        Seq::empty()
    } else {
        let before = backups_of(old.drop_last(), directory, taken);
        if taken.contains(old.last().place()) {
            before.push(
                (
                    old.last(),
                    in_directory(directory, backup_name((old.len() - 1) as nat)),
                ),
            )
        } else {
            before
        }
    }
}

/// The moves of a transaction: first the replaced files out of the way, then the finished
/// files into place. The first `backed_up` and the first `published` of them are made.
#[derive(Debug, Eq, PartialEq)]
pub struct Transaction {
    pub backups: Vec<(FilePath, FilePath)>,
    pub moves: Vec<(FilePath, FilePath)>,
    pub backed_up: usize,
    pub published: usize,
}

/// What a [`Transaction`] holds: the moves between paths, or between the files that these
/// mean.
pub ghost struct Moves<P> {
    pub backups: Seq<(P, P)>,
    pub moves: Seq<(P, P)>,
    pub done: nat,
}

/// A transaction by its paths.
pub type TransactionModel = Moves<PathModel>;

impl View for Transaction {
    type V = TransactionModel;

    open spec fn view(&self) -> TransactionModel {
        TransactionModel {
            backups: path_pairs(self.backups@),
            moves: path_pairs(self.moves@),
            done: self.backed_up as nat + self.published as nat,
        }
    }
}

impl Transaction {
    /// Whether no more moves are made than there are, and nothing is published before
    /// everything is out of the way.
    pub open spec fn sound(self) -> bool {
        &&& self.backed_up <= self.backups@.len()
        &&& self.published <= self.moves@.len()
        &&& self.published > 0 ==> self.backed_up == self.backups@.len()
    }
}

impl<P> Moves<P> {
    /// Whether no more moves are made than there are.
    pub open spec fn valid(self) -> bool {
        self.done <= self.backups.len() + self.moves.len()
    }

    pub open spec fn finished(self) -> bool {
        self.done == self.backups.len() + self.moves.len()
    }
}

/// The transaction that carries out some publications, or why it is refused. Nothing is
/// touched before everything that can be refused is.
pub open spec fn prepared(
    media: Option<(PathModel, PathModel)>,
    removed_media: Option<PathModel>,
    list: Seq<PublicationModel>,
    taken: Seq<Place>,
    cancelled: bool,
) -> Result<TransactionModel, ErrorModel> {
    let moves = all_moves(media, list);
    let old = old_paths(removed_media, list);
    if cancelled {
        Err(ErrorModel::Cancelled)
    } else {
        match staging_directory(media, list) {
            None => Err(ErrorModel::Failed("No staging directory is available."@)),
            Some(directory) => match destinations_problem(moves, old, taken) {
                Some(problem) => Err(ErrorModel::Failed(problem)),
                None => Ok(
                    TransactionModel {
                        backups: backups_of(old, directory, taken),
                        moves,
                        done: 0,
                    },
                ),
            },
        }
    }
}

fn list_moves(media: Option<(&FilePath, &FilePath)>, list: &[Publication]) -> (result: Vec<
    (FilePath, FilePath),
>)
    ensures
        path_pairs(result@) == all_moves(opt_pair(media), publications(list@)),
{
    let ghost all = publications(list@);
    let mut result: Vec<(FilePath, FilePath)> = Vec::new();
    if let Some((staged, destination)) = media {
        result.push((staged.clone(), destination.clone()));
    }
    let ghost first = path_pairs(result@);
    let mut i: usize = 0;
    assert(first =~= all_moves(opt_pair(media), Seq::empty()));
    assert(all.take(0) =~= Seq::empty());
    while i < list.len()
        invariant
            0 <= i <= list.len(),
            all == publications(list@),
            path_pairs(result@) == all_moves(opt_pair(media), all.take(i as int)),
        decreases list.len() - i,
    {
        proof {
            assert(all.take(i + 1).drop_last() =~= all.take(i as int));
            assert(all.take(i + 1).last() == list@[i as int]@);
        }
        let ghost before = path_pairs(result@);
        let mut staged = copy_pairs(&list[i].staged);
        let ghost added = path_pairs(staged@);
        let ghost old_result = result@;
        let ghost old_staged = staged@;
        result.append(&mut staged);
        assert(path_pairs(result@) =~= path_pairs(old_result) + path_pairs(old_staged));
        assert(path_pairs(result@) =~= all_moves(opt_pair(media), all.take(i + 1)));
        i = i + 1;
    }
    assert(all.take(all.len() as int) =~= all);
    result
}

fn list_old(removed_media: Option<&FilePath>, list: &[Publication]) -> (result: Vec<FilePath>)
    ensures
        paths(result@) == old_paths(opt_ref(removed_media), publications(list@)),
{
    let ghost all = publications(list@);
    let mut result: Vec<FilePath> = Vec::new();
    let mut i: usize = 0;
    assert(all.take(0) =~= Seq::empty());
    assert(paths(result@) =~= ordered(all_removed(all.take(0))));
    while i < list.len()
        invariant
            0 <= i <= list.len(),
            all == publications(list@),
            paths(result@) == ordered(all_removed(all.take(i as int))),
        decreases list.len() - i,
    {
        let remove = &list[i].remove;
        let ghost before = all_removed(all.take(i as int));
        let ghost own = paths(remove@);
        proof {
            assert(all.take(i + 1).drop_last() =~= all.take(i as int));
            assert(all.take(i + 1).last() == list@[i as int]@);
        }
        let mut k: usize = 0;
        assert(before + own.take(0) =~= before);
        while k < remove.len()
            invariant
                0 <= k <= remove.len(),
                own == paths(remove@),
                paths(result@) == ordered(before + own.take(k as int)),
            decreases remove.len() - k,
        {
            insert_path(&mut result, &remove[k]);
            proof {
                let longer = before + own.take(k + 1);
                assert(longer.drop_last() =~= before + own.take(k as int));
                assert(longer.last() == remove@[k as int]@);
            }
            k = k + 1;
        }
        assert(own.take(own.len() as int) =~= own);
        i = i + 1;
    }
    assert(all.take(all.len() as int) =~= all);
    if let Some(path) = removed_media {
        insert_path(&mut result, path);
    }
    result
}

fn find_staging_directory(media: Option<(&FilePath, &FilePath)>, list: &[Publication]) -> (result:
    Option<PathText>)
    ensures
        opt_part(result) == staging_directory(opt_pair(media), publications(list@)),
{
    if let Some((staged, _)) = media {
        if let Some(directory) = &staged.directory {
            return Some(directory.clone());
        }
    }
    let staged = list_moves(None, list);
    assert(path_pairs(staged@) == all_staged(publications(list@)));
    if staged.len() > 0 {
        assert(path_pairs(staged@)[0].0 == staged@[0].0@);
        match &staged[0].0.directory {
            Some(directory) => Some(directory.clone()),
            None => None,
        }
    } else {
        assert(path_pairs(staged@).len() == 0);
        None
    }
}

fn check_destinations(
    moves: &Vec<(FilePath, FilePath)>,
    old: &Vec<FilePath>,
    taken: &[FilePath],
) -> (result: Result<(), String>)
    ensures
        crate::validate::says(
            result,
            destinations_problem(path_pairs(moves@), paths(old@), places(paths(taken@))),
        ),
{
    let ghost all = path_pairs(moves@);
    let mut i: usize = 0;
    while i < moves.len()
        invariant
            0 <= i <= moves.len(),
            all == path_pairs(moves@),
            destinations_problem(all.take(i as int), paths(old@), places(paths(taken@))) is None,
        decreases moves.len() - i,
    {
        let destination = &moves[i].1;
        proof {
            assert(all.take(i + 1).drop_last() =~= all.take(i as int));
            assert(all.take(i + 1).last() == (moves@[i as int].0@, moves@[i as int].1@));
            lemma_problem_stays(all, i + 1, paths(old@), places(paths(taken@)));
        }
        let mut k: usize = 0;
        while k < i
            invariant
                0 <= k <= i < moves.len(),
                all == path_pairs(moves@),
                destination == &moves@[i as int].1,
                forall|j: int| 0 <= j < k ==> (#[trigger] all[j]).1.place() != destination@.place(),
                destinations_problem(all.take(i as int), paths(old@), places(paths(taken@))) is None,
                all.take(i + 1).drop_last() == all.take(i as int),
                all.take(i + 1).last().1 == destination@,
                destinations_problem(all.take(i + 1), paths(old@), places(paths(taken@))) is Some
                    ==> destinations_problem(all, paths(old@), places(paths(taken@)))
                    == destinations_problem(all.take(i + 1), paths(old@), places(paths(taken@))),
            decreases i - k,
        {
            assert(all[k as int].1 == moves@[k as int].1@);
            if moves[k].1.same(destination) {
                assert(placed_pairs(all.take(i as int))[k as int].1 == destination@.place());
                let mut message = "Two subtitle outputs resolve to ".to_owned();
                message.append(destination.shown().as_str());
                message.append(".");
                return Err(message);
            }
            k = k + 1;
        }
        assert(!is_destination(placed_pairs(all.take(i as int)), destination@.place())) by {
            let earlier = placed_pairs(all.take(i as int));
            assert forall|j: int| 0 <= j < i implies (#[trigger] earlier[j]).1
                != destination@.place() by {
                assert(all[j].1.place() != destination@.place());
            }
        }
        if holds_path(taken, destination) && !holds_path(old.as_slice(), destination) {
            let mut message = destination.shown();
            message.append(" already exists; no files were changed.");
            return Err(message);
        }
        i = i + 1;
    }
    assert(all.take(all.len() as int) =~= all);
    Ok(())
}

proof fn lemma_problem_stays(
    moves: Seq<(PathModel, PathModel)>,
    some: int,
    old: Seq<PathModel>,
    taken: Seq<Place>,
)
    requires
        0 <= some <= moves.len(),
    ensures
        destinations_problem(moves.take(some), old, taken) is Some ==> destinations_problem(
            moves,
            old,
            taken,
        ) == destinations_problem(moves.take(some), old, taken),
    decreases moves.len(),
{
    if some == moves.len() {
        assert(moves.take(some) =~= moves);
    } else {
        assert(moves.drop_last().take(some) =~= moves.take(some));
        lemma_problem_stays(moves.drop_last(), some, old, taken);
    }
}

fn list_backups(old: &Vec<FilePath>, directory: &PathText, taken: &[FilePath]) -> (result: Vec<
    (FilePath, FilePath),
>)
    ensures
        path_pairs(result@) == backups_of(paths(old@), directory@, places(paths(taken@))),
{
    let ghost all = paths(old@);
    let mut result: Vec<(FilePath, FilePath)> = Vec::new();
    let mut i: usize = 0;
    assert(path_pairs(result@) =~= Seq::empty());
    while i < old.len()
        invariant
            0 <= i <= old.len(),
            all == paths(old@),
            path_pairs(result@) == backups_of(all.take(i as int), directory@, places(paths(taken@))),
        decreases old.len() - i,
    {
        proof {
            assert(all.take(i + 1).drop_last() =~= all.take(i as int));
            assert(all.take(i + 1).last() == old@[i as int]@);
            assert(all.take(i + 1).len() == i + 1);
        }
        if holds_path(taken, &old[i]) {
            let mut name = "transaction-backup-".to_owned();
            name.append(number_text(i as u64).as_str());
            let backup = FilePath::inside(directory, name.as_str());
            let ghost before = result@;
            let ghost pair = (old@[i as int]@, backup@);
            result.push((old[i].clone(), backup));
            assert(path_pairs(result@) =~= path_pairs(before).push(pair));
        }
        i = i + 1;
    }
    assert(all.take(all.len() as int) =~= all);
    result
}

/// Prepares a transaction, or refuses it before anything is touched. `media` is the staged
/// media with its destination, `taken` are the files that are there.
pub fn prepare_transaction(
    media: Option<(&FilePath, &FilePath)>,
    removed_media: Option<&FilePath>,
    list: &[Publication],
    taken: &[FilePath],
    cancelled: bool,
) -> (result: Result<Transaction, EditError>)
    ensures
        match result {
            Ok(transaction) => transaction.sound() && prepared(
                opt_pair(media),
                opt_ref(removed_media),
                publications(list@),
                places(paths(taken@)),
                cancelled,
            ) == Ok::<TransactionModel, ErrorModel>(transaction@),
            Err(error) => prepared(
                opt_pair(media),
                opt_ref(removed_media),
                publications(list@),
                places(paths(taken@)),
                cancelled,
            ) == Err::<TransactionModel, ErrorModel>(error@),
        },
{
    if cancelled {
        return Err(EditError::Cancelled);
    }
    let directory = match find_staging_directory(media, list) {
        Some(directory) => directory,
        None => return Err(EditError::Failed("No staging directory is available.".to_owned())),
    };
    let old = list_old(removed_media, list);
    let moves = list_moves(media, list);
    match check_destinations(&moves, &old, taken) {
        Ok(_) => {},
        Err(message) => return Err(EditError::Failed(message)),
    }
    let backups = list_backups(&old, &directory, taken);
    Ok(Transaction { backups, moves, backed_up: 0, published: 0 })
}

// Carrying a transaction out.

/// What to do next.
#[derive(Debug, Eq, PartialEq)]
pub enum TransactionStep {
    /// Move a file, from one path to another.
    Move { from: FilePath, to: FilePath, phase: EditPhase },
    /// Everything is in place: the kept files can go.
    RemoveBackups(Vec<FilePath>),
}

/// What a [`TransactionStep`] asks for.
pub ghost enum StepModel {
    Move { from: PathModel, to: PathModel, phase: Phase },
    RemoveBackups(Seq<PathModel>),
}

impl View for TransactionStep {
    type V = StepModel;

    open spec fn view(&self) -> StepModel {
        match self {
            TransactionStep::Move { from, to, phase } => StepModel::Move {
                from: from@,
                to: to@,
                phase: phase@,
            },
            TransactionStep::RemoveBackups(backups) => StepModel::RemoveBackups(paths(backups@)),
        }
    }
}

/// The second paths of some pairs.
pub open spec fn seconds<P>(pairs: Seq<(P, P)>) -> Seq<P> {
    pairs.map_values(|pair: (P, P)| pair.1)
}

impl TransactionModel {
    /// The next step.
    pub open spec fn next(self) -> StepModel {
        if self.done < self.backups.len() {
            let (from, to) = self.backups[self.done as int];
            StepModel::Move { from, to, phase: Phase::BackupFile(shown_name(from)) }
        } else if self.done < self.backups.len() + self.moves.len() {
            let (from, to) = self.moves[self.done - self.backups.len()];
            StepModel::Move { from, to, phase: Phase::PublishFile(shown_name(to)) }
        } else {
            StepModel::RemoveBackups(seconds(self.backups))
        }
    }

    /// The error to report after the next move failed: an interrupted move is a cancelled
    /// edit.
    pub open spec fn failure(self, interrupted: bool, reason: Seq<char>) -> ErrorModel {
        if interrupted {
            ErrorModel::Cancelled
        } else if self.done < self.backups.len() {
            ErrorModel::Failed("Could not stage existing file for replacement: "@ + reason)
        } else {
            ErrorModel::Failed("Could not publish the completed edit: "@ + reason)
        }
    }
}

impl<P> Moves<P> {
    /// How many files were published.
    pub open spec fn published(self) -> int {
        if self.done < self.backups.len() {
            0
        } else {
            self.done - self.backups.len()
        }
    }

    /// How many files were moved out of the way.
    pub open spec fn backed_up(self) -> int {
        if self.done < self.backups.len() {
            self.done as int
        } else {
            self.backups.len() as int
        }
    }

    /// Where the next move goes, if one is left to make.
    pub open spec fn attempted(self) -> Option<P> {
        if self.done < self.backups.len() {
            Some(self.backups[self.done as int].1)
        } else if self.done < self.backups.len() + self.moves.len() {
            Some(self.moves[self.done - self.backups.len()].1)
        } else {
            None
        }
    }

    /// The files to remove when a step fails: what the failed move may have left half
    /// written, then the published files, the last one first.
    pub open spec fn to_remove(self) -> Seq<P> {
        let published = seconds(self.moves.take(self.published())).reverse();
        match self.attempted() {
            Some(target) => seq![target] + published,
            None => published,
        }
    }

    /// The moves that put the replaced files back when a step fails: the last one first.
    pub open spec fn to_restore(self) -> Seq<(P, P)> {
        swapped(self.backups.take(self.backed_up())).reverse()
    }
}

/// Pairs the other way round.
pub open spec fn swapped<P>(pairs: Seq<(P, P)>) -> Seq<(P, P)> {
    pairs.map_values(|pair: (P, P)| (pair.1, pair.0))
}

/// What undoes a transaction after a step failed, and the error to report.
#[derive(Debug, Eq, PartialEq)]
pub struct Rollback {
    pub remove: Vec<FilePath>,
    pub restore: Vec<(FilePath, FilePath)>,
    pub error: EditError,
}

fn list_seconds(pairs: &Vec<(FilePath, FilePath)>) -> (result: Vec<FilePath>)
    ensures
        paths(result@) == seconds(path_pairs(pairs@)),
{
    let ghost all = seconds(path_pairs(pairs@));
    let mut result: Vec<FilePath> = Vec::new();
    let mut i: usize = 0;
    while i < pairs.len()
        invariant
            0 <= i <= pairs.len(),
            all == seconds(path_pairs(pairs@)),
            paths(result@) =~= all.take(i as int),
        decreases pairs.len() - i,
    {
        let ghost before = result@;
        result.push(pairs[i].1.clone());
        assert(paths(result@) =~= paths(before).push(pairs@[i as int].1@));
        i = i + 1;
    }
    assert(all.take(all.len() as int) =~= all);
    result
}

/// The files to remove and the moves to make to undo the first `published` moves and the
/// first `backed_up` backups: the last first, removals before moves.
pub fn rollback_transaction(
    moves: &Vec<(FilePath, FilePath)>,
    published: usize,
    backups: &Vec<(FilePath, FilePath)>,
    backed_up: usize,
) -> (result: (Vec<FilePath>, Vec<(FilePath, FilePath)>))
    requires
        published <= moves@.len(),
        backed_up <= backups@.len(),
    ensures
        paths(result.0@) == seconds(path_pairs(moves@).take(published as int)).reverse(),
        path_pairs(result.1@) == swapped(path_pairs(backups@).take(backed_up as int)).reverse(),
{
    let mut remove: Vec<FilePath> = Vec::new();
    let ghost removed = seconds(path_pairs(moves@).take(published as int)).reverse();
    let mut i: usize = published;
    while i > 0
        invariant
            0 <= i <= published <= moves@.len(),
            removed == seconds(path_pairs(moves@).take(published as int)).reverse(),
            paths(remove@) =~= removed.take(published - i),
        decreases i,
    {
        i = i - 1;
        let ghost before = remove@;
        remove.push(moves[i].1.clone());
        assert(paths(remove@) =~= paths(before).push(moves@[i as int].1@));
        assert(removed[published - i - 1] == moves@[i as int].1@);
    }
    assert(removed.take(published as int) =~= removed);
    let mut restore: Vec<(FilePath, FilePath)> = Vec::new();
    let ghost restored = swapped(path_pairs(backups@).take(backed_up as int)).reverse();
    let mut k: usize = backed_up;
    while k > 0
        invariant
            0 <= k <= backed_up <= backups@.len(),
            restored == swapped(path_pairs(backups@).take(backed_up as int)).reverse(),
            path_pairs(restore@) =~= restored.take(backed_up - k),
        decreases k,
    {
        k = k - 1;
        let ghost before = restore@;
        restore.push((backups[k].1.clone(), backups[k].0.clone()));
        assert(path_pairs(restore@) =~= path_pairs(before).push(
            (backups@[k as int].1@, backups@[k as int].0@),
        ));
        assert(restored[backed_up - k - 1] == (backups@[k as int].1@, backups@[k as int].0@));
    }
    assert(restored.take(backed_up as int) =~= restored);
    (remove, restore)
}

impl Transaction {
    /// What to do next.
    pub fn next_step(&self) -> (result: TransactionStep)
        requires
            self.sound(),
        ensures
            result@ == self@.next(),
    {
        assert(self@.backups.len() == self.backups@.len());
        assert(self@.moves.len() == self.moves@.len());
        if self.backed_up < self.backups.len() {
            let pair = &self.backups[self.backed_up];
            assert(self@.backups[self.backed_up as int] == (pair.0@, pair.1@));
            TransactionStep::Move {
                from: pair.0.clone(),
                to: pair.1.clone(),
                phase: EditPhase::BackupFile(display_file_name(&pair.0)),
            }
        } else if self.published < self.moves.len() {
            let pair = &self.moves[self.published];
            assert(self@.moves[self.published as int] == (pair.0@, pair.1@));
            TransactionStep::Move {
                from: pair.0.clone(),
                to: pair.1.clone(),
                phase: EditPhase::PublishFile(display_file_name(&pair.1)),
            }
        } else {
            TransactionStep::RemoveBackups(list_seconds(&self.backups))
        }
    }

    /// Takes note that the next move was made.
    pub fn step_succeeded(&mut self)
        requires
            old(self).sound(),
            !old(self)@.finished(),
        ensures
            final(self)@ == (TransactionModel { done: old(self)@.done + 1, ..old(self)@ }),
            final(self).sound(),
    {
        assert(self@.backups.len() == self.backups@.len());
        assert(self@.moves.len() == self.moves@.len());
        if self.backed_up < self.backups.len() {
            self.backed_up = self.backed_up + 1;
        } else if self.published < self.moves.len() {
            self.published = self.published + 1;
        }
    }

    /// How to undo everything after the next move failed, and the error to report: an
    /// interrupted move is a cancelled edit. A move to another file system is a copy, so
    /// what a failed one left at its destination goes too.
    pub fn step_failed(&self, interrupted: bool, reason: &str) -> (result: Rollback)
        requires
            self.sound(),
        ensures
            paths(result.remove@) == self@.to_remove(),
            path_pairs(result.restore@) == self@.to_restore(),
            result.error@ == self@.failure(interrupted, reason@),
    {
        assert(self@.backups.len() == self.backups@.len());
        assert(self@.moves.len() == self.moves@.len());
        let (mut published, restore) = rollback_transaction(
            &self.moves,
            self.published,
            &self.backups,
            self.backed_up,
        );
        let mut remove: Vec<FilePath> = Vec::new();
        if self.backed_up < self.backups.len() {
            let pair = &self.backups[self.backed_up];
            assert(self@.backups[self.backed_up as int] == (pair.0@, pair.1@));
            remove.push(pair.1.clone());
        } else if self.published < self.moves.len() {
            let pair = &self.moves[self.published];
            assert(self@.moves[self.published as int] == (pair.0@, pair.1@));
            remove.push(pair.1.clone());
        }
        let ghost attempted = remove@;
        let ghost others = published@;
        remove.append(&mut published);
        assert(paths(remove@) =~= paths(attempted) + paths(others));
        assert(paths(remove@) =~= self@.to_remove());
        let error = if interrupted {
            EditError::Cancelled
        } else {
            let mut message = if self.backed_up < self.backups.len() {
                "Could not stage existing file for replacement: ".to_owned()
            } else {
                "Could not publish the completed edit: ".to_owned()
            };
            message.append(reason);
            EditError::Failed(message)
        };
        Rollback { remove, restore, error }
    }
}

// Laws: what a transaction does to the files.

/// The contents of the files that are there.
pub type Files = Map<Place, Seq<u8>>;

impl TransactionModel {
    /// The moves between the files that the paths mean.
    pub open spec fn placed(self) -> Moves<Place> {
        Moves {
            backups: placed_pairs(self.backups),
            moves: placed_pairs(self.moves),
            done: self.done,
        }
    }
}

/// Undoing a transaction by its paths undoes it for the files that they mean.
pub proof fn rollbacks_go_by_files(transaction: TransactionModel)
    requires
        transaction.valid(),
    ensures
        places(transaction.to_remove()) == transaction.placed().to_remove(),
        placed_pairs(transaction.to_restore()) == transaction.placed().to_restore(),
{
    let placed = transaction.placed();
    let moves = transaction.moves.take(transaction.published());
    let backups = transaction.backups.take(transaction.backed_up());
    assert(placed_pairs(moves) =~= placed.moves.take(placed.published()));
    assert(placed_pairs(backups) =~= placed.backups.take(placed.backed_up()));
    let published = seconds(moves).reverse();
    assert(places(published) =~= seconds(placed_pairs(moves)).reverse());
    assert(places(transaction.to_remove()) =~= placed.to_remove());
    assert(placed_pairs(transaction.to_restore()) =~= placed.to_restore());
}

/// The files after one is moved, over whatever is there.
pub open spec fn file_moved(files: Files, from: Place, to: Place) -> Files {
    files.remove(from).insert(to, files[from])
}

/// The files after some moves.
pub open spec fn files_moved(files: Files, moves: Seq<(Place, Place)>) -> Files
    decreases moves.len(),
{
    if moves.len() == 0 {
        files
    } else {
        file_moved(files_moved(files, moves.drop_last()), moves.last().0, moves.last().1)
    }
}

/// The files after some are removed.
pub open spec fn files_removed(files: Files, gone: Seq<Place>) -> Files
    decreases gone.len(),
{
    if gone.len() == 0 {
        files
    } else {
        files_removed(files, gone.drop_last()).remove(gone.last())
    }
}

/// Whether moves do not get in each other's way: every file is there and moved once, to a
/// place that is free and that no other file is moved to or from.
pub open spec fn orderly(files: Files, moves: Seq<(Place, Place)>) -> bool {
    &&& forall|i: int| 0 <= i < moves.len() ==> files.contains_key((#[trigger] moves[i]).0)
    &&& forall|i: int| 0 <= i < moves.len() ==> !files.contains_key((#[trigger] moves[i]).1)
    &&& forall|i: int, j: int|
        0 <= i < j < moves.len() ==> (#[trigger] moves[i]).0 != (#[trigger] moves[j]).0
            && moves[i].1 != moves[j].1
}

/// Whether some moves move a file away.
pub open spec fn is_origin(moves: Seq<(Place, Place)>, path: Place) -> bool {
    exists|i: int| 0 <= i < moves.len() && (#[trigger] moves[i]).0 == path
}

/// After orderly moves each file is where it was moved to, with its contents, and nothing
/// else changed.
pub proof fn orderly_moves_keep_contents(files: Files, moves: Seq<(Place, Place)>)
    requires
        orderly(files, moves),
    ensures
        forall|i: int|
            0 <= i < moves.len() ==> files_moved(files, moves).contains_key(
                (#[trigger] moves[i]).1,
            ) && files_moved(files, moves)[moves[i].1] == files[moves[i].0],
        forall|i: int|
            0 <= i < moves.len() ==> !files_moved(files, moves).contains_key(
                (#[trigger] moves[i]).0,
            ),
        forall|path: Place|
            #![trigger files_moved(files, moves).contains_key(path)]
            #![trigger files_moved(files, moves)[path]]
            !is_origin(moves, path) && !is_destination(moves, path) ==> {
                &&& files_moved(files, moves).contains_key(path) == files.contains_key(path)
                &&& files_moved(files, moves)[path] == files[path]
            },
    decreases moves.len(),
{
    if moves.len() > 0 {
        let shorter = moves.drop_last();
        let (from, to) = moves.last();
        assert(orderly(files, shorter)) by {
            assert forall|i: int| 0 <= i < shorter.len() implies files.contains_key(
                (#[trigger] shorter[i]).0,
            ) && !files.contains_key(shorter[i].1) by {
                assert(files.contains_key(moves[i].0));
                assert(!files.contains_key(moves[i].1));
            }
            assert forall|i: int, j: int| 0 <= i < j < shorter.len() implies (
            #[trigger] shorter[i]).0 != (#[trigger] shorter[j]).0 && shorter[i].1
                != shorter[j].1 by {
                assert(moves[i].0 != moves[j].0);
            }
        }
        orderly_moves_keep_contents(files, shorter);
        let before = files_moved(files, shorter);
        let after = files_moved(files, moves);
        let last = moves.len() - 1;
        assert(moves[last] == (from, to));
        assert(files.contains_key(moves[last].0) && !files.contains_key(moves[last].1));
        assert(!is_origin(shorter, from)) by {
            assert forall|i: int| 0 <= i < shorter.len() implies (#[trigger] shorter[i]).0
                != from by {
                assert(moves[i].0 != moves[last].0);
            }
        }
        assert(!is_destination(shorter, from)) by {
            assert forall|i: int| 0 <= i < shorter.len() implies (#[trigger] shorter[i]).1
                != from by {
                assert(!files.contains_key(moves[i].1));
            }
        }
        assert(before.contains_key(from) == files.contains_key(from));
        assert(before[from] == files[from]);
        assert forall|i: int| 0 <= i < moves.len() implies after.contains_key(
            (#[trigger] moves[i]).1,
        ) && after[moves[i].1] == files[moves[i].0] by {
            if i < last {
                assert(shorter[i] == moves[i]);
                assert(moves[i].1 != moves[last].1);
                assert(!files.contains_key(moves[i].1));
                assert(before.contains_key(shorter[i].1));
            }
        }
        assert forall|i: int| 0 <= i < moves.len() implies !after.contains_key(
            (#[trigger] moves[i]).0,
        ) by {
            assert(files.contains_key(moves[i].0));
            if i < last {
                assert(shorter[i] == moves[i]);
                assert(!before.contains_key(shorter[i].0));
            }
        }
        assert forall|path: Place| !is_origin(moves, path) && !is_destination(moves, path) implies {
            &&& #[trigger] after.contains_key(path) == files.contains_key(path)
            &&& after[path] == files[path]
        } by {
            assert(moves[last].0 != path && moves[last].1 != path);
            assert(!is_origin(shorter, path)) by {
                assert forall|i: int| 0 <= i < shorter.len() implies (#[trigger] shorter[i]).0
                    != path by {
                    assert(moves[i].0 != path);
                }
            }
            assert(!is_destination(shorter, path)) by {
                assert forall|i: int| 0 <= i < shorter.len() implies (#[trigger] shorter[i]).1
                    != path by {
                    assert(moves[i].1 != path);
                }
            }
            assert(before.contains_key(path) == files.contains_key(path));
        }
        assert forall|path: Place| !is_origin(moves, path) && !is_destination(moves, path) implies {
            &&& after.contains_key(path) == files.contains_key(path)
            &&& #[trigger] after[path] == files[path]
        } by {
            assert(after.contains_key(path) == files.contains_key(path));
        }
    }
}

proof fn lemma_files_removed(files: Files, gone: Seq<Place>)
    ensures
        forall|path: Place|
            #![trigger files_removed(files, gone).contains_key(path)]
            files_removed(files, gone).contains_key(path) <==> files.contains_key(path)
                && !gone.contains(path),
        forall|path: Place|
            #![trigger files_removed(files, gone)[path]]
            !gone.contains(path) ==> files_removed(files, gone)[path] == files[path],
    decreases gone.len(),
{
    if gone.len() > 0 {
        let shorter = gone.drop_last();
        lemma_files_removed(files, shorter);
        assert forall|path: Place| #[trigger] gone.contains(path) <==> shorter.contains(path)
            || path == gone.last() by {
            if gone.contains(path) {
                let i = choose|i: int| 0 <= i < gone.len() && gone[i] == path;
                if i < shorter.len() {
                    assert(shorter[i] == path);
                }
            }
            if shorter.contains(path) {
                let i = choose|i: int| 0 <= i < shorter.len() && shorter[i] == path;
                assert(gone[i] == path);
            }
            assert(gone[gone.len() - 1] == gone.last());
        }
        assert forall|path: Place| !gone.contains(path) implies #[trigger] files_removed(
            files,
            gone,
        )[path] == files[path] by {
            assert(!shorter.contains(path));
            assert(files_removed(files, shorter)[path] == files[path]);
        }
        assert forall|path: Place|
            #[trigger] files_removed(files, gone).contains_key(path) <==> files.contains_key(path)
                && !gone.contains(path) by {
            assert(files_removed(files, shorter).contains_key(path) <==> files.contains_key(path)
                && !shorter.contains(path));
        }
    }
}

impl Moves<Place> {
    /// Whether a transaction fits the files that are there: the files to replace are there
    /// and are kept under free names, the staged files are there, and a destination is
    /// free or is that of a file to replace.
    pub open spec fn fits(self, files: Files) -> bool {
        &&& orderly(files, self.backups)
        &&& forall|m: int|
            0 <= m < self.moves.len() ==> {
                &&& files.contains_key((#[trigger] self.moves[m]).0)
                &&& !is_origin(self.backups, self.moves[m].0)
                &&& files.contains_key(self.moves[m].1) ==> is_origin(
                    self.backups,
                    self.moves[m].1,
                )
                &&& !is_destination(self.backups, self.moves[m].1)
            }
        &&& forall|m: int, n: int|
            0 <= m < n < self.moves.len() ==> (#[trigger] self.moves[m]).0 != (
            #[trigger] self.moves[n]).0 && self.moves[m].1 != self.moves[n].1
    }

    /// The files after the moves made so far.
    pub open spec fn files_after(self, files: Files) -> Files {
        files_moved(
            files_moved(files, self.backups.take(self.backed_up())),
            self.moves.take(self.published()),
        )
    }

    /// The part of a transaction that is made.
    pub open spec fn made(self) -> Moves<Place> {
        Moves {
            backups: self.backups.take(self.backed_up()),
            moves: self.moves.take(self.published()),
            done: self.done,
        }
    }

    /// Whether the next move goes to a place that is free once the files moved out of the
    /// way so far are gone, and where none of them is kept.
    pub open spec fn attempts_free_place(self, files: Files) -> bool {
        match self.attempted() {
            Some(target) => {
                &&& files.contains_key(target) ==> is_origin(self.made().backups, target)
                &&& !is_destination(self.made().backups, target)
            },
            None => true,
        }
    }

    /// The files after the moves made so far and one that failed, which left something at
    /// its destination or nothing.
    pub open spec fn files_failed(self, files: Files, left: Option<Seq<u8>>) -> Files {
        match (self.attempted(), left) {
            (Some(target), Some(contents)) => self.files_after(files).insert(target, contents),
            (Some(target), None) => self.files_after(files).remove(target),
            (None, _) => self.files_after(files),
        }
    }

    /// The files after the next move failed and everything is undone.
    pub open spec fn files_rolled_back(self, files: Files, left: Option<Seq<u8>>) -> Files {
        files_moved(
            files_removed(self.files_failed(files, left), self.to_remove()),
            self.to_restore(),
        )
    }

    /// The files after everything is in place and the kept files are gone.
    pub open spec fn files_committed(self, files: Files) -> Files {
        files_removed(self.files_after(files), seconds(self.backups))
    }
}

proof fn lemma_orderly_prefix(files: Files, moves: Seq<(Place, Place)>, some: int)
    requires
        orderly(files, moves),
        0 <= some <= moves.len(),
    ensures
        orderly(files, moves.take(some)),
{
    let shorter = moves.take(some);
    assert forall|i: int| 0 <= i < shorter.len() implies files.contains_key(
        (#[trigger] shorter[i]).0,
    ) && !files.contains_key(shorter[i].1) by {
        assert(files.contains_key(moves[i].0));
        assert(!files.contains_key(moves[i].1));
    }
    assert forall|i: int, j: int| 0 <= i < j < shorter.len() implies (#[trigger] shorter[i]).0 != (
    #[trigger] shorter[j]).0 && shorter[i].1 != shorter[j].1 by {
        assert(moves[i].0 != moves[j].0);
    }
}

/// The moves into place are orderly once the files to replace are out of the way.
proof fn lemma_publishing_is_orderly(transaction: Moves<Place>, files: Files)
    requires
        transaction.fits(files),
    ensures
        orderly(files_moved(files, transaction.backups), transaction.moves),
        forall|m: int|
            0 <= m < transaction.moves.len() ==> files_moved(
                files,
                transaction.backups,
            )[(#[trigger] transaction.moves[m]).0] == files[transaction.moves[m].0],
{
    let kept = files_moved(files, transaction.backups);
    orderly_moves_keep_contents(files, transaction.backups);
    assert forall|m: int| 0 <= m < transaction.moves.len() implies kept.contains_key(
        (#[trigger] transaction.moves[m]).0,
    ) && !kept.contains_key(transaction.moves[m].1) && kept[transaction.moves[m].0]
        == files[transaction.moves[m].0] by {
        let (staged, destination) = transaction.moves[m];
        assert(files.contains_key(staged));
        assert(!is_destination(transaction.backups, staged)) by {
            assert forall|i: int| 0 <= i < transaction.backups.len() implies (
            #[trigger] transaction.backups[i]).1 != staged by {
                assert(!files.contains_key(transaction.backups[i].1));
            }
        }
        assert(kept.contains_key(staged) == files.contains_key(staged));
        assert(kept[staged] == files[staged]);
        if is_origin(transaction.backups, destination) {
            let i = choose|i: int|
                0 <= i < transaction.backups.len() && (#[trigger] transaction.backups[i]).0
                    == destination;
            assert(!kept.contains_key(transaction.backups[i].0));
        } else {
            assert(kept.contains_key(destination) == files.contains_key(destination));
        }
    }
}

/// A transaction that fits and runs to its end puts every staged file at its destination
/// with its contents, takes the replaced files away, leaves no kept file behind, and
/// changes nothing else.
pub proof fn commits_put_everything_in_place(transaction: Moves<Place>, files: Files)
    requires
        transaction.fits(files),
        transaction.finished(),
    ensures
        forall|m: int|
            0 <= m < transaction.moves.len() ==> {
                &&& transaction.files_committed(files).contains_key(
                    (#[trigger] transaction.moves[m]).1,
                )
                &&& transaction.files_committed(files)[transaction.moves[m].1]
                    == files[transaction.moves[m].0]
                &&& !transaction.files_committed(files).contains_key(transaction.moves[m].0)
            },
        forall|i: int|
            0 <= i < transaction.backups.len() ==> {
                &&& !transaction.files_committed(files).contains_key(
                    (#[trigger] transaction.backups[i]).1,
                )
                &&& !is_destination(transaction.moves, transaction.backups[i].0)
                    ==> !transaction.files_committed(files).contains_key(transaction.backups[i].0)
            },
        forall|path: Place|
            #![trigger transaction.files_committed(files).contains_key(path)]
            !is_origin(transaction.backups, path) && !is_destination(transaction.backups, path)
                && !is_origin(transaction.moves, path) && !is_destination(transaction.moves, path)
                ==> {
                &&& transaction.files_committed(files).contains_key(path) == files.contains_key(
                    path,
                )
                &&& transaction.files_committed(files)[path] == files[path]
            },
{
    let backups = transaction.backups;
    let moves = transaction.moves;
    assert(backups.take(transaction.backed_up()) =~= backups);
    assert(moves.take(transaction.published()) =~= moves);
    let kept = files_moved(files, backups);
    let after = files_moved(kept, moves);
    let gone = seconds(backups);
    let committed = files_removed(after, gone);
    orderly_moves_keep_contents(files, backups);
    lemma_publishing_is_orderly(transaction, files);
    orderly_moves_keep_contents(kept, moves);
    lemma_files_removed(after, gone);
    assert forall|path: Place| #[trigger] gone.contains(path) <==> is_destination(
        backups,
        path,
    ) by {
        if gone.contains(path) {
            let i = choose|i: int| 0 <= i < gone.len() && gone[i] == path;
            assert(backups[i].1 == path);
        }
        if is_destination(backups, path) {
            let i = choose|i: int| 0 <= i < backups.len() && (#[trigger] backups[i]).1 == path;
            assert(gone[i] == path);
        }
    }
    assert forall|m: int| 0 <= m < moves.len() implies {
        &&& committed.contains_key((#[trigger] moves[m]).1)
        &&& committed[moves[m].1] == files[moves[m].0]
        &&& !committed.contains_key(moves[m].0)
    } by {
        assert(after.contains_key(moves[m].1));
        assert(!gone.contains(moves[m].1));
        assert(!after.contains_key(moves[m].0));
    }
    assert forall|i: int| 0 <= i < backups.len() implies {
        &&& !committed.contains_key((#[trigger] backups[i]).1)
        &&& !is_destination(moves, backups[i].0) ==> !committed.contains_key(backups[i].0)
    } by {
        assert(gone.contains(gone[i]));
        assert(!kept.contains_key(backups[i].0));
        if !is_destination(moves, backups[i].0) {
            assert(!is_origin(moves, backups[i].0)) by {
                assert forall|m: int| 0 <= m < moves.len() implies (#[trigger] moves[m]).0
                    != backups[i].0 by {
                    assert(!is_origin(backups, moves[m].0));
                }
            }
            assert(after.contains_key(backups[i].0) == kept.contains_key(backups[i].0));
        }
    }
    assert forall|path: Place|
        !is_origin(backups, path) && !is_destination(backups, path) && !is_origin(moves, path)
            && !is_destination(moves, path) implies {
        &&& #[trigger] committed.contains_key(path) == files.contains_key(path)
        &&& committed[path] == files[path]
    } by {
        assert(kept.contains_key(path) == files.contains_key(path));
        assert(kept[path] == files[path]);
        assert(after.contains_key(path) == kept.contains_key(path));
        assert(after[path] == kept[path]);
        assert(!gone.contains(path));
    }
}

/// What goes after a failure: where the files that were published are, and where the failed
/// move went.
proof fn lemma_removed_after_failure(transaction: Moves<Place>)
    requires
        transaction.valid(),
    ensures
        forall|path: Place| #[trigger]
            transaction.to_remove().contains(path) <==> is_destination(
                transaction.made().moves,
                path,
            ) || transaction.attempted() == Some(path),
{
    let moves = transaction.made().moves;
    let places = seconds(moves);
    let published = places.reverse();
    let gone = transaction.to_remove();
    let first: int = if transaction.attempted() is Some {
        1
    } else {
        0
    };
    assert(gone.len() == first + moves.len());
    assert forall|i: int| first <= i < gone.len() implies #[trigger] gone[i] == moves[gone.len() - 1
        - i].1 by {
        assert(gone[i] == published[i - first]);
        assert(places[gone.len() - 1 - i] == moves[gone.len() - 1 - i].1);
    }
    assert forall|path: Place| #[trigger] gone.contains(path) <==> is_destination(moves, path)
        || transaction.attempted() == Some(path) by {
        if gone.contains(path) {
            let i = choose|i: int| 0 <= i < gone.len() && gone[i] == path;
            if i >= first {
                assert(moves[gone.len() - 1 - i].1 == path);
            }
        }
        if is_destination(moves, path) {
            let i = choose|i: int| 0 <= i < moves.len() && (#[trigger] moves[i]).1 == path;
            assert(gone[gone.len() - 1 - i] == path);
        }
        if transaction.attempted() == Some(path) {
            assert(gone[0] == path);
        }
    }
}

/// A transaction that fails at any step is undone, whatever the failed move left at its
/// destination and whether or not the files of the moves after it are there: but for the
/// staged files that were already published, every file is where it was, with its
/// contents, and nothing is left behind.
pub proof fn rollbacks_restore_everything(
    transaction: Moves<Place>,
    files: Files,
    left: Option<Seq<u8>>,
)
    requires
        transaction.valid(),
        transaction.made().fits(files),
        transaction.attempts_free_place(files),
    ensures
        forall|path: Place|
            #![trigger transaction.files_rolled_back(files, left).contains_key(path)]
            !is_origin(transaction.made().moves, path) ==> {
                &&& transaction.files_rolled_back(files, left).contains_key(path)
                    == files.contains_key(path)
                &&& files.contains_key(path) ==> transaction.files_rolled_back(files, left)[path]
                    == files[path]
            },
{
    let made = transaction.made();
    let backups = made.backups;
    let moves = made.moves;
    let kept = files_moved(files, backups);
    let after = files_moved(kept, moves);
    let broken = transaction.files_failed(files, left);
    let gone = transaction.to_remove();
    let cleared = files_removed(broken, gone);
    let restores = transaction.to_restore();
    let restored = files_moved(cleared, restores);
    orderly_moves_keep_contents(files, backups);
    lemma_publishing_is_orderly(made, files);
    orderly_moves_keep_contents(kept, moves);
    lemma_files_removed(broken, gone);
    lemma_removed_after_failure(transaction);
    let count = backups.len();
    assert(restores.len() == count);
    assert forall|i: int| 0 <= i < count implies (#[trigger] restores[i]) == (
        backups[count - 1 - i].1,
        backups[count - 1 - i].0,
    ) by {
        assert(swapped(backups)[count - 1 - i] == (
            backups[count - 1 - i].1,
            backups[count - 1 - i].0,
        ));
    }
    assert forall|i: int| 0 <= i < count implies {
        &&& cleared.contains_key((#[trigger] backups[i]).1)
        &&& cleared[backups[i].1] == files[backups[i].0]
        &&& !cleared.contains_key(backups[i].0)
    } by {
        let (original, backup) = backups[i];
        assert(kept.contains_key(backups[i].1));
        assert(!kept.contains_key(backups[i].0));
        assert(is_destination(backups, backup));
        assert(!is_origin(moves, backup)) by {
            assert forall|m: int| 0 <= m < moves.len() implies (#[trigger] moves[m]).0
                != backup by {
                assert(files.contains_key(moves[m].0));
                assert(!files.contains_key(backups[i].1));
            }
        }
        assert(!is_destination(moves, backup)) by {
            assert forall|m: int| 0 <= m < moves.len() implies (#[trigger] moves[m]).1
                != backup by {
                assert(!is_destination(backups, moves[m].1));
            }
        }
        assert(after.contains_key(backup) == kept.contains_key(backup));
        assert(after[backup] == kept[backup]);
        if !is_destination(moves, original) {
            assert(!is_origin(moves, original)) by {
                assert forall|m: int| 0 <= m < moves.len() implies (#[trigger] moves[m]).0
                    != original by {
                    assert(!is_origin(backups, moves[m].0));
                }
            }
            assert(after.contains_key(original) == kept.contains_key(original));
        }
        assert(!gone.contains(backup));
        assert(broken.contains_key(backup) && broken[backup] == after[backup]);
        assert(transaction.attempted() == Some(original) ==> gone.contains(original));
    }
    assert(orderly(cleared, restores)) by {
        assert forall|i: int| 0 <= i < restores.len() implies cleared.contains_key(
            (#[trigger] restores[i]).0,
        ) && !cleared.contains_key(restores[i].1) by {
            assert(cleared.contains_key(backups[count - 1 - i].1));
        }
        assert forall|i: int, j: int| 0 <= i < j < restores.len() implies (
        #[trigger] restores[i]).0 != (#[trigger] restores[j]).0 && restores[i].1
            != restores[j].1 by {
            assert(backups[count - 1 - j].0 != backups[count - 1 - i].0);
        }
    }
    orderly_moves_keep_contents(cleared, restores);
    assert forall|path: Place| !is_origin(moves, path) implies {
        &&& #[trigger] restored.contains_key(path) == files.contains_key(path)
        &&& files.contains_key(path) ==> restored[path] == files[path]
    } by {
        if is_origin(backups, path) {
            let i = choose|i: int| 0 <= i < backups.len() && (#[trigger] backups[i]).0 == path;
            assert(restores[count - 1 - i] == (backups[i].1, backups[i].0));
            assert(restored.contains_key(restores[count - 1 - i].1));
            assert(files.contains_key(backups[i].0));
        } else if is_destination(backups, path) {
            let i = choose|i: int| 0 <= i < backups.len() && (#[trigger] backups[i]).1 == path;
            assert(restores[count - 1 - i] == (backups[i].1, backups[i].0));
            assert(!restored.contains_key(restores[count - 1 - i].0));
            assert(!files.contains_key(backups[i].1));
        } else {
            assert(!is_origin(restores, path)) by {
                assert forall|i: int| 0 <= i < restores.len() implies (#[trigger] restores[i]).0
                    != path by {
                    assert(backups[count - 1 - i].1 != path);
                }
            }
            assert(!is_destination(restores, path)) by {
                assert forall|i: int| 0 <= i < restores.len() implies (#[trigger] restores[i]).1
                    != path by {
                    assert(backups[count - 1 - i].0 != path);
                }
            }
            assert(restored.contains_key(path) == cleared.contains_key(path));
            assert(restored[path] == cleared[path]);
            assert(kept.contains_key(path) == files.contains_key(path));
            assert(kept[path] == files[path]);
            if is_destination(moves, path) {
                let m = choose|m: int| 0 <= m < moves.len() && (#[trigger] moves[m]).1 == path;
                assert(gone.contains(path));
                assert(!files.contains_key(moves[m].1));
            } else if transaction.attempted() == Some(path) {
                assert(gone.contains(path));
            } else {
                assert(!gone.contains(path));
                assert(after.contains_key(path) == kept.contains_key(path));
                assert(after[path] == kept[path]);
            }
        }
    }
}

/// Where the replaced file of a number is kept.
pub open spec fn backup_path(directory: Part, number: nat) -> PathModel {
    in_directory(directory, backup_name(number))
}

proof fn lemma_backup_paths_differ(directory: Part, one: nat, other: nat)
    requires
        one != other,
    ensures
        backup_path(directory, one).place() != backup_path(directory, other).place(),
{
    reveal_strlit("transaction-backup-");
    numbers_read_back(one);
    numbers_read_back(other);
    let length = "transaction-backup-"@.len() as int;
    assert(backup_name(one).skip(length) =~= decimal(one));
    assert(backup_name(other).skip(length) =~= decimal(other));
    names_tell_files_apart(directory, backup_name(one), backup_name(other));
}

/// The replaced files that are there, each with where it is kept.
spec fn placed_backups(old: Seq<PathModel>, directory: Part, taken: Seq<Place>) -> Seq<
    (Place, Place),
> {
    placed_pairs(backups_of(old, directory, taken))
}

proof fn lemma_backups(old: Seq<PathModel>, directory: Part, taken: Seq<Place>)
    requires
        places(old).no_duplicates(),
    ensures
        forall|i: int|
            0 <= i < placed_backups(old, directory, taken).len() ==> {
                let pair = #[trigger] placed_backups(old, directory, taken)[i];
                &&& places(old).contains(pair.0) && taken.contains(pair.0)
                &&& exists|k: nat|
                    k < old.len() && pair.1 == (#[trigger] backup_path(directory, k)).place()
            },
        forall|place: Place| #[trigger]
            places(old).contains(place) && taken.contains(place) ==> is_origin(
                placed_backups(old, directory, taken),
                place,
            ),
        forall|i: int, j: int|
            0 <= i < j < placed_backups(old, directory, taken).len() ==> (
            #[trigger] placed_backups(old, directory, taken)[i]).0 != (#[trigger] placed_backups(
                old,
                directory,
                taken,
            )[j]).0 && placed_backups(old, directory, taken)[i].1 != placed_backups(
                old,
                directory,
                taken,
            )[j].1,
    decreases old.len(),
{
    if old.len() > 0 {
        let shorter = old.drop_last();
        let before = placed_backups(shorter, directory, taken);
        let after = placed_backups(old, directory, taken);
        assert(places(old) =~= places(shorter).push(old.last().place()));
        assert(places(shorter).no_duplicates()) by {
            assert forall|i: int, j: int|
                0 <= i < places(shorter).len() && 0 <= j < places(shorter).len() && i
                    != j implies places(shorter)[i] != places(shorter)[j] by {
                assert(places(old)[i] != places(old)[j]);
            }
        }
        lemma_backups(shorter, directory, taken);
        let last = (old.len() - 1) as nat;
        let kept = (old.last().place(), backup_path(directory, last).place());
        if taken.contains(old.last().place()) {
            assert(after =~= before.push(kept));
        } else {
            assert(after =~= before);
        }
        assert(places(old)[last as int] == old.last().place());
        assert forall|place: Place| places(shorter).contains(place) implies #[trigger] places(
            old,
        ).contains(place) && place != old.last().place() by {
            let i = choose|i: int| 0 <= i < places(shorter).len() && places(shorter)[i] == place;
            assert(places(old)[i] == place);
            assert(places(old)[i] != places(old)[last as int]);
        }
        assert forall|i: int| 0 <= i < after.len() implies {
            let pair = #[trigger] after[i];
            &&& places(old).contains(pair.0) && taken.contains(pair.0)
            &&& exists|k: nat|
                k < old.len() && pair.1 == (#[trigger] backup_path(directory, k)).place()
        } by {
            if i < before.len() {
                assert(after[i] == before[i]);
                assert(places(shorter).contains(before[i].0));
                let k = choose|k: nat|
                    k < shorter.len() && before[i].1 == (#[trigger] backup_path(
                        directory,
                        k,
                    )).place();
                assert(after[i].1 == backup_path(directory, k).place());
            } else {
                assert(after[i].1 == backup_path(directory, last).place());
                assert(places(old).contains(places(old)[last as int]));
            }
        }
        assert forall|place: Place| #[trigger]
            places(old).contains(place) && taken.contains(place) implies is_origin(after, place) by {
            let i = choose|i: int| 0 <= i < places(old).len() && places(old)[i] == place;
            if i < shorter.len() {
                assert(places(shorter)[i] == place);
                assert(places(shorter).contains(place) && taken.contains(place));
                let k = choose|k: int| 0 <= k < before.len() && (#[trigger] before[k]).0 == place;
                assert(after[k].0 == place);
            } else {
                assert(after[before.len() as int].0 == place);
            }
        }
        assert forall|i: int, j: int| 0 <= i < j < after.len() implies (#[trigger] after[i]).0 != (
        #[trigger] after[j]).0 && after[i].1 != after[j].1 by {
            if j < before.len() {
                assert(before[i].0 != before[j].0);
            } else {
                assert(after[i] == before[i]);
                assert(places(shorter).contains(before[i].0));
                let k = choose|k: nat|
                    k < shorter.len() && before[i].1 == (#[trigger] backup_path(
                        directory,
                        k,
                    )).place();
                lemma_backup_paths_differ(directory, k, last);
            }
        }
    }
}

proof fn lemma_destinations(
    moves: Seq<(PathModel, PathModel)>,
    old: Seq<PathModel>,
    taken: Seq<Place>,
)
    requires
        destinations_problem(moves, old, taken) is None,
    ensures
        forall|m: int|
            0 <= m < moves.len() && taken.contains((#[trigger] placed_pairs(moves)[m]).1) ==> places(
                old,
            ).contains(placed_pairs(moves)[m].1),
        forall|m: int, n: int|
            0 <= m < n < moves.len() ==> (#[trigger] placed_pairs(moves)[m]).1 != (
            #[trigger] placed_pairs(moves)[n]).1,
    decreases moves.len(),
{
    if moves.len() > 0 {
        let shorter = placed_pairs(moves.drop_last());
        let all = placed_pairs(moves);
        lemma_destinations(moves.drop_last(), old, taken);
        assert forall|m: int|
            0 <= m < moves.len() && taken.contains((#[trigger] all[m]).1) implies places(
            old,
        ).contains(all[m].1) by {
            if m < shorter.len() {
                assert(shorter[m] == all[m]);
            }
        }
        assert forall|m: int, n: int| 0 <= m < n < moves.len() implies (#[trigger] all[m]).1 != (
        #[trigger] all[n]).1 by {
            assert(shorter[m] == all[m]);
            if n < shorter.len() {
                assert(shorter[n] == all[n]);
            } else {
                assert(!is_destination(shorter, moves.last().1.place()));
            }
        }
    }
}

/// Whether the files are those that a transaction is prepared for: they are the ones that
/// are there, no name that a replaced file is kept under is in use, and the first
/// `published` staged files are there, each staged once and none of them to be replaced.
pub open spec fn prepared_for(
    media: Option<(PathModel, PathModel)>,
    removed_media: Option<PathModel>,
    list: Seq<PublicationModel>,
    taken: Seq<Place>,
    files: Files,
    published: int,
) -> bool {
    let moves = placed_pairs(all_moves(media, list));
    let old = old_paths(removed_media, list);
    let directory = staging_directory(media, list)->0;
    &&& forall|place: Place| #[trigger] files.contains_key(place) <==> taken.contains(place)
    &&& forall|number: nat|
        number < old.len() ==> !files.contains_key(
            (#[trigger] backup_path(directory, number)).place(),
        ) && !is_destination(moves, backup_path(directory, number).place())
    &&& forall|m: int|
        0 <= m < published ==> files.contains_key((#[trigger] moves[m]).0) && !places(old).contains(
            moves[m].0,
        )
    &&& forall|m: int, n: int|
        0 <= m < n < published ==> (#[trigger] moves[m]).0 != (#[trigger] moves[n]).0
}

/// What was made of a prepared transaction fits the files, and the next move goes to a free
/// place.
proof fn lemma_prepared_transactions_fit(
    media: Option<(PathModel, PathModel)>,
    removed_media: Option<PathModel>,
    list: Seq<PublicationModel>,
    taken: Seq<Place>,
    files: Files,
    transaction: TransactionModel,
)
    requires
        prepared(media, removed_media, list, taken, false) is Ok,
        transaction == (TransactionModel {
            done: transaction.done,
            ..prepared(media, removed_media, list, taken, false)->Ok_0
        }),
        transaction.valid(),
        prepared_for(media, removed_media, list, taken, files, transaction.published()),
    ensures
        transaction.placed().made().fits(files),
        transaction.placed().attempts_free_place(files),
{
    let moves = placed_pairs(all_moves(media, list));
    let old = old_paths(removed_media, list);
    let directory = staging_directory(media, list)->0;
    ordered_paths_are_the_same(all_removed(list));
    if let Some(path) = removed_media {
        lemma_inserted_once(ordered(all_removed(list)), path);
    }
    assert(places(old).no_duplicates());
    lemma_backups(old, directory, taken);
    lemma_destinations(all_moves(media, list), old, taken);
    let placed = transaction.placed();
    let all = placed.backups;
    let backups = placed.made().backups;
    let made = placed.made().moves;
    assert(all == placed_backups(old, directory, taken));
    assert(orderly(files, all)) by {
        assert forall|i: int| 0 <= i < all.len() implies files.contains_key((#[trigger] all[i]).0)
            && !files.contains_key(all[i].1) by {
            let k = choose|k: nat|
                k < old.len() && all[i].1 == (#[trigger] backup_path(directory, k)).place();
            assert(!files.contains_key(backup_path(directory, k).place()));
            assert(taken.contains(all[i].0));
            assert(files.contains_key(all[i].0));
        }
    }
    lemma_orderly_prefix(files, all, placed.backed_up());
    assert forall|m: int| 0 <= m < moves.len() implies {
        &&& files.contains_key((#[trigger] moves[m]).1) ==> is_origin(all, moves[m].1)
        &&& !is_destination(all, moves[m].1)
    } by {
        if files.contains_key(moves[m].1) {
            assert(taken.contains(moves[m].1));
            assert(places(old).contains(moves[m].1) && taken.contains(moves[m].1));
        }
        assert(!is_destination(all, moves[m].1)) by {
            assert forall|i: int| 0 <= i < all.len() implies (#[trigger] all[i]).1
                != moves[m].1 by {
                let k = choose|k: nat|
                    k < old.len() && all[i].1 == (#[trigger] backup_path(directory, k)).place();
                assert(!is_destination(moves, backup_path(directory, k).place()));
            }
        }
    }
    if placed.done >= all.len() {
        assert(backups =~= all);
    }
    assert forall|m: int| 0 <= m < made.len() implies {
        &&& files.contains_key((#[trigger] made[m]).0)
        &&& !is_origin(backups, made[m].0)
        &&& files.contains_key(made[m].1) ==> is_origin(backups, made[m].1)
        &&& !is_destination(backups, made[m].1)
    } by {
        assert(made[m] == moves[m]);
        assert(!is_origin(backups, moves[m].0)) by {
            assert forall|i: int| 0 <= i < backups.len() implies (#[trigger] backups[i]).0
                != moves[m].0 by {
                assert(places(old).contains(all[i].0));
            }
        }
    }
    assert forall|m: int, n: int| 0 <= m < n < made.len() implies (#[trigger] made[m]).0 != (
    #[trigger] made[n]).0 && made[m].1 != made[n].1 by {
        assert(moves[m].0 != moves[n].0);
        assert(moves[m].1 != moves[n].1);
    }
    if placed.done < all.len() {
        let next = placed.done as int;
        assert(!files.contains_key(all[next].1));
        assert(!is_destination(backups, all[next].1)) by {
            assert forall|i: int| 0 <= i < backups.len() implies (#[trigger] backups[i]).1
                != all[next].1 by {
                assert(all[i].1 != all[next].1);
            }
        }
    } else if placed.published() < moves.len() {
        assert(!is_destination(all, moves[placed.published()].1));
    }
}

/// A prepared transaction fits the files it was prepared for: so it puts everything in
/// place where no move fails.
pub proof fn prepared_transactions_fit(
    media: Option<(PathModel, PathModel)>,
    removed_media: Option<PathModel>,
    list: Seq<PublicationModel>,
    taken: Seq<Place>,
    files: Files,
)
    requires
        prepared(media, removed_media, list, taken, false) is Ok,
        prepared_for(
            media,
            removed_media,
            list,
            taken,
            files,
            all_moves(media, list).len() as int,
        ),
    ensures
        (prepared(media, removed_media, list, taken, false)->Ok_0).placed().fits(files),
        (prepared(media, removed_media, list, taken, false)->Ok_0).valid(),
{
    let fresh = prepared(media, removed_media, list, taken, false)->Ok_0;
    let whole = TransactionModel { done: fresh.backups.len() + fresh.moves.len(), ..fresh };
    lemma_prepared_transactions_fit(media, removed_media, list, taken, files, whole);
    assert(whole.placed().made().backups =~= fresh.placed().backups);
    assert(whole.placed().made().moves =~= fresh.placed().moves);
}

/// A prepared transaction is all or nothing: where it fails at any step, for whatever
/// reason, and is undone, every file to replace and every destination is as it was, and so
/// is everything else but for the staged files that were already published. The staged
/// files of the moves that were not made need not even be there.
pub proof fn failed_transactions_change_nothing(
    media: Option<(PathModel, PathModel)>,
    removed_media: Option<PathModel>,
    list: Seq<PublicationModel>,
    taken: Seq<Place>,
    files: Files,
    transaction: TransactionModel,
    left: Option<Seq<u8>>,
)
    requires
        prepared(media, removed_media, list, taken, false) is Ok,
        transaction == (TransactionModel {
            done: transaction.done,
            ..prepared(media, removed_media, list, taken, false)->Ok_0
        }),
        transaction.valid(),
        prepared_for(media, removed_media, list, taken, files, transaction.published()),
    ensures
        forall|place: Place|
            #![trigger transaction.placed().files_rolled_back(files, left).contains_key(place)]
            !is_origin(transaction.placed().made().moves, place) ==> {
                let after = transaction.placed().files_rolled_back(files, left);
                &&& after.contains_key(place) == files.contains_key(place)
                &&& files.contains_key(place) ==> after[place] == files[place]
            },
        forall|place: Place|
            places(old_paths(removed_media, list)).contains(place) || is_destination(
                placed_pairs(all_moves(media, list)),
                place,
            ) ==> !#[trigger] is_origin(transaction.placed().made().moves, place),
{
    lemma_prepared_transactions_fit(media, removed_media, list, taken, files, transaction);
    rollbacks_restore_everything(transaction.placed(), files, left);
    let moves = placed_pairs(all_moves(media, list));
    let old = places(old_paths(removed_media, list));
    let made = transaction.placed().made().moves;
    lemma_destinations(all_moves(media, list), old_paths(removed_media, list), taken);
    assert forall|place: Place| old.contains(place) || is_destination(moves, place) implies !(
    #[trigger] is_origin(made, place)) by {
        assert forall|m: int| 0 <= m < made.len() implies (#[trigger] made[m]).0 != place by {
            assert(made[m] == moves[m]);
            assert(files.contains_key(moves[m].0));
            assert(!old.contains(moves[m].0));
            if is_destination(moves, place) {
                let n = choose|n: int| 0 <= n < moves.len() && (#[trigger] moves[n]).1 == place;
                assert(taken.contains(moves[n].1) ==> old.contains(moves[n].1));
            }
        }
    }
}

/// A transaction is refused where it is cancelled before it starts, where there is no
/// staging directory, and where a destination cannot be used: there is then no transaction,
/// and so no move. Nor has one that is not refused moved anything yet.
pub proof fn refusals_touch_nothing(
    media: Option<(PathModel, PathModel)>,
    removed_media: Option<PathModel>,
    list: Seq<PublicationModel>,
    taken: Seq<Place>,
    cancelled: bool,
    files: Files,
)
    ensures
        cancelled || staging_directory(media, list) is None || destinations_problem(
            all_moves(media, list),
            old_paths(removed_media, list),
            taken,
        ) is Some <==> prepared(media, removed_media, list, taken, cancelled) is Err,
        cancelled ==> prepared(media, removed_media, list, taken, cancelled) == Err::<
            TransactionModel,
            ErrorModel,
        >(ErrorModel::Cancelled),
        prepared(media, removed_media, list, taken, cancelled) is Ok ==> (prepared(
            media,
            removed_media,
            list,
            taken,
            cancelled,
        )->Ok_0).placed().files_after(files) == files,
{
    if prepared(media, removed_media, list, taken, cancelled) is Ok {
        let fresh = prepared(media, removed_media, list, taken, cancelled)->Ok_0;
        let placed = fresh.placed();
        assert(placed.backups.take(placed.backed_up()) =~= Seq::empty());
        assert(placed.moves.take(placed.published()) =~= Seq::empty());
    }
}

proof fn lemma_all_staged(list: Seq<PublicationModel>, i: int, k: int)
    requires
        0 <= i < list.len(),
        0 <= k < list[i].staged.len(),
    ensures
        all_staged(list).contains(list[i].staged[k]),
    decreases list.len(),
{
    let before = all_staged(list.drop_last());
    let all = all_staged(list);
    if i < list.len() - 1 {
        lemma_all_staged(list.drop_last(), i, k);
        assert(all[before.index_of(list[i].staged[k])] == list[i].staged[k]);
    } else {
        assert(all[before.len() + k] == list[i].staged[k]);
    }
}

proof fn lemma_staged_somewhere(list: Seq<PublicationModel>, at: int)
    requires
        0 <= at < all_staged(list).len(),
    ensures
        exists|i: int, k: int|
            0 <= i < list.len() && 0 <= k < list[i].staged.len() && #[trigger] list[i].staged[k]
                == all_staged(list)[at],
    decreases list.len(),
{
    let fewer = list.drop_last();
    let before = all_staged(fewer);
    if at < before.len() {
        lemma_staged_somewhere(fewer, at);
        let (i, k) = choose|i: int, k: int|
            0 <= i < fewer.len() && 0 <= k < fewer[i].staged.len() && #[trigger] fewer[i].staged[k]
                == before[at];
        assert(list[i].staged[k] == all_staged(list)[at]);
    } else {
        let i = list.len() - 1;
        let k = at - before.len();
        assert(list[i].staged[k] == all_staged(list)[at]);
    }
}

/// What a save moves into place is the media first, if that was written, and then every
/// file of every publication, and nothing else.
pub proof fn everything_staged_is_moved(
    media: (PathModel, PathModel),
    list: Seq<PublicationModel>,
    pair: (PathModel, PathModel),
)
    ensures
        all_moves(Some(media), list)[0] == media,
        all_moves(Some(media), list).skip(1) == all_moves(None, list),
        all_moves(None, list).contains(pair) <==> exists|i: int, k: int|
            0 <= i < list.len() && 0 <= k < list[i].staged.len() && #[trigger] list[i].staged[k]
                == pair,
{
    assert(all_moves(Some(media), list).skip(1) =~= all_moves(None, list));
    if exists|i: int, k: int|
        0 <= i < list.len() && 0 <= k < list[i].staged.len() && #[trigger] list[i].staged[k] == pair {
        let (i, k) = choose|i: int, k: int|
            0 <= i < list.len() && 0 <= k < list[i].staged.len() && #[trigger] list[i].staged[k]
                == pair;
        lemma_all_staged(list, i, k);
    }
    if all_moves(None, list).contains(pair) {
        lemma_staged_somewhere(list, all_staged(list).index_of(pair));
    }
}

proof fn lemma_all_removed(list: Seq<PublicationModel>, place: Place)
    ensures
        places(all_removed(list)).contains(place) <==> exists|i: int, k: int|
            0 <= i < list.len() && 0 <= k < list[i].remove.len() && (
            #[trigger] list[i].remove[k]).place() == place,
    decreases list.len(),
{
    if list.len() > 0 {
        let fewer = list.drop_last();
        let before = all_removed(fewer);
        let all = all_removed(list);
        lemma_all_removed(fewer, place);
        lemma_places(before, place);
        lemma_places(all, place);
        if exists|i: int, k: int|
            0 <= i < list.len() && 0 <= k < list[i].remove.len() && (
            #[trigger] list[i].remove[k]).place() == place {
            let (i, k) = choose|i: int, k: int|
                0 <= i < list.len() && 0 <= k < list[i].remove.len() && (
                #[trigger] list[i].remove[k]).place() == place;
            if i < fewer.len() {
                assert(fewer[i].remove[k].place() == place);
                let at = choose|at: int|
                    0 <= at < before.len() && (#[trigger] before[at]).place() == place;
                assert(all[at] == before[at]);
            } else {
                assert(all[before.len() + k].place() == place);
            }
        }
        if places(all).contains(place) {
            let at = choose|at: int| 0 <= at < all.len() && (#[trigger] all[at]).place() == place;
            if at < before.len() {
                assert(before[at].place() == place);
                let (i, k) = choose|i: int, k: int|
                    0 <= i < fewer.len() && 0 <= k < fewer[i].remove.len() && (
                    #[trigger] fewer[i].remove[k]).place() == place;
                assert(list[i].remove[k].place() == place);
            } else {
                assert(list[list.len() - 1].remove[at - before.len()].place() == place);
            }
        }
    } else {
        lemma_places(all_removed(list), place);
    }
}

/// What a save takes away is the media that it replaces, if it does, and what any of its
/// publications takes away.
pub proof fn everything_replaced_is_taken_away(
    removed_media: Option<PathModel>,
    list: Seq<PublicationModel>,
    place: Place,
)
    ensures
        places(old_paths(removed_media, list)).contains(place) <==> (removed_media is Some
            && removed_media->0.place() == place) || exists|i: int, k: int|
            0 <= i < list.len() && 0 <= k < list[i].remove.len() && (
            #[trigger] list[i].remove[k]).place() == place,
{
    lemma_all_removed(list, place);
    ordered_paths_are_the_same(all_removed(list));
    if removed_media is Some {
        lemma_inserted_once(ordered(all_removed(list)), removed_media->0);
    }
}

/// That a move goes where no earlier one goes and where nothing stands that stays.
pub open spec fn goes_to_free_place(
    moves: Seq<(PathModel, PathModel)>,
    old: Seq<PathModel>,
    taken: Seq<Place>,
    m: int,
) -> bool {
    let place = moves[m].1.place();
    &&& forall|k: int| 0 <= k < m ==> (#[trigger] moves[k]).1.place() != place
    &&& taken.contains(place) ==> places(old).contains(place)
}

proof fn lemma_free_place(
    moves: Seq<(PathModel, PathModel)>,
    old: Seq<PathModel>,
    taken: Seq<Place>,
    m: int,
)
    requires
        0 <= m < moves.len(),
    ensures
        goes_to_free_place(moves, old, taken, m) <==> destination_problem(
            moves.take(m),
            moves[m].1,
            old,
            taken,
        ) is None,
        (exists|k: int| 0 <= k < m && (#[trigger] moves[k]).1.place() == moves[m].1.place())
            <==> is_destination(placed_pairs(moves.take(m)), moves[m].1.place()),
{
    let earlier = placed_pairs(moves.take(m));
    let place = moves[m].1.place();
    assert forall|k: int| 0 <= k < m implies (#[trigger] earlier[k]).1 == moves[k].1.place() by {}
    if is_destination(earlier, place) {
        let k = choose|k: int| 0 <= k < earlier.len() && (#[trigger] earlier[k]).1 == place;
        assert(moves[k].1.place() == place);
    }
    if exists|k: int| 0 <= k < m && (#[trigger] moves[k]).1.place() == place {
        let k = choose|k: int| 0 <= k < m && (#[trigger] moves[k]).1.place() == place;
        assert(earlier[k].1 == place);
    }
}

/// A save is refused where two files should go to one place, or one to a place where a file
/// stands that is not taken away; the first such place is told.
pub proof fn saves_overwrite_nothing_unasked(
    moves: Seq<(PathModel, PathModel)>,
    old: Seq<PathModel>,
    taken: Seq<Place>,
    m: int,
)
    ensures
        destinations_problem(moves, old, taken) is None <==> forall|k: int|
            0 <= k < moves.len() ==> #[trigger] goes_to_free_place(moves, old, taken, k),
        0 <= m < moves.len() && !goes_to_free_place(moves, old, taken, m) && (forall|k: int|
            0 <= k < m ==> #[trigger] goes_to_free_place(moves, old, taken, k))
            ==> destinations_problem(moves, old, taken) == if exists|k: int|
            0 <= k < m && (#[trigger] moves[k]).1.place() == moves[m].1.place() {
            Some("Two subtitle outputs resolve to "@ + moves[m].1.shown() + "."@)
        } else {
            Some(moves[m].1.shown() + " already exists; no files were changed."@)
        },
    decreases moves.len(),
{
    if moves.len() > 0 {
        let fewer = moves.drop_last();
        let last = moves.len() - 1;
        saves_overwrite_nothing_unasked(fewer, old, taken, m);
        assert(fewer =~= moves.take(last));
        lemma_free_place(moves, old, taken, last);
        assert forall|k: int| 0 <= k < last implies #[trigger] goes_to_free_place(
            moves,
            old,
            taken,
            k,
        ) == goes_to_free_place(fewer, old, taken, k) by {
            lemma_free_place(moves, old, taken, k);
            lemma_free_place(fewer, old, taken, k);
            assert(fewer.take(k) =~= moves.take(k));
        }
        assert forall|k: int| 0 <= k < last implies #[trigger] goes_to_free_place(
            fewer,
            old,
            taken,
            k,
        ) == goes_to_free_place(moves, old, taken, k) by {}
        if 0 <= m < last {
            lemma_free_place(moves, old, taken, m);
            lemma_free_place(fewer, old, taken, m);
            assert(fewer.take(m) =~= moves.take(m));
        }
    }
}

/// Every file that is taken away and is there is kept aside first, each under a number of
/// its own.
pub proof fn old_files_are_kept_aside(
    old: Seq<PathModel>,
    directory: Part,
    taken: Seq<Place>,
    i: int,
)
    ensures
        0 <= i < old.len() && taken.contains(old[i].place()) ==> backups_of(
            old,
            directory,
            taken,
        ).contains(
            (old[i], in_directory(directory, "transaction-backup-"@ + decimal(i as nat))),
        ),
        0 <= i < backups_of(old, directory, taken).len() ==> {
            let kept = backups_of(old, directory, taken)[i];
            old.contains(kept.0) && taken.contains(kept.0.place())
        },
    decreases old.len(),
{
    if old.len() > 0 {
        let fewer = old.drop_last();
        let before = backups_of(fewer, directory, taken);
        let all = backups_of(old, directory, taken);
        old_files_are_kept_aside(fewer, directory, taken, i);
        if 0 <= i < old.len() && taken.contains(old[i].place()) {
            let pair = (
                old[i],
                in_directory(directory, "transaction-backup-"@ + decimal(i as nat)),
            );
            if i < fewer.len() {
                assert(before.contains(pair));
                assert(all[before.index_of(pair)] == pair);
            } else {
                assert(all[before.len() as int] == pair);
            }
        }
        if 0 <= i < all.len() {
            if i < before.len() {
                assert(all[i] == before[i]);
                let at = fewer.index_of(before[i].0);
                assert(old[at] == before[i].0);
            } else {
                assert(old[old.len() - 1] == all[i].0);
            }
        }
    }
}

/// Files are kept aside in the directory of the written media, or else in that of the first
/// staged file.
pub proof fn old_files_are_kept_beside_the_new(
    media: (PathModel, PathModel),
    list: Seq<PublicationModel>,
)
    ensures
        media.0.directory is Some ==> staging_directory(Some(media), list) == media.0.directory,
        list.len() > 0 && list[0].staged.len() > 0 ==> staging_directory(None, list)
            == list[0].staged[0].0.directory,
        list.len() == 0 ==> staging_directory(None, list) is None,
{
    if list.len() > 0 && list[0].staged.len() > 0 {
        lemma_first_staged(list);
    }
}

proof fn lemma_first_staged(list: Seq<PublicationModel>)
    requires
        list.len() > 0,
        list[0].staged.len() > 0,
    ensures
        all_staged(list).len() > 0,
        all_staged(list)[0] == list[0].staged[0],
    decreases list.len(),
{
    reveal_with_fuel(all_staged, 2);
    if list.len() > 1 {
        lemma_first_staged(list.drop_last());
    }
}

/// A save keeps the old files aside one by one, then puts the new ones in place one by one,
/// and then lets go of the old ones.
pub proof fn saves_go_step_by_step(transaction: TransactionModel, reason: Seq<char>)
    requires
        transaction.valid(),
    ensures
        ({
            let backups = transaction.backups;
            let moves = transaction.moves;
            let done = transaction.done as int;
            &&& done < backups.len() ==> transaction.next() == (StepModel::Move {
                from: backups[done].0,
                to: backups[done].1,
                phase: Phase::BackupFile(shown_name(backups[done].0)),
            }) && transaction.failure(false, reason) == ErrorModel::Failed(
                "Could not stage existing file for replacement: "@ + reason,
            )
            &&& backups.len() <= done < backups.len() + moves.len() ==> transaction.next() == (
            StepModel::Move {
                from: moves[done - backups.len()].0,
                to: moves[done - backups.len()].1,
                phase: Phase::PublishFile(shown_name(moves[done - backups.len()].1)),
            }) && transaction.failure(false, reason) == ErrorModel::Failed(
                "Could not publish the completed edit: "@ + reason,
            )
            &&& done == backups.len() + moves.len() ==> transaction.next() is RemoveBackups
                && transaction.next()->RemoveBackups_0.len() == backups.len() && forall|i: int|
                0 <= i < backups.len() ==> (#[trigger] transaction.next()->RemoveBackups_0[i])
                    == backups[i].1
            &&& transaction.failure(true, reason) == ErrorModel::Cancelled
        }),
{
}

} // verus!
