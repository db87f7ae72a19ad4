//! Exports that would land on one name, or on a name that is taken.

use vstd::prelude::*;
use vstd::string::StringExecFns;

use crate::names::{numbered_of, numbered_subtitle_path};
use crate::path::{
    holds_path, in_directory, insert_path, lemma_places, names_tell_files_apart, ordered,
    ordered_paths_are_the_same, paths, places, FilePath, Part, PathModel, PathText, Place,
};
use crate::publication::{copy_pairs, path_pairs, publications, Publication, PublicationModel};
use crate::sources::{EditError, ErrorModel};
use crate::text::{
    decimal, joined, joined_pieces_come_apart, number_text, numbers_read_back, pieces, same_text,
};

verus! {

/// Whether a publication is an export: it puts something in place and nothing goes in
/// exchange.
pub open spec fn is_export(publication: PublicationModel) -> bool {
    publication.remove.len() == 0 && publication.staged.len() > 0
}

/// The destinations of the exports, in order of the publications.
pub open spec fn export_bases(list: Seq<PublicationModel>) -> Seq<PathModel>
    decreases list.len(),
{
    if list.len() == 0 {
        Seq::empty()
    } else if is_export(list.last()) {
        export_bases(list.drop_last()).push(list.last().staged[0].1)
    } else {
        export_bases(list.drop_last())
    }
}

/// The positions of the exports to a destination.
pub open spec fn members(list: Seq<PublicationModel>, base: PathModel) -> Seq<int>
    decreases list.len(),
{
    if list.len() == 0 {
        Seq::empty()
    } else if is_export(list.last()) && list.last().staged[0].1.place() == base.place() {
        members(list.drop_last(), base).push(list.len() - 1)
    } else {
        members(list.drop_last(), base)
    }
}

/// The destinations of some pairs.
pub open spec fn destinations(pairs: Seq<(PathModel, PathModel)>) -> Seq<PathModel> {
    pairs.map_values(|pair: (PathModel, PathModel)| pair.1)
}

/// The destinations of the publications that are no exports.
pub open spec fn kept_destinations(list: Seq<PublicationModel>) -> Seq<PathModel>
    decreases list.len(),
{
    if list.len() == 0 {
        Seq::empty()
    } else if list.last().remove.len() > 0 {
        kept_destinations(list.drop_last()) + destinations(list.last().staged)
    } else {
        kept_destinations(list.drop_last())
    }
}

/// How far the names of the exports are settled: the publications, those that are added
/// for files that are there, the copies they need, and the destinations that are given
/// away.
pub ghost struct Settled {
    pub publications: Seq<PublicationModel>,
    pub added: Seq<PublicationModel>,
    pub copies: Seq<(PathModel, PathModel)>,
    pub reserved: Seq<PathModel>,
}

/// The first number from `number` on under which a destination is not taken and not given
/// away.
pub open spec fn free_number(
    base: PathModel,
    number: nat,
    taken: Seq<Place>,
    reserved: Seq<PathModel>,
) -> Option<nat>
    decreases usize::MAX + 1 - number,
{
    if number > usize::MAX {
        None
    } else if !taken.contains(numbered_of(base, number)->Ok_0.place()) && !places(reserved).contains(
        numbered_of(base, number)->Ok_0.place(),
    ) {
        Some(number)
    } else {
        free_number(base, number + 1, taken, reserved)
    }
}

/// A file of an export under its new destination: a companion stays a companion.
pub open spec fn moved_target(target: PathModel, destination: PathModel) -> PathModel {
    if target.extension() == Some("idx"@) {
        destination.with_extension("idx"@)
    } else {
        destination
    }
}

/// The files of an export under its new destination.
pub open spec fn moved_pairs(pairs: Seq<(PathModel, PathModel)>, destination: PathModel) -> Seq<
    (PathModel, PathModel),
> {
    pairs.map_values(
        |pair: (PathModel, PathModel)| (pair.0, moved_target(pair.1, destination)),
    )
}

/// One export under its new destination.
pub open spec fn moved_export(settled: Settled, member: int, destination: PathModel) -> Settled {
    let publication = settled.publications[member];
    let staged = moved_pairs(publication.staged, destination);
    Settled {
        publications: settled.publications.update(
            member,
            PublicationModel { staged, remove: publication.remove },
        ),
        reserved: settled.reserved + destinations(staged),
        ..settled
    }
}

/// The exports of one destination under free numbers, from `number` on; `None` where the
/// numbers run out.
pub open spec fn numbered_exports(
    settled: Settled,
    base: PathModel,
    positions: Seq<int>,
    number: nat,
    taken: Seq<Place>,
) -> Option<Settled>
    decreases positions.len(),
{
    if positions.len() == 0 {
        Some(settled)
    } else {
        match free_number(base, number, taken, settled.reserved) {
            None => None,
            Some(free) => numbered_exports(
                moved_export(settled, positions[0], numbered_of(base, free)->Ok_0),
                base,
                positions.skip(1),
                free + 1,
                taken,
            ),
        }
    }
}

/// The files that are there under a destination, with where they go to make room: under
/// the number one.
pub open spec fn displaced(base: PathModel, first: PathModel, companion: bool) -> Seq<
    (PathModel, PathModel),
> {
    if companion {
        seq![(base, first), (base.with_extension("idx"@), first.with_extension("idx"@))]
    } else {
        seq![(base, first)]
    }
}

/// The name a displaced file is staged under.
pub open spec fn displaced_name(member: int, position: int) -> Seq<char> {
    "normalize-"@ + decimal(member as nat) + "-"@ + decimal(position as nat)
}

/// The staged copies of displaced files.
pub open spec fn displaced_staged(
    pairs: Seq<(PathModel, PathModel)>,
    workspace: Part,
    member: int,
) -> Seq<PathModel> {
    Seq::new(
        pairs.len(),
        |position: int| in_directory(workspace, displaced_name(member, position)),
    )
}

/// Pairs made of two lists.
pub open spec fn zipped(left: Seq<PathModel>, right: Seq<PathModel>) -> Seq<(PathModel, PathModel)> {
    Seq::new(left.len(), |position: int| (left[position], right[position]))
}

/// The sources of some pairs.
pub open spec fn origins(pairs: Seq<(PathModel, PathModel)>) -> Seq<PathModel> {
    pairs.map_values(|pair: (PathModel, PathModel)| pair.0)
}

/// Files that are there make room: they are copied, published under the number one, and
/// go in exchange for the first export.
pub open spec fn room_made(
    settled: Settled,
    base: PathModel,
    first: PathModel,
    member: int,
    workspace: Part,
) -> Settled {
    let publication = settled.publications[member];
    let pairs = displaced(base, first, publication.staged.len() == 2);
    let staged = displaced_staged(pairs, workspace, member);
    Settled {
        publications: settled.publications.update(
            member,
            PublicationModel {
                staged: publication.staged,
                remove: publication.remove + origins(pairs),
            },
        ),
        added: settled.added.push(
            PublicationModel { staged: zipped(staged, destinations(pairs)), remove: Seq::empty() },
        ),
        copies: settled.copies + zipped(origins(pairs), staged),
        reserved: settled.reserved + destinations(pairs),
    }
}

/// The text of a name, or another where it is no valid text.
pub open spec fn name_or(path: PathModel, otherwise: Seq<char>) -> Seq<char> {
    match path.name_text() {
        Some(name) => name,
        None => otherwise,
    }
}

/// The failure to make room.
pub open spec fn no_room(base: PathModel, first: PathModel) -> ErrorModel {
    ErrorModel::Failed(
        "Cannot normalize duplicate subtitle "@ + name_or(base, "file"@) + " because "@ + name_or(
            first,
            "the .1 target"@,
        ) + " already exists."@,
    )
}

/// The failure when the numbers run out.
pub open spec fn no_number() -> ErrorModel {
    ErrorModel::Failed("Subtitle duplicate number is too large."@)
}

/// The exports of one destination settled. A lone export to a free name keeps it; where a
/// file is there, it goes to number one and the exports are numbered from two on; several
/// exports to a free name are numbered from one on.
pub open spec fn settled_base(
    settled: Settled,
    originals: Seq<PublicationModel>,
    base: PathModel,
    taken: Seq<Place>,
    workspace: Part,
) -> Result<Settled, ErrorModel> {
    let positions = members(originals, base);
    match numbered_of(base, 1) {
        Err(error) => Err(error),
        Ok(first) => if taken.contains(base.place()) {
            if taken.contains(first.place()) || places(settled.reserved).contains(first.place()) {
                Err(no_room(base, first))
            } else {
                match numbered_exports(
                    room_made(settled, base, first, positions[0], workspace),
                    base,
                    positions,
                    2,
                    taken,
                ) {
                    Some(settled) => Ok(settled),
                    None => Err(no_number()),
                }
            }
        } else if positions.len() == 1 {
            Ok(Settled { reserved: settled.reserved.push(base), ..settled })
        } else {
            match numbered_exports(settled, base, positions, 1, taken) {
                Some(settled) => Ok(settled),
                None => Err(no_number()),
            }
        },
    }
}

/// The exports of some destinations settled, one after another.
pub open spec fn settled_bases(
    settled: Settled,
    originals: Seq<PublicationModel>,
    bases: Seq<PathModel>,
    taken: Seq<Place>,
    workspace: Part,
) -> Result<Settled, ErrorModel>
    decreases bases.len(),
{
    if bases.len() == 0 {
        Ok(settled)
    } else {
        match settled_base(settled, originals, bases[0], taken, workspace) {
            Err(error) => Err(error),
            Ok(settled) => settled_bases(settled, originals, bases.skip(1), taken, workspace),
        }
    }
}

/// All exports settled, in the order of their destinations.
pub open spec fn settled_exports(
    originals: Seq<PublicationModel>,
    taken: Seq<Place>,
    workspace: Part,
) -> Result<Settled, ErrorModel> {
    settled_bases(
        Settled {
            publications: originals,
            added: Seq::empty(),
            copies: Seq::empty(),
            reserved: kept_destinations(originals),
        },
        originals,
        ordered(export_bases(originals)),
        taken,
        workspace,
    )
}

/// Publications whose exports are settled, and the copies to make before they can be
/// published.
#[derive(Debug, Eq, PartialEq)]
pub struct SettledExports {
    pub publications: Vec<Publication>,
    pub copies: Vec<(FilePath, FilePath)>,
}

/// Work on the exports: what [`Settled`] stands for.
struct Work {
    publications: Vec<Publication>,
    added: Vec<Publication>,
    copies: Vec<(FilePath, FilePath)>,
    reserved: Vec<FilePath>,
}

impl View for Work {
    type V = Settled;

    closed spec fn view(&self) -> Settled {
        Settled {
            publications: publications(self.publications@),
            added: publications(self.added@),
            copies: path_pairs(self.copies@),
            reserved: paths(self.reserved@),
        }
    }
}

fn copy_publications(list: &[Publication]) -> (result: Vec<Publication>)
    ensures
        publications(result@) == publications(list@),
{
    let mut result: Vec<Publication> = Vec::new();
    let mut i: usize = 0;
    while i < list.len()
        invariant
            0 <= i <= list.len(),
            publications(result@) =~= publications(list@).take(i as int),
        decreases list.len() - i,
    {
        let ghost before = result@;
        result.push(list[i].clone());
        assert(publications(result@) =~= publications(before).push(list@[i as int]@));
        i = i + 1;
    }
    assert(publications(list@).take(list@.len() as int) =~= publications(list@));
    result
}

fn find_bases(list: &[Publication]) -> (result: Vec<FilePath>)
    ensures
        paths(result@) == ordered(export_bases(publications(list@))),
{
    let ghost all = publications(list@);
    let mut result: Vec<FilePath> = Vec::new();
    let mut i: usize = 0;
    assert(paths(result@) =~= Seq::empty());
    while i < list.len()
        invariant
            0 <= i <= list.len(),
            all == publications(list@),
            paths(result@) == ordered(export_bases(all.take(i as int))),
        decreases list.len() - i,
    {
        proof {
            assert(all.take(i + 1).drop_last() =~= all.take(i as int));
            assert(all.take(i + 1).last() == list@[i as int]@);
        }
        if list[i].remove.len() == 0 && list[i].staged.len() > 0 {
            let ghost shorter = export_bases(all.take(i as int));
            assert(shorter.push(list@[i as int]@.staged[0].1).drop_last() =~= shorter);
            insert_path(&mut result, &list[i].staged[0].1);
        }
        i = i + 1;
    }
    assert(all.take(all.len() as int) =~= all);
    result
}

fn find_members(list: &[Publication], base: &FilePath) -> (result: Vec<usize>)
    ensures
        result@.map_values(|position: usize| position as int) == members(
            publications(list@),
            base@,
        ),
        forall|i: int| 0 <= i < result@.len() ==> (#[trigger] result@[i]) < list@.len(),
{
    let ghost all = publications(list@);
    let mut result: Vec<usize> = Vec::new();
    let mut i: usize = 0;
    assert(result@.map_values(|position: usize| position as int) =~= Seq::empty());
    while i < list.len()
        invariant
            0 <= i <= list.len(),
            all == publications(list@),
            result@.map_values(|position: usize| position as int) == members(
                all.take(i as int),
                base@,
            ),
            forall|k: int| 0 <= k < result@.len() ==> (#[trigger] result@[k]) < list@.len(),
        decreases list.len() - i,
    {
        let ghost before = result@;
        proof {
            assert(all.take(i + 1).drop_last() =~= all.take(i as int));
            assert(all.take(i + 1).last() == list@[i as int]@);
            assert(all.take(i + 1).len() == i + 1);
        }
        if list[i].remove.len() == 0 && list[i].staged.len() > 0 && list[i].staged[0].1.same(base) {
            result.push(i);
            assert(result@.map_values(|position: usize| position as int) =~= before.map_values(
                |position: usize| position as int,
            ).push(i as int));
        }
        i = i + 1;
    }
    assert(all.take(all.len() as int) =~= all);
    result
}

fn find_kept_destinations(list: &[Publication]) -> (result: Vec<FilePath>)
    ensures
        paths(result@) == kept_destinations(publications(list@)),
{
    let ghost all = publications(list@);
    let mut result: Vec<FilePath> = Vec::new();
    let mut i: usize = 0;
    assert(paths(result@) =~= Seq::empty());
    while i < list.len()
        invariant
            0 <= i <= list.len(),
            all == publications(list@),
            paths(result@) == kept_destinations(all.take(i as int)),
        decreases list.len() - i,
    {
        proof {
            assert(all.take(i + 1).drop_last() =~= all.take(i as int));
            assert(all.take(i + 1).last() == list@[i as int]@);
        }
        if list[i].remove.len() > 0 {
            push_destinations(&mut result, &list[i].staged);
        }
        i = i + 1;
    }
    assert(all.take(all.len() as int) =~= all);
    result
}

fn push_destinations(list: &mut Vec<FilePath>, pairs: &Vec<(FilePath, FilePath)>)
    ensures
        paths(final(list)@) == paths(old(list)@) + destinations(path_pairs(pairs@)),
{
    let ghost before = paths(list@);
    let ghost all = destinations(path_pairs(pairs@));
    let mut i: usize = 0;
    while i < pairs.len()
        invariant
            0 <= i <= pairs.len(),
            all == destinations(path_pairs(pairs@)),
            paths(list@) =~= before + all.take(i as int),
        decreases pairs.len() - i,
    {
        let ghost shorter = list@;
        list.push(pairs[i].1.clone());
        assert(paths(list@) =~= paths(shorter).push(pairs@[i as int].1@));
        i = i + 1;
    }
    assert(all.take(all.len() as int) =~= all);
}

fn find_free_number(
    base: &FilePath,
    start: Option<usize>,
    taken: &[FilePath],
    reserved: &Vec<FilePath>,
) -> (result: Option<(usize, FilePath)>)
    requires
        numbered_of(base@, 1) is Ok,
    ensures
        match result {
            Some((number, path)) => start is Some && free_number(
                base@,
                start->0 as nat,
                places(paths(taken@)),
                paths(reserved@),
            ) == Some(number as nat) && Ok::<PathModel, ErrorModel>(path@) == numbered_of(
                base@,
                number as nat,
            ),
            None => start is Some ==> free_number(
                base@,
                start->0 as nat,
                places(paths(taken@)),
                paths(reserved@),
            ) is None,
        },
{
    let mut number: usize = match start {
        Some(start) => start,
        None => return None,
    };
    loop
        invariant
            numbered_of(base@, 1) is Ok,
            start is Some,
            free_number(base@, start->0 as nat, places(paths(taken@)), paths(reserved@)) == free_number(
                base@,
                number as nat,
                places(paths(taken@)),
                paths(reserved@),
            ),
        decreases usize::MAX - number,
    {
        let candidate = match numbered_subtitle_path(base, number) {
            Ok(candidate) => candidate,
            Err(_) => return None,
        };
        if !holds_path(taken, &candidate) && !holds_path(reserved.as_slice(), &candidate) {
            return Some((number, candidate));
        }
        match number.checked_add(1) {
            Some(next) => {
                number = next;
            },
            None => {
                assert(free_number(base@, number as nat + 1, places(paths(taken@)), paths(reserved@))
                    is None);
                return None;
            },
        }
    }
}

fn move_pairs(pairs: &Vec<(FilePath, FilePath)>, destination: &FilePath) -> (result: Vec<
    (FilePath, FilePath),
>)
    ensures
        path_pairs(result@) == moved_pairs(path_pairs(pairs@), destination@),
{
    let ghost all = moved_pairs(path_pairs(pairs@), destination@);
    let mut result: Vec<(FilePath, FilePath)> = Vec::new();
    let mut i: usize = 0;
    while i < pairs.len()
        invariant
            0 <= i <= pairs.len(),
            all == moved_pairs(path_pairs(pairs@), destination@),
            path_pairs(result@) =~= all.take(i as int),
        decreases pairs.len() - i,
    {
        let companion = match pairs[i].1.extension() {
            Some(extension) => same_text(extension, "idx"),
            None => false,
        };
        let target = if companion {
            destination.with_extension("idx")
        } else {
            destination.clone()
        };
        let ghost before = result@;
        let ghost pair = (pairs@[i as int].0@, target@);
        result.push((pairs[i].0.clone(), target));
        assert(path_pairs(result@) =~= path_pairs(before).push(pair));
        i = i + 1;
    }
    assert(all.take(all.len() as int) =~= all);
    result
}

fn number_exports(
    before_numbering: Work,
    base: &FilePath,
    positions: &Vec<usize>,
    start: usize,
    taken: &[FilePath],
) -> (result: Option<Work>)
    requires
        numbered_of(base@, 1) is Ok,
        forall|i: int|
            0 <= i < positions@.len() ==> (#[trigger] positions@[i]) < before_numbering.publications@.len(),
    ensures
        match result {
            Some(after) => numbered_exports(
                before_numbering@,
                base@,
                positions@.map_values(|position: usize| position as int),
                start as nat,
                places(paths(taken@)),
            ) == Some(after@) && after.publications@.len() == before_numbering.publications@.len(),
            None => numbered_exports(
                before_numbering@,
                base@,
                positions@.map_values(|position: usize| position as int),
                start as nat,
                places(paths(taken@)),
            ) is None,
        },
{
    let ghost initial = before_numbering@;
    let ghost count = before_numbering.publications@.len();
    let ghost all = positions@.map_values(|position: usize| position as int);
    let mut work = before_numbering;
    let mut number: Option<usize> = Some(start);
    let mut i: usize = 0;
    assert(all.skip(0) =~= all);
    while i < positions.len()
        invariant
            0 <= i <= positions.len(),
            numbered_of(base@, 1) is Ok,
            initial == before_numbering@,
            count == before_numbering.publications@.len(),
            work.publications@.len() == count,
            all == positions@.map_values(|position: usize| position as int),
            forall|k: int| 0 <= k < positions@.len() ==> (#[trigger] positions@[k]) < count,
            numbered_exports(initial, base@, all, start as nat, places(paths(taken@))) == numbered_exports(
                work@,
                base@,
                all.skip(i as int),
                match number {
                    Some(number) => number as nat,
                    None => usize::MAX as nat + 1,
                },
                places(paths(taken@)),
            ),
        decreases positions.len() - i,
    {
        let member: usize = positions[i];
        assert(positions@[i as int] < count);
        assert(all.skip(i as int).skip(1) =~= all.skip(i + 1));
        assert(all.skip(i as int)[0] == member as int);
        let (free, destination) = match find_free_number(base, number, taken, &work.reserved) {
            Some(found) => found,
            None => {
                assert(free_number(
                    base@,
                    usize::MAX as nat + 1,
                    places(paths(taken@)),
                    paths(work.reserved@),
                ) is None);
                return None;
            },
        };
        let ghost before = work@;
        let staged = move_pairs(&work.publications[member].staged, &destination);
        let remove = crate::path::copy_paths(&work.publications[member].remove);
        push_destinations(&mut work.reserved, &staged);
        let publication = Publication { staged, remove };
        let ghost model = publication@;
        work.publications.set(member, publication);
        proof {
            assert(work@.publications =~= before.publications.update(member as int, model));
            assert(work@ == moved_export(before, member as int, destination@));
        }
        number = free.checked_add(1);
        i = i + 1;
    }
    Some(work)
}

fn make_room(work: Work, base: &FilePath, first: &FilePath, member: usize, workspace: &PathText) -> (result:
    Work)
    requires
        member < work.publications@.len(),
    ensures
        result@ == room_made(work@, base@, first@, member as int, workspace@),
        result.publications@.len() == work.publications@.len(),
{
    let ghost before = work@;
    let mut work = work;
    let companion: bool = work.publications[member].staged.len() == 2;
    let mut pairs: Vec<(FilePath, FilePath)> = Vec::new();
    pairs.push((base.clone(), first.clone()));
    if companion {
        pairs.push((base.with_extension("idx"), first.with_extension("idx")));
    }
    let ghost model = displaced(base@, first@, companion);
    assert(path_pairs(pairs@) =~= model);
    let ghost names = displaced_staged(model, workspace@, member as int);
    let mut remove = crate::path::copy_paths(&work.publications[member].remove);
    let ghost old_remove = paths(remove@);
    let mut staged: Vec<(FilePath, FilePath)> = Vec::new();
    let mut i: usize = 0;
    while i < pairs.len()
        invariant
            0 <= i <= pairs.len(),
            path_pairs(pairs@) == model,
            names == displaced_staged(model, workspace@, member as int),
            paths(remove@) =~= old_remove + origins(model).take(i as int),
            path_pairs(staged@) =~= zipped(names, destinations(model)).take(i as int),
            path_pairs(work.copies@) =~= before.copies + zipped(origins(model), names).take(
                i as int,
            ),
            publications(work.publications@) == before.publications,
            publications(work.added@) == before.added,
            paths(work.reserved@) == before.reserved,
        decreases pairs.len() - i,
    {
        let mut name = "normalize-".to_owned();
        name.append(number_text(member as u64).as_str());
        name.append("-");
        name.append(number_text(i as u64).as_str());
        let copy = FilePath::inside(workspace, name.as_str());
        let ghost removed = remove@;
        let ghost staged_before = staged@;
        let ghost copies = work.copies@;
        assert(model[i as int] == (pairs@[i as int].0@, pairs@[i as int].1@));
        assert(names[i as int] == copy@);
        remove.push(pairs[i].0.clone());
        work.copies.push((pairs[i].0.clone(), copy.clone()));
        staged.push((copy, pairs[i].1.clone()));
        assert(paths(remove@) =~= paths(removed).push(model[i as int].0));
        assert(path_pairs(staged@) =~= path_pairs(staged_before).push(
            (names[i as int], model[i as int].1),
        ));
        assert(path_pairs(work.copies@) =~= path_pairs(copies).push(
            (model[i as int].0, names[i as int]),
        ));
        i = i + 1;
    }
    push_destinations(&mut work.reserved, &pairs);
    let own = copy_pairs(&work.publications[member].staged);
    let publication = Publication { staged: own, remove };
    let ghost changed = publication@;
    let ghost old_publications = work.publications@;
    work.publications.set(member, publication);
    let added = Publication { staged, remove: Vec::new() };
    let ghost new = added@;
    let ghost old_added = work.added@;
    work.added.push(added);
    proof {
        assert(origins(model).take(pairs@.len() as int) =~= origins(model));
        assert(zipped(names, destinations(model)).take(pairs@.len() as int) =~= zipped(
            names,
            destinations(model),
        ));
        assert(zipped(origins(model), names).take(pairs@.len() as int) =~= zipped(
            origins(model),
            names,
        ));
        assert(publications(work.publications@) =~= before.publications.update(
            member as int,
            changed,
        ));
        assert(publications(work.added@) =~= before.added.push(new));
        assert(new.remove =~= Seq::<PathModel>::empty());
        assert(before.publications[member as int] == old_publications[member as int]@);
        assert(changed.staged == before.publications[member as int].staged);
        assert(work@ == room_made(before, base@, first@, member as int, workspace@));
    }
    work
}

fn no_room_error(base: &FilePath, first: &FilePath) -> (result: EditError)
    ensures
        result@ == no_room(base@, first@),
{
    let base_name = match base.name_text() {
        Some(name) => name,
        None => "file".to_owned(),
    };
    let first_name = match first.name_text() {
        Some(name) => name,
        None => "the .1 target".to_owned(),
    };
    let mut message = "Cannot normalize duplicate subtitle ".to_owned();
    message.append(base_name.as_str());
    message.append(" because ");
    message.append(first_name.as_str());
    message.append(" already exists.");
    EditError::Failed(message)
}

fn settle_base(
    work: Work,
    list: &[Publication],
    base: &FilePath,
    taken: &[FilePath],
    workspace: &PathText,
) -> (result: Result<Work, EditError>)
    requires
        work.publications@.len() == list@.len(),
        members(publications(list@), base@).len() > 0,
    ensures
        match result {
            Ok(after) => settled_base(
                work@,
                publications(list@),
                base@,
                places(paths(taken@)),
                workspace@,
            ) == Ok::<Settled, ErrorModel>(after@) && after.publications@.len() == list@.len(),
            Err(error) => settled_base(
                work@,
                publications(list@),
                base@,
                places(paths(taken@)),
                workspace@,
            ) == Err::<Settled, ErrorModel>(error@),
        },
{
    let positions = find_members(list, base);
    let ghost all = positions@.map_values(|position: usize| position as int);
    let first = match numbered_subtitle_path(base, 1) {
        Ok(first) => first,
        Err(error) => return Err(error),
    };
    assert(all.len() == positions@.len());
    if holds_path(taken, base) {
        if holds_path(taken, &first) || holds_path(work.reserved.as_slice(), &first) {
            return Err(no_room_error(base, &first));
        }
        assert(positions@[0] < list@.len());
        assert(all[0] == positions@[0] as int);
        let work = make_room(work, base, &first, positions[0], workspace);
        return match number_exports(work, base, &positions, 2, taken) {
            Some(work) => Ok(work),
            None => Err(EditError::Failed("Subtitle duplicate number is too large.".to_owned())),
        };
    }
    if positions.len() == 1 {
        let ghost before = work@;
        let ghost reserved = work.reserved@;
        let mut work = work;
        work.reserved.push(base.clone());
        assert(paths(work.reserved@) =~= paths(reserved).push(base@));
        assert(work@ == (Settled { reserved: before.reserved.push(base@), ..before }));
        return Ok(work);
    }
    match number_exports(work, base, &positions, 1, taken) {
        Some(work) => Ok(work),
        None => Err(EditError::Failed("Subtitle duplicate number is too large.".to_owned())),
    }
}

proof fn lemma_base_has_members(list: Seq<PublicationModel>, base: PathModel)
    ensures
        places(export_bases(list)).contains(base.place()) ==> members(list, base).len() > 0,
    decreases list.len(),
{
    let bases = export_bases(list);
    lemma_places(bases, base.place());
    if list.len() > 0 {
        let shorter = export_bases(list.drop_last());
        lemma_base_has_members(list.drop_last(), base);
        lemma_places(shorter, base.place());
        if places(bases).contains(base.place()) {
            let i = choose|i: int|
                0 <= i < bases.len() && (#[trigger] bases[i]).place() == base.place();
            if i < shorter.len() {
                assert(shorter[i].place() == base.place());
            }
        }
    }
}

/// Settles the names of the exports: none lands on a file that is there or on another's
/// destination. `taken` are the files that are there.
pub fn resolve_export_duplicates(
    list: &[Publication],
    workspace: &PathText,
    taken: &[FilePath],
) -> (result: Result<SettledExports, EditError>)
    ensures
        match result {
            Ok(settled) => match settled_exports(
                publications(list@),
                places(paths(taken@)),
                workspace@,
            ) {
                Ok(expected) => publications(settled.publications@) == expected.publications
                    + expected.added && path_pairs(settled.copies@) == expected.copies,
                Err(_) => false,
            },
            Err(error) => settled_exports(publications(list@), places(paths(taken@)), workspace@) == Err::<
                Settled,
                ErrorModel,
            >(error@),
        },
{
    let bases = find_bases(list);
    let mut work = Work {
        publications: copy_publications(list),
        added: Vec::new(),
        copies: Vec::new(),
        reserved: find_kept_destinations(list),
    };
    proof {
        assert(publications(work.added@) =~= Seq::empty());
        assert(path_pairs(work.copies@) =~= Seq::empty());
        ordered_paths_are_the_same(export_bases(publications(list@)));
        assert(publications(work.publications@).len() == work.publications@.len());
        assert(publications(list@).len() == list@.len());
    }
    let ghost expected = settled_exports(publications(list@), places(paths(taken@)), workspace@);
    let ghost all = paths(bases@);
    let mut i: usize = 0;
    assert(all.skip(0) =~= all);
    while i < bases.len()
        invariant
            0 <= i <= bases.len(),
            all == paths(bases@),
            all == ordered(export_bases(publications(list@))),
            forall|place: Place| #[trigger]
                places(all).contains(place) <==> places(
                    export_bases(publications(list@)),
                ).contains(place),
            expected == settled_exports(publications(list@), places(paths(taken@)), workspace@),
            work.publications@.len() == list@.len(),
            expected == settled_bases(
                work@,
                publications(list@),
                all.skip(i as int),
                places(paths(taken@)),
                workspace@,
            ),
        decreases bases.len() - i,
    {
        let ghost before = work@;
        proof {
            assert(all.skip(i as int).skip(1) =~= all.skip(i + 1));
            assert(all.skip(i as int)[0] == bases@[i as int]@);
            assert(all[i as int] == bases@[i as int]@);
            assert(places(all)[i as int] == bases@[i as int]@.place());
            assert(places(all).contains(bases@[i as int]@.place()));
            lemma_base_has_members(publications(list@), bases@[i as int]@);
        }
        match settle_base(work, list, &bases[i], taken, workspace) {
            Ok(after) => {
                work = after;
            },
            Err(error) => return Err(error),
        }
        i = i + 1;
    }
    let Work { publications: mut settled, mut added, copies, reserved: _ } = work;
    let ghost front = settled@;
    let ghost back = added@;
    settled.append(&mut added);
    assert(publications(settled@) =~= publications(front) + publications(back));
    Ok(SettledExports { publications: settled, copies })
}

// Laws.

/// The numbers that the exports of one destination get.
pub open spec fn export_numbers(
    settled: Settled,
    base: PathModel,
    positions: Seq<int>,
    number: nat,
    taken: Seq<Place>,
) -> Seq<nat>
    decreases positions.len(),
{
    if positions.len() == 0 {
        Seq::empty()
    } else {
        match free_number(base, number, taken, settled.reserved) {
            None => Seq::empty(),
            Some(free) => seq![free] + export_numbers(
                moved_export(settled, positions[0], numbered_of(base, free)->Ok_0),
                base,
                positions.skip(1),
                free + 1,
                taken,
            ),
        }
    }
}

proof fn lemma_free_number(
    base: PathModel,
    number: nat,
    taken: Seq<Place>,
    reserved: Seq<PathModel>,
)
    ensures
        match free_number(base, number, taken, reserved) {
            Some(free) => number <= free <= usize::MAX && !taken.contains(
                numbered_of(base, free)->Ok_0.place(),
            ) && !places(reserved).contains(numbered_of(base, free)->Ok_0.place()),
            None => true,
        },
    decreases usize::MAX + 1 - number,
{
    if number <= usize::MAX {
        lemma_free_number(base, number + 1, taken, reserved);
    }
}

/// Each numbered export gets a number of its own whose file is not there, all files of one
/// export get the same, and every other publication stays as it is.
pub proof fn exports_get_free_numbers(
    settled: Settled,
    base: PathModel,
    positions: Seq<int>,
    number: nat,
    taken: Seq<Place>,
)
    requires
        numbered_exports(settled, base, positions, number, taken) is Some,
        positions.no_duplicates(),
        forall|j: int|
            0 <= j < positions.len() ==> 0 <= #[trigger] positions[j] < settled.publications.len(),
    ensures
        export_numbers(settled, base, positions, number, taken).len() == positions.len(),
        forall|j: int|
            0 <= j < positions.len() ==> {
                let own = #[trigger] export_numbers(settled, base, positions, number, taken)[j];
                &&& own >= number
                &&& !taken.contains(numbered_of(base, own)->Ok_0.place())
                &&& !places(settled.reserved).contains(numbered_of(base, own)->Ok_0.place())
                &&& (numbered_exports(settled, base, positions, number, taken)->0).publications[positions[j]].staged
                    == moved_pairs(
                    settled.publications[positions[j]].staged,
                    numbered_of(base, own)->Ok_0,
                )
            },
        forall|i: int, j: int|
            0 <= i < j < positions.len() ==> #[trigger] export_numbers(
                settled,
                base,
                positions,
                number,
                taken,
            )[i] < #[trigger] export_numbers(settled, base, positions, number, taken)[j],
        (numbered_exports(settled, base, positions, number, taken)->0).publications.len()
            == settled.publications.len(),
        forall|q: int|
            0 <= q < settled.publications.len() && !positions.contains(q)
                ==> #[trigger] (numbered_exports(
                settled,
                base,
                positions,
                number,
                taken,
            )->0).publications[q] == settled.publications[q],
    decreases positions.len(),
{
    if positions.len() > 0 {
        lemma_free_number(base, number, taken, settled.reserved);
        let free = free_number(base, number, taken, settled.reserved)->0;
        let next = moved_export(settled, positions[0], numbered_of(base, free)->Ok_0);
        let rest = positions.skip(1);
        assert(rest.no_duplicates()) by {
            assert forall|i: int, j: int|
                0 <= i < rest.len() && 0 <= j < rest.len() && i != j implies rest[i] != rest[j] by {
                assert(positions[i + 1] != positions[j + 1]);
            }
        }
        assert forall|j: int| 0 <= j < rest.len() implies 0 <= #[trigger] rest[j]
            < next.publications.len() by {
            assert(rest[j] == positions[j + 1]);
        }
        exports_get_free_numbers(next, base, rest, free + 1, taken);
        let numbers = export_numbers(settled, base, positions, number, taken);
        let later = export_numbers(next, base, rest, free + 1, taken);
        let after = numbered_exports(settled, base, positions, number, taken)->0;
        assert(after == numbered_exports(next, base, rest, free + 1, taken)->0);
        assert(!rest.contains(positions[0])) by {
            if rest.contains(positions[0]) {
                let j = choose|j: int| 0 <= j < rest.len() && rest[j] == positions[0];
                assert(positions[j + 1] == positions[0]);
            }
        }
        assert forall|j: int| 0 <= j < positions.len() implies {
            let own = #[trigger] numbers[j];
            &&& own >= number
            &&& !taken.contains(numbered_of(base, own)->Ok_0.place())
            &&& !places(settled.reserved).contains(numbered_of(base, own)->Ok_0.place())
            &&& after.publications[positions[j]].staged == moved_pairs(
                settled.publications[positions[j]].staged,
                numbered_of(base, own)->Ok_0,
            )
        } by {
            if j == 0 {
                assert(after.publications[positions[0]] == next.publications[positions[0]]);
            } else {
                assert(numbers[j] == later[j - 1]);
                assert(rest[j - 1] == positions[j]);
                assert(positions[j] != positions[0]);
                assert(next.publications[positions[j]] == settled.publications[positions[j]]);
                if places(settled.reserved).contains(numbered_of(base, numbers[j])->Ok_0.place()) {
                    let place = numbered_of(base, numbers[j])->Ok_0.place();
                    lemma_places(settled.reserved, place);
                    lemma_places(next.reserved, place);
                    let k = choose|k: int|
                        0 <= k < settled.reserved.len() && (#[trigger] settled.reserved[k]).place()
                            == place;
                    assert(next.reserved[k].place() == place);
                }
            }
        }
        assert forall|i: int, j: int| 0 <= i < j < positions.len() implies #[trigger] numbers[i]
            < #[trigger] numbers[j] by {
            if i > 0 {
                assert(later[i - 1] < later[j - 1]);
            } else {
                assert(later[j - 1] >= free + 1);
            }
        }
        assert forall|q: int|
            0 <= q < settled.publications.len() && !positions.contains(
                q,
            ) implies #[trigger] after.publications[q] == settled.publications[q] by {
            assert(positions.contains(positions[0]));
            assert(!rest.contains(q)) by {
                if rest.contains(q) {
                    let j = choose|j: int| 0 <= j < rest.len() && rest[j] == q;
                    assert(positions[j + 1] == q);
                }
            }
            assert(after.publications[q] == next.publications[q]);
        }
    }
}

/// A lone export to a free name keeps its name, and nothing else moves.
pub proof fn lone_exports_keep_their_names(
    settled: Settled,
    originals: Seq<PublicationModel>,
    base: PathModel,
    taken: Seq<Place>,
    workspace: Part,
)
    requires
        numbered_of(base, 1) is Ok,
        !taken.contains(base.place()),
        members(originals, base).len() == 1,
    ensures
        settled_base(settled, originals, base, taken, workspace) is Ok,
        (settled_base(settled, originals, base, taken, workspace)->Ok_0).publications
            == settled.publications,
        (settled_base(settled, originals, base, taken, workspace)->Ok_0).copies == settled.copies,
{
}

/// An occupied number one is never overwritten: the export is refused.
pub proof fn occupied_names_are_refused(
    settled: Settled,
    originals: Seq<PublicationModel>,
    base: PathModel,
    taken: Seq<Place>,
    workspace: Part,
)
    requires
        numbered_of(base, 1) is Ok,
        taken.contains(base.place()),
        taken.contains(numbered_of(base, 1)->Ok_0.place()),
    ensures
        settled_base(settled, originals, base, taken, workspace) == Err::<Settled, ErrorModel>(
            no_room(base, numbered_of(base, 1)->Ok_0),
        ),
{
}

/// A publication that takes nothing away is an export, and every export is settled under
/// the name that its first file should have.
pub proof fn exports_are_grouped_by_name(
    list: Seq<PublicationModel>,
    base: PathModel,
    i: int,
)
    ensures
        members(list, base).contains(i) <==> 0 <= i < list.len() && list[i].remove.len() == 0
            && list[i].staged.len() > 0 && list[i].staged[0].1.place() == base.place(),
        forall|a: int, b: int|
            0 <= a < b < members(list, base).len() ==> #[trigger] members(list, base)[a]
                < #[trigger] members(list, base)[b],
        0 <= i < list.len() && list[i].remove.len() == 0 && list[i].staged.len() > 0
            ==> export_bases(list).contains(list[i].staged[0].1),
    decreases list.len(),
{
    if list.len() > 0 {
        let fewer = list.drop_last();
        let before = members(fewer, base);
        let all = members(list, base);
        exports_are_grouped_by_name(fewer, base, i);
        assert forall|a: int| 0 <= a < before.len() implies #[trigger] before[a] < fewer.len() by {
            exports_are_grouped_by_name(fewer, base, before[a]);
            assert(before.contains(before[a]));
        }
        assert(list.last() == list[list.len() - 1]);
        if all.len() > before.len() {
            assert(all == before.push(list.len() - 1));
            assert(all[before.len() as int] == list.len() - 1);
            if before.contains(i) {
                let at = before.index_of(i);
                assert(all[at] == i);
            }
            if all.contains(i) {
                let at = all.index_of(i);
                if at < before.len() {
                    assert(before[at] == i);
                }
            }
        }
        if 0 <= i < list.len() && is_export(list[i]) {
            let bases = export_bases(list);
            let fewer_bases = export_bases(fewer);
            if i < fewer.len() {
                let at = fewer_bases.index_of(list[i].staged[0].1);
                assert(bases[at] == fewer_bases[at]);
            } else {
                assert(bases.last() == list[i].staged[0].1);
            }
        }
    }
}

/// What a publication that takes something away writes is spoken for from the start.
pub proof fn replaced_sidecars_keep_their_place(list: Seq<PublicationModel>, i: int, k: int)
    ensures
        0 <= i < list.len() && list[i].remove.len() > 0 && 0 <= k < list[i].staged.len()
            ==> kept_destinations(list).contains(list[i].staged[k].1),
    decreases list.len(),
{
    if 0 <= i < list.len() && list[i].remove.len() > 0 && 0 <= k < list[i].staged.len() {
        let fewer = list.drop_last();
        let before = kept_destinations(fewer);
        let all = kept_destinations(list);
        if i < fewer.len() {
            replaced_sidecars_keep_their_place(fewer, i, k);
            let at = before.index_of(list[i].staged[k].1);
            assert(all[at] == before[at]);
        } else {
            assert(all[before.len() + k] == destinations(list[i].staged)[k]);
        }
    }
}

/// That a number under a name is neither on the disk nor spoken for.
pub open spec fn is_open(
    base: PathModel,
    number: nat,
    taken: Seq<Place>,
    reserved: Seq<PathModel>,
) -> bool {
    let place = numbered_of(base, number)->Ok_0.place();
    !taken.contains(place) && !places(reserved).contains(place)
}

/// An export gets the lowest number that is open to it.
pub proof fn lowest_numbers_come_first(
    base: PathModel,
    from: nat,
    number: nat,
    taken: Seq<Place>,
    reserved: Seq<PathModel>,
)
    requires
        from <= number <= usize::MAX,
        is_open(base, number, taken, reserved),
        forall|lower: nat|
            from <= lower < number ==> !#[trigger] is_open(base, lower, taken, reserved),
    ensures
        free_number(base, from, taken, reserved) == Some(number),
    decreases number - from,
{
    if from < number {
        assert(!is_open(base, from, taken, reserved));
        lowest_numbers_come_first(base, from + 1, number, taken, reserved);
    }
}

/// An export that moves to another name takes its files there, the index under the same
/// name, and the places are spoken for from then on.
pub proof fn exports_move_with_their_index(
    settled: Settled,
    member: int,
    destination: PathModel,
    other: int,
    k: int,
)
    requires
        0 <= member < settled.publications.len(),
        0 <= other < settled.publications.len(),
        0 <= k < settled.publications[member].staged.len(),
    ensures
        ({
            let after = moved_export(settled, member, destination);
            let pairs = settled.publications[member].staged;
            &&& after.publications.len() == settled.publications.len()
            &&& other != member ==> after.publications[other] == settled.publications[other]
            &&& after.publications[member].remove == settled.publications[member].remove
            &&& after.publications[member].staged.len() == pairs.len()
            &&& after.publications[member].staged[k].0 == pairs[k].0
            &&& pairs[k].1.extension() == Some("idx"@)
                ==> after.publications[member].staged[k].1 == destination.with_extension("idx"@)
            &&& pairs[k].1.extension() != Some("idx"@)
                ==> after.publications[member].staged[k].1 == destination
            &&& after.reserved[settled.reserved.len() + k]
                == after.publications[member].staged[k].1
            &&& after.added == settled.added
            &&& after.copies == settled.copies
        }),
{
}

/// A file that stands where exports should go becomes the first of them: it is copied aside
/// and published under the number one, with its index, and leaves its old name.
pub proof fn existing_files_become_the_first(
    settled: Settled,
    base: PathModel,
    first: PathModel,
    member: int,
    workspace: Part,
    other: int,
)
    requires
        0 <= member < settled.publications.len(),
        0 <= other < settled.publications.len(),
    ensures
        ({
            let after = room_made(settled, base, first, member, workspace);
            let made = after.added.last();
            let own = settled.publications[member];
            let copies = settled.copies.len() as int;
            &&& after.added.drop_last() == settled.added
            &&& made.remove.len() == 0
            &&& made.staged.len() == if own.staged.len() == 2 {
                2nat
            } else {
                1nat
            }
            &&& made.staged[0].1 == first
            &&& after.copies[copies] == (base, made.staged[0].0)
            &&& after.publications[member].staged == own.staged
            &&& after.publications[member].remove[own.remove.len() as int] == base
            &&& after.reserved[settled.reserved.len() as int] == first
            &&& own.staged.len() == 2 ==> {
                &&& made.staged[1].1 == first.with_extension("idx"@)
                &&& after.copies[copies + 1] == (base.with_extension("idx"@), made.staged[1].0)
                &&& after.publications[member].remove[own.remove.len() as int + 1]
                    == base.with_extension("idx"@)
                &&& after.reserved[settled.reserved.len() as int + 1] == first.with_extension("idx"@)
            }
            &&& after.copies.len() == copies + made.staged.len()
            &&& after.publications[member].remove.len() == own.remove.len() + made.staged.len()
            &&& after.publications.len() == settled.publications.len()
            &&& other != member ==> after.publications[other] == settled.publications[other]
        }),
{
    let after = room_made(settled, base, first, member, workspace);
    assert(after.added.drop_last() =~= settled.added);
}

proof fn lemma_digits_only(number: nat)
    ensures
        !decimal(number).contains('-'),
        !decimal(number).contains('/'),
    decreases number,
{
    if number >= 10 {
        lemma_digits_only(number / 10);
        let before = decimal(number / 10);
        let all = decimal(number);
        assert forall|i: int| 0 <= i < all.len() implies all[i] != '-' && all[i] != '/' by {
            if i < before.len() {
                assert(all[i] == before[i]);
                assert(before.contains(before[i]));
            }
        }
    }
}

/// No two files that are copied aside share a place.
pub proof fn copies_aside_stand_apart(
    workspace: Part,
    member: nat,
    position: nat,
    other_member: nat,
    other_position: nat,
)
    requires
        member != other_member || position != other_position,
    ensures
        in_directory(workspace, displaced_name(member as int, position as int)).place()
            != in_directory(
            workspace,
            displaced_name(other_member as int, other_position as int),
        ).place(),
{
    let one = displaced_name(member as int, position as int);
    let two = displaced_name(other_member as int, other_position as int);
    lemma_displaced_name(member, position);
    lemma_displaced_name(other_member, other_position);
    numbers_read_back(member);
    numbers_read_back(position);
    numbers_read_back(other_member);
    numbers_read_back(other_position);
    if one == two {
        assert(pieces(one, '-')[1] == decimal(member));
        assert(pieces(one, '-')[2] == decimal(position));
        assert(pieces(two, '-')[1] == decimal(other_member));
        assert(pieces(two, '-')[2] == decimal(other_position));
        assert(false);
    }
    names_tell_files_apart(workspace, one, two);
}

proof fn lemma_displaced_name(member: nat, position: nat)
    ensures
        pieces(displaced_name(member as int, position as int), '-') == seq![
            "normalize"@,
            decimal(member),
            decimal(position),
        ],
        displaced_name(member as int, position as int).len() > 2,
{
    let parts = seq!["normalize"@, decimal(member), decimal(position)];
    reveal_strlit("normalize");
    reveal_strlit("normalize-");
    reveal_strlit("-");
    lemma_digits_only(member);
    lemma_digits_only(position);
    joined_pieces_come_apart(parts, '-');
    let two = parts.drop_last();
    assert(two =~= seq!["normalize"@, decimal(member)]);
    assert(two.drop_last() =~= seq!["normalize"@]);
    assert(joined(two.drop_last(), seq!['-']) == "normalize"@);
    assert(joined(two, seq!['-']) == "normalize"@ + seq!['-'] + decimal(member));
    assert(joined(parts, seq!['-']) =~= displaced_name(member as int, position as int));
}

/// Exports under a name that no file has yet are numbered from one where there are several;
/// under a name that a file has, that file becomes the first and they are numbered from two.
pub proof fn numbers_begin_behind_the_existing_file(
    settled: Settled,
    originals: Seq<PublicationModel>,
    base: PathModel,
    taken: Seq<Place>,
    workspace: Part,
)
    requires
        numbered_of(base, 1) is Ok,
        members(originals, base).len() > 0,
    ensures
        ({
            let positions = members(originals, base);
            let first = numbered_of(base, 1)->Ok_0;
            let result = settled_base(settled, originals, base, taken, workspace);
            &&& !taken.contains(base.place()) && positions.len() > 1 && result is Ok ==> Some(
                result->Ok_0,
            ) == numbered_exports(settled, base, positions, 1, taken)
            &&& !taken.contains(base.place()) && positions.len() == 1 ==> result is Ok
                && result->Ok_0.reserved.last() == base
            &&& taken.contains(base.place()) && result is Ok ==> {
                &&& is_open(base, 1, taken, settled.reserved)
                &&& Some(result->Ok_0) == numbered_exports(
                    room_made(settled, base, first, positions[0], workspace),
                    base,
                    positions,
                    2,
                    taken,
                )
            }
            &&& taken.contains(base.place()) && !is_open(base, 1, taken, settled.reserved)
                ==> result is Err && result->Err_0 == no_room(base, first)
        }),
{
}

/// The messages name the file that is in the way.
pub proof fn refusals_name_the_file(base: PathModel, first: PathModel)
    ensures
        base.name_text() is Some && first.name_text() is Some ==> no_room(base, first)
            == ErrorModel::Failed(
            "Cannot normalize duplicate subtitle "@ + base.name_text()->0 + " because "@
                + first.name_text()->0 + " already exists."@,
        ),
        base.name_text() is None && first.name_text() is None ==> no_room(base, first)
            == ErrorModel::Failed(
            "Cannot normalize duplicate subtitle "@ + "file"@ + " because "@ + "the .1 target"@
                + " already exists."@,
        ),
        no_number() == ErrorModel::Failed("Subtitle duplicate number is too large."@),
{
}

/// What a settled list still has of the publications it was made of.
pub open spec fn keeps_the_rest(settled: Settled, originals: Seq<PublicationModel>) -> bool {
    &&& settled.publications.len() == originals.len()
    &&& forall|i: int|
        0 <= i < originals.len() && (originals[i].remove.len() > 0 || originals[i].staged.len()
            == 0) ==> #[trigger] settled.publications[i] == originals[i]
}

proof fn lemma_base_keeps(
    settled: Settled,
    originals: Seq<PublicationModel>,
    base: PathModel,
    taken: Seq<Place>,
    workspace: Part,
)
    requires
        keeps_the_rest(settled, originals),
        members(originals, base).len() > 0,
        settled_base(settled, originals, base, taken, workspace) is Ok,
    ensures
        keeps_the_rest(
            settled_base(settled, originals, base, taken, workspace)->Ok_0,
            originals,
        ),
{
    let positions = members(originals, base);
    let after = settled_base(settled, originals, base, taken, workspace)->Ok_0;
    exports_are_grouped_by_name(originals, base, 0);
    assert forall|j: int| 0 <= j < positions.len() implies 0 <= #[trigger] positions[j]
        < originals.len() && is_export(originals[positions[j]]) by {
        assert(positions.contains(positions[j]));
        exports_are_grouped_by_name(originals, base, positions[j]);
    }
    assert(positions.no_duplicates());
    let first = numbered_of(base, 1)->Ok_0;
    if taken.contains(base.place()) {
        let room = room_made(settled, base, first, positions[0], workspace);
        assert(keeps_the_rest(room, originals));
        exports_get_free_numbers(room, base, positions, 2, taken);
        assert forall|i: int|
            0 <= i < originals.len() && (originals[i].remove.len() > 0 || originals[i].staged.len()
                == 0) implies #[trigger] after.publications[i] == originals[i] by {
            assert(!positions.contains(i));
            assert(room.publications[i] == originals[i]);
        }
    } else if positions.len() > 1 {
        exports_get_free_numbers(settled, base, positions, 1, taken);
        assert forall|i: int|
            0 <= i < originals.len() && (originals[i].remove.len() > 0 || originals[i].staged.len()
                == 0) implies #[trigger] after.publications[i] == originals[i] by {
            assert(!positions.contains(i));
            assert(settled.publications[i] == originals[i]);
        }
    }
}

proof fn lemma_bases_keep(
    settled: Settled,
    originals: Seq<PublicationModel>,
    bases: Seq<PathModel>,
    taken: Seq<Place>,
    workspace: Part,
)
    requires
        keeps_the_rest(settled, originals),
        settled_bases(settled, originals, bases, taken, workspace) is Ok,
        forall|i: int|
            0 <= i < bases.len() ==> members(originals, #[trigger] bases[i]).len() > 0,
    ensures
        keeps_the_rest(
            settled_bases(settled, originals, bases, taken, workspace)->Ok_0,
            originals,
        ),
    decreases bases.len(),
{
    if bases.len() > 0 {
        assert(members(originals, bases[0]).len() > 0);
        lemma_base_keeps(settled, originals, bases[0], taken, workspace);
        let rest = bases.skip(1);
        assert forall|i: int| 0 <= i < rest.len() implies members(
            originals,
            #[trigger] rest[i],
        ).len() > 0 by {
            assert(rest[i] == bases[i + 1]);
        }
        lemma_bases_keep(
            settled_base(settled, originals, bases[0], taken, workspace)->Ok_0,
            originals,
            rest,
            taken,
            workspace,
        );
    }
}

proof fn lemma_bases_have_members(list: Seq<PublicationModel>, place: Place)
    ensures
        places(export_bases(list)).contains(place) ==> exists|i: int|
            0 <= i < list.len() && is_export(#[trigger] list[i]) && list[i].staged[0].1.place()
                == place,
    decreases list.len(),
{
    if list.len() > 0 && places(export_bases(list)).contains(place) {
        let fewer = list.drop_last();
        let bases = export_bases(list);
        let before = export_bases(fewer);
        lemma_bases_have_members(fewer, place);
        lemma_places(bases, place);
        lemma_places(before, place);
        let at = choose|at: int| 0 <= at < bases.len() && (#[trigger] bases[at]).place() == place;
        if at < before.len() {
            assert(before[at].place() == place);
            let i = choose|i: int|
                0 <= i < fewer.len() && is_export(#[trigger] fewer[i]) && fewer[i].staged[0].1.place()
                    == place;
            assert(is_export(list[i]));
        } else {
            assert(is_export(list[list.len() - 1]));
        }
    } else if list.len() == 0 {
        lemma_places(export_bases(list), place);
    }
}

/// Settling the names of exports touches no other publication, and where there is no export
/// it touches none.
pub proof fn other_publications_are_left_alone(
    originals: Seq<PublicationModel>,
    taken: Seq<Place>,
    workspace: Part,
)
    ensures
        settled_exports(originals, taken, workspace) is Ok ==> keeps_the_rest(
            settled_exports(originals, taken, workspace)->Ok_0,
            originals,
        ),
        (forall|i: int|
            0 <= i < originals.len() ==> (#[trigger] originals[i]).remove.len() > 0
                || originals[i].staged.len() == 0) ==> settled_exports(originals, taken, workspace)
            is Ok && (settled_exports(originals, taken, workspace)->Ok_0).publications == originals
            && (settled_exports(originals, taken, workspace)->Ok_0).added.len() == 0
            && (settled_exports(originals, taken, workspace)->Ok_0).copies.len() == 0,
{
    let bases = ordered(export_bases(originals));
    ordered_paths_are_the_same(export_bases(originals));
    assert forall|i: int| 0 <= i < bases.len() implies members(
        originals,
        #[trigger] bases[i],
    ).len() > 0 by {
        let place = bases[i].place();
        lemma_places(bases, place);
        assert(places(bases).contains(place));
        lemma_bases_have_members(originals, place);
        let k = choose|k: int|
            0 <= k < originals.len() && is_export(#[trigger] originals[k])
                && originals[k].staged[0].1.place() == place;
        exports_are_grouped_by_name(originals, bases[i], k);
        assert(members(originals, bases[i]).contains(k));
    }
    let start = Settled {
        publications: originals,
        added: Seq::empty(),
        copies: Seq::empty(),
        reserved: kept_destinations(originals),
    };
    if settled_exports(originals, taken, workspace) is Ok {
        lemma_bases_keep(start, originals, bases, taken, workspace);
    }
    if forall|i: int|
        0 <= i < originals.len() ==> (#[trigger] originals[i]).remove.len() > 0
            || originals[i].staged.len() == 0 {
        if bases.len() > 0 {
            let place = bases[0].place();
            lemma_places(bases, place);
            lemma_bases_have_members(originals, place);
            assert(false);
        }
    }
}

} // verus!
