//! Files that an edit puts in place, and the files they stand in for.

use vstd::prelude::*;
use vstd::string::StringExecFns;

use crate::names::{numbered_of, numbered_subtitle_path, path_result};
use crate::path::{
    copy_paths, holds_path, paths, places, siblings_share_a_directory, FilePath, PathModel, Place,
};
use crate::sources::{EditError, ErrorModel};
use crate::subtitle::{SidecarEntry, SubtitleFormat};
use crate::text::{begins_with, strip_prefix};

verus! {

/// Files that are published together: each staged file with its destination, and the
/// files that go in exchange.
#[derive(Debug, Eq, PartialEq)]
pub struct Publication {
    pub staged: Vec<(FilePath, FilePath)>,
    pub remove: Vec<FilePath>,
}

/// What a [`Publication`] holds.
pub ghost struct PublicationModel {
    pub staged: Seq<(PathModel, PathModel)>,
    pub remove: Seq<PathModel>,
}

/// The views of a list of pairs of paths.
pub open spec fn path_pairs(pairs: Seq<(FilePath, FilePath)>) -> Seq<(PathModel, PathModel)> {
    pairs.map_values(|pair: (FilePath, FilePath)| (pair.0@, pair.1@))
}

impl View for Publication {
    type V = PublicationModel;

    open spec fn view(&self) -> PublicationModel {
        PublicationModel { staged: path_pairs(self.staged@), remove: paths(self.remove@) }
    }
}

/// The views of a list of publications.
pub open spec fn publications(list: Seq<Publication>) -> Seq<PublicationModel> {
    list.map_values(|publication: Publication| publication@)
}

pub fn copy_pairs(pairs: &Vec<(FilePath, FilePath)>) -> (result: Vec<(FilePath, FilePath)>)
    ensures
        path_pairs(result@) == path_pairs(pairs@),
{
    let mut result: Vec<(FilePath, FilePath)> = Vec::new();
    let mut i: usize = 0;
    while i < pairs.len()
        invariant
            0 <= i <= pairs.len(),
            path_pairs(result@) =~= path_pairs(pairs@).take(i as int),
        decreases pairs.len() - i,
    {
        let ghost before = result@;
        result.push((pairs[i].0.clone(), pairs[i].1.clone()));
        assert(path_pairs(result@) =~= path_pairs(before).push(
            (pairs@[i as int].0@, pairs@[i as int].1@),
        ));
        i = i + 1;
    }
    assert(path_pairs(pairs@).take(pairs@.len() as int) =~= path_pairs(pairs@));
    result
}

impl Clone for Publication {
    fn clone(&self) -> (result: Publication)
        ensures
            result@ == self@,
    {
        Publication { staged: copy_pairs(&self.staged), remove: copy_paths(&self.remove) }
    }
}

// The files of a subtitle.

/// The staged files of a subtitle with their destinations: a two-file subtitle brings its
/// companion along.
pub open spec fn artifact_pairs(
    staged: PathModel,
    destination: PathModel,
    target: SubtitleFormat,
) -> Seq<(PathModel, PathModel)> {
    if target == SubtitleFormat::VobSub {
        seq![
            (staged, destination),
            (staged.with_extension("idx"@), destination.with_extension("idx"@)),
        ]
    } else {
        seq![(staged, destination)]
    }
}

/// The failure of a conversion to two files that wrote only one.
pub open spec fn companion_missing() -> ErrorModel {
    ErrorModel::Failed("VobSub conversion did not create its required .idx companion."@)
}

pub fn missing_companion() -> (result: EditError)
    ensures
        result@ == companion_missing(),
{
    EditError::Failed("VobSub conversion did not create its required .idx companion.".to_owned())
}

/// The staged files of a subtitle with their destinations. `companion_exists` says whether
/// the staged companion is there.
pub fn subtitle_artifact_pairs(
    staged: &FilePath,
    destination: &FilePath,
    target: SubtitleFormat,
    companion_exists: bool,
) -> (result: Result<Vec<(FilePath, FilePath)>, EditError>)
    ensures
        match result {
            Ok(pairs) => (target != SubtitleFormat::VobSub || companion_exists) && path_pairs(
                pairs@,
            ) == artifact_pairs(staged@, destination@, target),
            Err(error) => target == SubtitleFormat::VobSub && !companion_exists && error@
                == companion_missing(),
        },
{
    let mut pairs: Vec<(FilePath, FilePath)> = Vec::new();
    pairs.push((staged.clone(), destination.clone()));
    if target == SubtitleFormat::VobSub {
        if !companion_exists {
            return Err(missing_companion());
        }
        pairs.push((staged.with_extension("idx"), destination.with_extension("idx")));
    }
    assert(path_pairs(pairs@) =~= artifact_pairs(staged@, destination@, target));
    Ok(pairs)
}

// Free destinations.

/// Whether a publication already claims a destination.
pub open spec fn is_reserved(list: Seq<PublicationModel>, destination: PathModel) -> bool {
    exists|i: int| 0 <= i < list.len() && claims(#[trigger] list[i], destination)
}

/// Whether a publication puts a file at a destination.
pub open spec fn claims(publication: PublicationModel, destination: PathModel) -> bool {
    exists|k: int|
        0 <= k < publication.staged.len() && (#[trigger] publication.staged[k]).1.place()
            == destination.place()
}

fn find_claim(publication: &Publication, destination: &FilePath) -> (result: bool)
    ensures
        result == claims(publication@, destination@),
{
    let mut k: usize = 0;
    while k < publication.staged.len()
        invariant
            0 <= k <= publication.staged.len(),
            forall|j: int|
                0 <= j < k ==> (#[trigger] publication@.staged[j]).1.place() != destination@.place(),
        decreases publication.staged.len() - k,
    {
        assert(publication@.staged[k as int].1 == publication.staged@[k as int].1@);
        if publication.staged[k].1.same(destination) {
            return true;
        }
        k = k + 1;
    }
    false
}

fn find_reservation(list: &[Publication], destination: &FilePath) -> (result: bool)
    ensures
        result == is_reserved(publications(list@), destination@),
{
    let mut i: usize = 0;
    while i < list.len()
        invariant
            0 <= i <= list.len(),
            forall|k: int|
                0 <= k < i ==> !claims(#[trigger] publications(list@)[k], destination@),
        decreases list.len() - i,
    {
        assert(publications(list@)[i as int] == list@[i as int]@);
        if find_claim(&list[i], destination) {
            return true;
        }
        i = i + 1;
    }
    false
}

/// Whether one file can be put at a destination: nothing is there but the subtitle that it
/// stands in for, and no other publication claims it.
pub open spec fn place_is_free(
    destination: PathModel,
    sources: Seq<PathModel>,
    list: Seq<PublicationModel>,
    taken: Seq<Place>,
) -> bool {
    (!taken.contains(destination.place()) || places(sources).contains(destination.place())) && !is_reserved(
        list,
        destination,
    )
}

/// Whether a converted subtitle can be put at a destination, with its companion if it has
/// one.
pub open spec fn destination_is_free(
    destination: PathModel,
    sources: Seq<PathModel>,
    target: SubtitleFormat,
    list: Seq<PublicationModel>,
    taken: Seq<Place>,
) -> bool {
    &&& place_is_free(destination, sources, list, taken)
    &&& target == SubtitleFormat::VobSub ==> place_is_free(
        destination.with_extension("idx"@),
        sources,
        list,
        taken,
    )
}

fn check_place(
    destination: &FilePath,
    sources: &Vec<FilePath>,
    list: &[Publication],
    taken: &[FilePath],
) -> (result: bool)
    ensures
        result == place_is_free(
            destination@,
            paths(sources@),
            publications(list@),
            places(paths(taken@)),
        ),
{
    (!holds_path(taken, destination) || holds_path(sources.as_slice(), destination))
        && !find_reservation(list, destination)
}

pub fn sidecar_destination_available(
    destination: &FilePath,
    sidecar: &SidecarEntry,
    target: SubtitleFormat,
    list: &[Publication],
    taken: &[FilePath],
) -> (result: bool)
    ensures
        result == destination_is_free(
            destination@,
            sidecar.files(),
            target,
            publications(list@),
            places(paths(taken@)),
        ),
{
    let sources = sidecar.source_paths();
    check_place(destination, &sources, list, taken) && (target != SubtitleFormat::VobSub
        || check_place(&destination.with_extension("idx"), &sources, list, taken))
}

/// The first number from `number` on under which a converted subtitle can be put in its
/// place, if there is one.
pub open spec fn first_free_number(
    base: PathModel,
    number: nat,
    sources: Seq<PathModel>,
    target: SubtitleFormat,
    list: Seq<PublicationModel>,
    taken: Seq<Place>,
) -> Option<nat>
    decreases usize::MAX + 1 - number,
{
    if number > usize::MAX {
        None
    } else if destination_is_free(
        numbered_of(base, number)->Ok_0,
        sources,
        target,
        list,
        taken,
    ) {
        Some(number)
    } else {
        first_free_number(base, number + 1, sources, target, list, taken)
    }
}

/// Where a converted subtitle goes: under its own name if that is free, or else under the
/// first free number from two on.
pub open spec fn conversion_destination(
    base: PathModel,
    sources: Seq<PathModel>,
    target: SubtitleFormat,
    list: Seq<PublicationModel>,
    taken: Seq<Place>,
) -> Result<PathModel, ErrorModel> {
    if destination_is_free(base, sources, target, list, taken) {
        Ok(base)
    } else {
        match numbered_of(base, 2) {
            Err(error) => Err(error),
            Ok(_) => match first_free_number(base, 2, sources, target, list, taken) {
                Some(number) => numbered_of(base, number),
                None => Err(ErrorModel::Failed("Subtitle duplicate number is too large."@)),
            },
        }
    }
}

pub fn sidecar_conversion_destination(
    base: &FilePath,
    sidecar: &SidecarEntry,
    target: SubtitleFormat,
    list: &[Publication],
    taken: &[FilePath],
) -> (result: Result<FilePath, EditError>)
    ensures
        path_result(
            result,
            conversion_destination(
                base@,
                sidecar.files(),
                target,
                publications(list@),
                places(paths(taken@)),
            ),
        ),
{
    if sidecar_destination_available(base, sidecar, target, list, taken) {
        return Ok(base.clone());
    }
    let mut number: usize = 2;
    loop
        invariant
            number >= 2,
            !destination_is_free(
                base@,
                sidecar.files(),
                target,
                publications(list@),
                places(paths(taken@)),
            ),
            first_free_number(
                base@,
                2,
                sidecar.files(),
                target,
                publications(list@),
                places(paths(taken@)),
            ) == first_free_number(
                base@,
                number as nat,
                sidecar.files(),
                target,
                publications(list@),
                places(paths(taken@)),
            ),
        decreases usize::MAX - number,
    {
        let candidate = match numbered_subtitle_path(base, number) {
            Ok(candidate) => candidate,
            Err(error) => return Err(error),
        };
        if sidecar_destination_available(&candidate, sidecar, target, list, taken) {
            return Ok(candidate);
        }
        match number.checked_add(1) {
            Some(next) => {
                number = next;
            },
            None => {
                assert(first_free_number(
                    base@,
                    number as nat + 1,
                    sidecar.files(),
                    target,
                    publications(list@),
                    places(paths(taken@)),
                ) is None);
                return Err(
                    EditError::Failed("Subtitle duplicate number is too large.".to_owned()),
                );
            },
        }
    }
}

// Copies.

/// The name of a subtitle beside a copy: one that begins with the stem of the source
/// begins with that of the copy.
pub open spec fn retargeted_name(
    name: Seq<char>,
    source_stem: Seq<char>,
    copy_stem: Seq<char>,
) -> Seq<char> {
    if begins_with(name, source_stem) {
        copy_stem + name.skip(source_stem.len() as int)
    } else {
        name
    }
}

/// The staged files of a publication for a copy, or why there are none.
pub open spec fn retargeted_pairs(
    pairs: Seq<(PathModel, PathModel)>,
    source_stem: Seq<char>,
    copy_stem: Seq<char>,
) -> Option<Seq<(PathModel, PathModel)>>
    decreases pairs.len(),
{
    if pairs.len() == 0 {
        Some(Seq::empty())
    } else {
        let (staged, destination) = pairs.last();
        match (
            retargeted_pairs(pairs.drop_last(), source_stem, copy_stem),
            destination.name_text(),
        ) {
            (Some(before), Some(name)) => Some(
                before.push(
                    (staged, destination.sibling(retargeted_name(name, source_stem, copy_stem))),
                ),
            ),
            _ => None,
        }
    }
}

/// The publications for a copy; `None` where a destination is no valid text.
pub open spec fn retargeted(
    list: Seq<PublicationModel>,
    source_stem: Seq<char>,
    copy_stem: Seq<char>,
) -> Option<Seq<PublicationModel>>
    decreases list.len(),
{
    if list.len() == 0 {
        Some(Seq::empty())
    } else {
        match (
            retargeted(list.drop_last(), source_stem, copy_stem),
            retargeted_pairs(list.last().staged, source_stem, copy_stem),
        ) {
            (Some(before), Some(staged)) => Some(
                before.push(PublicationModel { staged, remove: list.last().remove }),
            ),
            _ => None,
        }
    }
}

/// The publications that go with a copy of the media, or why there are none.
pub open spec fn retargeted_for_copy(
    list: Seq<PublicationModel>,
    source: PathModel,
    copy: PathModel,
) -> Result<Seq<PublicationModel>, ErrorModel> {
    match (source.stem(), copy.stem()) {
        (None, _) => Err(ErrorModel::Failed("The source filename is not valid UTF-8."@)),
        (_, None) => Err(ErrorModel::Failed("The copy filename is not valid UTF-8."@)),
        (Some(source_stem), Some(copy_stem)) => match retargeted(list, source_stem, copy_stem) {
            Some(retargeted) => Ok(retargeted),
            None => Err(ErrorModel::Failed("A subtitle destination is not valid UTF-8."@)),
        },
    }
}

proof fn lemma_retargeted_pairs_prefix(
    pairs: Seq<(PathModel, PathModel)>,
    some: int,
    source_stem: Seq<char>,
    copy_stem: Seq<char>,
)
    requires
        0 <= some <= pairs.len(),
        retargeted_pairs(pairs.take(some), source_stem, copy_stem) is None,
    ensures
        retargeted_pairs(pairs, source_stem, copy_stem) is None,
    decreases pairs.len(),
{
    if some == pairs.len() {
        assert(pairs.take(some) =~= pairs);
    } else {
        assert(pairs.drop_last().take(some) =~= pairs.take(some));
        lemma_retargeted_pairs_prefix(pairs.drop_last(), some, source_stem, copy_stem);
    }
}

proof fn lemma_retargeted_prefix(
    list: Seq<PublicationModel>,
    some: int,
    source_stem: Seq<char>,
    copy_stem: Seq<char>,
)
    requires
        0 <= some <= list.len(),
        retargeted(list.take(some), source_stem, copy_stem) is None,
    ensures
        retargeted(list, source_stem, copy_stem) is None,
    decreases list.len(),
{
    if some == list.len() {
        assert(list.take(some) =~= list);
    } else {
        assert(list.drop_last().take(some) =~= list.take(some));
        lemma_retargeted_prefix(list.drop_last(), some, source_stem, copy_stem);
    }
}

fn retarget_pairs(
    pairs: &Vec<(FilePath, FilePath)>,
    source_stem: &str,
    copy_stem: &str,
) -> (result: Option<Vec<(FilePath, FilePath)>>)
    ensures
        match result {
            Some(staged) => retargeted_pairs(path_pairs(pairs@), source_stem@, copy_stem@) == Some(
                path_pairs(staged@),
            ),
            None => retargeted_pairs(path_pairs(pairs@), source_stem@, copy_stem@) is None,
        },
{
    let mut result: Vec<(FilePath, FilePath)> = Vec::new();
    let ghost all = path_pairs(pairs@);
    let mut i: usize = 0;
    assert(path_pairs(result@) =~= Seq::empty());
    while i < pairs.len()
        invariant
            0 <= i <= pairs.len(),
            all == path_pairs(pairs@),
            retargeted_pairs(all.take(i as int), source_stem@, copy_stem@) == Some(
                path_pairs(result@),
            ),
        decreases pairs.len() - i,
    {
        let ghost before = result@;
        proof {
            assert(all.take(i + 1).drop_last() =~= all.take(i as int));
            assert(all.take(i + 1).last() == (pairs@[i as int].0@, pairs@[i as int].1@));
        }
        let destination = &pairs[i].1;
        let name = match destination.name_text() {
            Some(name) => name,
            None => {
                proof {
                    lemma_retargeted_pairs_prefix(all, i + 1, source_stem@, copy_stem@);
                }
                return None;
            },
        };
        let retargeted = match strip_prefix(name.as_str(), source_stem) {
            Some(suffix) => {
                let mut retargeted = copy_stem.to_owned();
                retargeted.append(suffix);
                destination.sibling(retargeted.as_str())
            },
            None => destination.sibling(name.as_str()),
        };
        let ghost pair = (pairs@[i as int].0@, retargeted@);
        result.push((pairs[i].0.clone(), retargeted));
        assert(path_pairs(result@) =~= path_pairs(before).push(pair));
        i = i + 1;
    }
    assert(all.take(all.len() as int) =~= all);
    Some(result)
}

/// The publications that go with a copy of the media.
pub fn retarget_publications_for_copy(
    list: &[Publication],
    source: &FilePath,
    copy: &FilePath,
) -> (result: Result<Vec<Publication>, EditError>)
    ensures
        match result {
            Ok(retargeted) => retargeted_for_copy(publications(list@), source@, copy@) == Ok::<
                Seq<PublicationModel>,
                ErrorModel,
            >(publications(retargeted@)),
            Err(error) => retargeted_for_copy(publications(list@), source@, copy@) == Err::<
                Seq<PublicationModel>,
                ErrorModel,
            >(error@),
        },
{
    let source_stem = match source.stem() {
        Some(stem) => stem,
        None => return Err(
            EditError::Failed("The source filename is not valid UTF-8.".to_owned()),
        ),
    };
    let copy_stem = match copy.stem() {
        Some(stem) => stem,
        None => return Err(EditError::Failed("The copy filename is not valid UTF-8.".to_owned())),
    };
    let ghost all = publications(list@);
    let mut result: Vec<Publication> = Vec::new();
    let mut i: usize = 0;
    assert(publications(result@) =~= Seq::empty());
    while i < list.len()
        invariant
            0 <= i <= list.len(),
            all == publications(list@),
            source@.stem() == Some(source_stem@),
            copy@.stem() == Some(copy_stem@),
            retargeted(all.take(i as int), source_stem@, copy_stem@) == Some(
                publications(result@),
            ),
        decreases list.len() - i,
    {
        let ghost before = result@;
        proof {
            assert(all.take(i + 1).drop_last() =~= all.take(i as int));
            assert(all.take(i + 1).last() == list@[i as int]@);
        }
        let staged = match retarget_pairs(&list[i].staged, source_stem, copy_stem) {
            Some(staged) => staged,
            None => {
                proof {
                    lemma_retargeted_prefix(all, i + 1, source_stem@, copy_stem@);
                }
                return Err(
                    EditError::Failed("A subtitle destination is not valid UTF-8.".to_owned()),
                );
            },
        };
        let publication = Publication { staged, remove: copy_paths(&list[i].remove) };
        let ghost model = publication@;
        result.push(publication);
        assert(publications(result@) =~= publications(before).push(model));
        i = i + 1;
    }
    assert(all.take(all.len() as int) =~= all);
    Ok(result)
}

// Laws.

/// A converted subtitle never lands on a file that is there, but for the subtitle that it
/// stands in for, and never on what another publication claims.
pub proof fn conversions_overwrite_nothing(
    base: PathModel,
    sources: Seq<PathModel>,
    target: SubtitleFormat,
    list: Seq<PublicationModel>,
    taken: Seq<Place>,
)
    requires
        conversion_destination(base, sources, target, list, taken) is Ok,
    ensures
        destination_is_free(
            conversion_destination(base, sources, target, list, taken)->Ok_0,
            sources,
            target,
            list,
            taken,
        ),
{
    if !destination_is_free(base, sources, target, list, taken) {
        lemma_first_free(base, 2, sources, target, list, taken);
    }
}

proof fn lemma_first_free(
    base: PathModel,
    number: nat,
    sources: Seq<PathModel>,
    target: SubtitleFormat,
    list: Seq<PublicationModel>,
    taken: Seq<Place>,
)
    ensures
        match first_free_number(base, number, sources, target, list, taken) {
            Some(free) => number <= free <= usize::MAX && destination_is_free(
                numbered_of(base, free)->Ok_0,
                sources,
                target,
                list,
                taken,
            ) && forall|lower: nat|
                number <= lower < free ==> !destination_is_free(
                    #[trigger] numbered_of(base, lower)->Ok_0,
                    sources,
                    target,
                    list,
                    taken,
                ),
            None => true,
        },
    decreases usize::MAX + 1 - number,
{
    if number <= usize::MAX && !destination_is_free(
        numbered_of(base, number)->Ok_0,
        sources,
        target,
        list,
        taken,
    ) {
        lemma_first_free(base, number + 1, sources, target, list, taken);
    }
}

/// Saving to a copy leaves the staged files and the files that go in exchange as they
/// were, and moves a destination only within its directory.
pub proof fn copies_keep_staged_files(
    list: Seq<PublicationModel>,
    source_stem: Seq<char>,
    copy_stem: Seq<char>,
)
    requires
        retargeted(list, source_stem, copy_stem) is Some,
    ensures
        retargeted(list, source_stem, copy_stem)->0.len() == list.len(),
        forall|i: int|
            0 <= i < list.len() ==> #[trigger] same_but_names(
                retargeted(list, source_stem, copy_stem)->0[i],
                list[i],
            ),
    decreases list.len(),
{
    if list.len() > 0 {
        copies_keep_staged_files(list.drop_last(), source_stem, copy_stem);
        lemma_pairs_keep_staged(list.last().staged, source_stem, copy_stem);
        let after = retargeted(list, source_stem, copy_stem)->0;
        assert forall|i: int| 0 <= i < list.len() implies #[trigger] same_but_names(
            after[i],
            list[i],
        ) by {
            if i < list.len() - 1 {
                assert(same_but_names(
                    retargeted(list.drop_last(), source_stem, copy_stem)->0[i],
                    list.drop_last()[i],
                ));
            }
        }
    }
}

/// Whether a destination is in the directory of another.
pub open spec fn stays_beside(left: PathModel, right: PathModel) -> bool {
    right.directory is Some ==> left.lies_in(right.directory->0)
}

/// Whether two publications differ at most in the names of their destinations.
pub open spec fn same_but_names(left: PublicationModel, right: PublicationModel) -> bool {
    &&& left.remove == right.remove
    &&& left.staged.len() == right.staged.len()
    &&& forall|k: int|
        0 <= k < left.staged.len() ==> (#[trigger] left.staged[k]).0 == right.staged[k].0
            && stays_beside(left.staged[k].1, right.staged[k].1)
}

proof fn lemma_pairs_keep_staged(
    pairs: Seq<(PathModel, PathModel)>,
    source_stem: Seq<char>,
    copy_stem: Seq<char>,
)
    requires
        retargeted_pairs(pairs, source_stem, copy_stem) is Some,
    ensures
        retargeted_pairs(pairs, source_stem, copy_stem)->0.len() == pairs.len(),
        forall|k: int|
            0 <= k < pairs.len() ==> (#[trigger] retargeted_pairs(
                pairs,
                source_stem,
                copy_stem,
            )->0[k]).0 == pairs[k].0 && stays_beside(
                retargeted_pairs(pairs, source_stem, copy_stem)->0[k].1,
                pairs[k].1,
            ),
    decreases pairs.len(),
{
    if pairs.len() > 0 {
        lemma_pairs_keep_staged(pairs.drop_last(), source_stem, copy_stem);
        let before = retargeted_pairs(pairs.drop_last(), source_stem, copy_stem)->0;
        let after = retargeted_pairs(pairs, source_stem, copy_stem)->0;
        assert forall|k: int| 0 <= k < pairs.len() implies (#[trigger] after[k]).0 == pairs[k].0
            && stays_beside(after[k].1, pairs[k].1) by {
            if k < pairs.len() - 1 {
                assert(after[k] == before[k]);
                assert(pairs.drop_last()[k] == pairs[k]);
            } else if pairs[k].1.directory is Some {
                let destination = pairs[k].1;
                let name = retargeted_name(destination.name_text()->0, source_stem, copy_stem);
                siblings_share_a_directory(destination, destination.directory->0, name);
            }
        }
    }
}

/// A place is free where no file stands that is not one of the sources, and no earlier
/// publication goes there. What is drawn as pictures needs the place of its index too.
pub proof fn destinations_are_free_where_nothing_stands(
    destination: PathModel,
    sources: Seq<PathModel>,
    target: SubtitleFormat,
    list: Seq<PublicationModel>,
    taken: Seq<Place>,
    i: int,
    k: int,
)
    ensures
        destination_is_free(destination, sources, target, list, taken) && taken.contains(
            destination.place(),
        ) ==> places(sources).contains(destination.place()),
        destination_is_free(destination, sources, target, list, taken) && 0 <= i < list.len() && 0
            <= k < list[i].staged.len() ==> list[i].staged[k].1.place() != destination.place(),
        destination_is_free(destination, sources, SubtitleFormat::VobSub, list, taken)
            ==> destination_is_free(
            destination.with_extension("idx"@),
            sources,
            SubtitleFormat::Pgs,
            list,
            taken,
        ),
        !taken.contains(destination.place()) && !taken.contains(
            destination.with_extension("idx"@).place(),
        ) && list.len() == 0 ==> destination_is_free(destination, sources, target, list, taken),
        places(sources).contains(destination.place()) && target != SubtitleFormat::VobSub
            && list.len() == 0 ==> destination_is_free(destination, sources, target, list, taken),
{
    if 0 <= i < list.len() && 0 <= k < list[i].staged.len() {
        if list[i].staged[k].1.place() == destination.place() {
            assert(claims(list[i], destination));
            assert(is_reserved(list, destination));
        }
    }
}

/// A subtitle goes to the name it should have, and where that is not free to the first
/// number behind it that is, from two on.
pub proof fn conversions_take_the_first_free_name(
    base: PathModel,
    sources: Seq<PathModel>,
    target: SubtitleFormat,
    list: Seq<PublicationModel>,
    taken: Seq<Place>,
    number: nat,
)
    ensures
        destination_is_free(base, sources, target, list, taken) ==> conversion_destination(
            base,
            sources,
            target,
            list,
            taken,
        ) == Ok::<PathModel, ErrorModel>(base),
        !destination_is_free(base, sources, target, list, taken) && numbered_of(base, 2) is Ok && 2
            <= number <= usize::MAX && destination_is_free(
            numbered_of(base, number)->Ok_0,
            sources,
            target,
            list,
            taken,
        ) && (forall|lower: nat|
            2 <= lower < number ==> !destination_is_free(
                #[trigger] numbered_of(base, lower)->Ok_0,
                sources,
                target,
                list,
                taken,
            )) ==> conversion_destination(base, sources, target, list, taken) == numbered_of(
            base,
            number,
        ),
{
    if 2 <= number <= usize::MAX && destination_is_free(
        numbered_of(base, number)->Ok_0,
        sources,
        target,
        list,
        taken,
    ) && (forall|lower: nat|
        2 <= lower < number ==> !destination_is_free(
            #[trigger] numbered_of(base, lower)->Ok_0,
            sources,
            target,
            list,
            taken,
        )) {
        lemma_lowest_free(base, 2, number, sources, target, list, taken);
    }
}

proof fn lemma_lowest_free(
    base: PathModel,
    from: nat,
    number: nat,
    sources: Seq<PathModel>,
    target: SubtitleFormat,
    list: Seq<PublicationModel>,
    taken: Seq<Place>,
)
    requires
        from <= number <= usize::MAX,
        destination_is_free(numbered_of(base, number)->Ok_0, sources, target, list, taken),
        forall|lower: nat|
            from <= lower < number ==> !destination_is_free(
                #[trigger] numbered_of(base, lower)->Ok_0,
                sources,
                target,
                list,
                taken,
            ),
    ensures
        first_free_number(base, from, sources, target, list, taken) == Some(number),
    decreases number - from,
{
    if from < number {
        lemma_lowest_free(base, from + 1, number, sources, target, list, taken);
    }
}

/// What is published as pictures is two files, the second with the index of the first; any
/// other subtitle is one.
pub proof fn picture_subtitles_are_two_files(
    staged: PathModel,
    destination: PathModel,
    target: SubtitleFormat,
)
    ensures
        artifact_pairs(staged, destination, target).len() == if target == SubtitleFormat::VobSub {
            2nat
        } else {
            1nat
        },
        artifact_pairs(staged, destination, target)[0] == (staged, destination),
        target == SubtitleFormat::VobSub ==> artifact_pairs(staged, destination, target)[1] == (
            staged.with_extension("idx"@),
            destination.with_extension("idx"@),
        ),
{
}

/// A name that begins like the source begins like the copy afterwards and ends as before;
/// any other name stays.
pub proof fn names_begin_like_the_copy(
    name: Seq<char>,
    source_stem: Seq<char>,
    copy_stem: Seq<char>,
    rest: Seq<char>,
)
    ensures
        retargeted_name(source_stem + rest, source_stem, copy_stem) == copy_stem + rest,
        !name.is_prefix_of(source_stem) && !source_stem.is_prefix_of(name) ==> retargeted_name(
            name,
            source_stem,
            copy_stem,
        ) == name,
{
    let whole = source_stem + rest;
    assert(whole.subrange(0, source_stem.len() as int) =~= source_stem);
    assert(whole.skip(source_stem.len() as int) =~= rest);
    if begins_with(name, source_stem) {
        assert(source_stem.is_prefix_of(name));
    }
}

/// Of a copy, every sidecar gets the name of the copy; where one has no name that can be
/// written, the copy is refused.
pub proof fn sidecars_follow_the_copy(
    pairs: Seq<(PathModel, PathModel)>,
    source_stem: Seq<char>,
    copy_stem: Seq<char>,
)
    ensures
        retargeted_pairs(pairs, source_stem, copy_stem) is Some <==> forall|k: int|
            0 <= k < pairs.len() ==> (#[trigger] pairs[k]).1.name_text() is Some,
        retargeted_pairs(pairs, source_stem, copy_stem) is Some ==> {
            let moved = retargeted_pairs(pairs, source_stem, copy_stem)->0;
            &&& moved.len() == pairs.len()
            &&& forall|k: int|
                0 <= k < pairs.len() ==> (#[trigger] moved[k]) == (
                    pairs[k].0,
                    pairs[k].1.sibling(
                        retargeted_name(pairs[k].1.name_text()->0, source_stem, copy_stem),
                    ),
                )
        },
    decreases pairs.len(),
{
    if pairs.len() > 0 {
        let fewer = pairs.drop_last();
        sidecars_follow_the_copy(fewer, source_stem, copy_stem);
        assert forall|k: int| 0 <= k < fewer.len() implies #[trigger] fewer[k] == pairs[k] by {}
        assert(pairs.last() == pairs[pairs.len() - 1]);
        if forall|k: int| 0 <= k < pairs.len() ==> (#[trigger] pairs[k]).1.name_text() is Some {
            assert forall|k: int| 0 <= k < fewer.len() implies (
            #[trigger] fewer[k]).1.name_text() is Some by {
                assert(pairs[k].1.name_text() is Some);
            }
        }
        if retargeted_pairs(pairs, source_stem, copy_stem) is Some {
            let moved = retargeted_pairs(pairs, source_stem, copy_stem)->0;
            let before = retargeted_pairs(fewer, source_stem, copy_stem)->0;
            assert forall|k: int| 0 <= k < pairs.len() implies (#[trigger] moved[k]) == (
                pairs[k].0,
                pairs[k].1.sibling(
                    retargeted_name(pairs[k].1.name_text()->0, source_stem, copy_stem),
                ),
            ) by {
                if k < fewer.len() {
                    assert(moved[k] == before[k]);
                }
            }
            assert forall|k: int| 0 <= k < pairs.len() implies (
            #[trigger] pairs[k]).1.name_text() is Some by {
                if k < fewer.len() {
                    assert(fewer[k].1.name_text() is Some);
                }
            }
        }
    }
}

/// A copy is refused where the file or the copy has no name that can be written, or a
/// sidecar has none; otherwise every publication of it is renamed.
pub proof fn copies_are_renamed_whole(
    list: Seq<PublicationModel>,
    source: PathModel,
    copy: PathModel,
    i: int,
)
    ensures
        source.stem() is None ==> retargeted_for_copy(list, source, copy) == Err::<
            Seq<PublicationModel>,
            ErrorModel,
        >(ErrorModel::Failed("The source filename is not valid UTF-8."@)),
        source.stem() is Some && copy.stem() is None ==> retargeted_for_copy(list, source, copy)
            == Err::<Seq<PublicationModel>, ErrorModel>(
            ErrorModel::Failed("The copy filename is not valid UTF-8."@),
        ),
        source.stem() is Some && copy.stem() is Some && 0 <= i < list.len() && retargeted_pairs(
            list[i].staged,
            source.stem()->0,
            copy.stem()->0,
        ) is None ==> retargeted_for_copy(list, source, copy) == Err::<
            Seq<PublicationModel>,
            ErrorModel,
        >(ErrorModel::Failed("A subtitle destination is not valid UTF-8."@)),
        retargeted_for_copy(list, source, copy) is Ok && 0 <= i < list.len() ==> {
            let moved = retargeted_for_copy(list, source, copy)->Ok_0;
            &&& moved.len() == list.len()
            &&& moved[i].remove == list[i].remove
            &&& Some(moved[i].staged) == retargeted_pairs(
                list[i].staged,
                source.stem()->0,
                copy.stem()->0,
            )
        },
{
    if source.stem() is Some && copy.stem() is Some && 0 <= i < list.len() {
        lemma_renamed(list, source.stem()->0, copy.stem()->0, i);
    }
}

proof fn lemma_renamed(
    list: Seq<PublicationModel>,
    source_stem: Seq<char>,
    copy_stem: Seq<char>,
    i: int,
)
    requires
        0 <= i < list.len(),
    ensures
        retargeted_pairs(list[i].staged, source_stem, copy_stem) is None ==> retargeted(
            list,
            source_stem,
            copy_stem,
        ) is None,
        retargeted(list, source_stem, copy_stem) is Some ==> {
            let moved = retargeted(list, source_stem, copy_stem)->0;
            &&& moved.len() == list.len()
            &&& moved[i].remove == list[i].remove
            &&& Some(moved[i].staged) == retargeted_pairs(list[i].staged, source_stem, copy_stem)
        },
    decreases list.len(),
{
    if i < list.len() - 1 {
        lemma_renamed(list.drop_last(), source_stem, copy_stem, i);
    } else if list.len() > 1 {
        lemma_renamed(list.drop_last(), source_stem, copy_stem, 0);
    }
}

/// What is said where a subtitle of pictures was made without its index.
pub proof fn missing_companions_are_told()
    ensures
        companion_missing() == ErrorModel::Failed(
            "VobSub conversion did not create its required .idx companion."@,
        ),
{
}

/// A place that no file has and no earlier publication goes to is free, as is that of a
/// source that no earlier publication goes to.
pub proof fn unclaimed_places_are_free(
    destination: PathModel,
    sources: Seq<PathModel>,
    target: SubtitleFormat,
    list: Seq<PublicationModel>,
    taken: Seq<Place>,
)
    requires
        target != SubtitleFormat::VobSub,
        !taken.contains(destination.place()) || places(sources).contains(destination.place()),
        forall|i: int, k: int|
            0 <= i < list.len() && 0 <= k < list[i].staged.len() ==> (
            #[trigger] list[i].staged[k]).1.place() != destination.place(),
    ensures
        destination_is_free(destination, sources, target, list, taken),
{
    assert forall|i: int| 0 <= i < list.len() implies !claims(#[trigger] list[i], destination) by {
        assert forall|k: int| 0 <= k < list[i].staged.len() implies (
        #[trigger] list[i].staged[k]).1.place() != destination.place() by {}
    }
}

} // verus!
