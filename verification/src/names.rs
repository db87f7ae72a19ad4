//! The names of the files that an edit writes.

use vstd::prelude::*;
use vstd::string::StringExecFns;

use crate::container::ContainerFormat;
use crate::path::{
    holds_path, in_directory, names_tell_files_apart, paths, places, FilePath, Part, PathModel,
    PathText, Place,
};
use crate::sources::{EditError, ErrorModel};
use crate::subtitle::SubtitleFormat;
use crate::text::{decimal, number_text, numbers_read_back, opt_str};

verus! {

// Copies.

/// What is put behind the stem of the source for a copy of a number.
pub open spec fn copy_suffix(number: nat) -> Seq<char> {
    if number == 1 {
        "-reel-edit"@
    } else {
        "-reel-edit-"@ + decimal(number)
    }
}

/// The extension of a written file: that of the container asked for, or else its source's.
pub open spec fn target_extension(source: PathModel, container: Option<ContainerFormat>) -> Option<
    Seq<char>,
> {
    match container {
        Some(container) => Some(container.extension_text()),
        None => source.extension(),
    }
}

/// A name with an extension, where there is one.
pub open spec fn extended(name: Seq<char>, extension: Option<Seq<char>>) -> Seq<char> {
    match extension {
        Some(extension) => name + "."@ + extension,
        None => name,
    }
}

fn extend(name: String, extension: Option<&str>) -> (result: String)
    ensures
        result@ == extended(name@, opt_str(extension)),
{
    let mut name = name;
    if let Some(extension) = extension {
        name.append(".");
        name.append(extension);
    }
    name
}

fn extension_after<'a>(source: &'a FilePath, container: Option<ContainerFormat>) -> (result: Option<
    &'a str,
>)
    ensures
        opt_str(result) == target_extension(source@, container),
{
    match container {
        Some(container) => Some(container.extension()),
        None => source.extension(),
    }
}

/// The name of a copy of a number.
pub open spec fn copy_name(
    stem: Seq<char>,
    number: nat,
    extension: Option<Seq<char>>,
) -> Seq<char> {
    extended(stem + copy_suffix(number), extension)
}

/// The path of a copy of a number, or why there is none.
pub open spec fn copy_of(
    source: PathModel,
    number: nat,
    container: Option<ContainerFormat>,
) -> Result<PathModel, Seq<char>> {
    match (source.directory, source.stem()) {
        (None, _) => Err("The source file has no parent directory."@),
        (_, None) => Err("The source filename is not valid UTF-8."@),
        (Some(directory), Some(stem)) => Ok(
            in_directory(
                directory,
                copy_name(stem, number, target_extension(source, container)),
            ),
        ),
    }
}

pub fn copy_path(source: &FilePath, number: usize, container: Option<ContainerFormat>) -> (result:
    Result<FilePath, String>)
    ensures
        match result {
            Ok(path) => copy_of(source@, number as nat, container) == Ok::<PathModel, Seq<char>>(
                path@,
            ),
            Err(message) => copy_of(source@, number as nat, container) == Err::<
                PathModel,
                Seq<char>,
            >(message@),
        },
{
    let directory = match &source.directory {
        Some(directory) => directory,
        None => return Err("The source file has no parent directory.".to_owned()),
    };
    let stem = match source.stem() {
        Some(stem) => stem,
        None => return Err("The source filename is not valid UTF-8.".to_owned()),
    };
    let mut suffix = "-reel-edit".to_owned();
    if number != 1 {
        suffix = "-reel-edit-".to_owned();
        suffix.append(number_text(number as u64).as_str());
    }
    let mut name = stem.to_owned();
    name.append(suffix.as_str());
    let name = extend(name, extension_after(source, container));
    Ok(FilePath::inside(directory, name.as_str()))
}

proof fn lemma_copy_names_differ(
    stem: Seq<char>,
    one: nat,
    other: nat,
    extension: Option<Seq<char>>,
)
    requires
        one != other,
    ensures
        copy_name(stem, one, extension) != copy_name(stem, other, extension),
{
    reveal_strlit("-reel-edit");
    reveal_strlit("-reel-edit-");
    numbers_read_back(one);
    numbers_read_back(other);
    let tail = match extension {
        Some(extension) => "."@ + extension,
        None => Seq::empty(),
    };
    let left = copy_name(stem, one, extension);
    let right = copy_name(stem, other, extension);
    assert(left =~= stem + copy_suffix(one) + tail);
    assert(right =~= stem + copy_suffix(other) + tail);
    if left == right {
        assert(copy_suffix(one).len() == copy_suffix(other).len());
        assert(copy_suffix(one) =~= left.subrange(
            stem.len() as int,
            (stem.len() + copy_suffix(one).len()) as int,
        ));
        assert(copy_suffix(other) =~= right.subrange(
            stem.len() as int,
            (stem.len() + copy_suffix(other).len()) as int,
        ));
        assert(copy_suffix(one) == copy_suffix(other));
        assert("-reel-edit"@.len() == 10 && "-reel-edit-"@.len() == 11);
        if one != 1 && other != 1 {
            assert(decimal(one) =~= copy_suffix(one).skip(11));
            assert(decimal(other) =~= copy_suffix(other).skip(11));
        }
    }
}

/// Copies of different numbers are different files.
pub proof fn copies_differ(
    source: PathModel,
    one: nat,
    other: nat,
    container: Option<ContainerFormat>,
)
    requires
        one != other,
        copy_of(source, one, container) is Ok,
    ensures
        copy_of(source, other, container) is Ok,
        copy_of(source, one, container)->Ok_0.place() != copy_of(
            source,
            other,
            container,
        )->Ok_0.place(),
{
    let stem = source.stem()->0;
    let extension = target_extension(source, container);
    lemma_copy_names_differ(stem, one, other, extension);
    reveal_strlit("-reel-edit");
    reveal_strlit("-reel-edit-");
    names_tell_files_apart(
        source.directory->0,
        copy_name(stem, one, extension),
        copy_name(stem, other, extension),
    );
}

/// Whether the copy of a number is free and no lower number's is.
pub open spec fn first_free_copy(
    source: PathModel,
    container: Option<ContainerFormat>,
    taken: Seq<Place>,
    number: nat,
) -> bool {
    &&& number >= 1
    &&& !taken.contains(copy_of(source, number, container)->Ok_0.place())
    &&& forall|lower: nat|
        1 <= lower < number ==> taken.contains(
            (#[trigger] copy_of(source, lower, container))->Ok_0.place(),
        )
}

proof fn lemma_some_copy_is_free(
    source: PathModel,
    container: Option<ContainerFormat>,
    taken: Seq<Place>,
    tried: nat,
)
    requires
        copy_of(source, 1, container) is Ok,
        forall|lower: nat|
            1 <= lower <= tried ==> taken.contains(
                (#[trigger] copy_of(source, lower, container))->Ok_0.place(),
            ),
    ensures
        tried <= taken.len(),
{
    let copies = Seq::new(tried, |i: int| copy_of(source, (i + 1) as nat, container)->Ok_0.place());
    assert(copies.no_duplicates()) by {
        assert forall|i: int, j: int|
            0 <= i < copies.len() && 0 <= j < copies.len() && i != j implies copies[i]
            != copies[j] by {
            assert(copy_of(source, (i + 1) as nat, container) is Ok);
            copies_differ(source, (i + 1) as nat, (j + 1) as nat, container);
        }
    }
    assert(copies.to_set().subset_of(taken.to_set())) by {
        assert forall|place: Place| copies.to_set().contains(
            place,
        ) implies taken.to_set().contains(place) by {
            let i = choose|i: int| 0 <= i < copies.len() && copies[i] == place;
            assert(taken.contains(copy_of(source, (i + 1) as nat, container)->Ok_0.place()));
        }
    }
    copies.unique_seq_to_set();
    vstd::set_lib::lemma_len_subset(copies.to_set(), taken.to_set());
    vstd::seq_lib::seq_to_set_is_finite(taken);
    taken.lemma_cardinality_of_set();
}

/// The first copy whose path is not taken.
pub fn next_copy_path(
    source: &FilePath,
    container: Option<ContainerFormat>,
    taken: &[FilePath],
) -> (result: Result<FilePath, EditError>)
    requires
        taken@.len() < usize::MAX,
    ensures
        match result {
            Ok(path) => exists|number: nat| #[trigger]
                first_free_copy(source@, container, places(paths(taken@)), number) && copy_of(
                    source@,
                    number,
                    container,
                ) == Ok::<PathModel, Seq<char>>(path@),
            Err(error) => copy_of(source@, 1, container) is Err && error@ == ErrorModel::Failed(
                copy_of(source@, 1, container)->Err_0,
            ),
        },
{
    let mut number: usize = 1;
    loop
        invariant
            1 <= number <= taken@.len() + 1,
            taken@.len() < usize::MAX,
            number > 1 ==> copy_of(source@, 1, container) is Ok,
            forall|lower: nat|
                1 <= lower < number ==> places(paths(taken@)).contains(
                    (#[trigger] copy_of(source@, lower, container))->Ok_0.place(),
                ),
        decreases taken@.len() + 1 - number,
    {
        let candidate = match copy_path(source, number, container) {
            Ok(candidate) => candidate,
            Err(message) => return Err(EditError::Failed(message)),
        };
        if !holds_path(taken, &candidate) {
            assert(first_free_copy(source@, container, places(paths(taken@)), number as nat));
            return Ok(candidate);
        }
        proof {
            assert(copy_of(source@, 1, container) is Ok);
            lemma_some_copy_is_free(source@, container, places(paths(taken@)), number as nat);
        }
        number = number + 1;
    }
}

// The place of the source.

/// The path that an edit in place is saved to: with the extension of the container asked
/// for, or else the source's own.
pub open spec fn replacement_of(source: PathModel, container: Option<ContainerFormat>) -> Result<
    PathModel,
    ErrorModel,
> {
    match container {
        None => Ok(source),
        Some(container) => match (source.directory, source.stem()) {
            (None, _) => Err(ErrorModel::Failed("The source file has no parent directory."@)),
            (_, None) => Err(ErrorModel::Failed("The source filename is not valid UTF-8."@)),
            (Some(directory), Some(stem)) => Ok(
                in_directory(directory, stem + "."@ + container.extension_text()),
            ),
        },
    }
}

/// Whether a result holds a path or an error.
pub open spec fn path_result(
    result: Result<FilePath, EditError>,
    expected: Result<PathModel, ErrorModel>,
) -> bool {
    match result {
        Ok(path) => expected == Ok::<PathModel, ErrorModel>(path@),
        Err(error) => expected == Err::<PathModel, ErrorModel>(error@),
    }
}

pub fn replacement_path(source: &FilePath, container: Option<ContainerFormat>) -> (result: Result<
    FilePath,
    EditError,
>)
    ensures
        path_result(result, replacement_of(source@, container)),
{
    let container = match container {
        Some(container) => container,
        None => return Ok(source.clone()),
    };
    let directory = match &source.directory {
        Some(directory) => directory,
        None => return Err(
            EditError::Failed("The source file has no parent directory.".to_owned()),
        ),
    };
    let stem = match source.stem() {
        Some(stem) => stem,
        None => return Err(
            EditError::Failed("The source filename is not valid UTF-8.".to_owned()),
        ),
    };
    let mut name = stem.to_owned();
    name.append(".");
    name.append(container.extension());
    Ok(FilePath::inside(directory, name.as_str()))
}

// Subtitles.

/// A subtitle's path with a number before its extension.
pub open spec fn numbered_of(path: PathModel, number: nat) -> Result<PathModel, ErrorModel> {
    match (path.stem(), path.extension()) {
        (None, _) => Err(ErrorModel::Failed("Subtitle filename is not valid UTF-8."@)),
        (_, None) => Err(ErrorModel::Failed("Subtitle filename has no extension."@)),
        (Some(stem), Some(extension)) => Ok(
            path.sibling(stem + "."@ + decimal(number) + "."@ + extension),
        ),
    }
}

pub fn numbered_subtitle_path(path: &FilePath, number: usize) -> (result: Result<
    FilePath,
    EditError,
>)
    ensures
        path_result(result, numbered_of(path@, number as nat)),
{
    let stem = match path.stem() {
        Some(stem) => stem,
        None => return Err(EditError::Failed("Subtitle filename is not valid UTF-8.".to_owned())),
    };
    let extension = match path.extension() {
        Some(extension) => extension,
        None => return Err(EditError::Failed("Subtitle filename has no extension.".to_owned())),
    };
    let mut name = stem.to_owned();
    name.append(".");
    name.append(number_text(number as u64).as_str());
    name.append(".");
    name.append(extension);
    Ok(path.sibling(name.as_str()))
}

/// The file that a tool reads a subtitle from: of a two-file subtitle the one that names
/// the other.
pub open spec fn input_of(path: PathModel, format: SubtitleFormat) -> PathModel {
    if format == SubtitleFormat::VobSub {
        path.with_extension("idx"@)
    } else {
        path
    }
}

pub fn subtitle_input_path(path: &FilePath, format: SubtitleFormat) -> (result: FilePath)
    ensures
        result@ == input_of(path@, format),
{
    if format == SubtitleFormat::VobSub {
        path.with_extension("idx")
    } else {
        path.clone()
    }
}

// Work files.

/// Where intermediate files go: beside the source on a local disk, to the scratch
/// directory for a source on a network.
pub open spec fn work_directory(path: PathModel, network: bool, scratch: Part) -> Result<
    Part,
    Seq<char>,
> {
    if network {
        Ok(scratch)
    } else {
        match path.directory {
            Some(directory) => Ok(directory),
            None => Err("The source file has no parent directory."@),
        }
    }
}

pub fn work_parent(path: &FilePath, is_network: bool, scratch: &PathText) -> (result: Result<
    PathText,
    String,
>)
    ensures
        match result {
            Ok(directory) => work_directory(path@, is_network, scratch@) == Ok::<Part, Seq<char>>(
                directory@,
            ),
            Err(message) => work_directory(path@, is_network, scratch@) == Err::<Part, Seq<char>>(
                message@,
            ),
        },
{
    if is_network {
        return Ok(scratch.clone());
    }
    match &path.directory {
        Some(directory) => Ok(directory.clone()),
        None => Err("The source file has no parent directory.".to_owned()),
    }
}

/// The file that a remux is written to before it is published, or why there is none. The
/// nonce tells one run from another.
pub open spec fn temporary_of(
    path: PathModel,
    container: Option<ContainerFormat>,
    network: bool,
    scratch: Part,
    nonce: Seq<char>,
) -> Result<PathModel, Seq<char>> {
    match work_directory(path, network, scratch) {
        Err(message) => Err(message),
        Ok(directory) => match path.stem() {
            None => Err("The source filename is not valid UTF-8."@),
            Some(stem) => Ok(
                in_directory(
                    directory,
                    extended(
                        ".reel-tui-"@ + nonce + "-"@ + stem,
                        target_extension(path, container),
                    ),
                ),
            ),
        },
    }
}

pub fn temporary_path(
    path: &FilePath,
    container: Option<ContainerFormat>,
    is_network: bool,
    scratch: &PathText,
    nonce: &str,
) -> (result: Result<FilePath, String>)
    ensures
        match result {
            Ok(temporary) => temporary_of(path@, container, is_network, scratch@, nonce@) == Ok::<
                PathModel,
                Seq<char>,
            >(temporary@),
            Err(message) => temporary_of(path@, container, is_network, scratch@, nonce@) == Err::<
                PathModel,
                Seq<char>,
            >(message@),
        },
{
    let directory = match work_parent(path, is_network, scratch) {
        Ok(directory) => directory,
        Err(message) => return Err(message),
    };
    let stem = match path.stem() {
        Some(stem) => stem,
        None => return Err("The source filename is not valid UTF-8.".to_owned()),
    };
    let mut name = ".reel-tui-".to_owned();
    name.append(nonce);
    name.append("-");
    name.append(stem);
    let name = extend(name, extension_after(path, container));
    Ok(FilePath::inside(&directory, name.as_str()))
}

/// The directory that subtitles are prepared in, or why there is none.
pub open spec fn workspace_of(path: PathModel, network: bool, scratch: Part, nonce: Seq<char>) -> Result<
    PathModel,
    Seq<char>,
> {
    match work_directory(path, network, scratch) {
        Err(message) => Err(message),
        Ok(directory) => Ok(
            in_directory(directory, ".reel-tui-"@ + nonce + "-subtitle-work"@),
        ),
    }
}

pub fn temporary_workspace(
    path: &FilePath,
    is_network: bool,
    scratch: &PathText,
    nonce: &str,
) -> (result: Result<FilePath, String>)
    ensures
        match result {
            Ok(workspace) => workspace_of(path@, is_network, scratch@, nonce@) == Ok::<
                PathModel,
                Seq<char>,
            >(workspace@),
            Err(message) => workspace_of(path@, is_network, scratch@, nonce@) == Err::<
                PathModel,
                Seq<char>,
            >(message@),
        },
{
    let directory = match work_parent(path, is_network, scratch) {
        Ok(directory) => directory,
        Err(message) => return Err(message),
    };
    let mut name = ".reel-tui-".to_owned();
    name.append(nonce);
    name.append("-subtitle-work");
    Ok(FilePath::inside(&directory, name.as_str()))
}

/// A copy stands beside its source, is named after it, and ends in the container's
/// extension, or in its own where the container stays. The first copy has no number.
pub proof fn copies_are_named_after_their_source(
    source: PathModel,
    directory: Part,
    stem: Seq<char>,
    number: nat,
    container: ContainerFormat,
)
    requires
        source.directory == Some(directory),
        source.stem() == Some(stem),
    ensures
        copy_of(source, 1, Some(container)) == Ok::<PathModel, Seq<char>>(
            in_directory(directory, stem + "-reel-edit."@ + container.extension_text()),
        ),
        number != 1 ==> copy_of(source, number, Some(container)) == Ok::<PathModel, Seq<char>>(
            in_directory(
                directory,
                stem + "-reel-edit-"@ + decimal(number) + "."@ + container.extension_text(),
            ),
        ),
        source.extension() is Some ==> copy_of(source, 1, None) == Ok::<PathModel, Seq<char>>(
            in_directory(directory, stem + "-reel-edit."@ + source.extension()->0),
        ),
        source.extension() is None ==> copy_of(source, 1, None) == Ok::<PathModel, Seq<char>>(
            in_directory(directory, stem + "-reel-edit"@),
        ),
        source.extension() is Some && number != 1 ==> copy_of(source, number, None) == Ok::<
            PathModel,
            Seq<char>,
        >(
            in_directory(
                directory,
                stem + "-reel-edit-"@ + decimal(number) + "."@ + source.extension()->0,
            ),
        ),
{
    reveal_strlit("-reel-edit");
    reveal_strlit("-reel-edit.");
    reveal_strlit(".");
    assert("-reel-edit"@ + "."@ =~= "-reel-edit."@);
    let ending = container.extension_text();
    assert(stem + "-reel-edit"@ + "."@ + ending =~= stem + "-reel-edit."@ + ending);
    assert(stem + ("-reel-edit-"@ + decimal(number)) + "."@ + ending =~= stem + "-reel-edit-"@
        + decimal(number) + "."@ + ending);
    if source.extension() is Some {
        let own = source.extension()->0;
        assert(stem + "-reel-edit"@ + "."@ + own =~= stem + "-reel-edit."@ + own);
        assert(stem + ("-reel-edit-"@ + decimal(number)) + "."@ + own =~= stem + "-reel-edit-"@
            + decimal(number) + "."@ + own);
    }
}

/// A copy and a replacement need a directory and a name that can be written.
pub proof fn nameless_files_are_refused(
    source: PathModel,
    number: nat,
    container: ContainerFormat,
    network: bool,
    scratch: Part,
    nonce: Seq<char>,
)
    ensures
        source.directory is None ==> {
            &&& copy_of(source, number, Some(container)) == Err::<PathModel, Seq<char>>(
                "The source file has no parent directory."@,
            )
            &&& copy_of(source, number, None) == Err::<PathModel, Seq<char>>(
                "The source file has no parent directory."@,
            )
            &&& replacement_of(source, Some(container)) == Err::<PathModel, ErrorModel>(
                ErrorModel::Failed("The source file has no parent directory."@),
            )
            &&& workspace_of(source, false, scratch, nonce) == Err::<PathModel, Seq<char>>(
                "The source file has no parent directory."@,
            )
            &&& temporary_of(source, Some(container), false, scratch, nonce) == Err::<
                PathModel,
                Seq<char>,
            >("The source file has no parent directory."@)
        },
        source.directory is Some && source.stem() is None ==> {
            &&& copy_of(source, number, Some(container)) == Err::<PathModel, Seq<char>>(
                "The source filename is not valid UTF-8."@,
            )
            &&& copy_of(source, number, None) == Err::<PathModel, Seq<char>>(
                "The source filename is not valid UTF-8."@,
            )
            &&& replacement_of(source, Some(container)) == Err::<PathModel, ErrorModel>(
                ErrorModel::Failed("The source filename is not valid UTF-8."@),
            )
            &&& temporary_of(source, Some(container), network, scratch, nonce) == Err::<
                PathModel,
                Seq<char>,
            >("The source filename is not valid UTF-8."@)
        },
        source.stem() is None ==> numbered_of(source, number) == Err::<PathModel, ErrorModel>(
            ErrorModel::Failed("Subtitle filename is not valid UTF-8."@),
        ),
        source.stem() is Some && source.extension() is None ==> numbered_of(source, number)
            == Err::<PathModel, ErrorModel>(
            ErrorModel::Failed("Subtitle filename has no extension."@),
        ),
{
}

/// A replaced file keeps its name, but for the extension of another container.
pub proof fn replacements_keep_the_name(source: PathModel, container: ContainerFormat)
    ensures
        replacement_of(source, None) == Ok::<PathModel, ErrorModel>(source),
        source.directory is Some && source.stem() is Some ==> replacement_of(
            source,
            Some(container),
        ) == Ok::<PathModel, ErrorModel>(
            in_directory(
                source.directory->0,
                source.stem()->0 + "."@ + container.extension_text(),
            ),
        ),
{
}

/// A numbered subtitle has its number in front of its extension, and different numbers make
/// different names.
pub proof fn numbers_stand_before_the_extension(path: PathModel, one: nat, other: nat)
    requires
        path.stem() is Some,
        path.extension() is Some,
    ensures
        numbered_of(path, one) == Ok::<PathModel, ErrorModel>(
            path.sibling(path.stem()->0 + "."@ + decimal(one) + "."@ + path.extension()->0),
        ),
        one != other ==> numbered_of(path, one)->Ok_0.place() != numbered_of(
            path,
            other,
        )->Ok_0.place(),
{
    if one != other {
        let front = path.stem()->0 + "."@;
        let back = "."@ + path.extension()->0;
        let left = front + decimal(one) + "."@ + path.extension()->0;
        let right = front + decimal(other) + "."@ + path.extension()->0;
        reveal_strlit(".");
        numbers_read_back(one);
        numbers_read_back(other);
        assert(left =~= front + decimal(one) + back);
        assert(right =~= front + decimal(other) + back);
        if left == right {
            assert(decimal(one).len() == decimal(other).len());
            assert(decimal(one) =~= left.subrange(
                front.len() as int,
                (front.len() + decimal(one).len()) as int,
            ));
            assert(decimal(other) =~= right.subrange(
                front.len() as int,
                (front.len() + decimal(other).len()) as int,
            ));
            assert(false);
        }
        names_tell_files_apart(path.beside(), left, right);
    }
}

/// A tool reads pictures by their index, and any other subtitle by its own file.
pub proof fn pictures_are_read_by_their_index(path: PathModel, format: SubtitleFormat)
    ensures
        input_of(path, SubtitleFormat::VobSub) == path.with_extension("idx"@),
        format != SubtitleFormat::VobSub ==> input_of(path, format) == path,
{
}

/// What an edit writes on the way stands beside the source, or on the local disk where the
/// source is on a network, and is named so that a listing passes over it.
pub proof fn work_files_are_hidden(
    path: PathModel,
    container: ContainerFormat,
    scratch: Part,
    nonce: Seq<char>,
    directory: Part,
    stem: Seq<char>,
)
    requires
        path.directory == Some(directory),
        path.stem() == Some(stem),
    ensures
        workspace_of(path, false, scratch, nonce) == Ok::<PathModel, Seq<char>>(
            in_directory(directory, ".reel-tui-"@ + nonce + "-subtitle-work"@),
        ),
        workspace_of(path, true, scratch, nonce) == Ok::<PathModel, Seq<char>>(
            in_directory(scratch, ".reel-tui-"@ + nonce + "-subtitle-work"@),
        ),
        temporary_of(path, Some(container), false, scratch, nonce) == Ok::<PathModel, Seq<char>>(
            in_directory(
                directory,
                ".reel-tui-"@ + nonce + "-"@ + stem + "."@ + container.extension_text(),
            ),
        ),
        temporary_of(path, Some(container), true, scratch, nonce) == Ok::<PathModel, Seq<char>>(
            in_directory(
                scratch,
                ".reel-tui-"@ + nonce + "-"@ + stem + "."@ + container.extension_text(),
            ),
        ),
        path.extension() is Some ==> temporary_of(path, None, false, scratch, nonce) == Ok::<
            PathModel,
            Seq<char>,
        >(
            in_directory(
                directory,
                ".reel-tui-"@ + nonce + "-"@ + stem + "."@ + path.extension()->0,
            ),
        ),
        path.extension() is None ==> temporary_of(path, None, false, scratch, nonce) == Ok::<
            PathModel,
            Seq<char>,
        >(in_directory(directory, ".reel-tui-"@ + nonce + "-"@ + stem)),
{
}

} // verus!
