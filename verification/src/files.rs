//! Files of a directory and what tells one version of a file from another.

use vstd::prelude::*;

use crate::order::{lemma_text_asymmetric, lemma_text_transitive, text_before, text_less_than};
use crate::path::{FilePath, PathModel, Place};
use crate::text::{
    begins_with, lowercase_text, occurring_parts_are_there, parts_occur_where_they_stand, same_text,
    starts_with, to_lowercase,
};

verus! {

/// What tells whether a file changed: its length and the time it was last written, in
/// nanoseconds since 1970, where that is known.
#[derive(Clone, Copy, Debug, Eq, Hash, PartialEq, Structural)]
pub struct FileFingerprint {
    pub length: u64,
    pub modified: Option<i128>,
}

impl FileFingerprint {
    /// Whether a file is the version that another fingerprint was taken of.
    pub fn same(self, other: FileFingerprint) -> (result: bool)
        ensures
            result == (self == other),
    {
        let modified = match (self.modified, other.modified) {
            (Some(left), Some(right)) => left == right,
            (None, None) => true,
            _ => false,
        };
        self.length == other.length && modified
    }
}

/// A listed file.
#[derive(Debug, Eq, PartialEq)]
pub struct FileEntry {
    pub path: FilePath,
    pub display_name: String,
    pub fingerprint: FileFingerprint,
}

/// What a [`FileEntry`] says.
pub ghost struct EntryModel {
    pub path: PathModel,
    pub name: Seq<char>,
    pub fingerprint: FileFingerprint,
}

impl EntryModel {
    /// Which file it is, and what is said of it.
    pub open spec fn told(self) -> (Place, Seq<char>, FileFingerprint) {
        (self.path.place(), self.name, self.fingerprint)
    }
}

impl View for FileEntry {
    type V = EntryModel;

    open spec fn view(&self) -> EntryModel {
        EntryModel {
            path: self.path@,
            name: self.display_name@,
            fingerprint: self.fingerprint,
        }
    }
}

impl Clone for FileEntry {
    fn clone(&self) -> (result: FileEntry)
        ensures
            result@ == self@,
    {
        FileEntry {
            path: self.path.clone(),
            display_name: self.display_name.as_str().to_owned(),
            fingerprint: self.fingerprint,
        }
    }
}

impl FileEntry {
    /// Whether two entries say the same of one file, however its path is spelled.
    pub fn same(&self, other: &FileEntry) -> (result: bool)
        ensures
            result == (self@.told() == other@.told()),
    {
        self.path.same(&other.path) && same_text(
            self.display_name.as_str(),
            other.display_name.as_str(),
        ) && self.fingerprint.same(other.fingerprint)
    }
}

/// The views of a list of entries.
pub open spec fn entries(list: Seq<FileEntry>) -> Seq<EntryModel> {
    list.map_values(|entry: FileEntry| entry@)
}

/// One entry of a directory: its path and name, whether it is a regular file, and its
/// fingerprint, where that can be taken.
#[derive(Debug, Eq, PartialEq)]
pub struct FoundFile {
    pub path: FilePath,
    pub display_name: String,
    pub is_file: bool,
    pub fingerprint: Option<FileFingerprint>,
}

/// Whether an entry of a directory is listed: a regular file that can be read and is no
/// work file of an edit.
pub open spec fn is_listed(found: FoundFile) -> bool {
    found.is_file && !begins_with(found.display_name@, ".reel-tui-"@) && found.fingerprint is Some
}

/// The entry of a listed file.
pub open spec fn entry_of(found: FoundFile) -> EntryModel {
    EntryModel {
        path: found.path@,
        name: found.display_name@,
        fingerprint: found.fingerprint->0,
    }
}

/// Whether one name is listed before another: without regard to case first, and by the
/// names themselves where they differ only in case.
pub open spec fn listed_before(left: Seq<char>, right: Seq<char>) -> bool {
    if lowercase_text(left) == lowercase_text(right) {
        text_before(left, right)
    } else {
        text_before(lowercase_text(left), lowercase_text(right))
    }
}

fn name_before(left: &str, right: &str) -> (result: bool)
    ensures
        result == listed_before(left@, right@),
{
    let left_lower = to_lowercase(left);
    let right_lower = to_lowercase(right);
    if same_text(left_lower.as_str(), right_lower.as_str()) {
        text_less_than(left, right)
    } else {
        text_less_than(left_lower.as_str(), right_lower.as_str())
    }
}

/// A list of entries with one more, from a position on: before the first that it is listed
/// before.
pub open spec fn listed_from(list: Seq<EntryModel>, entry: EntryModel, position: int) -> Seq<
    EntryModel,
>
    decreases list.len() - position,
{
    if !(0 <= position < list.len()) {
        list.push(entry)
    } else if listed_before(entry.name, list[position].name) {
        list.insert(position, entry)
    } else {
        listed_from(list, entry, position + 1)
    }
}

/// The listed files of a directory, in order.
pub open spec fn listing(found: Seq<FoundFile>) -> Seq<EntryModel>
    decreases found.len(),
{
    if found.len() == 0 {
        Seq::empty()
    } else {
        let before = listing(found.drop_last());
        if is_listed(found.last()) {
            listed_from(before, entry_of(found.last()), 0)
        } else {
            before
        }
    }
}

fn insert_entry(list: &mut Vec<FileEntry>, entry: FileEntry)
    ensures
        entries(final(list)@) == listed_from(entries(old(list)@), entry@, 0),
{
    let ghost before = entries(list@);
    let ghost model = entry@;
    let mut i: usize = 0;
    while i < list.len()
        invariant
            0 <= i <= list.len(),
            before == entries(list@),
            before == entries(old(list)@),
            model == entry@,
            listed_from(before, model, 0) == listed_from(before, model, i as int),
        decreases list.len() - i,
    {
        assert(before[i as int] == list@[i as int]@);
        if name_before(entry.display_name.as_str(), list[i].display_name.as_str()) {
            list.insert(i, entry);
            assert(entries(list@) =~= before.insert(i as int, model));
            return ;
        }
        i = i + 1;
    }
    list.push(entry);
    assert(entries(list@) =~= before.push(model));
}

/// Lists what was found in a directory.
pub fn scan_directory(found: &[FoundFile]) -> (result: Vec<FileEntry>)
    ensures
        entries(result@) == listing(found@),
{
    let mut result: Vec<FileEntry> = Vec::new();
    let mut i: usize = 0;
    assert(entries(result@) =~= Seq::empty());
    while i < found.len()
        invariant
            0 <= i <= found.len(),
            entries(result@) == listing(found@.take(i as int)),
        decreases found.len() - i,
    {
        let file = &found[i];
        proof {
            assert(found@.take(i + 1).drop_last() =~= found@.take(i as int));
            assert(found@.take(i + 1).last() == *file);
        }
        if file.is_file && !starts_with(file.display_name.as_str(), ".reel-tui-") {
            if let Some(fingerprint) = file.fingerprint {
                let entry = FileEntry {
                    path: file.path.clone(),
                    display_name: file.display_name.as_str().to_owned(),
                    fingerprint,
                };
                insert_entry(&mut result, entry);
            }
        }
        i = i + 1;
    }
    assert(found@.take(found@.len() as int) =~= found@);
    result
}

/// How many files a scan of a network directory looks at together.
pub const NETWORK_SCAN_CONCURRENCY: usize = 8;

/// How many files each of the concurrent workers gets, so that all of them are covered.
pub fn scan_chunk_size(candidates: usize) -> (result: usize)
    ensures
        result >= 1,
        result * NETWORK_SCAN_CONCURRENCY >= candidates,
        result > 1 ==> (result - 1) * NETWORK_SCAN_CONCURRENCY < candidates,
{
    let whole: usize = candidates / NETWORK_SCAN_CONCURRENCY;
    let chunk: usize = if candidates % NETWORK_SCAN_CONCURRENCY == 0 {
        whole
    } else {
        whole + 1
    };
    if chunk == 0 {
        1
    } else {
        chunk
    }
}

/// What a look at a directory gives: its files, or why it could not be read.
#[derive(Debug, Eq, PartialEq)]
pub enum DirectorySnapshot {
    Files(Vec<FileEntry>),
    Error(String),
}

/// What a [`DirectorySnapshot`] says.
pub ghost enum SnapshotModel {
    Files(Seq<EntryModel>),
    Error(Seq<char>),
}

impl View for DirectorySnapshot {
    type V = SnapshotModel;

    open spec fn view(&self) -> SnapshotModel {
        match self {
            DirectorySnapshot::Files(files) => SnapshotModel::Files(entries(files@)),
            DirectorySnapshot::Error(message) => SnapshotModel::Error(message@),
        }
    }
}

/// What is said of some entries.
pub open spec fn all_told(list: Seq<EntryModel>) -> Seq<(Place, Seq<char>, FileFingerprint)> {
    list.map_values(|entry: EntryModel| entry.told())
}

impl SnapshotModel {
    /// Whether two snapshots say the same of the same files.
    pub open spec fn same(self, other: SnapshotModel) -> bool {
        match (self, other) {
            (SnapshotModel::Files(left), SnapshotModel::Files(right)) => all_told(left) == all_told(
                right,
            ),
            (SnapshotModel::Error(left), SnapshotModel::Error(right)) => left == right,
            _ => false,
        }
    }
}

fn same_entries(left: &Vec<FileEntry>, right: &Vec<FileEntry>) -> (result: bool)
    ensures
        result == (all_told(entries(left@)) == all_told(entries(right@))),
{
    let ghost one = all_told(entries(left@));
    let ghost other = all_told(entries(right@));
    assert(one.len() == left@.len() && other.len() == right@.len());
    if left.len() != right.len() {
        return false;
    }
    let mut i: usize = 0;
    while i < left.len()
        invariant
            0 <= i <= left.len(),
            left@.len() == right@.len(),
            forall|k: int| 0 <= k < i ==> (#[trigger] left@[k])@.told() == right@[k]@.told(),
        decreases left.len() - i,
    {
        if !left[i].same(&right[i]) {
            assert(all_told(entries(left@))[i as int] != all_told(entries(right@))[i as int]);
            return false;
        }
        i = i + 1;
    }
    assert(one =~= other);
    true
}

/// Whether a snapshot is worth sending: where it differs from the one before, or there is
/// none before.
pub fn snapshot_changed(previous: Option<&DirectorySnapshot>, snapshot: &DirectorySnapshot) -> (result:
    bool)
    ensures
        result == !(previous is Some && previous->0@.same(snapshot@)),
{
    match previous {
        None => true,
        Some(previous) => match (previous, snapshot) {
            (DirectorySnapshot::Files(left), DirectorySnapshot::Files(right)) => !same_entries(
                left,
                right,
            ),
            (DirectorySnapshot::Error(left), DirectorySnapshot::Error(right)) => !same_text(
                left.as_str(),
                right.as_str(),
            ),
            _ => true,
        },
    }
}

/// How long events are waited for before a directory is looked at again, in milliseconds.
pub const EVENT_DEBOUNCE_MILLIS: u64 = 150;

/// How often a directory is looked at when no event comes, in milliseconds.
pub const RECONCILE_MILLIS: u64 = 1_000;

/// How often a directory on a network is looked at when no event comes, in milliseconds.
pub const NETWORK_RECONCILE_MILLIS: u64 = 10_000;

pub fn reconcile_interval(is_network: bool) -> (result: u64)
    ensures
        result == if is_network {
            NETWORK_RECONCILE_MILLIS
        } else {
            RECONCILE_MILLIS
        },
{
    if is_network {
        NETWORK_RECONCILE_MILLIS
    } else {
        RECONCILE_MILLIS
    }
}

/// How long to go on waiting for more events, that much after the last one; `None` where
/// it was long enough.
pub fn debounce_remaining(elapsed_millis: u64) -> (result: Option<u64>)
    ensures
        match result {
            Some(remaining) => remaining + elapsed_millis == EVENT_DEBOUNCE_MILLIS && remaining > 0,
            None => elapsed_millis >= EVENT_DEBOUNCE_MILLIS,
        },
{
    if elapsed_millis >= EVENT_DEBOUNCE_MILLIS {
        None
    } else {
        Some(EVENT_DEBOUNCE_MILLIS - elapsed_millis)
    }
}

// Laws.

proof fn lemma_listed_asymmetric(left: Seq<char>, right: Seq<char>)
    ensures
        listed_before(left, right) ==> !listed_before(right, left),
{
    lemma_text_asymmetric(left, right);
    lemma_text_asymmetric(lowercase_text(left), lowercase_text(right));
}

proof fn lemma_listed_transitive(a: Seq<char>, b: Seq<char>, c: Seq<char>)
    ensures
        !listed_before(b, a) && !listed_before(c, b) ==> !listed_before(c, a),
        listed_before(a, b) && !listed_before(c, b) ==> !listed_before(c, a),
{
    let (la, lb, lc) = (lowercase_text(a), lowercase_text(b), lowercase_text(c));
    crate::order::lemma_text_total(a, b);
    crate::order::lemma_text_total(b, c);
    crate::order::lemma_text_total(a, c);
    crate::order::lemma_text_total(la, lb);
    crate::order::lemma_text_total(lb, lc);
    crate::order::lemma_text_total(la, lc);
    lemma_text_asymmetric(a, b);
    lemma_text_asymmetric(b, c);
    lemma_text_asymmetric(a, c);
    lemma_text_asymmetric(la, lb);
    lemma_text_asymmetric(lb, lc);
    lemma_text_asymmetric(la, lc);
    lemma_text_asymmetric(b, a);
    lemma_text_asymmetric(c, b);
    lemma_text_asymmetric(lb, la);
    lemma_text_asymmetric(lc, lb);
    lemma_text_transitive(a, b, c);
    lemma_text_transitive(la, lb, lc);
    lemma_text_transitive(c, a, b);
    lemma_text_transitive(lc, la, lb);
    lemma_text_transitive(b, c, a);
    lemma_text_transitive(lb, lc, la);
}

/// Whether no entry is listed before one that precedes it.
pub open spec fn in_listing_order(list: Seq<EntryModel>) -> bool {
    forall|i: int, j: int|
        0 <= i < j < list.len() ==> !listed_before(
            (#[trigger] list[j]).name,
            (#[trigger] list[i]).name,
        )
}

proof fn lemma_listed_from(list: Seq<EntryModel>, entry: EntryModel, position: int)
    requires
        0 <= position <= list.len(),
        in_listing_order(list),
        forall|i: int|
            0 <= i < position ==> !listed_before(entry.name, (#[trigger] list[i]).name),
    ensures
        in_listing_order(listed_from(list, entry, position)),
        forall|other: EntryModel| #[trigger]
            listed_from(list, entry, position).contains(other) <==> list.contains(other) || other
                == entry,
    decreases list.len() - position,
{
    let after = listed_from(list, entry, position);
    if position < list.len() && !listed_before(entry.name, list[position].name) {
        lemma_listed_from(list, entry, position + 1);
    } else {
        assert(after =~= list.insert(position, entry));
        assert forall|i: int, j: int| 0 <= i < j < after.len() implies !listed_before(
            (#[trigger] after[j]).name,
            (#[trigger] after[i]).name,
        ) by {
            if j < position {
                assert(!listed_before(list[j].name, list[i].name));
            } else if j == position {
                assert(!listed_before(entry.name, list[i].name));
            } else if i < position {
                assert(!listed_before(list[j - 1].name, list[i].name));
            } else if i > position {
                assert(!listed_before(list[j - 1].name, list[i - 1].name));
            } else {
                lemma_listed_asymmetric(entry.name, list[position].name);
                if j - 1 > position {
                    assert(!listed_before(list[j - 1].name, list[position].name));
                    lemma_listed_transitive(entry.name, list[position].name, list[j - 1].name);
                }
            }
        }
        assert forall|other: EntryModel| #[trigger] after.contains(other) <==> list.contains(other)
            || other == entry by {
            if list.contains(other) {
                let i = choose|i: int| 0 <= i < list.len() && list[i] == other;
                if i < position {
                    assert(after[i] == other);
                } else {
                    assert(after[i + 1] == other);
                }
            }
            assert(after[position] == entry);
            if after.contains(other) && other != entry {
                let i = choose|i: int| 0 <= i < after.len() && after[i] == other;
                if i < position {
                    assert(list[i] == other);
                } else {
                    assert(list[i - 1] == other);
                }
            }
        }
    }
}

/// A listing is in order without regard to case, and holds exactly the entries that are
/// listed: regular files, and no work file of an edit.
pub proof fn listings_are_ordered_and_complete(found: Seq<FoundFile>)
    ensures
        in_listing_order(listing(found)),
        forall|entry: EntryModel| #[trigger]
            listing(found).contains(entry) <==> exists|i: int|
                0 <= i < found.len() && is_listed(#[trigger] found[i]) && entry_of(found[i])
                    == entry,
    decreases found.len(),
{
    if found.len() > 0 {
        let shorter = found.drop_last();
        listings_are_ordered_and_complete(shorter);
        if is_listed(found.last()) {
            lemma_listed_from(listing(shorter), entry_of(found.last()), 0);
        }
        assert forall|entry: EntryModel| #[trigger] listing(found).contains(entry) <==> exists|
            i: int,
        |
            0 <= i < found.len() && is_listed(#[trigger] found[i]) && entry_of(found[i])
                == entry by {
            if listing(shorter).contains(entry) {
                let i = choose|i: int|
                    0 <= i < shorter.len() && is_listed(#[trigger] shorter[i]) && entry_of(
                        shorter[i],
                    ) == entry;
                assert(found[i] == shorter[i]);
            }
            assert(found[found.len() - 1] == found.last());
            if exists|i: int|
                0 <= i < found.len() && is_listed(#[trigger] found[i]) && entry_of(found[i])
                    == entry {
                let i = choose|i: int|
                    0 <= i < found.len() && is_listed(#[trigger] found[i]) && entry_of(found[i])
                        == entry;
                if i < shorter.len() {
                    assert(shorter[i] == found[i]);
                }
            }
        }
    }
}

/// A listing holds the files of a directory, but not those of an edit in progress nor those
/// that could not be looked at.
pub proof fn work_files_are_not_listed(found: FoundFile, rest: Seq<char>)
    ensures
        found.display_name@ == ".reel-tui-"@ + rest ==> !is_listed(found),
        !found.is_file ==> !is_listed(found),
        found.fingerprint is None ==> !is_listed(found),
        found.is_file && found.fingerprint is Some && !is_listed(found) ==> found.display_name@
            == ".reel-tui-"@ + found.display_name@.skip(10),
{
    reveal_strlit(".reel-tui-");
    assert(".reel-tui-"@.len() == 10);
    parts_occur_where_they_stand(Seq::empty(), ".reel-tui-"@, rest);
    occurring_parts_are_there(found.display_name@, ".reel-tui-"@);
}

/// Files are listed by their names in lower case, and those that differ in case alone by the
/// names as they are.
pub proof fn names_are_listed_by_their_letters(left: Seq<char>, right: Seq<char>)
    ensures
        lowercase_text(left) != lowercase_text(right) ==> listed_before(left, right)
            == text_before(lowercase_text(left), lowercase_text(right)),
        lowercase_text(left) == lowercase_text(right) ==> listed_before(left, right)
            == text_before(left, right),
        !listed_before(left, left),
{
    lemma_text_asymmetric(left, left);
}

/// No file is listed twice or left out: a listing is as long as there are files to list.
pub proof fn every_file_is_listed_once(found: Seq<FoundFile>)
    ensures
        listing(found).len() == found.filter(|file: FoundFile| is_listed(file)).len(),
    decreases found.len(),
{
    reveal(Seq::filter);
    if found.len() > 0 {
        every_file_is_listed_once(found.drop_last());
        lemma_listed_length(listing(found.drop_last()), entry_of(found.last()), 0);
    }
}

proof fn lemma_listed_length(list: Seq<EntryModel>, entry: EntryModel, position: int)
    ensures
        listed_from(list, entry, position).len() == list.len() + 1,
    decreases list.len() - position,
{
    if 0 <= position < list.len() && !listed_before(entry.name, list[position].name) {
        lemma_listed_length(list, entry, position + 1);
    }
}

/// A directory has changed where a file came or went, was renamed, grew, shrank or was
/// written, or where it could not be read as before.
pub proof fn listings_change_with_their_files(
    left: Seq<EntryModel>,
    right: Seq<EntryModel>,
    message: Seq<char>,
    other: Seq<char>,
)
    ensures
        SnapshotModel::Files(left).same(SnapshotModel::Files(right)) <==> left.len() == right.len()
            && forall|i: int|
            0 <= i < left.len() ==> (#[trigger] left[i]).path.place() == right[i].path.place()
                && left[i].name == right[i].name && left[i].fingerprint.length
                == right[i].fingerprint.length && left[i].fingerprint.modified
                == right[i].fingerprint.modified,
        SnapshotModel::Error(message).same(SnapshotModel::Error(other)) <==> message == other,
        !SnapshotModel::Files(left).same(SnapshotModel::Error(message)),
        !SnapshotModel::Error(message).same(SnapshotModel::Files(left)),
{
    let one = all_told(left);
    let two = all_told(right);
    assert(one.len() == left.len() && two.len() == right.len());
    assert forall|i: int| 0 <= i < left.len() implies #[trigger] one[i] == left[i].told() by {}
    assert forall|i: int| 0 <= i < right.len() implies #[trigger] two[i] == right[i].told() by {}
    if one == two {
        assert forall|i: int| 0 <= i < left.len() implies (#[trigger] left[i]).path.place()
            == right[i].path.place() && left[i].name == right[i].name && left[i].fingerprint.length
            == right[i].fingerprint.length && left[i].fingerprint.modified
            == right[i].fingerprint.modified by {
            assert(one[i] == two[i]);
        }
    }
    if left.len() == right.len() && (forall|i: int|
        0 <= i < left.len() ==> (#[trigger] left[i]).path.place() == right[i].path.place()
            && left[i].name == right[i].name && left[i].fingerprint.length
            == right[i].fingerprint.length && left[i].fingerprint.modified
            == right[i].fingerprint.modified) {
        assert forall|i: int| 0 <= i < left.len() implies one[i] == two[i] by {
            assert(left[i].fingerprint == right[i].fingerprint);
        }
        assert(one =~= two);
    }
}

/// A directory is looked at anew every second, one on a network every ten, and a change is
/// looked at when a hundred and fifty milliseconds have passed; eight files of a network
/// are looked at at once.
pub proof fn directories_are_looked_at_in_time()
    ensures
        RECONCILE_MILLIS == 1000,
        NETWORK_RECONCILE_MILLIS == 10 * RECONCILE_MILLIS,
        EVENT_DEBOUNCE_MILLIS == 150,
        NETWORK_SCAN_CONCURRENCY == 8,
{
}

} // verus!
