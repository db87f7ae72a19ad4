//! The cache of rendered preview frames: what each frame is called, and what leaves.
//!
//! A frame is addressed by what it depends on. The media decides the directory, the cue
//! and its staging the file; a directory is kept or evicted as a whole.

use vstd::prelude::*;
use vstd::string::StringExecFns;
use vstd::utf8::{encode_utf8, encode_utf8_decode_utf8};

use crate::path::{
    in_directory, last_name, last_names_tell_files_apart, names_end_as_their_text, opt_part,
    reached, FilePath, Part, PathModel, PathText, Place,
};
use crate::text::{decimal, number_text, numbers_read_back, opt_str, opt_text, same_text};
use crate::transaction::{file_moved, Files};

verus! {

// Hashing.

/// Where a hash begins.
pub const OFFSET: u128 = 0x6c62_272e_07bb_0142_62b8_2175_6295_c58d;

/// What each byte multiplies a hash by.
pub const PRIME: u128 = 0x0000_0000_0100_0000_0000_0000_0000_013b;

/// Bumped whenever a stored frame stops meaning what it used to.
pub const CACHE_FORMAT_VERSION: u32 = 4;

/// A hash after one more byte, by FNV-1a over 128 bits.
pub open spec fn hash_step(hash: u128, byte: u8) -> u128 {
    (((hash ^ (byte as u128)) as nat * PRIME as nat) % (u128::MAX as nat + 1)) as u128
}

/// The hash of some bytes.
pub open spec fn hash_of(bytes: Seq<u8>) -> u128
    decreases bytes.len(),
{
    if bytes.len() == 0 {
        OFFSET
    } else {
        hash_step(hash_of(bytes.drop_last()), bytes.last())
    }
}

fn hash_bytes(bytes: &Vec<u8>) -> (result: u128)
    ensures
        result == hash_of(bytes@),
{
    let mut hash: u128 = OFFSET;
    let mut i: usize = 0;
    while i < bytes.len()
        invariant
            0 <= i <= bytes.len(),
            hash == hash_of(bytes@.take(i as int)),
        decreases bytes.len() - i,
    {
        proof {
            assert(bytes@.take(i + 1).drop_last() =~= bytes@.take(i as int));
            assert(bytes@.take(i + 1).last() == bytes@[i as int]);
        }
        hash = (hash ^ (bytes[i] as u128)).wrapping_mul(PRIME);
        i = i + 1;
    }
    assert(bytes@.take(bytes@.len() as int) =~= bytes@);
    hash
}

/// The character of a hexadecimal digit.
pub open spec fn hex_char(digit: nat) -> char {
    if digit < 10 {
        crate::text::digit_char(digit)
    } else if digit == 10 {
        'a'
    } else if digit == 11 {
        'b'
    } else if digit == 12 {
        'c'
    } else if digit == 13 {
        'd'
    } else if digit == 14 {
        'e'
    } else {
        'f'
    }
}

/// The last `count` hexadecimal digits of a number.
pub open spec fn hex(value: nat, count: nat) -> Seq<char>
    decreases count,
{
    if count == 0 {
        Seq::empty()
    } else {
        hex(value / 16, (count - 1) as nat).push(hex_char(value % 16))
    }
}

fn hex_digit(digit: u128) -> (result: char)
    requires
        digit < 16,
    ensures
        result == hex_char(digit as nat),
{
    match digit {
        0 => '0',
        1 => '1',
        2 => '2',
        3 => '3',
        4 => '4',
        5 => '5',
        6 => '6',
        7 => '7',
        8 => '8',
        9 => '9',
        10 => 'a',
        11 => 'b',
        12 => 'c',
        13 => 'd',
        14 => 'e',
        _ => 'f',
    }
}

fn hex_text(value: u128, count: u32) -> (result: String)
    ensures
        result@ == hex(value as nat, count as nat),
    decreases count,
{
    if count == 0 {
        String::new()
    } else {
        let mut text = hex_text(value / 16, count - 1);
        text.push(hex_digit(value % 16));
        text
    }
}

/// The first `count` bytes of a number, the lowest first.
pub open spec fn low_bytes(value: nat, count: nat) -> Seq<u8>
    decreases count,
{
    if count == 0 {
        Seq::empty()
    } else {
        seq![(value % 256) as u8] + low_bytes(value / 256, (count - 1) as nat)
    }
}

/// A number as a fixed-width field.
pub open spec fn number_field(value: nat) -> Seq<u8> {
    low_bytes(value, 16)
}

fn push_number(bytes: &mut Vec<u8>, value: u128)
    ensures
        final(bytes)@ == old(bytes)@ + number_field(value as nat),
{
    let ghost before = bytes@;
    let mut rest: u128 = value;
    let mut i: u32 = 0;
    while i < 16
        invariant
            0 <= i <= 16,
            bytes@ + low_bytes(rest as nat, (16 - i) as nat) == before + number_field(value as nat),
        decreases 16 - i,
    {
        let ghost shorter = bytes@;
        let ghost left = low_bytes(rest as nat, (16 - i) as nat);
        bytes.push((rest % 256) as u8);
        proof {
            assert(left =~= seq![(rest % 256) as u8] + low_bytes(
                rest as nat / 256,
                (16 - i - 1) as nat,
            ));
            assert(bytes@ + low_bytes(rest as nat / 256, (16 - i - 1) as nat) =~= shorter + left);
        }
        rest = rest / 256;
        i = i + 1;
    }
    assert(low_bytes(rest as nat, 0) =~= Seq::<u8>::empty());
    assert(bytes@ + Seq::<u8>::empty() =~= bytes@);
}

fn push_all(bytes: &mut Vec<u8>, more: &[u8])
    ensures
        final(bytes)@ == old(bytes)@ + more@,
{
    let ghost before = bytes@;
    let mut i: usize = 0;
    while i < more.len()
        invariant
            0 <= i <= more.len(),
            bytes@ =~= before + more@.take(i as int),
        decreases more.len() - i,
    {
        bytes.push(more[i]);
        i = i + 1;
    }
    assert(more@.take(more@.len() as int) =~= more@);
}

/// What ends a field of variable length.
pub open spec fn separator() -> Seq<u8> {
    seq![0xffu8, 0x00u8]
}

fn push_separator(bytes: &mut Vec<u8>)
    ensures
        final(bytes)@ == old(bytes)@ + separator(),
{
    let ghost before = bytes@;
    bytes.push(0xff);
    bytes.push(0x00);
    assert(bytes@ =~= before + separator());
}

// Keys.

/// Everything about the media that a cached frame depends on: the bytes of its path, its
/// length, the time it was last written, in nanoseconds since 1970 and where that is known,
/// and the size that frames are rendered at.
#[derive(Clone, Copy, Debug)]
pub struct FrameKeyParts<'a> {
    pub media: &'a [u8],
    pub media_length: u64,
    pub media_modified: Option<i128>,
    pub pixels: (u32, u32),
}

/// What a key holds for a time that is not known. No known time is that far back.
pub const UNKNOWN_TIME: u128 = 0x8000_0000_0000_0000_0000_0000_0000_0000;

/// A time as a key holds it: a known one as it is, in two's complement, and one that is not
/// known as a value of its own.
pub open spec fn key_time(modified: Option<i128>) -> nat {
    match modified {
        Some(nanoseconds) if nanoseconds >= 0 => nanoseconds as nat,
        Some(nanoseconds) => (u128::MAX + 1 + nanoseconds) as nat,
        None => UNKNOWN_TIME as nat,
    }
}

fn time_number(modified: Option<i128>) -> (result: u128)
    ensures
        result == key_time(modified),
{
    match modified {
        Some(nanoseconds) => if nanoseconds >= 0 {
            nanoseconds as u128
        } else {
            u128::MAX - (-(nanoseconds + 1)) as u128
        },
        None => UNKNOWN_TIME,
    }
}

/// The bytes that the key of a media is the hash of. The path is of variable length and
/// ends in the separator; every other field has a fixed width.
pub open spec fn media_bytes(
    media: Seq<u8>,
    length: u64,
    modified: Option<i128>,
    pixels: (u32, u32),
    version: u32,
) -> Seq<u8> {
    media + separator() + number_field(length as nat) + number_field(key_time(modified))
        + number_field(pixels.0 as nat) + number_field(pixels.1 as nat) + number_field(
        version as nat,
    )
}

/// A hash as a name.
pub open spec fn key_text(bytes: Seq<u8>) -> Seq<char> {
    hex(hash_of(bytes) as nat, 32)
}

/// The directory that every frame of one media is stored under.
pub fn media_key(parts: FrameKeyParts<'_>) -> (result: String)
    ensures
        result@ == key_text(
            media_bytes(
                parts.media@,
                parts.media_length,
                parts.media_modified,
                parts.pixels,
                CACHE_FORMAT_VERSION,
            ),
        ),
{
    let mut bytes: Vec<u8> = Vec::new();
    push_all(&mut bytes, parts.media);
    assert(bytes@ =~= parts.media@);
    push_separator(&mut bytes);
    push_number(&mut bytes, parts.media_length as u128);
    push_number(&mut bytes, time_number(parts.media_modified));
    push_number(&mut bytes, parts.pixels.0 as u128);
    push_number(&mut bytes, parts.pixels.1 as u128);
    push_number(&mut bytes, CACHE_FORMAT_VERSION as u128);
    hex_text(hash_bytes(&bytes), 32)
}

/// When a cue is shown, in milliseconds.
#[derive(Clone, Copy, Debug, Eq, PartialEq, Structural)]
pub struct Cue {
    pub start: u64,
    pub end: u64,
}

/// The bytes that the key of a cue is the hash of: the staged file, which ends in the
/// separator, and the times of the cue.
pub open spec fn cue_bytes(staged: Seq<u8>, start: u64, end: u64) -> Seq<u8> {
    staged + separator() + number_field(start as nat) + number_field(end as nat)
}

/// The name that the frame of one cue is stored under. `staged` is the subtitle file that
/// the frame is drawn from.
pub fn cue_key(cue: &Cue, staged: &str) -> (result: String)
    ensures
        result@ == key_text(cue_bytes(encode_utf8(staged@), cue.start, cue.end)),
{
    let mut bytes: Vec<u8> = Vec::new();
    push_all(&mut bytes, staged.as_bytes());
    assert(bytes@ =~= encode_utf8(staged@));
    push_separator(&mut bytes);
    push_number(&mut bytes, cue.start as u128);
    push_number(&mut bytes, cue.end as u128);
    hex_text(hash_bytes(&bytes), 32)
}

// Places.

/// Where the frames are, under the directory that caches are kept in.
pub open spec fn frames_directory(cache: Option<Part>) -> Option<Part> {
    match cache {
        Some(cache) => Some(cache.joined("preview_frames"@)),
        None => None,
    }
}

pub fn directory(cache: Option<&PathText>) -> (result: Option<PathText>)
    ensures
        opt_part(result) == frames_directory(opt_part_ref(cache)),
{
    match cache {
        Some(cache) => Some(cache.join("preview_frames")),
        None => None,
    }
}

/// The part behind an optional reference.
pub open spec fn opt_part_ref(part: Option<&PathText>) -> Option<Part> {
    match part {
        Some(part) => Some(part@),
        None => None,
    }
}

/// The directory of a media.
pub open spec fn media_directory(cache: Option<Part>, media: Seq<char>) -> Option<Part> {
    match frames_directory(cache) {
        Some(frames) => Some(frames.joined(media)),
        None => None,
    }
}

fn directory_of(cache: Option<&PathText>, media: &str) -> (result: Option<PathText>)
    ensures
        opt_part(result) == media_directory(opt_part_ref(cache), media@),
{
    match directory(cache) {
        Some(frames) => Some(frames.join(media)),
        None => None,
    }
}

/// Where the frame of a cue is.
pub open spec fn frame_path(cache: Option<Part>, media: Seq<char>, cue: Seq<char>) -> Option<
    PathModel,
> {
    match media_directory(cache, media) {
        Some(directory) => Some(reached(directory, cue + ".jpg"@)),
        None => None,
    }
}

pub fn path(cache: Option<&PathText>, media: &str, cue: &str) -> (result: Option<FilePath>)
    ensures
        crate::path::opt_path(result) == frame_path(opt_part_ref(cache), media@, cue@),
{
    match directory_of(cache, media) {
        Some(directory) => {
            let mut name = cue.to_owned();
            name.append(".jpg");
            Some(FilePath::from_directory(&directory, name.as_str()))
        },
        None => None,
    }
}

/// The frame in a stored file; an empty file is no frame.
pub open spec fn frame_of(stored: Option<Seq<u8>>) -> Option<Seq<u8>> {
    match stored {
        Some(bytes) if bytes.len() > 0 => Some(bytes),
        _ => None,
    }
}

/// The bytes in an optional list.
pub open spec fn opt_bytes(bytes: Option<Vec<u8>>) -> Option<Seq<u8>> {
    match bytes {
        Some(bytes) => Some(bytes@),
        None => None,
    }
}

pub fn read(stored: Option<Vec<u8>>) -> (result: Option<Vec<u8>>)
    ensures
        opt_bytes(result) == frame_of(opt_bytes(stored)),
{
    match stored {
        Some(bytes) => if bytes.len() > 0 {
            Some(bytes)
        } else {
            None
        },
        None => None,
    }
}

/// Whether a stored file of a length is a frame.
pub fn is_cached(stored_length: Option<u64>) -> (result: bool)
    ensures
        result == (stored_length is Some && stored_length->0 > 0),
{
    match stored_length {
        Some(length) => length > 0,
        None => false,
    }
}

/// The file whose time says when the frames of a media were last used.
pub fn touch(cache: Option<&PathText>, media: &str) -> (result: Option<FilePath>)
    ensures
        crate::path::opt_path(result) == (match media_directory(opt_part_ref(cache), media@) {
            Some(directory) => Some(in_directory(directory, ".used"@)),
            None => None,
        }),
{
    match directory_of(cache, media) {
        Some(directory) => Some(FilePath::inside(&directory, ".used")),
        None => None,
    }
}

/// How a frame is stored: written under a temporary name beside its place, then renamed.
#[derive(Debug, Eq, PartialEq)]
pub struct StorePlan {
    pub temporary: FilePath,
    pub path: FilePath,
}

/// The temporary name of one write: no two writes of one process, and no two processes,
/// share it.
pub open spec fn temporary_name(cue: Seq<char>, process: u32, write: u64) -> Seq<char> {
    "."@ + cue + "."@ + decimal(process as nat) + "."@ + decimal(write as nat) + ".tmp"@
}

/// Where a frame is written before it is renamed.
pub open spec fn temporary_path(
    cache: Option<Part>,
    media: Seq<char>,
    cue: Seq<char>,
    process: u32,
    write: u64,
) -> Option<PathModel> {
    match media_directory(cache, media) {
        Some(directory) => Some(reached(directory, temporary_name(cue, process, write))),
        None => None,
    }
}

pub fn store(
    cache: Option<&PathText>,
    media: &str,
    cue: &str,
    process: u32,
    write: u64,
) -> (result: Option<StorePlan>)
    ensures
        match result {
            Some(plan) => {
                &&& frame_path(opt_part_ref(cache), media@, cue@) == Some(plan.path@)
                &&& temporary_path(opt_part_ref(cache), media@, cue@, process, write) == Some(
                    plan.temporary@,
                )
            },
            None => frame_path(opt_part_ref(cache), media@, cue@) is None,
        },
{
    let directory = match directory_of(cache, media) {
        Some(directory) => directory,
        None => return None,
    };
    let mut name = ".".to_owned();
    name.append(cue);
    name.append(".");
    name.append(number_text(process as u64).as_str());
    name.append(".");
    name.append(number_text(write).as_str());
    name.append(".tmp");
    let temporary = FilePath::from_directory(&directory, name.as_str());
    let mut file = cue.to_owned();
    file.append(".jpg");
    Some(StorePlan { temporary, path: FilePath::from_directory(&directory, file.as_str()) })
}

// Moving and evicting.

/// What moving the frames of one media to another key comes to.
#[derive(Clone, Copy, Debug, Eq, PartialEq, Structural)]
pub enum Migration {
    /// There is nothing to do, and that is fine or not.
    Settled(bool),
    /// The other key has frames of its own: these can go.
    RemoveSource,
    /// The directory gets the other key's name.
    Rename,
}

pub fn migrate(from: &str, to: &str, source_is_directory: bool, destination_exists: bool) -> (result:
    Migration)
    ensures
        result == (if from@ == to@ {
            Migration::Settled(true)
        } else if !source_is_directory {
            Migration::Settled(false)
        } else if destination_exists {
            Migration::RemoveSource
        } else {
            Migration::Rename
        }),
{
    if same_text(from, to) {
        Migration::Settled(true)
    } else if !source_is_directory {
        Migration::Settled(false)
    } else if destination_exists {
        Migration::RemoveSource
    } else {
        Migration::Rename
    }
}

/// One entry of the directory that frames are in: its name, where that is valid text,
/// whether it is a directory, and when it was last used.
#[derive(Debug, Eq, PartialEq)]
pub struct CacheEntry {
    pub name: Option<String>,
    pub is_directory: bool,
    pub used: i128,
}

/// The entries that leave: files, which belong to no media, and directories, the least
/// recently used first.
#[derive(Debug, Eq, PartialEq)]
pub struct PrunePlan {
    pub files: Vec<usize>,
    pub directories: Vec<usize>,
}

/// Whether an entry is the directory of a media that may leave: not the open one.
pub open spec fn may_leave(entry: CacheEntry, open: Option<Seq<char>>) -> bool {
    entry.is_directory && !(open is Some && opt_text(entry.name) == open)
}

/// A list of entries by their last use, with one more behind all that were not used later.
pub open spec fn ranked_from(
    entries: Seq<CacheEntry>,
    list: Seq<int>,
    entry: int,
    position: int,
) -> Seq<int>
    decreases list.len() - position,
{
    if !(0 <= position < list.len()) {
        list.push(entry)
    } else if entries[entry].used < entries[list[position]].used {
        list.insert(position, entry)
    } else {
        ranked_from(entries, list, entry, position + 1)
    }
}

/// The directories that may leave, the least recently used first; of two that were used at
/// the same time the one that was listed first.
pub open spec fn ranked(entries: Seq<CacheEntry>, open: Option<Seq<char>>, count: nat) -> Seq<int>
    decreases count,
{
    if count == 0 {
        Seq::empty()
    } else {
        let before = ranked(entries, open, (count - 1) as nat);
        if may_leave(entries[count - 1], open) {
            ranked_from(entries, before, count - 1, 0)
        } else {
            before
        }
    }
}

/// The entries that are no directory.
pub open spec fn strays(entries: Seq<CacheEntry>, count: nat) -> Seq<int>
    decreases count,
{
    if count == 0 {
        Seq::empty()
    } else if entries[count - 1].is_directory {
        strays(entries, (count - 1) as nat)
    } else {
        strays(entries, (count - 1) as nat).push(count - 1)
    }
}

/// How many directories besides the open one may stay.
pub open spec fn slots(tracks: usize, open: Option<Seq<char>>) -> nat {
    if open is Some && tracks > 0 {
        (tracks - 1) as nat
    } else {
        tracks as nat
    }
}

/// The directories that leave.
pub open spec fn evicted(entries: Seq<CacheEntry>, tracks: usize, open: Option<Seq<char>>) -> Seq<
    int,
> {
    let all = ranked(entries, open, entries.len());
    if all.len() <= slots(tracks, open) {
        Seq::empty()
    } else {
        all.take(all.len() - slots(tracks, open))
    }
}

/// The numbers of a list of positions.
pub open spec fn positions(list: Seq<usize>) -> Seq<int> {
    list.map_values(|position: usize| position as int)
}

fn rank_entry(entries: &[CacheEntry], list: &mut Vec<usize>, entry: usize)
    requires
        entry < entries@.len(),
        forall|i: int| 0 <= i < old(list)@.len() ==> (#[trigger] old(list)@[i]) < entries@.len(),
    ensures
        positions(final(list)@) == ranked_from(
            entries@,
            positions(old(list)@),
            entry as int,
            0,
        ),
        forall|i: int|
            0 <= i < final(list)@.len() ==> (#[trigger] final(list)@[i]) < entries@.len(),
{
    let ghost before = positions(list@);
    let mut i: usize = 0;
    while i < list.len()
        invariant
            0 <= i <= list.len(),
            entry < entries@.len(),
            before == positions(list@),
            before == positions(old(list)@),
            forall|k: int| 0 <= k < list@.len() ==> (#[trigger] list@[k]) < entries@.len(),
            ranked_from(entries@, before, entry as int, 0) == ranked_from(
                entries@,
                before,
                entry as int,
                i as int,
            ),
        decreases list.len() - i,
    {
        assert(before[i as int] == list@[i as int] as int);
        assert(list@[i as int] < entries@.len());
        if entries[entry].used < entries[list[i]].used {
            let ghost shorter = list@;
            list.insert(i, entry);
            proof {
                assert(positions(list@) =~= before.insert(i as int, entry as int));
                assert forall|k: int| 0 <= k < list@.len() implies (#[trigger] list@[k])
                    < entries@.len() by {
                    if k < i {
                        assert(list@[k] == shorter[k]);
                    } else if k > i {
                        assert(list@[k] == shorter[k - 1]);
                    }
                }
            }
            return ;
        }
        i = i + 1;
    }
    list.push(entry);
    assert(positions(list@) =~= before.push(entry as int));
}

/// Decides what leaves so that at most `tracks` directories stay, the open one among them.
pub fn prune(entries: &[CacheEntry], tracks: usize, open: Option<&str>) -> (result: PrunePlan)
    ensures
        positions(result.files@) == strays(entries@, entries@.len()),
        positions(result.directories@) == evicted(entries@, tracks, opt_str(open)),
{
    let mut files: Vec<usize> = Vec::new();
    let mut directories: Vec<usize> = Vec::new();
    let mut i: usize = 0;
    assert(positions(files@) =~= Seq::empty());
    assert(positions(directories@) =~= Seq::empty());
    while i < entries.len()
        invariant
            0 <= i <= entries.len(),
            positions(files@) == strays(entries@, i as nat),
            positions(directories@) == ranked(entries@, opt_str(open), i as nat),
            forall|k: int|
                0 <= k < directories@.len() ==> (#[trigger] directories@[k]) < entries@.len(),
        decreases entries.len() - i,
    {
        if !entries[i].is_directory {
            let ghost before = files@;
            files.push(i);
            assert(positions(files@) =~= positions(before).push(i as int));
        } else if open.is_none() || !crate::text::same_optional_text(
            crate::text::borrowed(&entries[i].name),
            open,
        ) {
            rank_entry(entries, &mut directories, i);
        }
        i = i + 1;
    }
    let keep: usize = if open.is_some() && tracks > 0 {
        tracks - 1
    } else {
        tracks
    };
    let ghost all = positions(directories@);
    assert(all.len() == directories@.len());
    let leaving: usize = if directories.len() <= keep {
        0
    } else {
        directories.len() - keep
    };
    directories.truncate(leaving);
    assert(positions(directories@) =~= evicted(entries@, tracks, opt_str(open)));
    PrunePlan { files, directories }
}

// Laws.

proof fn lemma_low_bytes_length(value: nat, count: nat)
    ensures
        low_bytes(value, count).len() == count,
    decreases count,
{
    if count > 0 {
        lemma_low_bytes_length(value / 256, (count - 1) as nat);
    }
}

/// One more than the highest number that some bytes hold.
spec fn byte_limit(count: nat) -> nat
    decreases count,
{
    if count == 0 {
        1
    } else {
        256 * byte_limit((count - 1) as nat)
    }
}

proof fn lemma_low_bytes_differ(one: nat, other: nat, count: nat)
    requires
        one < byte_limit(count),
        other < byte_limit(count),
        low_bytes(one, count) == low_bytes(other, count),
    ensures
        one == other,
    decreases count,
{
    if count > 0 {
        let left = low_bytes(one, count);
        let right = low_bytes(other, count);
        let rest = (count - 1) as nat;
        assert(left[0] == (one % 256) as u8);
        assert(right[0] == (other % 256) as u8);
        assert(left.skip(1) =~= low_bytes(one / 256, rest));
        assert(right.skip(1) =~= low_bytes(other / 256, rest));
        assert(one / 256 < byte_limit(rest));
        assert(other / 256 < byte_limit(rest));
        lemma_low_bytes_differ(one / 256, other / 256, rest);
    }
}

proof fn lemma_number_fields(one: nat, other: nat)
    requires
        one <= u128::MAX,
        other <= u128::MAX,
    ensures
        number_field(one).len() == 16,
        number_field(one) == number_field(other) ==> one == other,
{
    lemma_low_bytes_length(one, 16);
    reveal_with_fuel(byte_limit, 17);
    if number_field(one) == number_field(other) {
        lemma_low_bytes_differ(one, other, 16);
    }
}

/// The fields of a media's key do not run into one another: media that differ in any field
/// are hashed from different bytes. A time that is not known differs from every known one.
pub proof fn media_fields_stay_apart(
    media: Seq<u8>,
    length: u64,
    modified: Option<i128>,
    pixels: (u32, u32),
    version: u32,
    other_media: Seq<u8>,
    other_length: u64,
    other_modified: Option<i128>,
    other_pixels: (u32, u32),
    other_version: u32,
)
    requires
        modified != Some(i128::MIN),
        other_modified != Some(i128::MIN),
        media_bytes(media, length, modified, pixels, version) == media_bytes(
            other_media,
            other_length,
            other_modified,
            other_pixels,
            other_version,
        ),
    ensures
        media == other_media,
        length == other_length,
        modified == other_modified,
        pixels == other_pixels,
        version == other_version,
{
    let left = media_bytes(media, length, modified, pixels, version);
    let right = media_bytes(
        other_media,
        other_length,
        other_modified,
        other_pixels,
        other_version,
    );
    lemma_number_fields(length as nat, other_length as nat);
    lemma_number_fields(key_time(modified), key_time(other_modified));
    lemma_number_fields(pixels.0 as nat, other_pixels.0 as nat);
    lemma_number_fields(pixels.1 as nat, other_pixels.1 as nat);
    lemma_number_fields(version as nat, other_version as nat);
    lemma_number_fields(other_length as nat, length as nat);
    lemma_number_fields(key_time(other_modified), key_time(modified));
    lemma_number_fields(other_pixels.0 as nat, pixels.0 as nat);
    lemma_number_fields(other_pixels.1 as nat, pixels.1 as nat);
    lemma_number_fields(other_version as nat, version as nat);
    let n = media.len() as int;
    assert(left.len() == n + 82);
    assert(right.len() == other_media.len() + 82);
    assert(media =~= left.take(n));
    assert(other_media =~= right.take(n));
    assert(number_field(length as nat) =~= left.subrange(n + 2, n + 18));
    assert(number_field(other_length as nat) =~= right.subrange(n + 2, n + 18));
    assert(number_field(key_time(modified)) =~= left.subrange(n + 18, n + 34));
    assert(number_field(key_time(other_modified)) =~= right.subrange(n + 18, n + 34));
    assert(number_field(pixels.0 as nat) =~= left.subrange(n + 34, n + 50));
    assert(number_field(other_pixels.0 as nat) =~= right.subrange(n + 34, n + 50));
    assert(number_field(pixels.1 as nat) =~= left.subrange(n + 50, n + 66));
    assert(number_field(other_pixels.1 as nat) =~= right.subrange(n + 50, n + 66));
    assert(number_field(version as nat) =~= left.subrange(n + 66, n + 82));
    assert(number_field(other_version as nat) =~= right.subrange(n + 66, n + 82));
}

/// What undoes the multiplication by the prime.
spec fn inverse() -> int {
    0xb104_1ad2_562f_f2ff_2ff2_ff2f_f2ff_2ff3
}

/// Multiplication by the prime loses nothing.
proof fn lemma_product_is_one_to_one(one: int, other: int)
    requires
        0 <= one <= u128::MAX,
        0 <= other <= u128::MAX,
        (one * PRIME) % (u128::MAX + 1) == (other * PRIME) % (u128::MAX + 1),
    ensures
        one == other,
{
    let limit: int = u128::MAX + 1;
    let prime: int = PRIME as int;
    let turns: int = 213999254309421075624096729;
    let apart: int = one - other;
    let quotient: int = (one * prime) / limit - (other * prime) / limit;
    assert(prime * inverse() == turns * limit + 1);
    vstd::arithmetic::div_mod::lemma_fundamental_div_mod(one * prime, limit);
    vstd::arithmetic::div_mod::lemma_fundamental_div_mod(other * prime, limit);
    let rest: int = quotient * inverse() - apart * turns;
    assert(apart * prime == limit * quotient) by (nonlinear_arith)
        requires
            apart == one - other,
            one * prime == limit * ((one * prime) / limit) + (one * prime) % limit,
            other * prime == limit * ((other * prime) / limit) + (other * prime) % limit,
            (one * prime) % limit == (other * prime) % limit,
            quotient == (one * prime) / limit - (other * prime) / limit,
    ;
    assert(apart == limit * rest) by (nonlinear_arith)
        requires
            apart * prime == limit * quotient,
            prime * inverse() == turns * limit + 1,
            rest == quotient * inverse() - apart * turns,
    ;
    assert(rest == 0) by (nonlinear_arith)
        requires
            apart == limit * rest,
            -limit < apart < limit,
            limit > 0,
    ;
}

/// One step of the hash takes different hashes, or different bytes, to different hashes.
proof fn lemma_steps_are_one_to_one(hash: u128, byte: u8, other_hash: u128, other_byte: u8)
    requires
        hash_step(hash, byte) == hash_step(other_hash, other_byte),
    ensures
        byte == other_byte ==> hash == other_hash,
        hash == other_hash ==> byte == other_byte,
{
    let mixed: u128 = hash ^ (byte as u128);
    let other_mixed: u128 = other_hash ^ (other_byte as u128);
    lemma_product_is_one_to_one(mixed as int, other_mixed as int);
    assert(hash ^ (byte as u128) == other_hash ^ (byte as u128) ==> hash == other_hash)
        by (bit_vector);
    assert(hash ^ (byte as u128) == hash ^ (other_byte as u128) ==> byte == other_byte)
        by (bit_vector);
}

proof fn lemma_hashes_stay_apart(one: Seq<u8>, other: Seq<u8>, after: Seq<u8>)
    requires
        hash_of(one + after) == hash_of(other + after),
    ensures
        hash_of(one) == hash_of(other),
    decreases after.len(),
{
    if after.len() == 0 {
        assert(one + after =~= one);
        assert(other + after =~= other);
    } else {
        assert((one + after).drop_last() =~= one + after.drop_last());
        assert((other + after).drop_last() =~= other + after.drop_last());
        lemma_steps_are_one_to_one(
            hash_of(one + after.drop_last()),
            after.last(),
            hash_of(other + after.drop_last()),
            after.last(),
        );
        lemma_hashes_stay_apart(one, other, after.drop_last());
    }
}

/// One more than the highest number that some hexadecimal digits hold.
spec fn hex_limit(count: nat) -> nat
    decreases count,
{
    if count == 0 {
        1
    } else {
        16 * hex_limit((count - 1) as nat)
    }
}

proof fn lemma_hex_differs(one: nat, other: nat, count: nat)
    requires
        one < hex_limit(count),
        other < hex_limit(count),
        hex(one, count) == hex(other, count),
    ensures
        one == other,
    decreases count,
{
    if count > 0 {
        let left = hex(one, count);
        let right = hex(other, count);
        let rest = (count - 1) as nat;
        assert(left.last() == hex_char(one % 16));
        assert(right.last() == hex_char(other % 16));
        assert(left.drop_last() =~= hex(one / 16, rest));
        assert(right.drop_last() =~= hex(other / 16, rest));
        lemma_hex_differs(one / 16, other / 16, rest);
    }
}

/// Bytes that differ in one byte only never share a key.
pub proof fn one_changed_byte_changes_the_key(
    before: Seq<u8>,
    byte: u8,
    other_byte: u8,
    after: Seq<u8>,
)
    requires
        byte != other_byte,
    ensures
        key_text(before.push(byte) + after) != key_text(before.push(other_byte) + after),
{
    let one = before.push(byte) + after;
    let other = before.push(other_byte) + after;
    if key_text(one) == key_text(other) {
        reveal_with_fuel(hex_limit, 33);
        lemma_hex_differs(hash_of(one) as nat, hash_of(other) as nat, 32);
        lemma_hashes_stay_apart(before.push(byte), before.push(other_byte), after);
        assert(before.push(byte).drop_last() =~= before);
        assert(before.push(other_byte).drop_last() =~= before);
        lemma_steps_are_one_to_one(hash_of(before), byte, hash_of(before), other_byte);
    }
}

/// A time that is not known is a case of its own: the media never has the key that it would
/// have had, had it been written at the epoch.
pub proof fn unknown_times_have_their_own_key(
    media: Seq<u8>,
    length: u64,
    pixels: (u32, u32),
    version: u32,
)
    ensures
        key_text(media_bytes(media, length, None, pixels, version)) != key_text(
            media_bytes(media, length, Some(0), pixels, version),
        ),
{
    let zeros = low_bytes(0, 15);
    let before = media + separator() + number_field(length as nat) + zeros;
    let after = number_field(pixels.0 as nat) + number_field(pixels.1 as nat) + number_field(
        version as nat,
    );
    lemma_high_byte(0, 15);
    lemma_high_byte(0x80, 15);
    assert(byte_limit(15) == 0x0100_0000_0000_0000_0000_0000_0000_0000) by {
        reveal_with_fuel(byte_limit, 16);
    }
    assert(media_bytes(media, length, None, pixels, version) =~= before.push(0x80) + after);
    assert(media_bytes(media, length, Some(0), pixels, version) =~= before.push(0) + after);
    one_changed_byte_changes_the_key(before, 0x80, 0, after);
}

/// A number that has one byte above some others that are zero.
proof fn lemma_high_byte(byte: u8, count: nat)
    ensures
        low_bytes(byte as nat * byte_limit(count), count + 1) == low_bytes(0, count).push(byte),
    decreases count,
{
    let value = byte as nat * byte_limit(count);
    if count == 0 {
        assert(value == byte as nat) by (nonlinear_arith)
            requires
                value == byte as nat * byte_limit(count),
                byte_limit(count) == 1,
        ;
        assert(low_bytes(value, 1) =~= seq![(value % 256) as u8] + low_bytes(value / 256, 0));
        assert(low_bytes(value, 1) =~= low_bytes(0, 0).push(byte));
    } else {
        let rest = (count - 1) as nat;
        let smaller = byte as nat * byte_limit(rest);
        assert(value == 256 * smaller) by (nonlinear_arith)
            requires
                value == byte as nat * byte_limit(count),
                byte_limit(count) == 256 * byte_limit(rest),
                smaller == byte as nat * byte_limit(rest),
        ;
        lemma_high_byte(byte, rest);
        assert(low_bytes(value, count + 1) =~= seq![0u8] + low_bytes(smaller, count));
        assert(low_bytes(0, count) =~= seq![0u8] + low_bytes(0, rest));
        assert(low_bytes(value, count + 1) =~= low_bytes(0, count).push(byte));
    }
}

/// The fields of a cue's key do not run into one another: cues that are staged or timed
/// differently are hashed from different bytes.
pub proof fn cue_fields_stay_apart(
    staged: Seq<char>,
    start: u64,
    end: u64,
    other_staged: Seq<char>,
    other_start: u64,
    other_end: u64,
)
    requires
        cue_bytes(encode_utf8(staged), start, end) == cue_bytes(
            encode_utf8(other_staged),
            other_start,
            other_end,
        ),
    ensures
        staged == other_staged,
        start == other_start,
        end == other_end,
{
    let text = encode_utf8(staged);
    let other_text = encode_utf8(other_staged);
    let left = cue_bytes(text, start, end);
    let right = cue_bytes(other_text, other_start, other_end);
    lemma_number_fields(start as nat, other_start as nat);
    lemma_number_fields(end as nat, other_end as nat);
    lemma_number_fields(other_start as nat, start as nat);
    lemma_number_fields(other_end as nat, end as nat);
    let n = text.len() as int;
    assert(left.len() == n + 34);
    assert(right.len() == other_text.len() + 34);
    assert(text =~= left.take(n));
    assert(other_text =~= right.take(n));
    assert(number_field(start as nat) =~= left.subrange(n + 2, n + 18));
    assert(number_field(other_start as nat) =~= right.subrange(n + 2, n + 18));
    assert(number_field(end as nat) =~= left.subrange(n + 18, n + 34));
    assert(number_field(other_end as nat) =~= right.subrange(n + 18, n + 34));
    encode_utf8_decode_utf8(staged);
    encode_utf8_decode_utf8(other_staged);
}

/// Whether a character is a hexadecimal digit in lower case.
pub open spec fn is_hex(character: char) -> bool {
    '0' <= character <= '9' || 'a' <= character <= 'f'
}

/// A key is thirty-two hexadecimal digits.
pub proof fn keys_are_hexadecimal(value: nat, count: nat)
    ensures
        hex(value, count).len() == count,
        forall|i: int| 0 <= i < hex(value, count).len() ==> is_hex(#[trigger] hex(value, count)[i]),
    decreases count,
{
    if count > 0 {
        keys_are_hexadecimal(value / 16, (count - 1) as nat);
    }
}

proof fn lemma_ranked_from(
    entries: Seq<CacheEntry>,
    list: Seq<int>,
    entry: int,
    position: int,
)
    requires
        0 <= position <= list.len(),
        forall|i: int, j: int|
            0 <= i < j < list.len() ==> entries[#[trigger] list[i]].used
                <= entries[#[trigger] list[j]].used,
        forall|i: int|
            0 <= i < position ==> entries[#[trigger] list[i]].used <= entries[entry].used,
    ensures
        forall|i: int, j: int|
            0 <= i < j < ranked_from(entries, list, entry, position).len()
                ==> entries[#[trigger] ranked_from(entries, list, entry, position)[i]].used
                <= entries[#[trigger] ranked_from(entries, list, entry, position)[j]].used,
        forall|other: int| #[trigger]
            ranked_from(entries, list, entry, position).contains(other) <==> list.contains(other)
                || other == entry,
    decreases list.len() - position,
{
    let after = ranked_from(entries, list, entry, position);
    if position < list.len() && entries[entry].used >= entries[list[position]].used {
        lemma_ranked_from(entries, list, entry, position + 1);
    } else {
        assert(after =~= list.insert(position, entry));
        assert forall|i: int, j: int| 0 <= i < j < after.len() implies entries[
        #[trigger] after[i]].used <= entries[#[trigger] after[j]].used by {
            if j < position {
                assert(entries[list[i]].used <= entries[list[j]].used);
            } else if j == position {
                assert(entries[list[i]].used <= entries[entry].used);
            } else if i < position {
                assert(entries[list[i]].used <= entries[list[j - 1]].used);
            } else if i > position {
                assert(entries[list[i - 1]].used <= entries[list[j - 1]].used);
            } else {
                if j - 1 > position {
                    assert(entries[list[position]].used <= entries[list[j - 1]].used);
                }
            }
        }
        assert forall|other: int| #[trigger] after.contains(other) <==> list.contains(other)
            || other == entry by {
            if list.contains(other) {
                let i = choose|i: int| 0 <= i < list.len() && list[i] == other;
                if i < position {
                    assert(after[i] == other);
                } else {
                    assert(after[i + 1] == other);
                }
            }
            assert(after[position] == entry);
            if after.contains(other) && other != entry {
                let i = choose|i: int| 0 <= i < after.len() && after[i] == other;
                if i < position {
                    assert(list[i] == other);
                } else {
                    assert(list[i - 1] == other);
                }
            }
        }
    }
}

proof fn lemma_ranked(entries: Seq<CacheEntry>, open: Option<Seq<char>>, count: nat)
    requires
        count <= entries.len(),
    ensures
        forall|i: int, j: int|
            0 <= i < j < ranked(entries, open, count).len() ==> entries[#[trigger] ranked(
                entries,
                open,
                count,
            )[i]].used <= entries[#[trigger] ranked(entries, open, count)[j]].used,
        forall|other: int| #[trigger]
            ranked(entries, open, count).contains(other) <==> 0 <= other < count && may_leave(
                entries[other],
                open,
            ),
    decreases count,
{
    if count > 0 {
        lemma_ranked(entries, open, (count - 1) as nat);
        lemma_ranked_from(entries, ranked(entries, open, (count - 1) as nat), count - 1, 0);
    }
}

/// Pruning never evicts the open track, evicts whole directories of media only, and of two
/// that may leave never the one that was used later while the other stays.
pub proof fn pruning_evicts_the_least_recently_used(
    entries: Seq<CacheEntry>,
    tracks: usize,
    open: Option<Seq<char>>,
    leaves: int,
    stays: int,
)
    ensures
        evicted(entries, tracks, open).contains(leaves) ==> 0 <= leaves < entries.len()
            && may_leave(entries[leaves], open),
        evicted(entries, tracks, open).contains(leaves) && 0 <= stays < entries.len() && may_leave(
            entries[stays],
            open,
        ) && !evicted(entries, tracks, open).contains(stays) ==> entries[leaves].used
            <= entries[stays].used,
        ranked(entries, open, entries.len()).len() - evicted(entries, tracks, open).len()
            <= slots(tracks, open),
{
    let all = ranked(entries, open, entries.len());
    let gone = evicted(entries, tracks, open);
    lemma_ranked(entries, open, entries.len());
    if gone.contains(leaves) {
        let i = choose|i: int| 0 <= i < gone.len() && gone[i] == leaves;
        assert(all[i] == leaves);
        assert(all.contains(leaves));
        if 0 <= stays < entries.len() && may_leave(entries[stays], open) && !gone.contains(stays) {
            assert(all.contains(stays));
            let j = choose|j: int| 0 <= j < all.len() && all[j] == stays;
            if j <= i {
                assert(gone[j] == stays);
            }
            assert(entries[all[i]].used <= entries[all[j]].used);
        }
    }
}

/// How many of the first entries are directories.
pub open spec fn directory_count(entries: Seq<CacheEntry>, count: nat) -> nat
    decreases count,
{
    if count == 0 {
        0
    } else {
        directory_count(entries, (count - 1) as nat) + if entries[count - 1].is_directory {
            1nat
        } else {
            0
        }
    }
}

/// How many of the first entries are the directory of the open track.
pub open spec fn open_count(entries: Seq<CacheEntry>, open: Option<Seq<char>>, count: nat) -> nat
    decreases count,
{
    if count == 0 {
        0
    } else {
        open_count(entries, open, (count - 1) as nat) + if entries[count - 1].is_directory
            && !may_leave(entries[count - 1], open) {
            1nat
        } else {
            0
        }
    }
}

proof fn lemma_ranked_from_length(
    entries: Seq<CacheEntry>,
    list: Seq<int>,
    entry: int,
    position: int,
)
    requires
        0 <= position <= list.len(),
    ensures
        ranked_from(entries, list, entry, position).len() == list.len() + 1,
        list.no_duplicates() && !list.contains(entry) ==> ranked_from(
            entries,
            list,
            entry,
            position,
        ).no_duplicates(),
    decreases list.len() - position,
{
    if position < list.len() && entries[entry].used >= entries[list[position]].used {
        lemma_ranked_from_length(entries, list, entry, position + 1);
    } else {
        let after = ranked_from(entries, list, entry, position);
        assert(after =~= list.insert(position, entry));
        if list.no_duplicates() && !list.contains(entry) {
            assert forall|i: int, j: int|
                0 <= i < after.len() && 0 <= j < after.len() && i != j implies after[i]
                != after[j] by {
                let before_i = if i < position {
                    i
                } else {
                    i - 1
                };
                let before_j = if j < position {
                    j
                } else {
                    j - 1
                };
                if i == position {
                    assert(list.contains(list[before_j]));
                } else if j == position {
                    assert(list.contains(list[before_i]));
                } else {
                    assert(list[before_i] != list[before_j]);
                }
            }
        }
    }
}

/// Every directory is ranked once, but for that of the open track.
proof fn lemma_ranked_count(entries: Seq<CacheEntry>, open: Option<Seq<char>>, count: nat)
    requires
        count <= entries.len(),
    ensures
        ranked(entries, open, count).len() + open_count(entries, open, count) == directory_count(
            entries,
            count,
        ),
        ranked(entries, open, count).no_duplicates(),
    decreases count,
{
    if count > 0 {
        let shorter = (count - 1) as nat;
        lemma_ranked_count(entries, open, shorter);
        lemma_ranked(entries, open, shorter);
        let before = ranked(entries, open, shorter);
        assert(!before.contains(count - 1));
        lemma_ranked_from_length(entries, before, count - 1, 0);
    }
}

/// Names are told apart in a directory, so at most one entry is that of the open track.
proof fn lemma_open_count(entries: Seq<CacheEntry>, open: Option<Seq<char>>, count: nat)
    requires
        count <= entries.len(),
        names_differ(entries),
    ensures
        open is None ==> open_count(entries, open, count) == 0,
        open_count(entries, open, count) <= 1,
        open_count(entries, open, count) == 1 ==> exists|i: int|
            0 <= i < count && opt_text((#[trigger] entries[i]).name) == open,
    decreases count,
{
    if count > 0 {
        lemma_open_count(entries, open, (count - 1) as nat);
        if open_count(entries, open, (count - 1) as nat) == 1 {
            let i = choose|i: int|
                0 <= i < count - 1 && opt_text((#[trigger] entries[i]).name) == open;
            assert(opt_text(entries[i].name) == open);
            if !may_leave(entries[count - 1], open) && entries[count - 1].is_directory {
                assert(opt_text(entries[count - 1].name) == open);
            }
        } else if !may_leave(entries[count - 1], open) && entries[count - 1].is_directory {
            assert(opt_text(entries[count - 1].name) == open);
        }
    }
}

/// Whether no two entries have one name, as in every directory.
pub open spec fn names_differ(entries: Seq<CacheEntry>) -> bool {
    forall|i: int, j: int|
        0 <= i < j < entries.len() && opt_text((#[trigger] entries[i]).name) is Some ==> opt_text(
            entries[i].name,
        ) != opt_text((#[trigger] entries[j]).name)
}

/// Of all directories at most the given number stays after pruning, whatever they are
/// called; the open track stays even where none is to. Of the others exactly as many stay
/// as there is room for, and none leaves twice.
pub proof fn pruning_keeps_no_more_than_asked(
    entries: Seq<CacheEntry>,
    tracks: usize,
    open: Option<Seq<char>>,
)
    requires
        names_differ(entries),
    ensures
        ({
            let directories = directory_count(entries, entries.len());
            let opened = open_count(entries, open, entries.len());
            let gone = evicted(entries, tracks, open);
            let others = directories - opened;
            &&& gone.no_duplicates()
            &&& directories - gone.len() <= if open is Some && tracks == 0 {
                1
            } else {
                tracks as int
            }
            &&& open is None ==> opened == 0
            &&& others - gone.len() == if others <= slots(tracks, open) {
                others
            } else {
                slots(tracks, open) as int
            }
        }),
{
    let all = ranked(entries, open, entries.len());
    let gone = evicted(entries, tracks, open);
    lemma_ranked_count(entries, open, entries.len());
    lemma_open_count(entries, open, entries.len());
    assert forall|i: int, j: int| 0 <= i < gone.len() && 0 <= j < gone.len() && i != j implies gone[i]
        != gone[j] by {
        assert(all[i] != all[j]);
    }
}

proof fn lemma_decimal_has_no_dot(number: nat)
    ensures
        forall|i: int| 0 <= i < decimal(number).len() ==> (#[trigger] decimal(number)[i]) != '.',
    decreases number,
{
    if number >= 10 {
        lemma_decimal_has_no_dot(number / 10);
        let shorter = decimal(number / 10);
        assert forall|i: int| 0 <= i < decimal(number).len() implies (#[trigger] decimal(number)[i])
            != '.' by {
            if i < shorter.len() {
                assert(decimal(number)[i] == shorter[i]);
            }
        }
    }
}

/// No two writes of a frame share a temporary name: neither two of one process, nor those
/// of two processes.
pub proof fn temporary_names_differ(
    cue: Seq<char>,
    process: u32,
    write: u64,
    other_process: u32,
    other_write: u64,
)
    requires
        temporary_name(cue, process, write) == temporary_name(cue, other_process, other_write),
    ensures
        process == other_process,
        write == other_write,
{
    reveal_strlit(".");
    reveal_strlit(".tmp");
    let left = temporary_name(cue, process, write);
    let right = temporary_name(cue, other_process, other_write);
    let one = decimal(process as nat);
    let other = decimal(other_process as nat);
    let start: int = cue.len() as int + 2;
    lemma_decimal_has_no_dot(process as nat);
    lemma_decimal_has_no_dot(other_process as nat);
    assert(left[start + one.len()] == '.');
    assert(right[start + other.len()] == '.');
    if one.len() < other.len() {
        assert(right[start + one.len()] == other[one.len() as int]);
    } else if other.len() < one.len() {
        assert(left[start + other.len()] == one[other.len() as int]);
    }
    assert(one =~= left.subrange(start, start + one.len()));
    assert(other =~= right.subrange(start, start + other.len()));
    let rest = start + one.len() + 1;
    assert(decimal(write as nat) =~= left.subrange(rest, left.len() - 4));
    assert(decimal(other_write as nat) =~= right.subrange(rest, right.len() - 4));
    numbers_read_back(process as nat);
    numbers_read_back(other_process as nat);
    numbers_read_back(write as nat);
    numbers_read_back(other_write as nat);
}

/// What stands in a file, where there is one.
pub open spec fn stored_at(files: Files, place: Place) -> Option<Seq<u8>> {
    if files.contains_key(place) {
        Some(files[place])
    } else {
        None
    }
}

/// The files once a frame is stored: its bytes are written under the temporary name, which
/// then becomes the name of the frame.
pub open spec fn frame_stored(files: Files, temporary: Place, path: Place, bytes: Seq<u8>) -> Files {
    file_moved(files.insert(temporary, bytes), temporary, path)
}

/// No temporary name is that of a frame.
proof fn lemma_temporary_is_no_frame(
    directory: Part,
    cue: Seq<char>,
    process: u32,
    write: u64,
    other_directory: Part,
    other_cue: Seq<char>,
)
    ensures
        reached(directory, temporary_name(cue, process, write)).place() != reached(
            other_directory,
            other_cue + ".jpg"@,
        ).place(),
{
    reveal_strlit(".tmp");
    reveal_strlit(".jpg");
    let before = "."@ + cue + "."@ + decimal(process as nat) + "."@ + decimal(write as nat);
    names_end_as_their_text(before, ".tmp"@);
    names_end_as_their_text(other_cue, ".jpg"@);
    assert(last_name(before + ".tmp"@).last() == 'p');
    assert(last_name(other_cue + ".jpg"@).last() == 'g');
    last_names_tell_files_apart(
        directory,
        temporary_name(cue, process, write),
        other_directory,
        other_cue + ".jpg"@,
    );
}

/// What is stored is what is read back. The temporary file is gone, and every other file is
/// what it was. As long as the frame is being written, its reader sees what was there before.
pub proof fn stored_frames_read_back(
    files: Files,
    cache: Option<Part>,
    media: Seq<char>,
    cue: Seq<char>,
    process: u32,
    write: u64,
    bytes: Seq<u8>,
)
    requires
        cache is Some,
    ensures
        ({
            let path = frame_path(cache, media, cue)->0.place();
            let temporary = temporary_path(cache, media, cue, process, write)->0.place();
            let after = frame_stored(files, temporary, path, bytes);
            &&& frame_path(cache, media, cue) is Some
            &&& temporary_path(cache, media, cue, process, write) is Some
            &&& frame_of(stored_at(after, path)) == frame_of(Some(bytes))
            &&& bytes.len() > 0 ==> frame_of(stored_at(after, path)) == Some(bytes)
            &&& stored_at(after, temporary) is None
            &&& forall|place: Place|
                place != path && place != temporary ==> #[trigger] stored_at(after, place)
                    == stored_at(files, place)
            &&& forall|part: Seq<u8>|
                stored_at(#[trigger] files.insert(temporary, part), path) == stored_at(files, path)
        }),
{
    let directory = media_directory(cache, media)->0;
    lemma_temporary_is_no_frame(directory, cue, process, write, directory, cue);
}

/// Storing one frame keeps every frame that lies elsewhere.
pub proof fn storing_keeps_other_frames(
    files: Files,
    cache: Option<Part>,
    media: Seq<char>,
    cue: Seq<char>,
    process: u32,
    write: u64,
    bytes: Seq<u8>,
    other_media: Seq<char>,
    other_cue: Seq<char>,
)
    requires
        cache is Some,
        frame_path(cache, other_media, other_cue)->0.place() != frame_path(
            cache,
            media,
            cue,
        )->0.place(),
    ensures
        ({
            let path = frame_path(cache, media, cue)->0.place();
            let temporary = temporary_path(cache, media, cue, process, write)->0.place();
            let other = frame_path(cache, other_media, other_cue)->0.place();
            stored_at(frame_stored(files, temporary, path, bytes), other) == stored_at(files, other)
        }),
{
    lemma_temporary_is_no_frame(
        media_directory(cache, media)->0,
        cue,
        process,
        write,
        media_directory(cache, other_media)->0,
        other_cue,
    );
}

/// The key of a frame is the FNV-1a hash of its description in 128 bits: each byte is laid
/// over the hash so far, and that is multiplied by the prime of this width.
pub proof fn keys_are_hashed_byte_by_byte(bytes: Seq<u8>, byte: u8)
    ensures
        hash_of(Seq::empty()) == 0x6c62_272e_07bb_0142_62b8_2175_6295_c58du128,
        hash_of(bytes.push(byte)) as nat == ((hash_of(bytes) ^ (byte as u128)) as nat
            * 0x100_0000_0000_0000_0000_013b) % (u128::MAX as nat + 1),
        key_text(bytes) == hex(hash_of(bytes) as nat, 32),
{
    assert(bytes.push(byte).drop_last() =~= bytes);
}

/// A key is written with the sixteen digits, the highest first.
pub proof fn keys_are_written_in_sixteens(value: nat, digit: nat, count: nat)
    requires
        digit < 16,
    ensures
        hex(16 * value + digit, count + 1) == hex(value, count).push(
            "0123456789abcdef"@[digit as int],
        ),
{
    reveal_strlit("0123456789abcdef");
    assert((16 * value + digit) / 16 == value);
    assert((16 * value + digit) % 16 == digit);
}

/// A number in a description takes sixteen bytes, the lowest first.
pub proof fn numbers_take_sixteen_bytes(value: nat, byte: u8, count: nat)
    ensures
        low_bytes(256 * value + byte as nat, count + 1) == seq![byte] + low_bytes(value, count),
        number_field(value) == low_bytes(value, 16),
        number_field(value).len() == 16,
{
    assert((256 * value + byte as nat) / 256 == value);
    assert((256 * value + byte as nat) % 256 == byte as nat);
    lemma_low_bytes_length(value, 16);
}

/// What describes a file is its path, its length, its time, the size of the frames and the
/// version of the cache, one after the other; what describes a line is its text, when it
/// begins and when it ends.
pub proof fn descriptions_are_laid_out(
    media: Seq<u8>,
    length: u64,
    modified: Option<i128>,
    pixels: (u32, u32),
    version: u32,
    staged: Seq<u8>,
    start: u64,
    end: u64,
)
    ensures
        ({
            let bytes = media_bytes(media, length, modified, pixels, version);
            let at = media.len() as int;
            &&& bytes.len() == at + 82
            &&& bytes.take(at) == media
            &&& bytes[at] == 0xff
            &&& bytes[at + 1] == 0
            &&& bytes.subrange(at + 2, at + 18) == number_field(length as nat)
            &&& bytes.subrange(at + 18, at + 34) == number_field(key_time(modified))
            &&& bytes.subrange(at + 34, at + 50) == number_field(pixels.0 as nat)
            &&& bytes.subrange(at + 50, at + 66) == number_field(pixels.1 as nat)
            &&& bytes.subrange(at + 66, at + 82) == number_field(version as nat)
        }),
        ({
            let bytes = cue_bytes(staged, start, end);
            let at = staged.len() as int;
            &&& bytes.len() == at + 34
            &&& bytes.take(at) == staged
            &&& bytes[at] == 0xff
            &&& bytes[at + 1] == 0
            &&& bytes.subrange(at + 2, at + 18) == number_field(start as nat)
            &&& bytes.subrange(at + 18, at + 34) == number_field(end as nat)
        }),
        CACHE_FORMAT_VERSION == 4,
{
    lemma_low_bytes_length(length as nat, 16);
    lemma_low_bytes_length(key_time(modified), 16);
    lemma_low_bytes_length(pixels.0 as nat, 16);
    lemma_low_bytes_length(pixels.1 as nat, 16);
    lemma_low_bytes_length(version as nat, 16);
    lemma_low_bytes_length(start as nat, 16);
    lemma_low_bytes_length(end as nat, 16);
    let bytes = media_bytes(media, length, modified, pixels, version);
    let at = media.len() as int;
    assert(bytes.take(at) =~= media);
    assert(bytes.subrange(at + 2, at + 18) =~= number_field(length as nat));
    assert(bytes.subrange(at + 18, at + 34) =~= number_field(key_time(modified)));
    assert(bytes.subrange(at + 34, at + 50) =~= number_field(pixels.0 as nat));
    assert(bytes.subrange(at + 50, at + 66) =~= number_field(pixels.1 as nat));
    assert(bytes.subrange(at + 66, at + 82) =~= number_field(version as nat));
    let bytes = cue_bytes(staged, start, end);
    let at = staged.len() as int;
    assert(bytes.take(at) =~= staged);
    assert(bytes.subrange(at + 2, at + 18) =~= number_field(start as nat));
    assert(bytes.subrange(at + 18, at + 34) =~= number_field(end as nat));
}

/// A time stands in a key as it does in memory, and an unknown one as the earliest time
/// that there is.
pub proof fn times_stand_as_in_memory(nanoseconds: i128)
    ensures
        key_time(Some(nanoseconds)) as int == nanoseconds as int % (u128::MAX as int + 1),
        key_time(None) as int == i128::MIN as int % (u128::MAX as int + 1),
{
}

/// A frame lies in the directory of its file under the cache, named after its line; without
/// a cache it lies nowhere. While it is written it has a hidden name of its own there.
pub proof fn frames_lie_under_their_keys(
    cache: Part,
    media: Seq<char>,
    cue: Seq<char>,
    process: u32,
    write: u64,
)
    ensures
        frame_path(Some(cache), media, cue) == Some(
            reached(cache.joined("preview_frames"@).joined(media), cue + ".jpg"@),
        ),
        frame_path(None, media, cue) is None,
        temporary_path(Some(cache), media, cue, process, write) == Some(
            reached(
                cache.joined("preview_frames"@).joined(media),
                "."@ + cue + "."@ + decimal(process as nat) + "."@ + decimal(write as nat)
                    + ".tmp"@,
            ),
        ),
        temporary_path(None, media, cue, process, write) is None,
{
}

/// A frame of no bytes is none.
pub proof fn empty_frames_are_none(bytes: Seq<u8>)
    ensures
        frame_of(None) is None,
        frame_of(Some(Seq::empty())) is None,
        bytes.len() > 0 ==> frame_of(Some(bytes)) == Some(bytes),
{
}

/// Only directories hold frames: anything else in the cache goes, and of the directories
/// the one of the open file stays and counts as one of those that are kept.
pub proof fn strays_go_and_the_open_file_stays(
    entries: Seq<CacheEntry>,
    count: nat,
    i: int,
    tracks: usize,
    open: Seq<char>,
)
    requires
        count <= entries.len(),
    ensures
        strays(entries, count).contains(i) <==> 0 <= i < count && !entries[i].is_directory,
        0 <= i < entries.len() ==> (may_leave(entries[i], None) <==> entries[i].is_directory),
        0 <= i < entries.len() && opt_text(entries[i].name) == Some(open) ==> !may_leave(
            entries[i],
            Some(open),
        ),
        0 <= i < entries.len() && opt_text(entries[i].name) != Some(open) ==> (may_leave(
            entries[i],
            Some(open),
        ) <==> entries[i].is_directory),
        slots(tracks, None) == tracks,
        tracks > 0 ==> slots(tracks, Some(open)) == tracks - 1,
        slots(0, Some(open)) == 0,
    decreases count,
{
    if count > 0 {
        let fewer = (count - 1) as nat;
        let before = strays(entries, fewer);
        let all = strays(entries, count);
        strays_go_and_the_open_file_stays(entries, fewer, i, tracks, open);
        if before.contains(i) {
            assert(all[before.index_of(i)] == i);
        }
        if all.len() > before.len() {
            assert(all[before.len() as int] == fewer);
        }
        if all.contains(i) {
            let at = all.index_of(i);
            if at < before.len() {
                assert(before[at] == i);
            }
        }
    }
}

} // verus!
