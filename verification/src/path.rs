//! Where a file is: a directory and a name, the name split at its extension.
//!
//! A path keeps its spelling, which is what a reader and a program are given. Which file it
//! means, and which path stands before another, is decided by the steps of the path: neither
//! a doubled separator nor a `.` counts.

use vstd::prelude::*;
use vstd::string::{StrSliceExecFns, StringExecFns};
use vstd::utf8::encode_utf8;

use crate::text::{
    begins_with, characters, from_utf8_lossy, lossy_text, opt_str, opt_text, pieces, split,
    starts_with, texts,
};

verus! {

/// A part of a path: text, or the bytes of a part that is no valid text.
#[derive(Debug, Eq, PartialEq)]
pub enum PathText {
    Text(String),
    Raw(Vec<u8>),
}

/// What a [`PathText`] holds.
pub ghost enum Part {
    Text(Seq<char>),
    Raw(Seq<u8>),
}

impl View for PathText {
    type V = Part;

    open spec fn view(&self) -> Part {
        match self {
            PathText::Text(text) => Part::Text(text@),
            PathText::Raw(bytes) => Part::Raw(bytes@),
        }
    }
}

impl Part {
    /// The text, where the part is valid text.
    pub open spec fn text(self) -> Option<Seq<char>> {
        match self {
            Part::Text(text) => Some(text),
            Part::Raw(_) => None,
        }
    }

    /// The part as a reader sees it.
    pub open spec fn shown(self) -> Seq<char> {
        match self {
            Part::Text(text) => text,
            Part::Raw(bytes) => lossy_text(bytes),
        }
    }

    /// The bytes of the part.
    pub open spec fn bytes(self) -> Seq<u8> {
        match self {
            Part::Text(text) => encode_utf8(text),
            Part::Raw(bytes) => bytes,
        }
    }

    /// The part with some text behind it.
    pub open spec fn and_text(self, more: Seq<char>) -> Part {
        match self {
            Part::Text(text) => Part::Text(text + more),
            Part::Raw(bytes) => Part::Raw(bytes + encode_utf8(more)),
        }
    }

    /// The part with another behind it: text where both are.
    pub open spec fn and(self, more: Part) -> Part {
        match (self, more) {
            (Part::Text(text), Part::Text(behind)) => Part::Text(text + behind),
            _ => Part::Raw(self.bytes() + more.bytes()),
        }
    }

    /// A directory with a separator behind it, where it needs one.
    pub open spec fn separated(self) -> Part {
        match self {
            Part::Text(text) => if text.len() == 0 || text.last() == '/' {
                self
            } else {
                Part::Text(text.push('/'))
            },
            Part::Raw(bytes) => if bytes.len() == 0 || bytes.last() == 0x2f {
                self
            } else {
                Part::Raw(bytes.push(0x2f))
            },
        }
    }

    /// A path inside this directory; one from the root stands for itself.
    pub open spec fn joined(self, more: Seq<char>) -> Part {
        if more.len() > 0 && more[0] == '/' {
            Part::Text(more)
        } else {
            self.separated().and_text(more)
        }
    }

    /// A directory without the separators and the `.` behind its last name.
    pub open spec fn trimmed(self) -> Part {
        match self {
            Part::Text(text) => Part::Text(trimmed_way(text, '/', '.')),
            Part::Raw(bytes) => Part::Raw(trimmed_way(bytes, 0x2f, 0x2e)),
        }
    }

    /// What stands behind the last name of a directory.
    pub open spec fn rest(self) -> Seq<char> {
        match self {
            Part::Text(text) => text.skip(trimmed_way(text, '/', '.').len() as int),
            Part::Raw(bytes) => plain(bytes.skip(trimmed_way(bytes, 0x2f, 0x2e).len() as int)),
        }
    }
}

/// The way to a directory without the separators and the `.` at its end. The root and a `.`
/// that stands alone remain.
pub open spec fn trimmed_way<A>(text: Seq<A>, slash: A, dot: A) -> Seq<A>
    decreases text.len(),
{
    if text.len() > 1 && (text.last() == slash || (text.last() == dot && text[text.len() - 2]
        == slash)) {
        trimmed_way(text.drop_last(), slash, dot)
    } else {
        text
    }
}

/// Separators and dots as text.
pub open spec fn plain(bytes: Seq<u8>) -> Seq<char> {
    bytes.map_values(
        |byte: u8|
            if byte == 0x2f {
                '/'
            } else {
                '.'
            },
    )
}

fn same_bytes(left: &Vec<u8>, right: &Vec<u8>) -> (result: bool)
    ensures
        result == (left@ == right@),
{
    if left.len() != right.len() {
        return false;
    }
    let mut i: usize = 0;
    while i < left.len()
        invariant
            0 <= i <= left.len(),
            left.len() == right.len(),
            forall|k: int| 0 <= k < i ==> left@[k] == right@[k],
        decreases left.len() - i,
    {
        if left[i] != right[i] {
            return false;
        }
        i = i + 1;
    }
    assert(left@ =~= right@);
    true
}

fn copy_bytes(bytes: &Vec<u8>) -> (result: Vec<u8>)
    ensures
        result@ == bytes@,
{
    let mut result: Vec<u8> = Vec::new();
    let mut i: usize = 0;
    while i < bytes.len()
        invariant
            0 <= i <= bytes.len(),
            result@ == bytes@.take(i as int),
        decreases bytes.len() - i,
    {
        result.push(bytes[i]);
        assert(bytes@.take(i + 1) =~= bytes@.take(i as int).push(bytes@[i as int]));
        i = i + 1;
    }
    assert(bytes@.take(bytes@.len() as int) =~= bytes@);
    result
}

impl Clone for PathText {
    fn clone(&self) -> (result: PathText)
        ensures
            result@ == self@,
    {
        match self {
            PathText::Text(text) => PathText::Text(text.as_str().to_owned()),
            PathText::Raw(bytes) => PathText::Raw(copy_bytes(bytes)),
        }
    }
}

impl PathText {
    pub fn text(&self) -> (result: Option<&str>)
        ensures
            opt_str(result) == self@.text(),
    {
        match self {
            PathText::Text(text) => Some(text.as_str()),
            PathText::Raw(_) => None,
        }
    }

    pub fn shown(&self) -> (result: String)
        ensures
            result@ == self@.shown(),
    {
        match self {
            PathText::Text(text) => text.as_str().to_owned(),
            PathText::Raw(bytes) => from_utf8_lossy(bytes.as_slice()),
        }
    }

    fn bytes(&self) -> (result: Vec<u8>)
        ensures
            result@ == self@.bytes(),
    {
        match self {
            PathText::Text(text) => {
                let mut result: Vec<u8> = Vec::new();
                push_bytes(&mut result, text.as_str().as_bytes());
                assert(result@ =~= encode_utf8(text@));
                result
            },
            PathText::Raw(bytes) => copy_bytes(bytes),
        }
    }

    pub(crate) fn push_text(&mut self, more: &str)
        ensures
            final(self)@ == old(self)@.and_text(more@),
    {
        let mut whole = self.clone();
        match &mut whole {
            PathText::Text(text) => {
                text.append(more);
            },
            PathText::Raw(bytes) => {
                push_bytes(bytes, more.as_bytes());
            },
        }
        *self = whole;
    }

    fn push_part(&mut self, more: &PathText)
        ensures
            final(self)@ == old(self)@.and(more@),
    {
        let whole = match (&*self, more) {
            (PathText::Text(text), PathText::Text(behind)) => {
                let mut whole = text.as_str().to_owned();
                whole.append(behind.as_str());
                PathText::Text(whole)
            },
            _ => {
                let mut whole = self.bytes();
                push_bytes(&mut whole, more.bytes().as_slice());
                PathText::Raw(whole)
            },
        };
        *self = whole;
    }

    fn separated(&self) -> (result: PathText)
        ensures
            result@ == self@.separated(),
    {
        let mut result = self.clone();
        let needed = match self {
            PathText::Text(text) => {
                let all: Vec<char> = characters(text.as_str());
                all.len() > 0 && all[all.len() - 1] != '/'
            },
            PathText::Raw(bytes) => bytes.len() > 0 && bytes[bytes.len() - 1] != 0x2f,
        };
        if needed {
            proof {
                reveal_strlit("/");
                lemma_slash_byte();
            }
            result.push_text("/");
            assert(result@ == self@.separated()) by {
                match self@ {
                    Part::Text(text) => {
                        assert(text + "/"@ =~= text.push('/'));
                    },
                    Part::Raw(bytes) => {
                        assert(bytes + encode_utf8("/"@) =~= bytes.push(0x2f));
                    },
                }
            }
        }
        result
    }

    /// A path inside this directory; one from the root stands for itself.
    pub fn join(&self, more: &str) -> (result: PathText)
        ensures
            result@ == self@.joined(more@),
    {
        if starts_with(more, "/") {
            proof {
                lemma_begins(more@);
            }
            return PathText::Text(more.to_owned());
        }
        proof {
            if more@.len() > 0 {
                lemma_begins(more@);
            }
        }
        let mut result = self.separated();
        result.push_text(more);
        result
    }

    /// The directory without what stands behind its last name, and that.
    fn parted(&self) -> (result: (PathText, String))
        ensures
            result.0@ == self@.trimmed(),
            result.1@ == self@.rest(),
    {
        match self {
            PathText::Text(text) => {
                let all: Vec<char> = characters(text.as_str());
                let mut kept: usize = all.len();
                assert(text@.take(kept as int) =~= text@);
                while kept > 1 && (all[kept - 1] == '/' || (all[kept - 1] == '.' && all[kept - 2]
                    == '/'))
                    invariant
                        0 <= kept <= all.len(),
                        all@ == text@,
                        trimmed_way(text@, '/', '.') == trimmed_way(
                            text@.take(kept as int),
                            '/',
                            '.',
                        ),
                    decreases kept,
                {
                    assert(text@.take(kept as int).drop_last() =~= text@.take(kept - 1));
                    kept = kept - 1;
                }
                let front = text.as_str().substring_char(0, kept);
                let back = text.as_str().substring_char(kept, all.len());
                assert(front@ =~= text@.take(kept as int));
                assert(back@ =~= text@.skip(kept as int));
                (PathText::Text(front.to_owned()), back.to_owned())
            },
            PathText::Raw(bytes) => {
                let mut kept: usize = bytes.len();
                assert(bytes@.take(kept as int) =~= bytes@);
                while kept > 1 && (bytes[kept - 1] == 0x2f || (bytes[kept - 1] == 0x2e && bytes[kept
                    - 2] == 0x2f))
                    invariant
                        0 <= kept <= bytes.len(),
                        trimmed_way(bytes@, 0x2f, 0x2e) == trimmed_way(
                            bytes@.take(kept as int),
                            0x2f,
                            0x2e,
                        ),
                    decreases kept,
                {
                    assert(bytes@.take(kept as int).drop_last() =~= bytes@.take(kept - 1));
                    kept = kept - 1;
                }
                let mut front: Vec<u8> = Vec::new();
                let mut back = String::new();
                let mut i: usize = 0;
                while i < bytes.len()
                    invariant
                        0 <= i <= bytes.len(),
                        kept <= bytes.len(),
                        front@ =~= bytes@.take(if i < kept {
                            i as int
                        } else {
                            kept as int
                        }),
                        back@ =~= plain(bytes@.skip(kept as int)).take(if i < kept {
                            0
                        } else {
                            i - kept
                        }),
                    decreases bytes.len() - i,
                {
                    if i < kept {
                        front.push(bytes[i]);
                    } else {
                        assert(bytes@.skip(kept as int)[i - kept] == bytes@[i as int]);
                        back.push(
                            if bytes[i] == 0x2f {
                                '/'
                            } else {
                                '.'
                            },
                        );
                    }
                    i = i + 1;
                }
                assert(plain(bytes@.skip(kept as int)).take(bytes@.len() - kept) =~= plain(
                    bytes@.skip(kept as int),
                ));
                (PathText::Raw(front), back)
            },
        }
    }
}

fn push_bytes(bytes: &mut Vec<u8>, more: &[u8])
    ensures
        final(bytes)@ == old(bytes)@ + more@,
{
    let ghost before = bytes@;
    let mut i: usize = 0;
    while i < more.len()
        invariant
            0 <= i <= more.len(),
            bytes@ =~= before + more@.take(i as int),
        decreases more.len() - i,
    {
        bytes.push(more[i]);
        i = i + 1;
    }
    assert(more@.take(more@.len() as int) =~= more@);
}

// Names.

/// The name of a file, split at the last dot that does not begin it.
#[derive(Debug, Eq, PartialEq)]
pub struct FileName {
    pub stem: PathText,
    pub extension: Option<PathText>,
}

/// What a [`FileName`] holds.
pub ghost struct NameModel {
    pub stem: Part,
    pub extension: Option<Part>,
}

pub open spec fn opt_part(part: Option<PathText>) -> Option<Part> {
    match part {
        Some(part) => Some(part@),
        None => None,
    }
}

impl View for FileName {
    type V = NameModel;

    open spec fn view(&self) -> NameModel {
        NameModel { stem: self.stem@, extension: opt_part(self.extension) }
    }
}

impl NameModel {
    /// The whole name, where it is valid text.
    pub open spec fn text(self) -> Option<Seq<char>> {
        match (self.stem, self.extension) {
            (Part::Text(stem), None) => Some(stem),
            (Part::Text(stem), Some(Part::Text(extension))) => Some(stem + "."@ + extension),
            _ => None,
        }
    }

    /// The whole name.
    pub open spec fn whole(self) -> Part {
        match self.extension {
            None => self.stem,
            Some(extension) => self.stem.and_text("."@).and(extension),
        }
    }
}

/// The position of the last dot of a name that does not begin it.
pub open spec fn extension_dot(name: Seq<char>) -> Option<int> {
    if exists|dot: int| is_extension_dot(name, dot) {
        Some(choose|dot: int| is_extension_dot(name, dot))
    } else {
        None
    }
}

pub open spec fn is_extension_dot(name: Seq<char>, dot: int) -> bool {
    &&& 0 < dot < name.len()
    &&& name[dot] == '.'
    &&& forall|later: int| dot < later < name.len() ==> name[later] != '.'
}

/// A name split into its stem and its extension.
pub open spec fn name_of(name: Seq<char>) -> NameModel {
    match extension_dot(name) {
        Some(dot) => NameModel {
            stem: Part::Text(name.take(dot)),
            extension: Some(Part::Text(name.skip(dot + 1))),
        },
        None => NameModel { stem: Part::Text(name), extension: None },
    }
}

impl Clone for FileName {
    fn clone(&self) -> (result: FileName)
        ensures
            result@ == self@,
    {
        FileName {
            stem: self.stem.clone(),
            extension: match &self.extension {
                Some(extension) => Some(extension.clone()),
                None => None,
            },
        }
    }
}

impl FileName {
    /// Splits a name at its extension.
    pub fn of(name: &str) -> (result: FileName)
        ensures
            result@ == name_of(name@),
    {
        let chars: Vec<char> = characters(name);
        let mut dot: usize = chars.len();
        while dot > 1
            invariant
                0 <= dot <= chars.len(),
                chars@ == name@,
                forall|later: int| dot <= later < name@.len() ==> name@[later] != '.',
            decreases dot,
        {
            dot = dot - 1;
            if chars[dot] == '.' {
                assert(is_extension_dot(name@, dot as int));
                let ghost found = extension_dot(name@)->0;
                assert(found == dot) by {
                    assert(is_extension_dot(name@, found));
                    if found < dot {
                        assert(name@[dot as int] != '.');
                    }
                    if dot < found {
                        assert(name@[found] != '.');
                    }
                }
                let extension = name.substring_char(dot + 1, chars.len());
                let stem = name.substring_char(0, dot);
                assert(stem@ =~= name@.take(dot as int));
                assert(extension@ =~= name@.skip(dot + 1));
                return FileName {
                    stem: PathText::Text(stem.to_owned()),
                    extension: Some(PathText::Text(extension.to_owned())),
                };
            }
        }
        assert forall|later: int| !is_extension_dot(name@, later) by {
            if 0 < later < name@.len() {
                assert(name@[later] != '.');
            }
        }
        FileName { stem: PathText::Text(name.to_owned()), extension: None }
    }

    pub fn text(&self) -> (result: Option<String>)
        ensures
            opt_text(result) == self@.text(),
    {
        match (&self.stem, &self.extension) {
            (PathText::Text(stem), None) => Some(stem.as_str().to_owned()),
            (PathText::Text(stem), Some(PathText::Text(extension))) => {
                let mut name = stem.as_str().to_owned();
                name.append(".");
                name.append(extension.as_str());
                Some(name)
            },
            _ => None,
        }
    }

    fn bytes(&self) -> (result: Vec<u8>)
        ensures
            result@ == name_bytes(self@),
    {
        let mut bytes = self.stem.bytes();
        if let Some(extension) = &self.extension {
            bytes.push(0x2e);
            let ghost front = bytes@;
            let mut more = extension.bytes();
            let ghost back = more@;
            bytes.append(&mut more);
            assert(bytes@ =~= front + back);
        }
        bytes
    }

    fn whole(&self) -> (result: PathText)
        ensures
            result@ == self@.whole(),
    {
        let mut name = self.stem.clone();
        if let Some(extension) = &self.extension {
            name.push_text(".");
            name.push_part(extension);
        }
        name
    }
}

// Paths.

/// The path of a file as it is spelled: the directory that the file is in, what separates
/// the two, the name, and what stands behind it. A path such as `/` or `..` has no name; what
/// it has instead stands where the separator does.
#[derive(Debug, Eq, PartialEq)]
pub struct FilePath {
    pub directory: Option<PathText>,
    /// Separators, and the `.` between them; `/`, `.` or `..` in a path without a name.
    pub gap: String,
    pub name: Option<FileName>,
    /// Separators, and the `.` between them.
    pub tail: String,
}

/// What a [`FilePath`] holds.
pub ghost struct PathModel {
    pub directory: Option<Part>,
    pub gap: Seq<char>,
    pub name: Option<NameModel>,
    pub tail: Seq<char>,
}

pub open spec fn opt_name(name: Option<FileName>) -> Option<NameModel> {
    match name {
        Some(name) => Some(name@),
        None => None,
    }
}

impl View for FilePath {
    type V = PathModel;

    open spec fn view(&self) -> PathModel {
        PathModel {
            directory: opt_part(self.directory),
            gap: self.gap@,
            name: opt_name(self.name),
            tail: self.tail@,
        }
    }
}

/// Where the name begins that a text ends in: behind the last separator.
pub open spec fn name_start(text: Seq<char>) -> int
    decreases text.len(),
{
    if text.len() == 0 || text.last() == '/' {
        text.len() as int
    } else {
        name_start(text.drop_last())
    }
}

/// The name that a text ends in.
pub open spec fn last_name(text: Seq<char>) -> Seq<char> {
    text.skip(name_start(text))
}

/// The file that is called `name` behind what is spelled before it.
pub open spec fn behind(lead: Part, name: Seq<char>) -> PathModel {
    PathModel {
        directory: Some(lead.trimmed()),
        gap: lead.rest(),
        name: Some(name_of(name)),
        tail: Seq::empty(),
    }
}

/// The file called `name` in a directory.
pub open spec fn in_directory(directory: Part, name: Seq<char>) -> PathModel {
    behind(directory.separated(), name)
}

/// The file that a text leads to from a directory. The text may go further down, or begin at
/// the root; it ends in the name.
pub open spec fn reached(directory: Part, text: Seq<char>) -> PathModel {
    let start = name_start(text);
    if start == 0 {
        in_directory(directory, text)
    } else {
        behind(directory.joined(text.take(start)), text.skip(start))
    }
}

impl PathModel {
    /// The stem of the name, where it is valid text.
    pub open spec fn stem(self) -> Option<Seq<char>> {
        match self.name {
            Some(name) => name.stem.text(),
            None => None,
        }
    }

    /// The extension of the name, where there is one and it is valid text.
    pub open spec fn extension(self) -> Option<Seq<char>> {
        match self.name {
            Some(NameModel { extension: Some(extension), .. }) => extension.text(),
            _ => None,
        }
    }

    /// The whole name, where there is one and it is valid text.
    pub open spec fn name_text(self) -> Option<Seq<char>> {
        match self.name {
            Some(name) => name.text(),
            None => None,
        }
    }

    /// The path with another extension; a path without a name stays as it is.
    pub open spec fn with_extension(self, extension: Seq<char>) -> PathModel {
        match self.name {
            Some(name) => PathModel {
                directory: self.directory,
                gap: self.gap,
                name: Some(NameModel {
                    stem: name.stem,
                    extension: Some(Part::Text(extension)),
                }),
                tail: Seq::empty(),
            },
            None => self,
        }
    }

    /// What is spelled before the name.
    pub open spec fn lead(self) -> Part {
        match self.directory {
            Some(directory) => directory.and_text(self.gap),
            None => Part::Text(self.gap),
        }
    }

    /// Where a file beside this one is; inside this path, where it has no name.
    pub open spec fn beside(self) -> Part {
        match (self.name, self.directory) {
            (Some(_), Some(directory)) => directory,
            (Some(_), None) => Part::Text(Seq::empty()),
            (None, _) => self.lead(),
        }
    }

    /// The file called `name` beside this one.
    pub open spec fn sibling(self, name: Seq<char>) -> PathModel {
        in_directory(self.beside(), name)
    }

    /// The path as it is spelled.
    pub open spec fn whole(self) -> Part {
        match self.name {
            Some(name) => self.lead().and(name.whole()).and_text(self.tail),
            None => self.lead().and_text(self.tail),
        }
    }

    /// The path as a reader sees it.
    pub open spec fn shown(self) -> Seq<char> {
        self.whole().shown()
    }

    /// Whether the path is that of a file in a directory.
    pub open spec fn lies_in(self, directory: Part) -> bool {
        &&& self.name is Some
        &&& self.directory is Some
        &&& self.directory->0.trimmed() == directory.trimmed()
    }

    /// Which file a path means.
    pub open spec fn place(self) -> Place {
        let list = part_pieces(self.lead());
        steps_from(
            rooted(self.lead()),
            match self.name {
                Some(name) => list.drop_last().push(list.last() + name_bytes(name)),
                None => list,
            },
        )
    }
}

fn copy_string(text: &String) -> (result: String)
    ensures
        result@ == text@,
{
    text.as_str().to_owned()
}

impl Clone for FilePath {
    fn clone(&self) -> (result: FilePath)
        ensures
            result@ == self@,
    {
        FilePath {
            directory: match &self.directory {
                Some(directory) => Some(directory.clone()),
                None => None,
            },
            gap: copy_string(&self.gap),
            name: match &self.name {
                Some(name) => Some(name.clone()),
                None => None,
            },
            tail: copy_string(&self.tail),
        }
    }
}

impl FilePath {
    /// The file that `text` leads to from `directory`.
    pub fn at(directory: &str, text: &str) -> (result: FilePath)
        ensures
            result@ == reached(Part::Text(directory@), text@),
    {
        FilePath::from_directory(&PathText::Text(directory.to_owned()), text)
    }

    fn behind(lead: &PathText, name: &str) -> (result: FilePath)
        ensures
            result@ == behind(lead@, name@),
    {
        let (directory, gap) = lead.parted();
        FilePath {
            directory: Some(directory),
            gap,
            name: Some(FileName::of(name)),
            tail: String::new(),
        }
    }

    /// The file called `name` in `directory`.
    pub fn inside(directory: &PathText, name: &str) -> (result: FilePath)
        ensures
            result@ == in_directory(directory@, name@),
    {
        FilePath::behind(&directory.separated(), name)
    }

    /// The file that `text` leads to from `directory`.
    pub fn from_directory(directory: &PathText, text: &str) -> (result: FilePath)
        ensures
            result@ == reached(directory@, text@),
    {
        let all: Vec<char> = characters(text);
        let mut start: usize = all.len();
        assert(text@.take(start as int) =~= text@);
        while start > 0 && all[start - 1] != '/'
            invariant
                0 <= start <= all.len(),
                all@ == text@,
                name_start(text@) == name_start(text@.take(start as int)),
            decreases start,
        {
            assert(text@.take(start as int).drop_last() =~= text@.take(start - 1));
            start = start - 1;
        }
        assert(name_start(text@) == start);
        if start == 0 {
            return FilePath::inside(directory, text);
        }
        let way = text.substring_char(0, start);
        let name = text.substring_char(start, all.len());
        assert(way@ =~= text@.take(start as int));
        assert(name@ =~= text@.skip(start as int));
        FilePath::behind(&directory.join(way), name)
    }

    fn lead(&self) -> (result: PathText)
        ensures
            result@ == self@.lead(),
    {
        match &self.directory {
            Some(directory) => {
                let mut lead = directory.clone();
                lead.push_text(self.gap.as_str());
                lead
            },
            None => PathText::Text(copy_string(&self.gap)),
        }
    }

    /// Whether two paths mean one file, however they are spelled.
    pub fn same(&self, other: &FilePath) -> (result: bool)
        ensures
            result == (self@.place() == other@.place()),
    {
        same_steps(&self.steps(), &other.steps())
    }

    pub fn stem(&self) -> (result: Option<&str>)
        ensures
            opt_str(result) == self@.stem(),
    {
        match &self.name {
            Some(name) => name.stem.text(),
            None => None,
        }
    }

    pub fn extension(&self) -> (result: Option<&str>)
        ensures
            opt_str(result) == self@.extension(),
    {
        match &self.name {
            Some(name) => match &name.extension {
                Some(extension) => extension.text(),
                None => None,
            },
            None => None,
        }
    }

    pub fn name_text(&self) -> (result: Option<String>)
        ensures
            opt_text(result) == self@.name_text(),
    {
        match &self.name {
            Some(name) => name.text(),
            None => None,
        }
    }

    pub fn with_extension(&self, extension: &str) -> (result: FilePath)
        ensures
            result@ == self@.with_extension(extension@),
    {
        let mut result = self.clone();
        if let Some(name) = &self.name {
            result.name = Some(
                FileName {
                    stem: name.stem.clone(),
                    extension: Some(PathText::Text(extension.to_owned())),
                },
            );
            result.tail = String::new();
        }
        result
    }

    pub fn sibling(&self, name: &str) -> (result: FilePath)
        ensures
            result@ == self@.sibling(name@),
    {
        if self.name.is_none() {
            return FilePath::inside(&self.lead(), name);
        }
        match &self.directory {
            Some(directory) => FilePath::inside(directory, name),
            None => FilePath::inside(&PathText::Text(String::new()), name),
        }
    }

    pub fn shown(&self) -> (result: String)
        ensures
            result@ == self@.shown(),
    {
        let mut whole = self.lead();
        if let Some(name) = &self.name {
            whole.push_part(&name.whole());
        }
        whole.push_text(self.tail.as_str());
        whole.shown()
    }
}

/// The path inside an optional path.
pub open spec fn opt_path(path: Option<FilePath>) -> Option<PathModel> {
    match path {
        Some(path) => Some(path@),
        None => None,
    }
}

/// The views of a list of paths.
pub open spec fn paths(list: Seq<FilePath>) -> Seq<PathModel> {
    list.map_values(|path: FilePath| path@)
}

/// The files that some paths mean.
pub open spec fn places(list: Seq<PathModel>) -> Seq<Place> {
    list.map_values(|path: PathModel| path.place())
}

/// Whether a list of paths holds one that means a file.
pub fn holds_path(list: &[FilePath], path: &FilePath) -> (result: bool)
    ensures
        result == places(paths(list@)).contains(path@.place()),
{
    let mut i: usize = 0;
    while i < list.len()
        invariant
            0 <= i <= list.len(),
            forall|k: int| 0 <= k < i ==> (#[trigger] list@[k])@.place() != path@.place(),
        decreases list.len() - i,
    {
        if list[i].same(path) {
            assert(places(paths(list@))[i as int] == path@.place());
            return true;
        }
        i = i + 1;
    }
    proof {
        if places(paths(list@)).contains(path@.place()) {
            let k = choose|k: int|
                0 <= k < places(paths(list@)).len() && places(paths(list@))[k] == path@.place();
            assert(list@[k]@.place() == path@.place());
        }
    }
    false
}

/// A second list of the same paths.
pub fn copy_paths(list: &Vec<FilePath>) -> (result: Vec<FilePath>)
    ensures
        paths(result@) == paths(list@),
{
    let mut result: Vec<FilePath> = Vec::new();
    let mut i: usize = 0;
    while i < list.len()
        invariant
            0 <= i <= list.len(),
            paths(result@) =~= paths(list@).take(i as int),
        decreases list.len() - i,
    {
        let ghost before = result@;
        result.push(list[i].clone());
        assert(paths(result@) =~= paths(before).push(list@[i as int]@));
        i = i + 1;
    }
    assert(paths(list@).take(list@.len() as int) =~= paths(list@));
    result
}

// Order.

/// One step of a path: the root, a `.` at the front, a step up, or a name. The kinds stand
/// in this order.
pub ghost struct StepOfPath {
    pub kind: u8,
    pub name: Seq<u8>,
}

/// The steps to a file: which file it is.
pub type Place = Seq<StepOfPath>;

/// The step to a part of a path.
pub open spec fn step_to(part: Seq<u8>) -> StepOfPath {
    if part == seq![0x2eu8] {
        StepOfPath { kind: 1, name: Seq::empty() }
    } else if part == seq![0x2eu8, 0x2eu8] {
        StepOfPath { kind: 2, name: Seq::empty() }
    } else {
        StepOfPath { kind: 3, name: part }
    }
}

/// The bytes of a whole name.
pub open spec fn name_bytes(name: NameModel) -> Seq<u8> {
    match name.extension {
        None => name.stem.bytes(),
        Some(extension) => name.stem.bytes().push(0x2e) + extension.bytes(),
    }
}

/// The pieces of some bytes between separators.
pub open spec fn byte_pieces(bytes: Seq<u8>) -> Seq<Seq<u8>>
    decreases bytes.len(),
{
    if bytes.len() == 0 {
        seq![Seq::empty()]
    } else {
        let before = byte_pieces(bytes.drop_last());
        if bytes.last() == 0x2f {
            before.push(Seq::empty())
        } else {
            before.drop_last().push(before.last().push(bytes.last()))
        }
    }
}

/// The pieces of a part between separators.
pub open spec fn part_pieces(part: Part) -> Seq<Seq<u8>> {
    match part {
        Part::Text(text) => pieces(text, '/').map_values(|piece: Seq<char>| encode_utf8(piece)),
        Part::Raw(bytes) => byte_pieces(bytes),
    }
}

/// Whether a part of a path begins at the root.
pub open spec fn rooted(part: Part) -> bool {
    match part {
        Part::Text(text) => begins_with(text, "/"@),
        Part::Raw(bytes) => bytes.len() > 0 && bytes[0] == 0x2f,
    }
}

/// The steps to the pieces that count: neither the empty ones nor, but at the front, `.`.
pub open spec fn way(list: Seq<Seq<u8>>) -> Place
    decreases list.len(),
{
    if list.len() == 0 {
        Seq::empty()
    } else {
        let before = way(list.drop_last());
        let piece = list.last();
        if piece.len() == 0 || (piece == seq![0x2eu8] && list.len() > 1) {
            before
        } else {
            before.push(step_to(piece))
        }
    }
}

/// The steps to some pieces, from the root or not.
pub open spec fn steps_from(from_root: bool, list: Seq<Seq<u8>>) -> Place {
    if from_root {
        seq![StepOfPath { kind: 0, name: Seq::empty() }] + way(list)
    } else {
        way(list)
    }
}

/// The steps of a part of a path.
pub open spec fn part_steps(part: Part) -> Place {
    steps_from(rooted(part), part_pieces(part))
}

/// Whether some bytes stand before others: by the first that differs, or else by length.
pub open spec fn bytes_before(left: Seq<u8>, right: Seq<u8>) -> bool
    decreases left.len(),
{
    if right.len() == 0 {
        false
    } else if left.len() == 0 {
        true
    } else if left[0] != right[0] {
        left[0] < right[0]
    } else {
        bytes_before(left.skip(1), right.skip(1))
    }
}

/// Whether one step stands before another: by their kinds, then by their names.
pub open spec fn step_before(left: StepOfPath, right: StepOfPath) -> bool {
    left.kind < right.kind || (left.kind == right.kind && bytes_before(left.name, right.name))
}

/// Whether some steps stand before others: by the first that differs, or else by length.
pub open spec fn steps_before(left: Seq<StepOfPath>, right: Seq<StepOfPath>) -> bool
    decreases left.len(),
{
    if right.len() == 0 {
        false
    } else if left.len() == 0 {
        true
    } else if left[0] != right[0] {
        step_before(left[0], right[0])
    } else {
        steps_before(left.skip(1), right.skip(1))
    }
}

/// Whether one path stands before another: step by step.
pub open spec fn path_before(left: PathModel, right: PathModel) -> bool {
    steps_before(left.place(), right.place())
}

/// One step of a path.
struct PathStep {
    kind: u8,
    name: Vec<u8>,
}

impl View for PathStep {
    type V = StepOfPath;

    closed spec fn view(&self) -> StepOfPath {
        StepOfPath { kind: self.kind, name: self.name@ }
    }
}

spec fn path_steps(list: Seq<PathStep>) -> Seq<StepOfPath> {
    list.map_values(|step: PathStep| step@)
}

fn less_bytes(left: &Vec<u8>, right: &Vec<u8>) -> (result: bool)
    ensures
        result == bytes_before(left@, right@),
{
    let mut i: usize = 0;
    assert(left@.skip(0) =~= left@);
    assert(right@.skip(0) =~= right@);
    while i < left.len() && i < right.len()
        invariant
            0 <= i <= left.len(),
            i <= right.len(),
            bytes_before(left@, right@) == bytes_before(
                left@.skip(i as int),
                right@.skip(i as int),
            ),
        decreases left.len() - i,
    {
        assert(left@.skip(i as int).skip(1) =~= left@.skip(i + 1));
        assert(right@.skip(i as int).skip(1) =~= right@.skip(i + 1));
        if left[i] != right[i] {
            return left[i] < right[i];
        }
        i = i + 1;
    }
    i < right.len()
}

fn less_steps(left: &Vec<PathStep>, right: &Vec<PathStep>) -> (result: bool)
    ensures
        result == steps_before(path_steps(left@), path_steps(right@)),
{
    let ghost one = path_steps(left@);
    let ghost other = path_steps(right@);
    let mut i: usize = 0;
    assert(one.skip(0) =~= one);
    assert(other.skip(0) =~= other);
    while i < left.len() && i < right.len()
        invariant
            0 <= i <= left.len(),
            i <= right.len(),
            one == path_steps(left@),
            other == path_steps(right@),
            steps_before(one, other) == steps_before(one.skip(i as int), other.skip(i as int)),
        decreases left.len() - i,
    {
        let own = &left[i];
        let theirs = &right[i];
        proof {
            assert(one.skip(i as int).skip(1) =~= one.skip(i + 1));
            assert(other.skip(i as int).skip(1) =~= other.skip(i + 1));
            assert(one.skip(i as int)[0] == own@);
            assert(other.skip(i as int)[0] == theirs@);
        }
        if own.kind != theirs.kind {
            return own.kind < theirs.kind;
        }
        if !same_bytes(&own.name, &theirs.name) {
            return less_bytes(&own.name, &theirs.name);
        }
        i = i + 1;
    }
    i < right.len()
}

fn same_steps(left: &Vec<PathStep>, right: &Vec<PathStep>) -> (result: bool)
    ensures
        result == (path_steps(left@) == path_steps(right@)),
{
    assert(path_steps(left@).len() == left@.len());
    assert(path_steps(right@).len() == right@.len());
    if left.len() != right.len() {
        return false;
    }
    let mut i: usize = 0;
    while i < left.len()
        invariant
            0 <= i <= left.len(),
            left@.len() == right@.len(),
            forall|k: int| 0 <= k < i ==> (#[trigger] left@[k])@ == right@[k]@,
        decreases left.len() - i,
    {
        if left[i].kind != right[i].kind || !same_bytes(&left[i].name, &right[i].name) {
            assert(path_steps(left@)[i as int] != path_steps(right@)[i as int]);
            return false;
        }
        i = i + 1;
    }
    assert(path_steps(left@) =~= path_steps(right@));
    true
}

spec fn byte_lists(list: Seq<Vec<u8>>) -> Seq<Seq<u8>> {
    list.map_values(|bytes: Vec<u8>| bytes@)
}

fn split_bytes(bytes: &Vec<u8>) -> (result: Vec<Vec<u8>>)
    ensures
        byte_lists(result@) == byte_pieces(bytes@),
{
    let mut result: Vec<Vec<u8>> = Vec::new();
    let mut piece: Vec<u8> = Vec::new();
    let mut i: usize = 0;
    assert(byte_lists(result@).push(piece@) =~= byte_pieces(bytes@.take(0)));
    while i < bytes.len()
        invariant
            0 <= i <= bytes.len(),
            byte_lists(result@).push(piece@) == byte_pieces(bytes@.take(i as int)),
        decreases bytes.len() - i,
    {
        let ghost before = byte_pieces(bytes@.take(i as int));
        let ghost old_result = result@;
        let ghost old_piece = piece@;
        proof {
            assert(bytes@.take(i + 1).drop_last() =~= bytes@.take(i as int));
            assert(bytes@.take(i + 1).last() == bytes@[i as int]);
            assert(before.drop_last() =~= byte_lists(old_result));
            assert(before.last() == old_piece);
        }
        if bytes[i] == 0x2f {
            result.push(piece);
            piece = Vec::new();
            assert(byte_lists(result@) =~= byte_lists(old_result).push(old_piece));
            assert(byte_lists(result@).push(piece@) =~= before.push(Seq::empty()));
        } else {
            piece.push(bytes[i]);
            assert(byte_lists(result@).push(piece@) =~= before.drop_last().push(
                before.last().push(bytes@[i as int]),
            ));
        }
        i = i + 1;
    }
    let ghost last = piece@;
    let ghost front = result@;
    result.push(piece);
    proof {
        assert(byte_lists(result@) =~= byte_lists(front).push(last));
        assert(bytes@.take(bytes@.len() as int) =~= bytes@);
    }
    result
}

impl PathText {
    fn pieces(&self) -> (result: Vec<Vec<u8>>)
        ensures
            byte_lists(result@) == part_pieces(self@),
    {
        match self {
            PathText::Text(text) => {
                let list = split(text.as_str(), '/');
                let ghost all = part_pieces(self@);
                let mut result: Vec<Vec<u8>> = Vec::new();
                let mut i: usize = 0;
                assert(texts(list@).len() == list@.len());
                while i < list.len()
                    invariant
                        0 <= i <= list.len(),
                        texts(list@) == pieces(text@, '/'),
                        texts(list@).len() == list@.len(),
                        all == pieces(text@, '/').map_values(
                            |piece: Seq<char>| encode_utf8(piece),
                        ),
                        byte_lists(result@) =~= all.take(i as int),
                    decreases list.len() - i,
                {
                    let mut piece: Vec<u8> = Vec::new();
                    push_bytes(&mut piece, list[i].as_str().as_bytes());
                    let ghost before = result@;
                    let ghost bytes = piece@;
                    assert(texts(list@)[i as int] == list@[i as int]@);
                    assert(bytes =~= all[i as int]);
                    result.push(piece);
                    assert(byte_lists(result@) =~= byte_lists(before).push(bytes));
                    i = i + 1;
                }
                assert(all.take(all.len() as int) =~= all);
                result
            },
            PathText::Raw(bytes) => split_bytes(bytes),
        }
    }

    fn is_rooted(&self) -> (result: bool)
        ensures
            result == rooted(self@),
    {
        match self {
            PathText::Text(text) => starts_with(text.as_str(), "/"),
            PathText::Raw(bytes) => bytes.len() > 0 && bytes[0] == 0x2f,
        }
    }
}

fn list_steps(from_root: bool, list: &Vec<Vec<u8>>) -> (result: Vec<PathStep>)
    ensures
        path_steps(result@) == steps_from(from_root, byte_lists(list@)),
{
    let mut result: Vec<PathStep> = Vec::new();
    if from_root {
        result.push(PathStep { kind: 0, name: Vec::new() });
        assert(result@[0]@ == (StepOfPath { kind: 0, name: Seq::empty() }));
    }
    let ghost first = path_steps(result@);
    let ghost all = byte_lists(list@);
    let mut i: usize = 0;
    assert(way(all.take(0)) =~= Seq::empty());
    assert(first + way(all.take(0)) =~= first);
    while i < list.len()
        invariant
            0 <= i <= list.len(),
            all == byte_lists(list@),
            all.len() == list@.len(),
            path_steps(result@) == first + way(all.take(i as int)),
        decreases list.len() - i,
    {
        let piece = &list[i];
        proof {
            assert(all.take(i + 1).drop_last() =~= all.take(i as int));
            assert(all.take(i + 1).last() == piece@);
            assert((piece@ == seq![0x2eu8]) == (piece@.len() == 1 && piece@[0] == 0x2e)) by {
                if piece@.len() == 1 && piece@[0] == 0x2e {
                    assert(piece@ =~= seq![0x2eu8]);
                }
            }
            assert((piece@ == seq![0x2eu8, 0x2eu8]) == (piece@.len() == 2 && piece@[0] == 0x2e
                && piece@[1] == 0x2e)) by {
                if piece@.len() == 2 && piece@[0] == 0x2e && piece@[1] == 0x2e {
                    assert(piece@ =~= seq![0x2eu8, 0x2eu8]);
                }
            }
        }
        let here: bool = piece.len() == 1 && piece[0] == 0x2e;
        let up: bool = piece.len() == 2 && piece[0] == 0x2e && piece[1] == 0x2e;
        if piece.len() > 0 && !(here && i > 0) {
            let step = if here {
                PathStep { kind: 1, name: Vec::new() }
            } else if up {
                PathStep { kind: 2, name: Vec::new() }
            } else {
                PathStep { kind: 3, name: copy_bytes(piece) }
            };
            let ghost before = result@;
            let ghost end = step@;
            assert(end.name =~= step_to(piece@).name);
            assert(end == step_to(piece@));
            result.push(step);
            assert(path_steps(result@) =~= path_steps(before).push(end));
            assert(path_steps(result@) =~= first + way(all.take(i + 1)));
        }
        i = i + 1;
    }
    assert(all.take(all.len() as int) =~= all);
    assert(path_steps(result@) =~= steps_from(from_root, all));
    result
}

impl FilePath {
    fn steps(&self) -> (result: Vec<PathStep>)
        ensures
            path_steps(result@) == self@.place(),
    {
        let lead = self.lead();
        let mut list = lead.pieces();
        let ghost all = byte_lists(list@);
        assert(all.len() == list@.len());
        if let Some(name) = &self.name {
            let mut last: Vec<u8> = match list.pop() {
                Some(last) => last,
                None => Vec::new(),
            };
            proof {
                lemma_some_pieces(lead@);
                assert(all.last() == last@);
            }
            let ghost front = list@;
            let ghost start = last@;
            let mut bytes = name.bytes();
            last.append(&mut bytes);
            let ghost end = last@;
            assert(end =~= start + name_bytes(name@));
            list.push(last);
            assert(byte_lists(list@) =~= all.drop_last().push(end));
        }
        list_steps(lead.is_rooted(), &list)
    }

    pub fn stands_before(&self, other: &FilePath) -> (result: bool)
        ensures
            result == path_before(self@, other@),
    {
        less_steps(&self.steps(), &other.steps())
    }
}

/// A list of paths with one put before the first that it stands before, from a position
/// on.
pub open spec fn inserted_from(list: Seq<PathModel>, path: PathModel, position: int) -> Seq<PathModel>
    decreases list.len() - position,
{
    if !(0 <= position < list.len()) {
        list.push(path)
    } else if path_before(path, list[position]) {
        list.insert(position, path)
    } else {
        inserted_from(list, path, position + 1)
    }
}

/// An ordered list of paths with one more, where it means a file that is not there yet.
pub open spec fn inserted(list: Seq<PathModel>, path: PathModel) -> Seq<PathModel> {
    if places(list).contains(path.place()) {
        list
    } else {
        inserted_from(list, path, 0)
    }
}

/// Some paths in order, each file once.
pub open spec fn ordered(list: Seq<PathModel>) -> Seq<PathModel>
    decreases list.len(),
{
    if list.len() == 0 {
        Seq::empty()
    } else {
        inserted(ordered(list.drop_last()), list.last())
    }
}

pub fn insert_path(list: &mut Vec<FilePath>, path: &FilePath)
    ensures
        paths(final(list)@) == inserted(paths(old(list)@), path@),
{
    let ghost before = paths(list@);
    if holds_path(list.as_slice(), path) {
        return ;
    }
    let mut i: usize = 0;
    while i < list.len()
        invariant
            0 <= i <= list.len(),
            before == paths(list@),
            before == paths(old(list)@),
            inserted(before, path@) == inserted_from(before, path@, i as int),
        decreases list.len() - i,
    {
        assert(before[i as int] == list@[i as int]@);
        if path.stands_before(&list[i]) {
            list.insert(i, path.clone());
            assert(paths(list@) =~= before.insert(i as int, path@));
            return ;
        }
        i = i + 1;
    }
    list.push(path.clone());
    assert(paths(list@) =~= before.push(path@));
}

// Laws.

proof fn lemma_pieces_join(before: Seq<char>, after: Seq<char>)
    ensures
        pieces(before.push('/') + after, '/') == pieces(before, '/') + pieces(after, '/'),
        pieces(after, '/').len() > 0,
    decreases after.len(),
{
    let whole = before.push('/') + after;
    if after.len() == 0 {
        assert(whole =~= before.push('/'));
        assert(whole.drop_last() =~= before);
        assert(pieces(whole, '/') =~= pieces(before, '/') + pieces(after, '/'));
    } else {
        lemma_pieces_join(before, after.drop_last());
        assert(whole.drop_last() =~= before.push('/') + after.drop_last());
        let front = pieces(before, '/');
        let back = pieces(after.drop_last(), '/');
        assert((front + back).drop_last() =~= front + back.drop_last());
        assert((front + back).last() == back.last());
        assert(pieces(whole, '/') =~= front + pieces(after, '/'));
    }
}

/// There is always a piece.
proof fn lemma_some_pieces(part: Part)
    ensures
        part_pieces(part).len() > 0,
{
    match part {
        Part::Text(text) => lemma_pieces_join(Seq::empty(), text),
        Part::Raw(bytes) => lemma_some_bytes(bytes),
    }
}

proof fn lemma_some_bytes(bytes: Seq<u8>)
    ensures
        byte_pieces(bytes).len() > 0,
{
}

/// Behind the first piece it does not matter what comes before.
proof fn lemma_way_join(one: Seq<Seq<u8>>, other: Seq<Seq<u8>>, after: Seq<Seq<u8>>)
    requires
        one.len() > 0,
        other.len() > 0,
        way(one) == way(other),
    ensures
        way(one + after) == way(other + after),
    decreases after.len(),
{
    if after.len() == 0 {
        assert(one + after =~= one);
        assert(other + after =~= other);
    } else {
        lemma_way_join(one, other, after.drop_last());
        assert((one + after).drop_last() =~= one + after.drop_last());
        assert((other + after).drop_last() =~= other + after.drop_last());
    }
}

/// The bytes of a text's pieces.
spec fn encoded(list: Seq<Seq<char>>) -> Seq<Seq<u8>> {
    list.map_values(|piece: Seq<char>| encode_utf8(piece))
}

proof fn lemma_slash_byte()
    ensures
        encode_utf8("/"@) == seq![0x2fu8],
        encode_utf8("."@) == seq![0x2eu8],
        encode_utf8(Seq::<char>::empty()) == Seq::<u8>::empty(),
{
    reveal_strlit("/");
    reveal_strlit(".");
    broadcast use vstd::utf8::is_ascii_chars_encode_utf8;

    assert(vstd::utf8::is_ascii_chars("/"@));
    assert(vstd::utf8::is_ascii_chars("."@));
    assert(encode_utf8("/"@) =~= seq![0x2fu8]);
    assert(encode_utf8("."@) =~= seq![0x2eu8]);
}

/// How a directory is spelled does not matter for which files are in it: neither a doubled
/// separator nor a `.` behind one counts.
pub proof fn spellings_name_one_directory(before: Seq<char>, after: Seq<char>)
    ensures
        part_steps(Part::Text(before + "//"@ + after)) == part_steps(
            Part::Text(before + "/"@ + after),
        ),
        part_steps(Part::Text(before + "/./"@ + after)) == part_steps(
            Part::Text(before + "/"@ + after),
        ),
{
    reveal_strlit("/");
    reveal_strlit("//");
    reveal_strlit("/./");
    reveal_strlit(".");
    lemma_slash_byte();
    let plain = before + "/"@ + after;
    let doubled = before + "//"@ + after;
    let dotted = before + "/./"@ + after;
    let front = encoded(pieces(before, '/'));
    let back = encoded(pieces(after, '/'));
    lemma_pieces_join(before, after);
    lemma_pieces_join(Seq::empty(), before);
    assert(plain =~= before.push('/') + after);
    assert(encoded(pieces(plain, '/')) =~= front + back);
    assert(pieces(Seq::<char>::empty(), '/') =~= seq![Seq::<char>::empty()]);
    lemma_pieces_join(before, Seq::<char>::empty());
    assert(before.push('/') + Seq::<char>::empty() =~= before.push('/'));
    lemma_pieces_join(before.push('/'), after);
    assert(doubled =~= before.push('/').push('/') + after);
    let empty = seq![Seq::<u8>::empty()];
    assert(encoded(pieces(doubled, '/')) =~= front + empty + back);
    assert((front + empty).drop_last() =~= front);
    assert(way(front + empty) == way(front));
    lemma_way_join(front + empty, front, back);
    lemma_pieces_join(before, "."@);
    reveal_with_fuel(pieces, 2);
    assert("."@.drop_last() =~= Seq::<char>::empty());
    assert(pieces("."@, '/') =~= seq!["."@]) by {
        assert(pieces("."@, '/')[0] =~= "."@);
    }
    lemma_pieces_join(before.push('/') + "."@, after);
    assert(dotted =~= (before.push('/') + "."@).push('/') + after);
    let dot = seq![seq![0x2eu8]];
    assert(encoded(pieces(dotted, '/')) =~= front + dot + back);
    assert((front + dot).drop_last() =~= front);
    assert(way(front + dot) == way(front));
    lemma_way_join(front + dot, front, back);
    lemma_first(before, after);
}

/// What a text begins with does not depend on how often a separator is written.
proof fn lemma_first(before: Seq<char>, after: Seq<char>)
    ensures
        begins_with(before + "/"@ + after, "/"@) == (before.len() == 0 || before[0] == '/'),
        begins_with(before + "//"@ + after, "/"@) == (before.len() == 0 || before[0] == '/'),
        begins_with(before + "/./"@ + after, "/"@) == (before.len() == 0 || before[0] == '/'),
{
    reveal_strlit("/");
    reveal_strlit("//");
    reveal_strlit("/./");
    lemma_begins(before + "/"@ + after);
    lemma_begins(before + "//"@ + after);
    lemma_begins(before + "/./"@ + after);
}

proof fn lemma_begins(text: Seq<char>)
    ensures
        begins_with(text, "/"@) == (text.len() > 0 && text[0] == '/'),
{
    reveal_strlit("/");
    if text.len() > 0 && text[0] == '/' {
        assert(text.subrange(0, 1) =~= "/"@);
    }
    if begins_with(text, "/"@) {
        assert(text[0] == "/"@[0]);
    }
}

/// Splitting a name loses nothing: the whole name reads back.
pub proof fn names_read_back(name: Seq<char>)
    ensures
        name_of(name).text() == Some(name),
        name_of(name).whole() == Part::Text(name),
{
    reveal_strlit(".");
    if extension_dot(name) is Some {
        let dot = extension_dot(name)->0;
        assert(is_extension_dot(name, dot));
        assert(name.take(dot) + "."@ + name.skip(dot + 1) =~= name);
    }
}

/// Text is encoded character by character.
proof fn lemma_encoded_apart(before: Seq<char>, after: Seq<char>)
    ensures
        encode_utf8(before + after) == encode_utf8(before) + encode_utf8(after),
    decreases before.len(),
{
    if before.len() == 0 {
        assert(before + after =~= after);
        assert(encode_utf8(before) + encode_utf8(after) =~= encode_utf8(after));
    } else {
        lemma_encoded_apart(before.drop_first(), after);
        assert((before + after).drop_first() =~= before.drop_first() + after);
        assert(encode_utf8(before + after) =~= encode_utf8(before) + encode_utf8(after));
    }
}

/// The bytes of a name are those of its text.
proof fn lemma_name_bytes(name: Seq<char>)
    ensures
        name_bytes(name_of(name)) == encode_utf8(name),
{
    if extension_dot(name) is Some {
        let dot = extension_dot(name)->0;
        assert(is_extension_dot(name, dot));
        reveal_strlit(".");
        lemma_slash_byte();
        assert(name =~= name.take(dot) + ("."@ + name.skip(dot + 1)));
        lemma_encoded_apart(name.take(dot), "."@ + name.skip(dot + 1));
        lemma_encoded_apart("."@, name.skip(dot + 1));
        assert(name_bytes(name_of(name)) =~= encode_utf8(name));
    }
}

/// Whether a text holds no separator, so that it is one name.
pub open spec fn is_one_name(text: Seq<char>) -> bool {
    forall|i: int| 0 <= i < text.len() ==> (#[trigger] text[i]) != '/'
}

proof fn lemma_name_start(text: Seq<char>)
    requires
        is_one_name(text),
    ensures
        name_start(text) == 0,
    decreases text.len(),
{
    if text.len() > 0 {
        assert(text[text.len() - 1] != '/');
        assert forall|i: int| 0 <= i < text.drop_last().len() implies (
        #[trigger] text.drop_last()[i]) != '/' by {
            assert(text[i] != '/');
        }
        lemma_name_start(text.drop_last());
    }
}

proof fn lemma_trimmed<A>(text: Seq<A>, slash: A, dot: A)
    ensures
        trimmed_way(trimmed_way(text, slash, dot), slash, dot) == trimmed_way(text, slash, dot),
        text.len() > 0 ==> trimmed_way(text.push(slash), slash, dot) == trimmed_way(
            text,
            slash,
            dot,
        ),
    decreases text.len(),
{
    assert(text.push(slash).drop_last() =~= text);
    if text.len() > 1 {
        lemma_trimmed(text.drop_last(), slash, dot);
    }
}

/// Trimming a directory once is enough, and a separator behind it is trimmed away.
pub proof fn directories_trim_once(directory: Part)
    ensures
        directory.trimmed().trimmed() == directory.trimmed(),
        directory.separated().trimmed() == directory.trimmed(),
{
    match directory {
        Part::Text(text) => lemma_trimmed(text, '/', '.'),
        Part::Raw(bytes) => lemma_trimmed(bytes, 0x2fu8, 0x2eu8),
    }
}

/// A file of a name is in the directory itself, under that name, and a text that is one name
/// leads to it.
pub proof fn names_stay_in_the_directory(directory: Part, name: Seq<char>)
    ensures
        in_directory(directory, name).directory == Some(directory.trimmed()),
        in_directory(directory, name).lies_in(directory),
        in_directory(directory, name).name_text() == Some(name),
        is_one_name(name) ==> reached(directory, name) == in_directory(directory, name),
{
    if is_one_name(name) {
        lemma_name_start(name);
    }
    directories_trim_once(directory);
    names_read_back(name);
}

/// A file beside another is in the same directory.
pub proof fn siblings_share_a_directory(path: PathModel, directory: Part, name: Seq<char>)
    requires
        path.lies_in(directory),
    ensures
        path.sibling(name).lies_in(directory),
        path.sibling(name).name_text() == Some(name),
{
    names_stay_in_the_directory(path.directory->0, name);
}

/// What a text leads to is spelled as the directory and the text behind it, or as the text
/// alone where that begins at the root.
pub proof fn ways_keep_their_spelling(directory: Part, text: Seq<char>)
    ensures
        reached(directory, text).whole() == directory.joined(text),
{
    let start = name_start(text);
    lemma_name_start_within(text);
    let way = text.take(start);
    let name = text.skip(start);
    let lead = if start == 0 {
        directory.separated()
    } else {
        directory.joined(way)
    };
    lemma_lead(lead);
    names_read_back(name);
    lemma_slash_byte();
    lemma_encoded_apart(way, name);
    assert(text =~= way + name);
    if start == 0 {
        assert(name =~= text);
        if text.len() > 0 {
            lemma_no_slash_before(text, 0);
        }
    } else {
        assert(way[0] == text[0]);
    }
    match (directory.joined(text), reached(directory, text).whole()) {
        (Part::Text(one), Part::Text(other)) => assert(one =~= other),
        (Part::Raw(one), Part::Raw(other)) => assert(one =~= other),
        _ => assert(false),
    }
}

/// Which file a text leads to is read off how the way there is spelled.
pub proof fn places_are_read_off_the_spelling(directory: Seq<char>, text: Seq<char>)
    ensures
        reached(Part::Text(directory), text).place() == part_steps(
            Part::Text(directory).joined(text),
        ),
{
    let path = reached(Part::Text(directory), text);
    let name = last_name(text);
    lemma_name_start_within(text);
    assert forall|i: int| 0 <= i < name.len() implies (#[trigger] name[i]) != '/' by {
        lemma_no_slash_before(text, name_start(text) + i);
    }
    if name_start(text) == 0 {
        assert(name =~= text);
    }
    let lead = if name_start(text) == 0 {
        Part::Text(directory).separated()
    } else {
        Part::Text(directory).joined(text.take(name_start(text)))
    };
    lemma_lead(lead);
    assert(path == behind(lead, name));
    assert(path.lead() == lead);
    ways_keep_their_spelling(Part::Text(directory), text);
    names_read_back(name);
    lemma_name_bytes(name);
    let front = lead->Text_0;
    assert(path.whole() == Part::Text(front + name)) by {
        assert(front + name + Seq::<char>::empty() =~= front + name);
    }
    lemma_pieces_behind(front, name);
    lemma_pieces_join(Seq::empty(), front);
    let list = pieces(front, '/');
    lemma_encoded_apart(list.last(), name);
    assert(part_pieces(Part::Text(front + name)) =~= part_pieces(lead).drop_last().push(
        part_pieces(lead).last() + encode_utf8(name),
    ));
    reveal_strlit("/");
    assert(rooted(Part::Text(front + name)) == rooted(lead)) by {
        if front.len() == 0 {
            if name.len() > 0 {
                assert((front + name)[0] == name[0]);
                lemma_begins(front + name);
            }
        } else {
            assert((front + name)[0] == front[0]);
            lemma_begins(front + name);
            lemma_begins(front);
        }
    }
}

/// A text without separators lengthens the last piece.
proof fn lemma_pieces_behind(front: Seq<char>, name: Seq<char>)
    requires
        is_one_name(name),
    ensures
        pieces(front + name, '/') == pieces(front, '/').drop_last().push(
            pieces(front, '/').last() + name,
        ),
    decreases name.len(),
{
    lemma_pieces_join(Seq::empty(), front);
    let list = pieces(front, '/');
    if name.len() == 0 {
        assert(front + name =~= front);
        assert(list.last() + name =~= list.last());
        assert(list.drop_last().push(list.last() + name) =~= list);
    } else {
        let shorter = name.drop_last();
        assert forall|i: int| 0 <= i < shorter.len() implies (#[trigger] shorter[i]) != '/' by {
            assert(shorter[i] == name[i]);
        }
        lemma_pieces_behind(front, shorter);
        assert((front + name).drop_last() =~= front + shorter);
        assert((front + name).last() == name.last());
        assert(name[name.len() - 1] != '/');
        let before = list.drop_last().push(list.last() + shorter);
        assert((list.last() + shorter).push(name.last()) =~= list.last() + name);
        assert(before.drop_last().push(before.last().push(name.last())) =~= list.drop_last().push(
            list.last() + name,
        ));
    }
}

proof fn lemma_name_start_within(text: Seq<char>)
    ensures
        0 <= name_start(text) <= text.len(),
    decreases text.len(),
{
    if text.len() > 0 && text.last() != '/' {
        lemma_name_start_within(text.drop_last());
    }
}

/// Behind the start of the name there is no separator.
proof fn lemma_no_slash_before(text: Seq<char>, position: int)
    requires
        name_start(text) <= position < text.len(),
    ensures
        text[position] != '/',
    decreases text.len(),
{
    lemma_name_start_within(text);
    if text.last() != '/' && position < text.len() - 1 {
        lemma_no_slash_before(text.drop_last(), position);
        assert(text.drop_last()[position] == text[position]);
    }
}

/// Files of different names in one directory are different files. Names of two dots or
/// less may name no file.
pub proof fn names_tell_files_apart(directory: Part, name: Seq<char>, other: Seq<char>)
    requires
        name.len() > 2,
        other.len() > 2,
        name != other,
    ensures
        in_directory(directory, name).place() != in_directory(directory, other).place(),
{
    lemma_last_step(directory, name);
    lemma_last_step(directory, other);
    vstd::utf8::encode_utf8_decode_utf8(name);
    vstd::utf8::encode_utf8_decode_utf8(other);
}

/// Files whose ways end in different names are different files, wherever they lie.
pub proof fn last_names_tell_files_apart(
    directory: Part,
    text: Seq<char>,
    other_directory: Part,
    other: Seq<char>,
)
    requires
        last_name(text).len() > 2,
        last_name(other).len() > 2,
        last_name(text) != last_name(other),
    ensures
        reached(directory, text).place() != reached(other_directory, other).place(),
{
    lemma_reached_step(directory, text);
    lemma_reached_step(other_directory, other);
    vstd::utf8::encode_utf8_decode_utf8(last_name(text));
    vstd::utf8::encode_utf8_decode_utf8(last_name(other));
}

/// The last step that a text leads to goes to the name that it ends in.
proof fn lemma_reached_step(directory: Part, text: Seq<char>)
    requires
        last_name(text).len() > 2,
    ensures
        reached(directory, text).place().len() > 0,
        reached(directory, text).place().last() == (StepOfPath {
            kind: 3,
            name: encode_utf8(last_name(text)),
        }),
{
    let start = name_start(text);
    lemma_name_start_within(text);
    if start == 0 {
        assert(last_name(text) =~= text);
        lemma_last_step(directory, text);
    } else {
        let way = text.take(start);
        lemma_slash_at_start(text);
        assert(way.last() == '/');
        let lead = directory.joined(way);
        lemma_slash_byte();
        if !(way.len() > 0 && way[0] == '/') {
            if let Part::Raw(bytes) = directory.separated() {
                reveal_strlit("/");
                assert(way =~= way.drop_last() + "/"@);
                lemma_encoded_apart(way.drop_last(), "/"@);
                assert((bytes + encode_utf8(way)).last() == 0x2f);
            }
        }
        assert(lead.separated() == lead);
        lemma_separated(lead);
        lemma_step_behind(lead, last_name(text));
    }
}

/// A text without separators belongs to the name that it ends.
pub proof fn names_end_as_their_text(before: Seq<char>, ending: Seq<char>)
    requires
        is_one_name(ending),
    ensures
        last_name(before + ending) == last_name(before) + ending,
    decreases ending.len(),
{
    let text = before + ending;
    lemma_name_start_within(before);
    if ending.len() == 0 {
        assert(text =~= before);
        assert(last_name(before) + ending =~= last_name(before));
    } else {
        let shorter = ending.drop_last();
        assert forall|i: int| 0 <= i < shorter.len() implies (#[trigger] shorter[i]) != '/' by {
            assert(shorter[i] == ending[i]);
        }
        assert(text.drop_last() =~= before + shorter);
        names_end_as_their_text(before, shorter);
        lemma_name_start_within(text.drop_last());
        assert(text.last() == ending.last());
        assert(last_name(text) =~= last_name(before + shorter).push(ending.last()));
        assert(last_name(text) =~= last_name(before) + ending);
    }
}

/// Before the start of the name there is a separator, or nothing.
proof fn lemma_slash_at_start(text: Seq<char>)
    ensures
        name_start(text) > 0 ==> text[name_start(text) - 1] == '/',
    decreases text.len(),
{
    lemma_name_start_within(text);
    if text.len() > 0 && text.last() != '/' {
        lemma_slash_at_start(text.drop_last());
        lemma_name_start_within(text.drop_last());
    }
}

/// The last step to a file goes to its name.
proof fn lemma_last_step(directory: Part, name: Seq<char>)
    requires
        name.len() > 2,
    ensures
        in_directory(directory, name).place().len() > 0,
        in_directory(directory, name).place().last() == (StepOfPath {
            kind: 3,
            name: encode_utf8(name),
        }),
{
    lemma_separated(directory);
    lemma_step_behind(directory.separated(), name);
}

proof fn lemma_step_behind(lead: Part, name: Seq<char>)
    requires
        name.len() > 2,
        part_pieces(lead).len() > 0,
        part_pieces(lead).last() == Seq::<u8>::empty(),
    ensures
        behind(lead, name).place().len() > 0,
        behind(lead, name).place().last() == (StepOfPath { kind: 3, name: encode_utf8(name) }),
{
    let path = behind(lead, name);
    lemma_name_bytes(name);
    lemma_lead(lead);
    assert(path.lead() == lead);
    let list = part_pieces(path.lead());
    let all = list.drop_last().push(list.last() + name_bytes(name_of(name)));
    assert(all.last() =~= encode_utf8(name));
    lemma_plain_bytes(name);
    assert(way(all).last() == (StepOfPath { kind: 3, name: encode_utf8(name) }));
}

/// What is parted goes together again.
proof fn lemma_lead(lead: Part)
    ensures
        lead.trimmed().and_text(lead.rest()) == lead,
{
    match lead {
        Part::Text(text) => {
            lemma_trimmed_prefix(text, '/', '.');
            assert(trimmed_way(text, '/', '.') + lead.rest() =~= text);
        },
        Part::Raw(bytes) => {
            lemma_trimmed_prefix(bytes, 0x2fu8, 0x2eu8);
            let kept = trimmed_way(bytes, 0x2fu8, 0x2eu8);
            let back = bytes.skip(kept.len() as int);
            assert forall|i: int| 0 <= i < back.len() implies (#[trigger] back[i]) == 0x2f || back[i]
                == 0x2e by {
                assert(back[i] == bytes[i + kept.len()]);
            }
            lemma_plain_encoded(back);
            assert(kept + encode_utf8(lead.rest()) =~= bytes);
        },
    }
}

proof fn lemma_trimmed_prefix<A>(text: Seq<A>, slash: A, dot: A)
    ensures
        trimmed_way(text, slash, dot).len() <= text.len(),
        trimmed_way(text, slash, dot) == text.take(trimmed_way(text, slash, dot).len() as int),
        forall|i: int|
            trimmed_way(text, slash, dot).len() <= i < text.len() ==> (#[trigger] text[i]) == slash
                || text[i] == dot,
    decreases text.len(),
{
    let kept = trimmed_way(text, slash, dot);
    if text.len() > 1 && (text.last() == slash || (text.last() == dot && text[text.len() - 2]
        == slash)) {
        let shorter = text.drop_last();
        lemma_trimmed_prefix(shorter, slash, dot);
        assert(kept =~= text.take(kept.len() as int));
        assert forall|i: int| kept.len() <= i < text.len() implies (#[trigger] text[i]) == slash
            || text[i] == dot by {
            if i < shorter.len() {
                assert(shorter[i] == text[i]);
            }
        }
    } else {
        assert(kept =~= text.take(kept.len() as int));
    }
}

/// Separators and dots are encoded as themselves.
proof fn lemma_plain_encoded(bytes: Seq<u8>)
    requires
        forall|i: int|
            0 <= i < bytes.len() ==> (#[trigger] bytes[i]) == 0x2f || bytes[i] == 0x2e,
    ensures
        encode_utf8(plain(bytes)) == bytes,
{
    let text = plain(bytes);
    broadcast use vstd::utf8::is_ascii_chars_encode_utf8;

    assert(vstd::utf8::is_ascii_chars(text));
    assert(encode_utf8(text) =~= bytes) by {
        assert forall|i: int| 0 <= i < bytes.len() implies #[trigger] encode_utf8(text)[i]
            == bytes[i] by {
            assert(text[i] == (if bytes[i] == 0x2f {
                '/'
            } else {
                '.'
            }));
        }
    }
}

/// Behind a separator a new piece begins.
proof fn lemma_separated(directory: Part)
    ensures
        part_pieces(directory.separated()).len() > 0,
        part_pieces(directory.separated()).last() == Seq::<u8>::empty(),
{
    lemma_slash_byte();
    match directory.separated() {
        Part::Text(text) => {
            lemma_pieces_join(Seq::empty(), text);
            assert(pieces(text, '/').last() == Seq::<char>::empty());
            assert(part_pieces(directory.separated()).last() == encode_utf8(
                pieces(text, '/').last(),
            ));
        },
        Part::Raw(bytes) => lemma_some_bytes(bytes),
    }
}

/// A name of more than two characters is neither `.` nor `..`.
proof fn lemma_plain_bytes(name: Seq<char>)
    requires
        name.len() > 2,
    ensures
        encode_utf8(name).len() > 0,
        encode_utf8(name) != seq![0x2eu8],
        encode_utf8(name) != seq![0x2eu8, 0x2eu8],
{
    reveal_strlit("..");
    lemma_slash_byte();
    lemma_plain_encoded(seq![0x2eu8, 0x2eu8]);
    lemma_plain_encoded(seq![0x2eu8]);
    vstd::utf8::encode_utf8_decode_utf8(name);
    vstd::utf8::encode_utf8_decode_utf8(plain(seq![0x2eu8, 0x2eu8]));
    vstd::utf8::encode_utf8_decode_utf8(plain(seq![0x2eu8]));
    vstd::utf8::encode_utf8_decode_utf8(Seq::empty());
    if encode_utf8(name).len() == 0 {
        assert(encode_utf8(name) =~= Seq::<u8>::empty());
    }
}

proof fn lemma_inserted(list: Seq<PathModel>, path: PathModel, position: int)
    requires
        0 <= position <= list.len(),
        places(list).no_duplicates(),
        !places(list).contains(path.place()),
    ensures
        places(inserted_from(list, path, position)).no_duplicates(),
        forall|other: PathModel| #[trigger]
            inserted_from(list, path, position).contains(other) <==> list.contains(other) || other
                == path,
    decreases list.len() - position,
{
    let after = inserted_from(list, path, position);
    if position < list.len() && !path_before(path, list[position]) {
        lemma_inserted(list, path, position + 1);
    } else {
        assert(after =~= list.insert(position, path));
        assert(after[position] == path);
        assert forall|other: PathModel| list.contains(other) implies after.contains(other) by {
            let i = choose|i: int| 0 <= i < list.len() && list[i] == other;
            if i < position {
                assert(after[i] == other);
            } else {
                assert(after[i + 1] == other);
            }
        }
        assert forall|other: PathModel| after.contains(other) implies list.contains(other) || other
            == path by {
            let i = choose|i: int| 0 <= i < after.len() && after[i] == other;
            if i < position {
                assert(list[i] == other);
            } else if i > position {
                assert(list[i - 1] == other);
            }
        }
        let before = places(list);
        let all = places(after);
        assert forall|i: int, j: int|
            0 <= i < all.len() && 0 <= j < all.len() && i != j implies all[i] != all[j] by {
            let a = if i < position {
                i
            } else {
                i - 1
            };
            let b = if j < position {
                j
            } else {
                j - 1
            };
            if i == position {
                assert(before.contains(before[b]));
            } else if j == position {
                assert(before.contains(before[a]));
            } else {
                assert(before[a] != before[b]);
            }
        }
    }
}

/// A list of paths means the files of its paths.
pub proof fn lemma_places(list: Seq<PathModel>, place: Place)
    ensures
        places(list).contains(place) <==> exists|i: int|
            0 <= i < list.len() && (#[trigger] list[i]).place() == place,
{
    if places(list).contains(place) {
        let i = choose|i: int| 0 <= i < places(list).len() && places(list)[i] == place;
        assert(list[i].place() == place);
    }
    if exists|i: int| 0 <= i < list.len() && (#[trigger] list[i]).place() == place {
        let i = choose|i: int| 0 <= i < list.len() && (#[trigger] list[i]).place() == place;
        assert(places(list)[i] == place);
    }
}

/// Putting a path into a list without repeats keeps it without repeats.
pub proof fn lemma_inserted_once(list: Seq<PathModel>, path: PathModel)
    requires
        places(list).no_duplicates(),
    ensures
        places(inserted(list, path)).no_duplicates(),
        forall|place: Place| #[trigger]
            places(inserted(list, path)).contains(place) <==> places(list).contains(place) || place
                == path.place(),
{
    let after = inserted(list, path);
    if !places(list).contains(path.place()) {
        lemma_inserted(list, path, 0);
    }
    assert forall|place: Place| #[trigger] places(after).contains(place) <==> places(list).contains(
        place,
    ) || place == path.place() by {
        lemma_places(list, place);
        lemma_places(after, place);
        if !places(list).contains(path.place()) {
            if places(list).contains(place) {
                let i = choose|i: int| 0 <= i < list.len() && (#[trigger] list[i]).place() == place;
                assert(list.contains(list[i]));
                assert(after.contains(list[i]));
                let k = choose|k: int| 0 <= k < after.len() && after[k] == list[i];
                assert(after[k].place() == place);
            }
            if place == path.place() {
                assert(after.contains(path));
                let k = choose|k: int| 0 <= k < after.len() && after[k] == path;
                assert(after[k].place() == place);
            }
            if places(after).contains(place) {
                let k = choose|k: int|
                    0 <= k < after.len() && (#[trigger] after[k]).place() == place;
                assert(after.contains(after[k]));
                if list.contains(after[k]) {
                    let i = choose|i: int| 0 <= i < list.len() && list[i] == after[k];
                    assert(list[i].place() == place);
                }
            }
        }
    }
}

/// Ordering paths loses no file, adds none and keeps each once.
pub proof fn ordered_paths_are_the_same(list: Seq<PathModel>)
    ensures
        places(ordered(list)).no_duplicates(),
        forall|place: Place| #[trigger]
            places(ordered(list)).contains(place) <==> places(list).contains(place),
    decreases list.len(),
{
    if list.len() > 0 {
        let shorter = list.drop_last();
        ordered_paths_are_the_same(shorter);
        lemma_inserted_once(ordered(shorter), list.last());
        assert forall|place: Place| #[trigger] places(ordered(list)).contains(place) <==> places(
            list,
        ).contains(place) by {
            assert(places(list) =~= places(shorter).push(list.last().place()));
            if places(list).contains(place) {
                let i = choose|i: int| 0 <= i < places(list).len() && places(list)[i] == place;
                if i < shorter.len() {
                    assert(places(shorter)[i] == place);
                }
            }
            if places(shorter).contains(place) {
                let i = choose|i: int| 0 <= i < places(shorter).len() && places(shorter)[i] == place;
                assert(places(list)[i] == place);
            }
            assert(places(list)[list.len() - 1] == list.last().place());
        }
    } else {
        assert(places(ordered(list)) =~= Seq::empty());
        assert(places(list) =~= Seq::empty());
    }
}

proof fn lemma_bytes_in_order(one: Seq<u8>, two: Seq<u8>, three: Seq<u8>)
    ensures
        !bytes_before(one, one),
        bytes_before(one, two) && bytes_before(two, three) ==> bytes_before(one, three),
    decreases one.len(),
{
    if one.len() > 0 {
        lemma_bytes_in_order(one.skip(1), two.skip(1), three.skip(1));
    }
}

proof fn lemma_step_in_order(one: StepOfPath, two: StepOfPath, three: StepOfPath)
    ensures
        !step_before(one, one),
        step_before(one, two) && step_before(two, three) ==> step_before(one, three),
{
    lemma_bytes_in_order(one.name, two.name, three.name);
}

proof fn lemma_steps_in_order(
    one: Seq<StepOfPath>,
    two: Seq<StepOfPath>,
    three: Seq<StepOfPath>,
)
    ensures
        !steps_before(one, one),
        steps_before(one, two) && steps_before(two, three) ==> steps_before(one, three),
    decreases one.len(),
{
    if one.len() > 0 {
        lemma_steps_in_order(one.skip(1), two.skip(1), three.skip(1));
        if two.len() > 0 && three.len() > 0 {
            lemma_step_in_order(one[0], two[0], three[0]);
            lemma_step_in_order(one[0], two[0], one[0]);
        }
    }
}

/// Paths have an order: none stands before itself, and one that stands before a second
/// stands before everything that the second stands before.
pub proof fn paths_have_an_order(one: PathModel, two: PathModel, three: PathModel)
    ensures
        !path_before(one, one),
        path_before(one, two) ==> !path_before(two, one),
        path_before(one, two) && path_before(two, three) ==> path_before(one, three),
{
    lemma_steps_in_order(one.place(), two.place(), three.place());
    lemma_steps_in_order(one.place(), two.place(), one.place());
}

/// Whether no path of a list stands before an earlier one.
pub open spec fn ascends(list: Seq<PathModel>) -> bool {
    forall|i: int, j: int|
        0 <= i < j < list.len() ==> !path_before(#[trigger] list[j], #[trigger] list[i])
}

proof fn lemma_inserted_ascends(list: Seq<PathModel>, path: PathModel, position: int)
    requires
        0 <= position <= list.len(),
        ascends(list),
        forall|i: int| 0 <= i < position ==> !path_before(path, #[trigger] list[i]),
    ensures
        ascends(inserted_from(list, path, position)),
    decreases list.len() - position,
{
    if position < list.len() && !path_before(path, list[position]) {
        lemma_inserted_ascends(list, path, position + 1);
    } else {
        let after = inserted_from(list, path, position);
        assert(after =~= list.insert(position, path));
        assert forall|i: int, j: int| 0 <= i < j < after.len() implies !path_before(
            #[trigger] after[j],
            #[trigger] after[i],
        ) by {
            if j < position {
                assert(!path_before(list[j], list[i]));
            } else if j == position {
                assert(!path_before(path, list[i]));
            } else if i < position {
                assert(!path_before(list[j - 1], list[i]));
            } else if i > position {
                assert(!path_before(list[j - 1], list[i - 1]));
            } else {
                paths_have_an_order(list[j - 1], path, list[position]);
                if j - 1 > position {
                    assert(!path_before(list[j - 1], list[position]));
                }
            }
        }
    }
}

/// Ordered paths ascend.
pub proof fn ordered_paths_ascend(list: Seq<PathModel>)
    ensures
        ascends(ordered(list)),
    decreases list.len(),
{
    if list.len() > 0 {
        ordered_paths_ascend(list.drop_last());
        if !places(ordered(list.drop_last())).contains(list.last().place()) {
            lemma_inserted_ascends(ordered(list.drop_last()), list.last(), 0);
        }
    }
}

/// A name ends in its extension behind the last dot; a name without a dot, or with none but
/// the one it begins with, has none.
pub proof fn names_part_at_their_last_dot(stem: Seq<char>, extension: Seq<char>, name: Seq<char>)
    ensures
        stem.len() > 0 && !extension.contains('.') ==> name_of(stem + "."@ + extension) == (
        NameModel { stem: Part::Text(stem), extension: Some(Part::Text(extension)) }),
        !name.contains('.') ==> name_of(name) == (NameModel {
            stem: Part::Text(name),
            extension: None,
        }),
        !name.contains('.') ==> name_of("."@ + name) == (NameModel {
            stem: Part::Text("."@ + name),
            extension: None,
        }),
{
    reveal_strlit(".");
    if stem.len() > 0 && !extension.contains('.') {
        let whole = stem + "."@ + extension;
        let at = stem.len() as int;
        assert forall|later: int| at < later < whole.len() implies whole[later] != '.' by {
            assert(whole[later] == extension[later - at - 1]);
            assert(extension.contains(extension[later - at - 1]));
        }
        assert(whole[at] == '.');
        assert(is_extension_dot(whole, at));
        let dot = extension_dot(whole)->0;
        assert(is_extension_dot(whole, dot));
        assert(dot == at);
        assert(whole.take(at) =~= stem);
        assert(whole.skip(at + 1) =~= extension);
    }
    if !name.contains('.') {
        assert forall|dot: int| !is_extension_dot(name, dot) by {
            if 0 < dot < name.len() {
                assert(name.contains(name[dot]));
            }
        }
        let hidden = "."@ + name;
        assert forall|dot: int| !is_extension_dot(hidden, dot) by {
            if 0 < dot < hidden.len() {
                assert(hidden[dot] == name[dot - 1]);
                assert(name.contains(name[dot - 1]));
            }
        }
    }
}

/// A file with another extension lies where it lay, under the same stem.
pub proof fn extensions_are_changed_alone(
    path: PathModel,
    stem: Seq<char>,
    extension: Seq<char>,
    other: Seq<char>,
)
    requires
        path.stem() == Some(stem),
    ensures
        path.with_extension(extension).directory == path.directory,
        path.with_extension(extension).stem() == Some(stem),
        path.with_extension(extension).extension() == Some(extension),
        path.with_extension(extension).name_text() == Some(stem + "."@ + extension),
        path.with_extension(other).with_extension(extension) == path.with_extension(extension),
{
}

/// The name, the stem and the extension of a file in a directory are those of its name.
pub proof fn files_are_called_by_their_name(
    directory: Part,
    stem: Seq<char>,
    extension: Seq<char>,
)
    requires
        stem.len() > 0,
        !extension.contains('.'),
    ensures
        in_directory(directory, stem + "."@ + extension).stem() == Some(stem),
        in_directory(directory, stem + "."@ + extension).extension() == Some(extension),
        in_directory(directory, stem + "."@ + extension).name_text() == Some(
            stem + "."@ + extension,
        ),
{
    names_part_at_their_last_dot(stem, extension, stem);
    names_stay_in_the_directory(directory, stem + "."@ + extension);
}

/// Paths are ordered by the first step in which they differ, one that ends before the other
/// first; of two steps the root comes first, then this directory, then the one above it,
/// then names by their bytes.
pub proof fn paths_are_ordered_step_by_step(
    same: Seq<StepOfPath>,
    left: StepOfPath,
    right: StepOfPath,
    rest: Seq<StepOfPath>,
    other: Seq<StepOfPath>,
)
    ensures
        left != right ==> steps_before(same.push(left) + rest, same.push(right) + other)
            == step_before(left, right),
        steps_before(same, same.push(left) + rest),
        !steps_before(same.push(left) + rest, same),
        left.kind < right.kind ==> step_before(left, right),
        left.kind == right.kind ==> step_before(left, right) == bytes_before(left.name, right.name),
        step_to(seq![0x2eu8]).kind < step_to(seq![0x2eu8, 0x2eu8]).kind,
        step_to(seq![0x2eu8, 0x2eu8]).kind < step_to(seq![0x61u8]).kind,
    decreases same.len(),
{
    assert(seq![0x61u8][0] != seq![0x2eu8][0]);
    assert(seq![0x2eu8].len() != seq![0x2eu8, 0x2eu8].len());
    assert(seq![0x61u8].len() != seq![0x2eu8, 0x2eu8].len());
    let one = same.push(left) + rest;
    let two = same.push(right) + other;
    if same.len() == 0 {
        assert(one[0] == left && two[0] == right);
    } else {
        assert(one[0] == same[0] && two[0] == same[0]);
        assert(one.skip(1) =~= same.skip(1).push(left) + rest);
        assert(two.skip(1) =~= same.skip(1).push(right) + other);
        paths_are_ordered_step_by_step(same.skip(1), left, right, rest, other);
    }
}

/// Bytes are ordered by the first in which they differ.
pub proof fn bytes_are_ordered_one_by_one(
    same: Seq<u8>,
    left: u8,
    right: u8,
    rest: Seq<u8>,
    other: Seq<u8>,
)
    ensures
        left != right ==> bytes_before(same.push(left) + rest, same.push(right) + other) == (left
            < right),
        bytes_before(same, same.push(left) + rest),
        !bytes_before(same.push(left) + rest, same),
    decreases same.len(),
{
    let one = same.push(left) + rest;
    let two = same.push(right) + other;
    if same.len() == 0 {
        assert(one[0] == left && two[0] == right);
    } else {
        assert(one[0] == same[0] && two[0] == same[0]);
        assert(one.skip(1) =~= same.skip(1).push(left) + rest);
        assert(two.skip(1) =~= same.skip(1).push(right) + other);
        bytes_are_ordered_one_by_one(same.skip(1), left, right, rest, other);
    }
}

} // verus!
