//! Walking the directory of audio files: which files carry tags, and of which kind. The
//! walk is a machine that asks for one directory listing or one file at a time;
//! whoever runs it reads the disk.

use crate::media::{flac_tag, id3_tag, open_flac, open_id3};
use crate::text::{ends_with, is_tail};
use vstd::prelude::*;

verus! {

/// The kind of tag that a file carries.
#[derive(Clone, Copy, Debug, PartialEq, Eq)]
pub enum TagType {
    Id3,
    Flac,
}

/// Whether the bytes of a file hold a FLAC tag that can be read.
pub fn parse_flac(bytes: &[u8]) -> (r: bool)
    ensures
        r == (flac_tag(bytes@) is Some),
{
    open_flac(bytes).is_some()
}

/// Whether the bytes of a file hold an ID3 tag that can be read.
pub fn parse_id3(bytes: &[u8]) -> (r: bool)
    ensures
        r == (id3_tag(bytes@) is Some),
{
    open_id3(bytes).is_some()
}

/// The kind of tag to read a file by: the extension `.flac` says to try FLAC first and
/// ID3 second, any other path the other way round; a file that neither reader can read
/// has no kind.
pub open spec fn detected(path: Seq<char>, flac: bool, id3: bool) -> Option<TagType> {
    if is_tail(path, ".flac"@) {
        if flac {
            Some(TagType::Flac)
        } else if id3 {
            Some(TagType::Id3)
        } else {
            None
        }
    } else {
        if id3 {
            Some(TagType::Id3)
        } else if flac {
            Some(TagType::Flac)
        } else {
            None
        }
    }
}

/// The kind of tag to read a file by, given which readers can read it.
pub fn choose_tag(path: &str, flac: bool, id3: bool) -> (r: Option<TagType>)
    ensures
        r == detected(path@, flac, id3),
{
    if ends_with(path, ".flac") {
        if flac {
            Some(TagType::Flac)
        } else if id3 {
            Some(TagType::Id3)
        } else {
            None
        }
    } else {
        if id3 {
            Some(TagType::Id3)
        } else if flac {
            Some(TagType::Flac)
        } else {
            None
        }
    }
}

/// The kind of tag to read a file by, from its path and its bytes. The second reader is
/// asked only where the first reads no tag.
pub fn detect(path: &str, bytes: &[u8]) -> (r: Option<TagType>)
    ensures
        r == detected(path@, flac_tag(bytes@) is Some, id3_tag(bytes@) is Some),
{
    if ends_with(path, ".flac") {
        if parse_flac(bytes) {
            Some(TagType::Flac)
        } else if parse_id3(bytes) {
            Some(TagType::Id3)
        } else {
            None
        }
    } else {
        if parse_id3(bytes) {
            Some(TagType::Id3)
        } else if parse_flac(bytes) {
            Some(TagType::Flac)
        } else {
            None
        }
    }
}

/// One entry of a directory listing.
#[derive(Debug, PartialEq, Eq)]
pub struct Entry {
    pub path: String,
    pub is_dir: bool,
}

/// The mathematical value of an [`Entry`].
pub struct EntryData {
    pub path: Seq<char>,
    pub is_dir: bool,
}

impl View for Entry {
    type V = EntryData;

    open spec fn view(&self) -> EntryData {
        EntryData { path: self.path@, is_dir: self.is_dir }
    }
}

impl Clone for Entry {
    fn clone(&self) -> (r: Self)
        ensures
            r@ == self@,
    {
        Entry { path: self.path.clone(), is_dir: self.is_dir }
    }
}

/// The values of a run of entries.
pub open spec fn entries_of(entries: Seq<Entry>) -> Seq<EntryData> {
    Seq::new(entries.len(), |n: int| entries[n]@)
}

/// A file that carries tags: its path and the kind of tag.
#[derive(Debug, PartialEq, Eq)]
pub struct Tagged {
    pub path: String,
    pub kind: TagType,
}

/// The values of a run of tagged files.
pub open spec fn tagged_of(files: Seq<Tagged>) -> Seq<(Seq<char>, TagType)> {
    Seq::new(files.len(), |n: int| (files[n].path@, files[n].kind))
}

/// What the walk asks for next.
#[derive(Debug, PartialEq, Eq)]
pub enum WalkStep {
    /// The entries of a directory, in the order of the listing.
    ReadDir { path: String },
    /// The bytes of a file.
    ReadFile { path: String },
    /// Nothing: the walk is over.
    Done,
}

/// The mathematical value of a [`WalkStep`].
pub enum WalkAsk {
    ReadDir { path: Seq<char> },
    ReadFile { path: Seq<char> },
    Done,
}

impl View for WalkStep {
    type V = WalkAsk;

    open spec fn view(&self) -> WalkAsk {
        match *self {
            WalkStep::ReadDir { path } => WalkAsk::ReadDir { path: path@ },
            WalkStep::ReadFile { path } => WalkAsk::ReadFile { path: path@ },
            WalkStep::Done => WalkAsk::Done,
        }
    }
}

/// How reading ended.
#[derive(Debug, PartialEq, Eq)]
pub enum WalkEvent {
    /// The entries of the directory asked for.
    Listing { entries: Vec<Entry> },
    /// The bytes of the file asked for.
    Contents { bytes: Vec<u8> },
    /// What was asked for could not be read.
    Unreadable,
}

/// What a walk comes to know of the answer to one request.
pub enum WalkAnswer {
    /// The entries of a directory.
    Listing { entries: Seq<EntryData> },
    /// A file, and the kind of tag that it carries, if any.
    Contents { kind: Option<TagType> },
    /// What was asked for could not be read.
    Unreadable,
}

/// What the walk comes to know of an event, given the entry that was asked about.
pub open spec fn answer_of(event: WalkEvent, asked: Option<EntryData>) -> WalkAnswer {
    match event {
        WalkEvent::Listing { entries } => WalkAnswer::Listing { entries: entries_of(entries@) },
        WalkEvent::Contents { bytes } => WalkAnswer::Contents {
            kind: match asked {
                Some(entry) => detected(
                    entry.path,
                    flac_tag(bytes@) is Some,
                    id3_tag(bytes@) is Some,
                ),
                None => None,
            },
        },
        WalkEvent::Unreadable => WalkAnswer::Unreadable,
    }
}

/// The mathematical value of a walk: the entries still to visit, the next to visit
/// last; the tagged files found so far; the entry asked about; and whether the walk
/// has failed.
pub struct WalkState {
    pub pending: Seq<EntryData>,
    pub found: Seq<(Seq<char>, TagType)>,
    pub asked: Option<EntryData>,
    pub failed: bool,
}

/// The walk after it has taken in the answer about the entry asked about. The entries
/// of a directory go on top of those still to visit, the first of them topmost. A file
/// that carries a tag is found. A file that cannot be read is passed over. A directory
/// that cannot be read ends the walk as failed, and so does an answer that does not
/// fit the question.
pub open spec fn taken_in(w: WalkState, answer: WalkAnswer) -> WalkState {
    match w.asked {
        None => WalkState { failed: true, ..w },
        Some(entry) => if entry.is_dir {
            match answer {
                WalkAnswer::Listing { entries } => WalkState {
                    pending: w.pending + entries.reverse(),
                    asked: None,
                    ..w
                },
                _ => WalkState { failed: true, asked: None, ..w },
            }
        } else {
            match answer {
                WalkAnswer::Contents { kind: Some(kind) } => WalkState {
                    found: w.found.push((entry.path, kind)),
                    asked: None,
                    ..w
                },
                WalkAnswer::Listing { entries } => WalkState { failed: true, asked: None, ..w },
                _ => WalkState { asked: None, ..w },
            }
        },
    }
}

/// The walk after it has chosen what to ask next, and the request: the topmost entry
/// still to visit, or nothing where none is left or the walk has failed.
pub open spec fn asking(w: WalkState) -> (WalkState, WalkAsk) {
    if w.failed || w.pending.len() == 0 {
        (WalkState { asked: None, ..w }, WalkAsk::Done)
    } else {
        let entry = w.pending.last();
        (
            WalkState { pending: w.pending.drop_last(), asked: Some(entry), ..w },
            if entry.is_dir {
                WalkAsk::ReadDir { path: entry.path }
            } else {
                WalkAsk::ReadFile { path: entry.path }
            },
        )
    }
}

/// Why a walk found nothing.
#[derive(Clone, Copy, Debug, PartialEq, Eq)]
pub enum WalkError {
    /// A directory could not be read.
    UnreadableDirectory,
}

/// The walk of a directory tree, depth first, one request at a time.
pub struct Walker {
    pending: Vec<Entry>,
    found: Vec<Tagged>,
    asked: Option<Entry>,
    failed: bool,
}

/// The value of an entry that may be missing.
pub open spec fn asked_of(entry: Option<Entry>) -> Option<EntryData> {
    match entry {
        Some(e) => Some(e@),
        None => None,
    }
}

impl View for Walker {
    type V = WalkState;

    closed spec fn view(&self) -> WalkState {
        WalkState {
            pending: entries_of(self.pending@),
            found: tagged_of(self.found@),
            asked: asked_of(self.asked),
            failed: self.failed,
        }
    }
}

impl Walker {
    /// A walk that begins at the directory `root`, and its first request: the entries
    /// of that directory.
    pub fn start(root: &str) -> (r: (Walker, WalkStep))
        ensures
            r.0@ == (WalkState {
                pending: Seq::empty(),
                found: Seq::empty(),
                asked: Some(EntryData { path: root@, is_dir: true }),
                failed: false,
            }),
            r.1@ == (WalkAsk::ReadDir { path: root@ }),
    {
        let walker = Walker {
            pending: Vec::new(),
            found: Vec::new(),
            asked: Some(Entry { path: root.to_owned(), is_dir: true }),
            failed: false,
        };
        proof {
            assert(walker@.pending =~= Seq::empty());
            assert(walker@.found =~= Seq::empty());
        }
        (walker, WalkStep::ReadDir { path: root.to_owned() })
    }

    fn take_in(&mut self, event: WalkEvent)
        ensures
            final(self)@ == taken_in(old(self)@, answer_of(event, old(self)@.asked)),
    {
        let ghost before = self@;
        let asked = self.asked.take();
        match asked {
            None => {
                self.failed = true;
            },
            Some(entry) => {
                if entry.is_dir {
                    match event {
                        WalkEvent::Listing { entries } => {
                            let mut n: usize = entries.len();
                            while n > 0
                                invariant
                                    n <= entries.len(),
                                    self@.found == before.found,
                                    self@.failed == before.failed,
                                    self@.asked is None,
                                    self@.pending == before.pending + entries_of(
                                        entries@,
                                    ).reverse().take(entries.len() - n),
                                decreases n,
                            {
                                n -= 1;
                                let ghost was = self@.pending;
                                self.pending.push(entries[n].clone());
                                proof {
                                    let all = entries_of(entries@).reverse();
                                    let k = entries.len() - n - 1;
                                    assert(all[k] == entries@[n as int]@);
                                    assert(all.take(k + 1) =~= all.take(k).push(all[k]));
                                    assert(self@.pending =~= was.push(entries@[n as int]@));
                                    assert(self@.pending =~= before.pending + all.take(k + 1));
                                }
                            }
                            proof {
                                let all = entries_of(entries@).reverse();
                                assert(all.take(entries.len() as int) =~= all);
                            }
                        },
                        _ => {
                            self.failed = true;
                        },
                    }
                } else {
                    match event {
                        WalkEvent::Contents { bytes } => {
                            match detect(entry.path.as_str(), bytes.as_slice()) {
                                Some(kind) => {
                                    let ghost was = self@.found;
                                    self.found.push(Tagged { path: entry.path, kind });
                                    proof {
                                        assert(self@.found =~= was.push((entry.path@, kind)));
                                    }
                                },
                                None => {},
                            }
                        },
                        WalkEvent::Listing { entries } => {
                            self.failed = true;
                        },
                        WalkEvent::Unreadable => {},
                    }
                }
            },
        }
    }

    fn ask(&mut self) -> (r: WalkStep)
        ensures
            (final(self)@, r@) == asking(old(self)@),
    {
        if self.failed || self.pending.len() == 0 {
            self.asked = None;
            return WalkStep::Done;
        }
        let ghost before = self@;
        let entry = self.pending.pop().unwrap();
        proof {
            assert(self@.pending =~= before.pending.drop_last());
            assert(entry@ == before.pending.last());
        }
        let step = if entry.is_dir {
            WalkStep::ReadDir { path: entry.path.clone() }
        } else {
            WalkStep::ReadFile { path: entry.path.clone() }
        };
        self.asked = Some(entry);
        step
    }

    /// Takes the answer to the last request and gives the next request.
    pub fn step(&mut self, event: WalkEvent) -> (r: WalkStep)
        ensures
            (final(self)@, r@) == asking(taken_in(old(self)@, answer_of(event, old(self)@.asked))),
    {
        self.take_in(event);
        self.ask()
    }

    /// What the walk has found: the tagged files in the order in which they were
    /// visited; or the failure, where a directory could not be read.
    pub fn finish(self) -> (r: Result<Vec<Tagged>, WalkError>)
        ensures
            match r {
                Ok(found) => !self@.failed && tagged_of(found@) == self@.found,
                Err(_) => self@.failed,
            },
    {
        if self.failed {
            Err(WalkError::UnreadableDirectory)
        } else {
            Ok(self.found)
        }
    }
}

/// A directory tree held in memory, as a walk meets it: files with their bytes, where
/// they can be read, and directories with their entries in the order of the listing.
#[derive(Debug, PartialEq, Eq)]
pub enum DirItem {
    File { path: String, bytes: Option<Vec<u8>> },
    Dir { path: String, readable: bool, items: Vec<DirItem> },
}

/// What two parts of a walk find together, the first before the second; nothing where
/// either fails.
pub open spec fn joined(
    a: Option<Seq<(Seq<char>, TagType)>>,
    b: Option<Seq<(Seq<char>, TagType)>>,
) -> Option<Seq<(Seq<char>, TagType)>> {
    match (a, b) {
        (Some(x), Some(y)) => Some(x + y),
        _ => None,
    }
}

/// The tagged files that a walk finds in one item: the file itself, where it can be
/// read and carries a tag, or what it finds in the entries of the directory, one after
/// the other. Nothing where a directory in it cannot be read.
pub open spec fn found_in(item: DirItem) -> Option<Seq<(Seq<char>, TagType)>>
    decreases item, 0int,
{
    match item {
        DirItem::File { path, bytes } => Some(
            match bytes {
                Some(b) => match detected(path@, flac_tag(b@) is Some, id3_tag(b@) is Some) {
                    Some(kind) => seq![(path@, kind)],
                    None => Seq::empty(),
                },
                None => Seq::empty(),
            },
        ),
        DirItem::Dir { path, readable, items } => if readable {
            found_from(items@, 0)
        } else {
            None
        },
    }
}

/// The tagged files that a walk finds in the items from place `k` on, one after the
/// other.
pub open spec fn found_from(items: Seq<DirItem>, k: int) -> Option<Seq<(Seq<char>, TagType)>>
    decreases items, items.len() - k,
{
    if k < 0 || k >= items.len() {
        Some(Seq::empty())
    } else {
        joined(found_in(items[k]), found_from(items, k + 1))
    }
}

/// The entry under which a listing shows an item.
pub open spec fn entry_of(item: DirItem) -> EntryData {
    match item {
        DirItem::File { path, bytes } => EntryData { path: path@, is_dir: false },
        DirItem::Dir { path, readable, items } => EntryData { path: path@, is_dir: true },
    }
}

/// The entries under which a listing shows a run of items.
pub open spec fn listing_of(items: Seq<DirItem>) -> Seq<EntryData> {
    Seq::new(items.len(), |n: int| entry_of(items[n]))
}

/// The items that a run of references points to.
pub open spec fn pointed(stack: Seq<&DirItem>) -> Seq<DirItem> {
    Seq::new(stack.len(), |n: int| *stack[n])
}

/// The tagged files that a walk finds in the items still to visit, the next to visit
/// last.
pub open spec fn found_in_rest(stack: Seq<DirItem>) -> Option<Seq<(Seq<char>, TagType)>>
    decreases stack.len(),
{
    if stack.len() == 0 {
        Some(Seq::empty())
    } else {
        joined(found_in(stack.last()), found_in_rest(stack.drop_last()))
    }
}

/// How many items an item holds, itself counted.
pub open spec fn size_of(item: DirItem) -> nat
    decreases item, 0int,
{
    match item {
        DirItem::File { path, bytes } => 1,
        DirItem::Dir { path, readable, items } => 1 + size_from(items@, 0),
    }
}

/// How many items the items from place `k` on hold.
pub open spec fn size_from(items: Seq<DirItem>, k: int) -> nat
    decreases items, items.len() - k,
{
    if k < 0 || k >= items.len() {
        0
    } else {
        size_of(items[k]) + size_from(items, k + 1)
    }
}

/// How many items the items still to visit hold.
pub open spec fn size_of_rest(stack: Seq<DirItem>) -> nat
    decreases stack.len(),
{
    if stack.len() == 0 {
        0
    } else {
        size_of(stack.last()) + size_of_rest(stack.drop_last())
    }
}

/// The items from place `k` on, the last first.
pub open spec fn reversed_from(items: Seq<DirItem>, k: int) -> Seq<DirItem> {
    items.subrange(k, items.len() as int).reverse()
}

/// With the entries of a directory on top of the items still to visit, the first of
/// them topmost, the walk finds what it finds in the directory and then what it finds in
/// the rest; and no item more is to visit than they hold.
proof fn lemma_entries_on_top(stack: Seq<DirItem>, items: Seq<DirItem>, k: int)
    requires
        0 <= k <= items.len(),
    ensures
        found_in_rest(stack + reversed_from(items, k)) == joined(
            found_from(items, k),
            found_in_rest(stack),
        ),
        size_of_rest(stack + reversed_from(items, k)) == size_from(items, k) + size_of_rest(stack),
    decreases items.len() - k,
{
    let top = stack + reversed_from(items, k);
    if k == items.len() {
        assert(top =~= stack);
        match found_in_rest(stack) {
            Some(x) => {
                assert(Seq::<(Seq<char>, TagType)>::empty() + x =~= x);
            },
            None => {},
        }
    } else {
        lemma_entries_on_top(stack, items, k + 1);
        let below = stack + reversed_from(items, k + 1);
        assert(top =~= below.push(items[k]));
        assert(top.drop_last() =~= below);
        assert(top.last() == items[k]);
        match (found_in(items[k]), found_from(items, k + 1), found_in_rest(stack)) {
            (Some(a), Some(b), Some(c)) => {
                assert(a + (b + c) =~= (a + b) + c);
            },
            _ => {},
        }
    }
}

fn entry_for(item: &DirItem) -> (r: Entry)
    ensures
        r@ == entry_of(*item),
{
    match item {
        DirItem::File { path, bytes } => Entry { path: path.clone(), is_dir: false },
        DirItem::Dir { path, readable, items } => Entry { path: path.clone(), is_dir: true },
    }
}

fn entries_for(items: &Vec<DirItem>) -> (r: Vec<Entry>)
    ensures
        entries_of(r@) == listing_of(items@),
{
    let mut entries: Vec<Entry> = Vec::new();
    let mut n: usize = 0;
    while n < items.len()
        invariant
            n <= items.len(),
            entries@.len() == n,
            forall|x: int| 0 <= x < n ==> (#[trigger] entries@[x])@ == entry_of(items@[x]),
        decreases items.len() - n,
    {
        entries.push(entry_for(&items[n]));
        n += 1;
    }
    assert(entries_of(entries@) =~= listing_of(items@));
    entries
}

fn push_all<'a>(stack: &mut Vec<&'a DirItem>, items: &'a Vec<DirItem>)
    ensures
        pointed(final(stack)@) == pointed(old(stack)@) + reversed_from(items@, 0),
{
    let ghost before = pointed(stack@);
    let mut n: usize = items.len();
    assert(pointed(stack@) =~= before + reversed_from(items@, n as int));
    while n > 0
        invariant
            n <= items.len(),
            pointed(stack@) == before + reversed_from(items@, n as int),
        decreases n,
    {
        n -= 1;
        let ghost was = pointed(stack@);
        stack.push(&items[n]);
        proof {
            assert(pointed(stack@) =~= was.push(items@[n as int]));
            assert(reversed_from(items@, n as int) =~= reversed_from(items@, n + 1).push(
                items@[n as int],
            ));
            assert(pointed(stack@) =~= before + reversed_from(items@, n as int));
        }
    }
}

/// What holds between a walk and the items of a tree in memory that it still has to
/// visit: the walk asks about the topmost of them and keeps the entries of the others,
/// and what it has found with what it will find in them is what the whole tree holds.
pub open spec fn on_track(
    w: WalkState,
    ask: WalkAsk,
    stack: Seq<DirItem>,
    total: Option<Seq<(Seq<char>, TagType)>>,
) -> bool {
    if w.failed {
        total is None && ask is Done
    } else {
        &&& joined(Some(w.found), found_in_rest(stack)) == total
        &&& (w, ask) == asking(
            WalkState { pending: listing_of(stack), found: w.found, asked: None, failed: false },
        )
    }
}

/// Walks a directory tree held in memory, depth first and in the order of the listings,
/// and finds the files that carry tags. The walk fails where a directory cannot be read;
/// a file that cannot be read is passed over.
pub fn list(root: &str, items: &Vec<DirItem>) -> (r: Result<Vec<Tagged>, WalkError>)
    ensures
        match r {
            Ok(found) => found_from(items@, 0) == Some(tagged_of(found@)),
            Err(_) => found_from(items@, 0) is None,
        },
{
    let ghost total = found_from(items@, 0);
    let (mut walker, first) = Walker::start(root);
    let mut stack: Vec<&DirItem> = Vec::new();
    let entries = entries_for(items);
    push_all(&mut stack, items);
    proof {
        assert(pointed(Seq::<&DirItem>::empty()) =~= Seq::<DirItem>::empty());
        lemma_entries_on_top(Seq::empty(), items@, 0);
        assert(Seq::<DirItem>::empty() + reversed_from(items@, 0) =~= reversed_from(items@, 0));
        assert(listing_of(reversed_from(items@, 0)) =~= listing_of(items@).reverse());
        assert(Seq::<EntryData>::empty() + listing_of(items@).reverse() =~= listing_of(
            reversed_from(items@, 0),
        ));
        match total {
            Some(x) => {
                assert(x + Seq::<(Seq<char>, TagType)>::empty() =~= x);
                assert(Seq::<(Seq<char>, TagType)>::empty() + x =~= x);
            },
            None => {},
        }
    }
    let mut step = walker.step(WalkEvent::Listing { entries });
    loop
        invariant
            on_track(walker@, step@, pointed(stack@), total),
        ensures
            walker@.failed ==> total is None,
            !walker@.failed ==> total == Some(walker@.found),
        decreases size_of_rest(pointed(stack@)),
    {
        let done = match step {
            WalkStep::Done => true,
            _ => false,
        };
        if done || stack.len() == 0 {
            proof {
                if !walker@.failed {
                    assert(listing_of(pointed(stack@)).len() == 0);
                    assert(pointed(stack@).len() == 0);
                    assert(walker@.found + Seq::<(Seq<char>, TagType)>::empty() =~= walker@.found);
                }
            }
            break;
        }
        let ghost before = pointed(stack@);
        let ghost w = walker@;
        let current = stack.pop().unwrap();
        proof {
            assert(pointed(stack@) =~= before.drop_last());
            assert(*current == before.last());
            assert(listing_of(before).drop_last() =~= listing_of(before.drop_last()));
        }
        let ghost below = pointed(stack@);
        let event = match current {
            DirItem::File { path, bytes } => match bytes {
                Some(b) => WalkEvent::Contents { bytes: b.clone() },
                None => WalkEvent::Unreadable,
            },
            DirItem::Dir { path, readable, items } => {
                if *readable {
                    let entries = entries_for(items);
                    push_all(&mut stack, items);
                    proof {
                        lemma_entries_on_top(below, items@, 0);
                        assert(listing_of(reversed_from(items@, 0)) =~= listing_of(items@).reverse());
                        assert(listing_of(below + reversed_from(items@, 0)) =~= listing_of(below)
                            + listing_of(items@).reverse());
                    }
                    WalkEvent::Listing { entries }
                } else {
                    WalkEvent::Unreadable
                }
            },
        };
        proof {
            match (Some(w.found), found_in(*current), found_in_rest(below)) {
                (Some(a), Some(b), Some(c)) => {
                    assert(a + (b + c) =~= (a + b) + c);
                    if b.len() == 1 {
                        assert(a.push(b[0]) =~= a + b);
                    }
                    if b.len() == 0 {
                        assert(a + b =~= a);
                    }
                },
                _ => {},
            }
        }
        step = walker.step(event);
    }
    walker.finish()
}

} // verus!
