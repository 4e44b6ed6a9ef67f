//! Enumeration: which entries of a walk over a directory tree are files to
//! search. The walk itself is the caller's; it hands over what it came by, in
//! its own order, parents before their children.

use vstd::prelude::*;

verus! {

/// What kind of thing an entry of a walk is.
#[derive(Debug, Clone, Copy, PartialEq, Eq, Structural)]
pub enum EntryKind {
    /// A regular file.
    File,
    /// A directory, or anything else that is no regular file.
    Other,
    /// Not known: the entry could not be looked at.
    Unknown,
}

/// One entry of a walk over a directory tree.
pub struct FileEntry {
    /// The caller's number for the entry, by which it finds the path again.
    pub index: usize,
    /// The bytes of its base name.
    pub name: Vec<u8>,
    /// How far below the root of the walk it lies; the root lies at 0.
    pub depth: usize,
    /// What kind of thing it is.
    pub kind: EntryKind,
}

/// Whether a base name marks its entry as hidden: it begins with a dot.
pub open spec fn hidden(name: Seq<u8>) -> bool {
    name.len() > 0 && name[0] == 0x2E
}

impl FileEntry {
    /// Whether the entry is hidden: its base name begins with a dot.
    pub open spec fn hidden(&self) -> bool {
        hidden(self.name@)
    }

    /// Whether the entry is hidden.
    pub fn is_hidden(&self) -> (r: bool)
        ensures
            r == self.hidden(),
    {
        is_hidden(self.name.as_slice())
    }
}

/// Whether entry `j` is entry `i` or lies in the tree below it: every entry
/// after `i` up to `j` lies deeper than `i`.
pub open spec fn inside(entries: Seq<FileEntry>, i: int, j: int) -> bool {
    &&& 0 <= i <= j < entries.len()
    &&& forall|k: int| i < k <= j ==> entries[k].depth > #[trigger] entries[i].depth
}

/// Whether entry `j` is pruned from the walk: it is hidden, or lies below a
/// hidden entry.
pub open spec fn pruned(entries: Seq<FileEntry>, j: int) -> bool {
    exists|i: int| inside(entries, i, j) && entries[i].hidden()
}

/// Whether entry `j` is listed: a regular file below the root that is not
/// pruned. The root itself is never listed: a walk that starts at a file has
/// no directory to search. Nor is an entry whose kind is not known.
pub open spec fn listed(entries: Seq<FileEntry>, j: int) -> bool {
    &&& 0 <= j < entries.len()
    &&& entries[j].kind == EntryKind::File
    &&& entries[j].depth > 0
    &&& !pruned(entries, j)
}

/// The listed ones among the first `n` entries, in their order.
pub open spec fn files_among(entries: Seq<FileEntry>, n: int) -> Seq<FileEntry>
    decreases n,
{
    if n <= 0 {
        Seq::empty()
    } else if listed(entries, n - 1) {
        files_among(entries, n - 1).push(entries[n - 1])
    } else {
        files_among(entries, n - 1)
    }
}

/// Whether a base name, given by its bytes, marks its entry as hidden: it
/// begins with a dot, whatever follows.
pub fn is_hidden(name: &[u8]) -> (r: bool)
    ensures
        r == hidden(name@),
{
    name.len() > 0 && name[0] == 0x2E
}

/// Entry `i` is hidden and no entry after it and before `j` has left its tree.
spec fn open_at(entries: Seq<FileEntry>, i: int, j: int) -> bool {
    &&& 0 <= i < j <= entries.len()
    &&& entries[i].hidden()
    &&& forall|k: int| i < k < j ==> (#[trigger] entries[k]).depth > entries[i].depth
}

/// What the walk remembers before entry `j`: the depth of the outermost hidden
/// entry whose tree it is in, if it is in one.
spec fn remembers(entries: Seq<FileEntry>, j: int, cut: Option<usize>) -> bool {
    match cut {
        None => forall|i: int| !#[trigger] open_at(entries, i, j),
        Some(c) => {
            &&& exists|i: int| #[trigger] open_at(entries, i, j) && entries[i].depth == c
            &&& forall|i: int| #[trigger] open_at(entries, i, j) ==> entries[i].depth >= c
        },
    }
}

proof fn lemma_open_step(entries: Seq<FileEntry>, i: int, j: int)
    requires
        0 <= j < entries.len(),
    ensures
        open_at(entries, i, j + 1) <==> (i == j && entries[j].hidden()) || (open_at(entries, i, j)
            && entries[j].depth > entries[i].depth),
{
    if open_at(entries, i, j) && entries[j].depth > entries[i].depth {
        assert forall|k: int| i < k < j + 1 implies (#[trigger] entries[k]).depth
            > entries[i].depth by {
            if k < j {
            }
        }
    }
}

proof fn lemma_pruned_by_cut(entries: Seq<FileEntry>, j: int, cut: Option<usize>)
    requires
        0 <= j < entries.len(),
        remembers(entries, j, cut),
    ensures
        pruned(entries, j) <==> entries[j].hidden() || (cut matches Some(c) && entries[j].depth
            > c),
{
    if entries[j].hidden() {
        assert(inside(entries, j, j));
    }
    if let Some(c) = cut {
        if entries[j].depth > c {
            let i = choose|i: int| #[trigger] open_at(entries, i, j) && entries[i].depth == c;
            assert(inside(entries, i, j));
        }
    }
    if pruned(entries, j) && !entries[j].hidden() {
        let i = choose|i: int| inside(entries, i, j) && entries[i].hidden();
        assert(open_at(entries, i, j));
    }
}

proof fn lemma_remembers_step(
    entries: Seq<FileEntry>,
    j: int,
    cut: Option<usize>,
    next: Option<usize>,
)
    requires
        0 <= j < entries.len(),
        remembers(entries, j, cut),
        next == if cut matches Some(c) && entries[j].depth > c {
            cut
        } else if entries[j].hidden() {
            Some(entries[j].depth)
        } else {
            None
        },
    ensures
        remembers(entries, j + 1, next),
{
    if cut is Some && entries[j].depth > cut->0 {
        let c = cut->0;
        let i = choose|i: int| #[trigger] open_at(entries, i, j) && entries[i].depth == c;
        lemma_open_step(entries, i, j);
        assert(open_at(entries, i, j + 1));
        assert forall|i: int| #[trigger] open_at(entries, i, j + 1) implies entries[i].depth
            >= c by {
            lemma_open_step(entries, i, j);
        }
    } else if entries[j].hidden() {
        lemma_open_step(entries, j, j);
        assert(open_at(entries, j, j + 1));
        assert forall|i: int| #[trigger] open_at(entries, i, j + 1) implies entries[i].depth
            >= entries[j].depth by {
            lemma_open_step(entries, i, j);
        }
    } else {
        assert forall|i: int| !#[trigger] open_at(entries, i, j + 1) by {
            lemma_open_step(entries, i, j);
        }
    }
}

/// The files to search among the entries of a walk, in the order of the walk:
/// the regular files below the root that are not hidden and lie below no
/// hidden entry.
pub fn list_files(entries: Vec<FileEntry>) -> (files: Vec<FileEntry>)
    ensures
        files@ == files_among(entries@, entries.len() as int),
{
    let ghost all = entries@;
    let mut files: Vec<FileEntry> = Vec::new();
    let mut cut: Option<usize> = None;
    for entry in it: entries
        invariant
            it.seq() == all,
            remembers(all, it.index() as int, cut),
            files@ == files_among(all, it.index() as int),
    {
        let ghost j = it.index() as int;
        proof {
            lemma_pruned_by_cut(all, j, cut);
            lemma_remembers_step(
                all,
                j,
                cut,
                if cut matches Some(c) && all[j].depth > c {
                    cut
                } else if all[j].hidden() {
                    Some(all[j].depth)
                } else {
                    None
                },
            );
        }
        let below = match cut {
            Some(c) => entry.depth > c,
            None => false,
        };
        if !below {
            if entry.is_hidden() {
                cut = Some(entry.depth);
            } else {
                cut = None;
                let is_file = match entry.kind {
                    EntryKind::File => true,
                    _ => false,
                };
                if is_file && entry.depth > 0 {
                    files.push(entry);
                }
            }
        }
    }
    files
}

} // verus!
