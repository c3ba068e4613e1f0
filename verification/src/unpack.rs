//! Archive unpacker planning: for each entry of a repository's
//! file-manifest archive, decide how the entry is mirrored into the cache
//! tree. The caller walks the archive in its own enumeration order, asks
//! for a plan per entry, and performs the filesystem work.

use vstd::prelude::*;

verus! {

/// The kind of an archive entry, as the archive reports it.
pub enum EntryKind {
    Directory,
    RegularFile,
    /// Symlinks, devices and every other entry type.
    Other,
}

/// What the unpacker does with one archive entry.
#[derive(PartialEq, Eq, Structural)]
pub enum EntryAction {
    /// The entry leaves no trace in the cache tree.
    Skip,
    /// Create the entry's directory (and any missing parents) under the
    /// target directory.
    MakeDir,
    /// Create the entry's parent directories as needed, write the entry's
    /// payload bytes verbatim, and apply the entry's recorded permission
    /// bits to the written file.
    WriteFile,
}

/// An entry with an empty name or the bare root marker "." is skipped;
/// directories are created, regular files written, and every other entry
/// kind is skipped.
pub open spec fn spec_plan_entry(path: Seq<char>, kind: EntryKind) -> EntryAction {
    if path.len() == 0 || path == seq!['.'] {
        EntryAction::Skip
    } else {
        match kind {
            EntryKind::Directory => EntryAction::MakeDir,
            EntryKind::RegularFile => EntryAction::WriteFile,
            EntryKind::Other => EntryAction::Skip,
        }
    }
}

/// One archive entry as the planner sees it: its path, its kind, its
/// payload bytes and its recorded permission bits.
pub struct EntryV {
    pub path: Seq<char>,
    pub kind: EntryKind,
    pub data: Seq<u8>,
    pub mode: u32,
}

/// What extraction leaves at one path of the cache tree.
pub enum NodeV {
    Dir,
    File { data: Seq<u8>, mode: u32 },
}

/// The entry leaves a trace in the cache tree.
pub open spec fn entry_retained(e: EntryV) -> bool {
    spec_plan_entry(e.path, e.kind) != EntryAction::Skip
}

/// The cache tree that following the plan over the entries, in archive
/// order, builds: directories for directory entries, payload and mode
/// for regular-file entries, nothing else.
pub open spec fn spec_mirror(entries: Seq<EntryV>) -> Map<Seq<char>, NodeV>
    decreases entries.len(),
{
    if entries.len() == 0 {
        Map::empty()
    } else {
        let m = spec_mirror(entries.drop_last());
        let e = entries.last();
        match spec_plan_entry(e.path, e.kind) {
            EntryAction::Skip => m,
            EntryAction::MakeDir => m.insert(e.path, NodeV::Dir),
            EntryAction::WriteFile => m.insert(e.path, NodeV::File { data: e.data, mode: e.mode }),
        }
    }
}

/// Extraction mirrors the archive: the cache tree the plan builds holds
/// exactly the paths of the archive's directory and regular-file
/// entries, skipped entries included nowhere. (law)
pub proof fn lemma_mirror_domain(entries: Seq<EntryV>, p: Seq<char>)
    ensures
        spec_mirror(entries).dom().contains(p) <==> (exists|i: int|
            0 <= i < entries.len() && (#[trigger] entries[i]).path == p && entry_retained(
                entries[i],
            )),
    decreases entries.len(),
{
    if entries.len() > 0 {
        lemma_mirror_domain(entries.drop_last(), p);
        assert(forall|i: int|
            0 <= i < entries.drop_last().len() ==> entries.drop_last()[i] == entries[i]);
        let e = entries.last();
        if entry_retained(e) && e.path == p {
            assert(entries[entries.len() - 1].path == p && entry_retained(
                entries[entries.len() - 1],
            ));
        } else {
            if exists|i: int|
                0 <= i < entries.len() && (#[trigger] entries[i]).path == p && entry_retained(
                    entries[i],
                ) {
                let i = choose|i: int|
                    0 <= i < entries.len() && (#[trigger] entries[i]).path == p
                        && entry_retained(entries[i]);
                assert(i < entries.len() - 1);
                assert(entries.drop_last()[i] == entries[i]);
            }
        }
    }
}

/// Decide how one archive entry is mirrored into the cache tree.
pub fn plan_entry(path: &str, kind: &EntryKind) -> (act: EntryAction)
    ensures
        act == spec_plan_entry(path@, *kind),
{
    let len = path.unicode_len();
    let is_root_marker = len == 0 || (len == 1 && path.get_char(0) == '.');
    proof {
        if len == 1 && path@[0] == '.' {
            assert(path@ =~= seq!['.']);
        }
        if path@ == seq!['.'] {
            assert(path@.len() == 1);
            assert(path@[0] == '.');
        }
    }
    if is_root_marker {
        EntryAction::Skip
    } else {
        match kind {
            EntryKind::Directory => EntryAction::MakeDir,
            EntryKind::RegularFile => EntryAction::WriteFile,
            EntryKind::Other => EntryAction::Skip,
        }
    }
}

} // verus!
