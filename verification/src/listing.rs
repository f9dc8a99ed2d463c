//! Directory listings as plain values: what a directory holds, as far as the
//! rules of this crate look at it.
use vstd::prelude::*;

use crate::text::{sort_strings, sorted_strings};

verus! {

/// What kind of entry a directory listing reports.
#[derive(Clone, Copy, Debug, PartialEq, Eq, Structural)]
pub enum EntryKind {
    Directory,
    File,
    /// A symbolic link or another special entry.
    Other,
    /// The kind could not be read.
    Unknown,
}

/// One entry of a directory: its file name, as text, and its kind.
#[derive(Clone, Debug)]
pub struct DirEntryInfo {
    pub name: String,
    pub kind: EntryKind,
}

impl DirEntryInfo {
    /// An entry with the given name and kind.
    pub fn new(name: &str, kind: EntryKind) -> (r: DirEntryInfo)
        ensures
            r.name@ == name@,
            r.kind == kind,
    {
        DirEntryInfo { name: crate::text::owned(name), kind }
    }
}

/// The names of the sub-directories among `es`, in listing order.
pub open spec fn directory_names(es: Seq<DirEntryInfo>) -> Seq<String>
    decreases es.len(),
{
    if es.len() == 0 {
        Seq::empty()
    } else if es.last().kind == EntryKind::Directory {
        directory_names(es.drop_last()).push(es.last().name)
    } else {
        directory_names(es.drop_last())
    }
}

/// The directory names of a listing are exactly the names of its
/// `Directory` entries: each comes from such an entry, each such entry's name
/// is among them, and there are no more of them than entries.
pub proof fn law_directory_names(es: Seq<DirEntryInfo>)
    ensures
        directory_names(es).len() <= es.len(),
        forall|i: int|
            0 <= i < directory_names(es).len() ==> exists|k: int|
                0 <= k < es.len() && es[k].kind == EntryKind::Directory && es[k].name
                    == #[trigger] directory_names(es)[i],
        forall|k: int|
            0 <= k < es.len() && (#[trigger] es[k]).kind == EntryKind::Directory
                ==> directory_names(es).contains(es[k].name),
    decreases es.len(),
{
    if es.len() > 0 {
        let prev = es.drop_last();
        law_directory_names(prev);
        let d = directory_names(es);
        let pd = directory_names(prev);
        assert forall|i: int| 0 <= i < d.len() implies exists|k: int|
            0 <= k < es.len() && es[k].kind == EntryKind::Directory && es[k].name
                == #[trigger] d[i] by {
            if i < pd.len() {
                assert(d[i] == pd[i]);
                let k = choose|k: int|
                    0 <= k < prev.len() && prev[k].kind == EntryKind::Directory && prev[k].name
                        == #[trigger] pd[i];
                assert(es[k] == prev[k]);
            } else {
                assert(es[es.len() - 1] == es.last());
            }
        }
        assert forall|k: int|
            0 <= k < es.len() && (#[trigger] es[k]).kind == EntryKind::Directory implies d.contains(
            es[k].name,
        ) by {
            if k < es.len() - 1 {
                assert(prev[k] == es[k]);
                let i = choose|i: int| 0 <= i < pd.len() && pd[i] == prev[k].name;
                assert(d[i] == pd[i]);
            } else {
                assert(d[d.len() - 1] == es[k].name);
            }
        }
    }
}

/// The names of the sub-directories of a directory, in ascending order: the
/// versions installed in a language's directory.
pub fn installed_versions(entries: &Vec<DirEntryInfo>) -> (r: Vec<String>)
    ensures
        sorted_strings(r@),
        r@.to_multiset() =~= directory_names(entries@).to_multiset(),
{
    let mut names: Vec<String> = Vec::new();
    let mut i: usize = 0;
    while i < entries.len()
        invariant
            i <= entries.len(),
            names@ == directory_names(entries@.take(i as int)),
        decreases entries.len() - i,
    {
        assert(entries@.take(i + 1).drop_last() =~= entries@.take(i as int));
        if entries[i].kind == EntryKind::Directory {
            names.push(entries[i].name.clone());
        }
        i = i + 1;
    }
    assert(entries@.take(entries.len() as int) =~= entries@);
    sort_strings(names)
}

/// A directory whose only entry is a sub-directory: one level that extraction
/// folds away, moving the sub-directory's contents up.
pub open spec fn is_single_subdirectory_spec(entries: Seq<DirEntryInfo>) -> bool {
    entries.len() == 1 && entries[0].kind == EntryKind::Directory
}

/// A directory is folded only when it holds exactly one entry and that entry
/// is a directory: a second entry of any kind, or a lone file, keeps it.
pub proof fn law_single_subdirectory(entries: Seq<DirEntryInfo>)
    ensures
        is_single_subdirectory_spec(entries) == (entries.len() == 1 && entries[0].kind
            == EntryKind::Directory),
        entries.len() != 1 ==> !is_single_subdirectory_spec(entries),
{
}

/// Decides `is_single_subdirectory_spec` for a directory listing.
pub fn is_single_subdirectory(entries: &Vec<DirEntryInfo>) -> (r: bool)
    ensures
        r == is_single_subdirectory_spec(entries@),
        r == (entries@.len() == 1 && entries@[0].kind == EntryKind::Directory),
{
    proof {
        law_single_subdirectory(entries@);
    }
    entries.len() == 1 && entries[0].kind == EntryKind::Directory
}

} // verus!
