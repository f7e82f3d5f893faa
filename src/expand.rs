use vstd::prelude::*;

use crate::error::ImportError;
use crate::key_set::KeySet;
use crate::text::{has_descriptor_extension, is_descriptor_name};

verus! {

/// One entry of a directory listing.
pub struct Entry {
    /// The entry's full path.
    pub path: String,
    /// The entry's file name, the last component of `path`.
    pub name: String,
    /// Whether the entry is a regular file.
    pub is_file: bool,
}

/// What a path was found to be.
pub enum PathKind {
    /// A directory, with its immediate entries.
    Directory(Vec<Entry>),
    /// A regular file, with its file name.
    File(String),
    /// Missing, or neither a file nor a directory.
    Other,
    /// A directory whose listing failed, with the reason.
    Unreadable(String),
}

/// The outcome of looking at one path candidate on disk.
pub struct Probe {
    pub path: String,
    pub kind: PathKind,
}

/// Whether a listed entry is a descriptor file.
pub open spec fn is_descriptor_entry(e: Entry) -> bool {
    e.is_file && is_descriptor_name(e.name@)
}

/// The paths of the descriptor files among `entries`.
pub open spec fn descriptor_paths(entries: Seq<Entry>) -> Set<Seq<char>> {
    Set::new(
        |q: Seq<char>|
            exists|i: int|
                0 <= i < entries.len() && is_descriptor_entry(#[trigger] entries[i])
                    && entries[i].path@ == q,
    )
}

/// The descriptor files that a probed path stands for.
pub open spec fn expansion(p: Probe) -> Result<Set<Seq<char>>, ImportError> {
    match p.kind {
        PathKind::Directory(entries) => Ok(descriptor_paths(entries@)),
        PathKind::File(name) => if is_descriptor_name(name@) {
            Ok(set![p.path@])
        } else {
            Err(ImportError::NotFileOrDirectory(p.path))
        },
        PathKind::Other => Err(ImportError::NotFileOrDirectory(p.path)),
        PathKind::Unreadable(why) => Err(ImportError::UnreadableDirectory(p.path, why)),
    }
}

/// Whether `r` is what `expansion` gives for `p`, with a well-formed set.
pub open spec fn expands_to(p: Probe, r: Result<KeySet, ImportError>) -> bool {
    match r {
        Ok(s) => s.wf() && expansion(p) == Ok::<Set<Seq<char>>, ImportError>(s@),
        Err(e) => expansion(p) == Err::<Set<Seq<char>>, ImportError>(e),
    }
}

/// Resolves one probed path into the descriptor files it stands for: the
/// direct children of a directory that are descriptor files, or the path
/// itself when it is a descriptor file.
pub fn expand_paths(probe: &Probe) -> (r: Result<KeySet, ImportError>)
    ensures
        expands_to(*probe, r),
{
    match &probe.kind {
        PathKind::Directory(entries) => {
            let mut result = KeySet::new();
            let n = entries.len();
            let mut i: usize = 0;
            while i < n
                invariant
                    n == entries@.len(),
                    i <= n,
                    result.wf(),
                    result@ == descriptor_paths(entries@.take(i as int)),
                decreases n - i,
            {
                let e = &entries[i];
                let keep = e.is_file && has_descriptor_extension(e.name.as_str());
                let ghost before = result@;
                if keep {
                    result.insert(e.path.clone());
                }
                proof {
                    let t = entries@.take(i + 1);
                    assert(t[i as int] == entries@[i as int]);
                    assert forall|q: Seq<char>|
                        #[trigger] descriptor_paths(t).contains(q) == result@.contains(q) by {
                        if descriptor_paths(t).contains(q) {
                            let j = choose|j: int|
                                0 <= j < t.len() && is_descriptor_entry(#[trigger] t[j])
                                    && t[j].path@ == q;
                            if j < i {
                                assert(entries@.take(i as int)[j] == t[j]);
                            }
                        }
                        if before.contains(q) {
                            let j = choose|j: int|
                                0 <= j < i && is_descriptor_entry(
                                    #[trigger] entries@.take(i as int)[j],
                                ) && entries@.take(i as int)[j].path@ == q;
                            assert(t[j] == entries@.take(i as int)[j]);
                        }
                    }
                    assert(descriptor_paths(t) =~= result@);
                }
                i = i + 1;
            }
            assert(entries@.take(n as int) =~= entries@);
            Ok(result)
        },
        PathKind::File(name) => {
            if has_descriptor_extension(name.as_str()) {
                let mut result = KeySet::new();
                result.insert(probe.path.clone());
                assert(result@ =~= set![probe.path@]);
                Ok(result)
            } else {
                Err(ImportError::NotFileOrDirectory(probe.path.clone()))
            }
        },
        PathKind::Other => Err(ImportError::NotFileOrDirectory(probe.path.clone())),
        PathKind::Unreadable(why) => Err(
            ImportError::UnreadableDirectory(probe.path.clone(), why.clone()),
        ),
    }
}

} // verus!
