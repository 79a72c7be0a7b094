use vstd::prelude::*;

verus! {

/// Classification of one filesystem member.
#[derive(Clone, Copy, Debug, PartialEq, Eq, Structural)]
pub enum FileType {
    /// A regular file.
    File,
    /// A directory.
    Dir,
    /// A symbolic link (followed as a plain entry, never descended into).
    Symlink,
    /// Anything else the platform may report (devices, sockets, ...).
    Other,
}

/// The filesystem-origin error taxonomy surfaced by a traversal.
#[derive(Clone, Copy, Debug, PartialEq, Eq, Structural)]
pub enum ErrorKind {
    /// The root or a descended-into directory does not exist.
    NotFound,
    /// The caller may not read a directory or an entry.
    PermissionDenied,
    /// Any other platform I/O error.
    Other,
}

/// One discovered filesystem member: its path, as components relative to the
/// traversal root, and its file-type classification.
#[derive(Debug)]
pub struct Entry {
    /// Path components relative to the root; never empty for a yielded entry.
    pub path: Vec<String>,
    /// The resolved classification of this member.
    pub kind: FileType,
}

impl View for Entry {
    type V = (Seq<Seq<char>>, FileType);

    open spec fn view(&self) -> Self::V {
        (self.path.deep_view(), self.kind)
    }
}

impl Entry {
    /// Builds an entry from its path components and classification.
    pub fn new(path: Vec<String>, kind: FileType) -> (e: Entry)
        ensures
            e@ == (path.deep_view(), kind),
    {
        Entry { path, kind }
    }

    /// The path of this member, as components relative to the root.
    pub fn path(&self) -> (p: &Vec<String>)
        ensures
            p.deep_view() == self@.0,
    {
        &self.path
    }

    /// The file-type classification of this member.
    ///
    /// The result is a function of the entry alone, so resolving the type of
    /// the same entry any number of times gives the same classification.
    pub fn file_type(&self) -> (k: FileType)
        ensures
            k == self@.1,
    {
        self.kind
    }
}

} // verus!
