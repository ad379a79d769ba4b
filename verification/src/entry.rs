//! What the finder sees of the children of a directory.

use vstd::prelude::*;

verus! {

/// The type the walker resolved for an entry when it enumerated it.
#[derive(Clone, Copy, Debug, PartialEq, Eq, Structural)]
pub enum EntryKind {
    /// A regular file.
    File,
    /// A directory.
    Dir,
    /// A symbolic link that was not followed.
    Symlink,
    /// Anything else: a socket, a pipe, a device.
    Other,
}

/// A child that the walker read successfully.
///
/// The finder reads `path` and `kind`, and may clear `descend`. It carries
/// `handle` along untouched: the walker keeps there whatever it needs to
/// recognise its own entry again.
#[derive(Clone, Debug, PartialEq, Eq)]
pub struct DirEntry<T> {
    /// The path of the entry, as the walker reports it.
    pub path: String,
    /// The type of the entry.
    pub kind: EntryKind,
    /// Whether the walker will read the children of this entry.
    pub descend: bool,
    /// The walker's own data.
    pub handle: T,
}

/// A child that the walker could not read.
#[derive(Clone, Debug, PartialEq, Eq)]
pub struct ReadError<E> {
    /// The failure in words, naming the path and the cause where they are known.
    pub message: String,
    /// The walker's own error value, carried along untouched.
    pub source: E,
}

/// One child of a directory: an entry, or the failure to read one.
pub type Child<T, E> = Result<DirEntry<T>, ReadError<E>>;

impl<T> DirEntry<T> {
    /// Whether the entry is a regular file.
    pub open spec fn spec_is_file(&self) -> bool {
        self.kind == EntryKind::File
    }

    /// Whether the entry is a directory.
    pub open spec fn spec_is_dir(&self) -> bool {
        self.kind == EntryKind::Dir
    }

    /// The same entry, with the walker told not to read its children.
    pub open spec fn closed(self) -> Self {
        DirEntry { descend: false, ..self }
    }

    /// An entry as the walker first reads it: it descends into directories
    /// and into nothing else.
    pub fn new(path: String, kind: EntryKind, handle: T) -> (entry: Self)
        ensures
            entry == (DirEntry { path, kind, descend: kind == EntryKind::Dir, handle }),
    {
        let descend: bool = kind == EntryKind::Dir;
        DirEntry { path, kind, descend, handle }
    }

    /// Whether the entry is a regular file.
    #[verifier::when_used_as_spec(spec_is_file)]
    pub fn is_file(&self) -> (r: bool)
        ensures
            r == self.spec_is_file(),
    {
        self.kind == EntryKind::File
    }

    /// Whether the entry is a directory.
    #[verifier::when_used_as_spec(spec_is_dir)]
    pub fn is_dir(&self) -> (r: bool)
        ensures
            r == self.spec_is_dir(),
    {
        self.kind == EntryKind::Dir
    }
}

} // verus!
