//! The file-system interface that the kernel's file systems offer.
use vstd::prelude::*;

verus! {

pub enum FileType {
    File,
    Directory,
}

pub struct DirEntry<'a> {
    pub name: &'a str,
    pub file_type: FileType,
    pub size: usize,
}

/// Read access to files by path.
pub trait FileSystem {
    /// The contents of the regular file at `path`, if there is one.
    fn read(&self, path: &str) -> Option<&[u8]>;

    /// Whether anything exists at `path`.
    fn path_exists(&self, path: &str) -> bool;

    /// The entries of the directory at `path`, if the file system can list it.
    fn list(&self, path: &str) -> Option<DirIter<'_>>;
}

/// A cursor over a slice of directory entries.
pub struct DirIter<'a> {
    entries: &'a [DirEntry<'a>],
    pos: usize,
}

impl<'a> DirIter<'a> {
    pub closed spec fn entries(&self) -> Seq<DirEntry<'a>> {
        self.entries@
    }

    pub closed spec fn pos(&self) -> nat {
        self.pos as nat
    }

    /// A cursor at the first of `entries`.
    pub fn new(entries: &'a [DirEntry<'a>]) -> (r: Self)
        ensures
            r.entries() == entries@,
            r.pos() == 0,
    {
        DirIter { entries, pos: 0 }
    }

    /// The entry under the cursor, moving past it; `None` once all have been
    /// returned.
    pub fn next(&mut self) -> (r: Option<&'a DirEntry<'a>>)
        ensures
            final(self).entries() == old(self).entries(),
            old(self).pos() < old(self).entries().len() ==> r == Some(&old(self).entries()[old(self).pos() as int])
                && final(self).pos() == old(self).pos() + 1,
            old(self).pos() >= old(self).entries().len() ==> r is None && final(self).pos() == old(self).pos(),
    {
        if self.pos < self.entries.len() {
            let entry = &self.entries[self.pos];
            self.pos += 1;
            Some(entry)
        } else {
            None
        }
    }
}

} // verus!
