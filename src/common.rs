//! Plain data types shared by the engine, its event bus and its adapters.
use vstd::prelude::*;

verus! {

/// What kind of object an event is about. Symlinks count as files.
#[derive(Clone, Copy, Debug, PartialEq, Eq, Structural)]
pub enum ObjectType {
    File,
    Directory,
}

/// A change of the store, reported after the change has been applied.
#[derive(Clone, Debug, PartialEq, Eq)]
pub enum FSEvent {
    Created { path: String, object_type: ObjectType },
    Modified { path: String, object_type: ObjectType },
    Deleted { path: String, object_type: ObjectType },
}

/// The mathematical value of an event: its kind, path and object type.
pub ghost enum EventView {
    Created(Seq<char>, ObjectType),
    Modified(Seq<char>, ObjectType),
    Deleted(Seq<char>, ObjectType),
}

impl View for FSEvent {
    type V = EventView;

    open spec fn view(&self) -> EventView {
        match self {
            FSEvent::Created { path, object_type } => EventView::Created(path@, *object_type),
            FSEvent::Modified { path, object_type } => EventView::Modified(path@, *object_type),
            FSEvent::Deleted { path, object_type } => EventView::Deleted(path@, *object_type),
        }
    }
}

/// One stored entry: a file (also used for symlinks) or a directory.
///
/// For a file `size` equals the content length; a directory has no content
/// and its `size` is a metadata cost charged against the byte quota.
/// `mtime` is the last-modification time in nanoseconds since the Unix epoch.
#[derive(Clone, Debug, Default)]
pub struct VirtualFile {
    pub content: Vec<u8>,
    pub size: u64,
    pub is_directory: bool,
    pub mtime: u64,
}

/// The mathematical value of a [`VirtualFile`].
pub ghost struct FileView {
    pub content: Seq<u8>,
    pub size: u64,
    pub is_directory: bool,
    pub mtime: u64,
}

impl View for VirtualFile {
    type V = FileView;

    open spec fn view(&self) -> FileView {
        FileView {
            content: self.content@,
            size: self.size,
            is_directory: self.is_directory,
            mtime: self.mtime,
        }
    }
}

impl FileView {
    /// A file's size is its content length; a directory holds no content.
    pub open spec fn wf(self) -> bool {
        if self.is_directory {
            self.content.len() == 0
        } else {
            self.size as int == self.content.len()
        }
    }

    pub open spec fn object_type(self) -> ObjectType {
        if self.is_directory {
            ObjectType::Directory
        } else {
            ObjectType::File
        }
    }
}

impl VirtualFile {
    pub fn get_type(&self) -> (r: ObjectType)
        ensures
            r == self@.object_type(),
    {
        if self.is_directory {
            ObjectType::Directory
        } else {
            ObjectType::File
        }
    }
}

/// The error kinds of the engine. Adapters translate them into OS codes.
#[derive(Clone, Copy, Debug, PartialEq, Eq, Structural)]
pub enum FsError {
    NotFound,
    NotADirectory,
    DirectoryNotEmpty,
    OutOfSpace,
    TooManyFiles,
    InvalidPath,
}

/// The kind of object reported in attributes.
#[derive(Clone, Copy, Debug, PartialEq, Eq, Structural)]
pub enum FileKind {
    RegularFile,
    Directory,
    Symlink,
}

/// Attributes of an entry as reported to the kernel.
#[derive(Clone, Copy, Debug, PartialEq, Eq, Structural)]
pub struct Attr {
    pub ino: u64,
    pub size: u64,
    pub kind: FileKind,
    pub perm: u16,
    pub nlink: u32,
    pub atime: u64,
    pub mtime: u64,
}

/// Permission bits reported for directories.
pub const DIR_PERM: u16 = 0o755;

/// Permission bits reported for files.
pub const FILE_PERM: u16 = 0o644;

/// Permission bits reported for symlinks.
pub const SYMLINK_PERM: u16 = 0o777;

/// The attributes of a stored entry with identity `ino`, access time `atime`.
pub open spec fn spec_attr(ino: u64, f: FileView, atime: u64) -> Attr {
    Attr {
        ino,
        size: f.size,
        kind: if f.is_directory { FileKind::Directory } else { FileKind::RegularFile },
        perm: if f.is_directory { DIR_PERM } else { FILE_PERM },
        nlink: if f.is_directory { 2 } else { 1 },
        atime,
        mtime: f.mtime,
    }
}

/// The attributes of the synthetic root directory at time `now`.
pub open spec fn spec_root_attr(now: u64) -> Attr {
    Attr {
        ino: 1,
        size: 0,
        kind: FileKind::Directory,
        perm: DIR_PERM,
        nlink: 2,
        atime: now,
        mtime: now,
    }
}

pub fn attr_of(ino: u64, f: &VirtualFile, atime: u64) -> (r: Attr)
    ensures
        r == spec_attr(ino, f@, atime),
{
    Attr {
        ino,
        size: f.size,
        kind: if f.is_directory { FileKind::Directory } else { FileKind::RegularFile },
        perm: if f.is_directory { DIR_PERM } else { FILE_PERM },
        nlink: if f.is_directory { 2 } else { 1 },
        atime,
        mtime: f.mtime,
    }
}

/// One line of a directory listing.
#[derive(Clone, Debug, PartialEq, Eq)]
pub struct DirEntry {
    pub ino: u64,
    pub is_directory: bool,
    pub name: String,
}

/// The mathematical value of a [`DirEntry`].
pub ghost struct DirEntryView {
    pub ino: u64,
    pub is_directory: bool,
    pub name: Seq<char>,
}

impl View for DirEntry {
    type V = DirEntryView;

    open spec fn view(&self) -> DirEntryView {
        DirEntryView { ino: self.ino, is_directory: self.is_directory, name: self.name@ }
    }
}

/// Filesystem-wide counters, in 4096-byte blocks and in entries.
#[derive(Clone, Copy, Debug, PartialEq, Eq, Structural)]
pub struct StatFs {
    pub blocks: u64,
    pub free_blocks: u64,
    pub available_blocks: u64,
    pub files: u64,
    pub free_files: u64,
    pub block_size: u32,
    pub max_name_length: u32,
}

/// An event as handed to script callers: three strings.
#[derive(Clone, Debug, PartialEq, Eq)]
pub struct FileSystemEvent {
    pub event_type: String,
    pub path: String,
    pub object_type: String,
}

} // verus!
