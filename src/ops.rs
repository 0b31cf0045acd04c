//! The filesystem verbs, on resolved paths. Every mutating verb checks its
//! preconditions and the quota before it changes anything, so a verb that
//! fails leaves the store as it was; one that succeeds hands back the event
//! that reports its change.
use crate::common::{
    attr_of, spec_attr, spec_root_attr, Attr, DirEntry, DirEntryView, EventView, FSEvent, FileKind,
    FileView, FsError, ObjectType, VirtualFile, DIR_PERM, FILE_PERM, SYMLINK_PERM,
};
use crate::identity::{identity, identity_of};
use crate::paths::{
    base_name, is_child, is_desc, is_strict_descendant, is_valid_name, join, join_path, parent_path,
    split_path, valid_name,
};
use crate::store::{renamed, VirtualFS};
use vstd::layout::size_of;
use vstd::prelude::*;
use vstd::slice::slice_to_vec;
use vstd::string::StringSliceAdditionalSpecFns;

verus! {

/// `n` zero bytes.
pub open spec fn zeros(n: nat) -> Seq<u8> {
    Seq::new(n, |i: int| 0u8)
}

/// `c` truncated or zero-extended to length `n`.
pub open spec fn resized(c: Seq<u8>, n: nat) -> Seq<u8> {
    if n <= c.len() {
        c.subrange(0, n as int)
    } else {
        c + zeros((n - c.len()) as nat)
    }
}

/// `c` after `data` is written at `offset`: zero-extended first when the
/// write ends past its end.
pub open spec fn written(c: Seq<u8>, offset: nat, data: Seq<u8>) -> Seq<u8> {
    let end = offset + data.len();
    let ext = if end > c.len() { resized(c, end) } else { c };
    ext.subrange(0, offset as int) + data + ext.subrange(end as int, ext.len() as int)
}

/// How many bytes content of length `len` gains when a write ends at `end`.
pub open spec fn growth(len: nat, end: nat) -> nat {
    if end > len {
        (end - len) as nat
    } else {
        0
    }
}

/// The bytes `[offset, offset + len)` of `c`, clamped to its length.
pub open spec fn read_range(c: Seq<u8>, offset: nat, len: nat) -> Seq<u8> {
    if offset >= c.len() {
        Seq::empty()
    } else if offset + len <= c.len() {
        c.subrange(offset as int, (offset + len) as int)
    } else {
        c.subrange(offset as int, c.len() as int)
    }
}

/// The quota cost of creating an entry called `name`: the entry record and
/// the name's bytes.
pub open spec fn entry_cost(name: &str) -> nat {
    size_of::<VirtualFile>() + name.len() as nat
}

/// A new empty file.
pub open spec fn new_file(now: u64) -> FileView {
    FileView { content: Seq::empty(), size: 0, is_directory: false, mtime: now }
}

/// A new directory charged `cost` bytes.
pub open spec fn new_dir(cost: nat, now: u64) -> FileView {
    FileView { content: Seq::empty(), size: cost as u64, is_directory: true, mtime: now }
}

/// A new symlink to `target`.
pub open spec fn new_link(target: Seq<u8>, now: u64) -> FileView {
    FileView { content: target, size: target.len() as u64, is_directory: false, mtime: now }
}

/// The attributes reported for a symlink.
pub open spec fn spec_link_attr(ino: u64, f: FileView) -> Attr {
    Attr {
        ino,
        size: f.size,
        kind: FileKind::Symlink,
        perm: SYMLINK_PERM,
        nlink: 1,
        atime: f.mtime,
        mtime: f.mtime,
    }
}

/// A size change given to setattr applies to files only.
pub open spec fn size_applies(f: FileView, size: Option<u64>) -> bool {
    size is Some && !f.is_directory
}

/// The size change given to setattr would break the byte quota or the
/// machine's address space.
pub open spec fn setattr_exceeds(used: nat, total: u64, f: FileView, size: Option<u64>) -> bool {
    &&& size_applies(f, size)
    &&& size->0 > f.size
    &&& (used + (size->0 - f.size) > total || size->0 > usize::MAX)
}

/// The entry after setattr: resized when a size applies, then stamped.
pub open spec fn setattr_file(f: FileView, size: Option<u64>, mtime: Option<u64>, now: u64) -> FileView {
    let applied = size_applies(f, size);
    FileView {
        content: if applied { resized(f.content, size->0 as nat) } else { f.content },
        size: if applied { size->0 } else { f.size },
        is_directory: f.is_directory,
        mtime: match mtime {
            Some(t) => t,
            None => if applied { now } else { f.mtime },
        },
    }
}

/// The attributes that setattr reports: mode and access time as given.
pub open spec fn setattr_attr(ino: u64, g: FileView, mode: Option<u32>, atime: Option<u64>) -> Attr {
    Attr {
        ino,
        size: g.size,
        kind: if g.is_directory { FileKind::Directory } else { FileKind::RegularFile },
        perm: match mode {
            Some(m) => #[verifier::truncate] (m as u16),
            None => if g.is_directory { DIR_PERM } else { FILE_PERM },
        },
        nlink: if g.is_directory { 2 } else { 1 },
        atime: match atime {
            Some(t) => t,
            None => g.mtime,
        },
        mtime: g.mtime,
    }
}

/// Truncates or zero-extends `c` to length `n`.
fn resize_content(c: &mut Vec<u8>, n: usize)
    ensures
        final(c)@ == resized(old(c)@, n as nat),
{
    if n <= c.len() {
        c.truncate(n);
    } else {
        let ghost c0 = c@;
        while c.len() < n
            invariant
                c0.len() <= c@.len() <= n,
                n > c0.len(),
                c@ == c0 + zeros((c@.len() - c0.len()) as nat),
            decreases n - c@.len(),
        {
            c.push(0);
            assert(c@ =~= c0 + zeros((c@.len() - c0.len()) as nat));
        }
    }
}

/// Copies `c[offset..min(len, offset + count))`.
fn copy_range(c: &Vec<u8>, offset: u64, count: u32) -> (r: Vec<u8>)
    ensures
        r@ == read_range(c@, offset as nat, count as nat),
{
    let mut r: Vec<u8> = Vec::new();
    if offset >= c.len() as u64 {
        return r;
    }
    let start = offset as usize;
    let end = if (count as usize) <= c.len() - start {
        start + count as usize
    } else {
        c.len()
    };
    let mut i: usize = start;
    while i < end
        invariant
            start <= i <= end <= c@.len(),
            r@ == c@.subrange(start as int, i as int),
        decreases end - i,
    {
        r.push(c[i]);
        i = i + 1;
        assert(r@ =~= c@.subrange(start as int, i as int));
    }
    r
}

/// The bytes `used + extra` would break the byte limit.
fn over_quota(fs: &VirtualFS, extra: u64) -> (r: bool)
    requires
        fs.wf(),
    ensures
        r == (fs.used_bytes() + extra > fs.total_space()),
{
    proof {
        fs.lemma_used_fits();
    }
    let used = fs.used();
    extra > fs.total_space_bytes() - used
}

/// Checks the name, the quota for `bytes` more, and the parent of a new entry.
fn admit_new(fs: &VirtualFS, parent: &String, name: &str, bytes: Option<u64>) -> (r: Result<(), FsError>)
    requires
        fs.wf(),
    ensures
        r == admission(*fs, parent@, name@, match bytes {
            Some(b) => b as int,
            None => u64::MAX + 1,
        }),
{
    if !is_valid_name(name) {
        return Err(FsError::InvalidPath);
    }
    match bytes {
        None => {
            return Err(FsError::OutOfSpace);
        },
        Some(b) => {
            if over_quota(fs, b) {
                return Err(FsError::OutOfSpace);
            }
        },
    }
    if fs.count() as u64 >= fs.max_files() {
        return Err(FsError::TooManyFiles);
    }
    if !fs.dir_exists(parent) {
        return Err(FsError::NotFound);
    }
    Ok(())
}

/// Whether creating `name` in `parent`, at `bytes` bytes, is admitted, and
/// the first check that refuses it if not.
pub open spec fn admission(fs: VirtualFS, parent: Seq<char>, name: Seq<char>, bytes: int) -> Result<(), FsError> {
    if !valid_name(name) {
        Err(FsError::InvalidPath)
    } else if fs.used_bytes() + bytes > fs.total_space() {
        Err(FsError::OutOfSpace)
    } else if fs.entry_count() + 1 > fs.file_limit() {
        Err(FsError::TooManyFiles)
    } else if !fs.is_dir_or_root(parent) {
        Err(FsError::NotFound)
    } else {
        Ok(())
    }
}

/// Whether a bulk insertion of `bytes` bytes at the full path `p` is
/// admitted, and the first check that refuses it if not: the last segment
/// must be a valid name and the path normalized, the bytes must fit once
/// the replaced entry is freed, an entry must fit, and the parent must be
/// the root or a directory.
pub open spec fn placement(fs: VirtualFS, p: Seq<char>, bytes: int) -> Result<(), FsError> {
    if !valid_name(base_name(p)) || join(parent_path(p), base_name(p)) != p {
        Err(FsError::InvalidPath)
    } else if fs.used_bytes() - fs.size_at(p) + bytes > fs.total_space() {
        Err(FsError::OutOfSpace)
    } else if fs.entry_count() + 1 > fs.file_limit() {
        Err(FsError::TooManyFiles)
    } else if !fs.is_dir_or_root(parent_path(p)) {
        Err(FsError::NotFound)
    } else {
        Ok(())
    }
}

/// The quota cost of a new entry called `name`, if it fits in a `u64`.
fn cost_of(name: &str) -> (r: Option<u64>)
    ensures
        match r {
            Some(c) => c as nat == entry_cost(name),
            None => entry_cost(name) > u64::MAX,
        },
{
    let base = core::mem::size_of::<VirtualFile>();
    (base as u64).checked_add(name.len() as u64)
}

impl VirtualFS {
    /// Updates the size (files only), modification time and reported mode
    /// and access time of the entry at `path`.
    pub fn setattr(
        &mut self,
        path: &str,
        size: Option<u64>,
        mtime: Option<u64>,
        mode: Option<u32>,
        atime: Option<u64>,
        now: u64,
    ) -> (r: Result<(Attr, Option<FSEvent>), FsError>)
        requires
            old(self).wf(),
        ensures
            final(self).wf(),
            final(self).total_space() == old(self).total_space(),
            final(self).file_limit() == old(self).file_limit(),
            !old(self)@.contains_key(path@) ==> r == Err::<(Attr, Option<FSEvent>), FsError>(FsError::NotFound)
                && final(self)@ == old(self)@,
            old(self)@.contains_key(path@) ==> {
                let f = old(self)@[path@];
                if setattr_exceeds(old(self).used_bytes(), old(self).total_space(), f, size) {
                    &&& r == Err::<(Attr, Option<FSEvent>), FsError>(FsError::OutOfSpace)
                    &&& final(self)@ == old(self)@
                } else {
                    let g = setattr_file(f, size, mtime, now);
                    &&& final(self)@ == old(self)@.insert(path@, g)
                    &&& r is Ok
                    &&& r->Ok_0.0 == setattr_attr(identity_of(path@), g, mode, atime)
                    &&& (r->Ok_0.1 is Some <==> size_applies(f, size))
                    &&& (r->Ok_0.1 matches Some(e) ==> e@ == EventView::Modified(path@, ObjectType::File))
                }
            },
    {
        let key = String::from_str(path);
        let (is_dir, cur_size, _cur_len) = match self.get(&key) {
            None => {
                return Err(FsError::NotFound);
            },
            Some(f) => (f.is_directory, f.size, f.content.len()),
        };
        proof {
            self.lemma_entries_wf(path@);
        }
        let applied = size.is_some() && !is_dir;
        if applied {
            let n = size.unwrap();
            if n > cur_size {
                if over_quota(self, n - cur_size) || n > usize::MAX as u64 {
                    return Err(FsError::OutOfSpace);
                }
            }
        }
        let mut f = match self.remove(&key) {
            Some(f) => f,
            None => {
                return Err(FsError::NotFound);
            },
        };
        if applied {
            let n = size.unwrap();
            assert(n <= usize::MAX) by {
                if n <= cur_size {
                    assert(old(self)@[path@].wf());
                }
            }
            resize_content(&mut f.content, n as usize);
            f.size = n;
            f.mtime = now;
        }
        match mtime {
            Some(t) => {
                f.mtime = t;
            },
            None => {},
        }
        let base = attr_of(identity(path), &f, f.mtime);
        let attr = Attr {
            perm: match mode {
                Some(m) => #[verifier::truncate] (m as u16),
                None => base.perm,
            },
            atime: match atime {
                Some(t) => t,
                None => base.atime,
            },
            ..base
        };
        let event = if applied {
            Some(FSEvent::Modified { path: key.clone(), object_type: ObjectType::File })
        } else {
            None
        };
        assert(f@ == setattr_file(old(self)@[path@], size, mtime, now));
        self.put(key, f);
        assert(self@ =~= old(self)@.insert(path@, f@));
        Ok((attr, event))
    }

    /// Writes `data` at `offset` into the file at `path`, zero-filling any
    /// gap past its end.
    pub fn write(&mut self, path: &str, offset: u64, data: &[u8], now: u64) -> (r: Result<
        (usize, FSEvent),
        FsError,
    >)
        requires
            old(self).wf(),
        ensures
            final(self).wf(),
            final(self).total_space() == old(self).total_space(),
            final(self).file_limit() == old(self).file_limit(),
            !old(self)@.contains_key(path@) || old(self)@[path@].is_directory ==> r == Err::<
                (usize, FSEvent),
                FsError,
            >(FsError::NotFound) && final(self)@ == old(self)@,
            old(self)@.contains_key(path@) && !old(self)@[path@].is_directory ==> {
                let f = old(self)@[path@];
                let end = offset + data@.len();
                if end > usize::MAX || old(self).used_bytes() + growth(f.content.len(), end as nat)
                    > old(self).total_space() {
                    &&& r == Err::<(usize, FSEvent), FsError>(FsError::OutOfSpace)
                    &&& final(self)@ == old(self)@
                } else {
                    let c = written(f.content, offset as nat, data@);
                    let g = FileView { content: c, size: c.len() as u64, is_directory: false, mtime: now };
                    &&& final(self)@ == old(self)@.insert(path@, g)
                    &&& r is Ok
                    &&& r->Ok_0.0 == data@.len()
                    &&& r->Ok_0.1@ == EventView::Modified(path@, ObjectType::File)
                }
            },
    {
        let key = String::from_str(path);
        let (is_dir, cur_len) = match self.get(&key) {
            None => {
                return Err(FsError::NotFound);
            },
            Some(f) => (f.is_directory, f.content.len()),
        };
        if is_dir {
            return Err(FsError::NotFound);
        }
        proof {
            self.lemma_entries_wf(path@);
        }
        let dl = data.len();
        if offset > usize::MAX as u64 || (offset as usize) > usize::MAX - dl {
            return Err(FsError::OutOfSpace);
        }
        let start = offset as usize;
        let end = start + dl;
        if end > cur_len && over_quota(self, (end - cur_len) as u64) {
            return Err(FsError::OutOfSpace);
        }
        let mut f = match self.remove(&key) {
            Some(f) => f,
            None => {
                return Err(FsError::NotFound);
            },
        };
        if end > cur_len {
            resize_content(&mut f.content, end);
        }
        let ghost ext = f.content@;
        let mut j: usize = 0;
        while j < dl
            invariant
                dl == data@.len(),
                end == start + dl,
                !f.is_directory,
                ext.len() >= end,
                j <= dl,
                f.content@ == ext.subrange(0, start as int) + data@.subrange(0, j as int) + ext.subrange(
                    start + j,
                    ext.len() as int,
                ),
            decreases dl - j,
        {
            f.content.set(start + j, data[j]);
            j = j + 1;
            assert(f.content@ =~= ext.subrange(0, start as int) + data@.subrange(0, j as int)
                + ext.subrange(start + j, ext.len() as int));
        }
        assert(data@.subrange(0, dl as int) =~= data@);
        assert(f.content@ =~= written(old(self)@[path@].content, offset as nat, data@));
        f.size = f.content.len() as u64;
        f.mtime = now;
        let event = FSEvent::Modified { path: key.clone(), object_type: ObjectType::File };
        self.put(key, f);
        assert(self@ =~= old(self)@.insert(path@, f@));
        Ok((dl, event))
    }

    /// Creates an empty file `name` in the directory `parent`.
    pub fn create(&mut self, parent: &str, name: &str, now: u64) -> (r: Result<(Attr, FSEvent), FsError>)
        requires
            old(self).wf(),
        ensures
            final(self).wf(),
            final(self).total_space() == old(self).total_space(),
            final(self).file_limit() == old(self).file_limit(),
            match admission(*old(self), parent@, name@, entry_cost(name) as int) {
                Err(e) => r == Err::<(Attr, FSEvent), FsError>(e) && final(self)@ == old(self)@,
                Ok(_) => {
                    let p = join(parent@, name@);
                    &&& final(self)@ == old(self)@.insert(p, new_file(now))
                    &&& r is Ok
                    &&& r->Ok_0.0 == spec_attr(identity_of(p), new_file(now), now)
                    &&& r->Ok_0.1@ == EventView::Created(p, ObjectType::File)
                },
            },
    {
        let parent = String::from_str(parent);
        let cost = cost_of(name);
        match admit_new(self, &parent, name, cost) {
            Err(e) => {
                return Err(e);
            },
            Ok(()) => {},
        }
        proof {
            self.lemma_used_fits();
        }
        let path = join_path(parent.as_str(), name);
        let file = VirtualFile { content: Vec::new(), size: 0, is_directory: false, mtime: now };
        let attr = attr_of(identity(path.as_str()), &file, now);
        let event = FSEvent::Created { path: path.clone(), object_type: ObjectType::File };
        proof {
            assert(file@ =~= new_file(now));
        }
        self.put(path, file);
        Ok((attr, event))
    }

    /// Creates a directory `name` in the directory `parent`; its size is the
    /// entry's quota cost.
    pub fn mkdir(&mut self, parent: &str, name: &str, now: u64) -> (r: Result<(Attr, FSEvent), FsError>)
        requires
            old(self).wf(),
        ensures
            final(self).wf(),
            final(self).total_space() == old(self).total_space(),
            final(self).file_limit() == old(self).file_limit(),
            match admission(*old(self), parent@, name@, entry_cost(name) as int) {
                Err(e) => r == Err::<(Attr, FSEvent), FsError>(e) && final(self)@ == old(self)@,
                Ok(_) => {
                    let p = join(parent@, name@);
                    let g = new_dir(entry_cost(name), now);
                    &&& final(self)@ == old(self)@.insert(p, g)
                    &&& r is Ok
                    &&& r->Ok_0.0 == spec_attr(identity_of(p), g, now)
                    &&& r->Ok_0.1@ == EventView::Created(p, ObjectType::Directory)
                },
            },
    {
        let parent = String::from_str(parent);
        let cost = cost_of(name);
        match admit_new(self, &parent, name, cost) {
            Err(e) => {
                return Err(e);
            },
            Ok(()) => {},
        }
        proof {
            self.lemma_used_fits();
        }
        let size = cost.unwrap();
        let path = join_path(parent.as_str(), name);
        let dir = VirtualFile { content: Vec::new(), size, is_directory: true, mtime: now };
        let attr = attr_of(identity(path.as_str()), &dir, now);
        let event = FSEvent::Created { path: path.clone(), object_type: ObjectType::Directory };
        proof {
            assert(dir@ =~= new_dir(entry_cost(name), now));
        }
        self.put(path, dir);
        Ok((attr, event))
    }

    /// Creates a symlink `name` in the directory `parent`: a file whose
    /// content is the bytes of `target`.
    pub fn symlink(&mut self, parent: &str, name: &str, target: &str, now: u64) -> (r: Result<
        (Attr, FSEvent),
        FsError,
    >)
        requires
            old(self).wf(),
        ensures
            final(self).wf(),
            final(self).total_space() == old(self).total_space(),
            final(self).file_limit() == old(self).file_limit(),
            match admission(*old(self), parent@, name@, target.spec_bytes().len() as int) {
                Err(e) => r == Err::<(Attr, FSEvent), FsError>(e) && final(self)@ == old(self)@,
                Ok(_) => {
                    let p = join(parent@, name@);
                    let g = new_link(target.spec_bytes(), now);
                    &&& final(self)@ == old(self)@.insert(p, g)
                    &&& r is Ok
                    &&& r->Ok_0.0 == spec_link_attr(identity_of(p), g)
                    &&& r->Ok_0.1@ == EventView::Created(p, ObjectType::File)
                },
            },
    {
        let parent = String::from_str(parent);
        let content = slice_to_vec(target.as_bytes());
        let size = content.len() as u64;
        match admit_new(self, &parent, name, Some(size)) {
            Err(e) => {
                return Err(e);
            },
            Ok(()) => {},
        }
        proof {
            self.lemma_used_fits();
        }
        let path = join_path(parent.as_str(), name);
        let link = VirtualFile { content, size, is_directory: false, mtime: now };
        let attr = Attr {
            ino: identity(path.as_str()),
            size,
            kind: FileKind::Symlink,
            perm: SYMLINK_PERM,
            nlink: 1,
            atime: now,
            mtime: now,
        };
        let event = FSEvent::Created { path: path.clone(), object_type: ObjectType::File };
        proof {
            assert(link@ =~= new_link(target.spec_bytes(), now));
        }
        self.put(path, link);
        Ok((attr, event))
    }

    /// The attributes of the entry `name` in the directory `parent`.
    pub fn lookup(&self, parent: &str, name: &str) -> (r: Result<Attr, FsError>)
        requires
            self.wf(),
        ensures
            ({
                let p = join(parent@, name@);
                if self.is_dir_or_root(parent@) && self@.contains_key(p) {
                    r == Ok::<Attr, FsError>(spec_attr(identity_of(p), self@[p], self@[p].mtime))
                } else {
                    r == Err::<Attr, FsError>(FsError::NotFound)
                }
            }),
    {
        let parent = String::from_str(parent);
        if !self.dir_exists(&parent) {
            return Err(FsError::NotFound);
        }
        let path = join_path(parent.as_str(), name);
        match self.get(&path) {
            Some(f) => Ok(attr_of(identity(path.as_str()), f, f.mtime)),
            None => Err(FsError::NotFound),
        }
    }

    /// The attributes of the root (stamped `now`) or of the entry at `path`.
    pub fn getattr(&self, path: &str, now: u64) -> (r: Result<Attr, FsError>)
        requires
            self.wf(),
        ensures
            path@.len() == 0 ==> r == Ok::<Attr, FsError>(spec_root_attr(now)),
            path@.len() > 0 ==> if self@.contains_key(path@) {
                r == Ok::<Attr, FsError>(spec_attr(identity_of(path@), self@[path@], self@[path@].mtime))
            } else {
                r == Err::<Attr, FsError>(FsError::NotFound)
            },
    {
        if path.unicode_len() == 0 {
            return Ok(
                Attr {
                    ino: identity(path),
                    size: 0,
                    kind: FileKind::Directory,
                    perm: DIR_PERM,
                    nlink: 2,
                    atime: now,
                    mtime: now,
                },
            );
        }
        let key = String::from_str(path);
        match self.get(&key) {
            Some(f) => Ok(attr_of(identity(path), f, f.mtime)),
            None => Err(FsError::NotFound),
        }
    }

    /// Up to `size` bytes of the file at `path`, from `offset` on.
    pub fn read(&self, path: &str, offset: u64, size: u32) -> (r: Result<Vec<u8>, FsError>)
        requires
            self.wf(),
        ensures
            self@.contains_key(path@) && !self@[path@].is_directory ==> r is Ok && r->Ok_0@ == read_range(
                self@[path@].content,
                offset as nat,
                size as nat,
            ),
            !self@.contains_key(path@) || self@[path@].is_directory ==> r == Err::<Vec<u8>, FsError>(
                FsError::NotFound,
            ),
    {
        let key = String::from_str(path);
        match self.get(&key) {
            Some(f) => {
                if f.is_directory {
                    Err(FsError::NotFound)
                } else {
                    Ok(copy_range(&f.content, offset, size))
                }
            },
            None => Err(FsError::NotFound),
        }
    }

    /// The content of the entry at `path`, verbatim: a symlink's target.
    pub fn readlink(&self, path: &str) -> (r: Result<Vec<u8>, FsError>)
        requires
            self.wf(),
        ensures
            self@.contains_key(path@) ==> r is Ok && r->Ok_0@ == self@[path@].content,
            !self@.contains_key(path@) ==> r == Err::<Vec<u8>, FsError>(FsError::NotFound),
    {
        let key = String::from_str(path);
        match self.get(&key) {
            Some(f) => Ok(slice_to_vec(f.content.as_slice())),
            None => Err(FsError::NotFound),
        }
    }

    /// Removes the file `name` from the directory `parent`.
    pub fn unlink(&mut self, parent: &str, name: &str) -> (r: Result<FSEvent, FsError>)
        requires
            old(self).wf(),
        ensures
            final(self).wf(),
            final(self).total_space() == old(self).total_space(),
            final(self).file_limit() == old(self).file_limit(),
            ({
                let p = join(parent@, name@);
                if old(self).is_dir_or_root(parent@) && old(self)@.contains_key(p)
                    && !old(self)@[p].is_directory {
                    &&& final(self)@ == old(self)@.remove(p)
                    &&& r is Ok
                    &&& r->Ok_0@ == EventView::Deleted(p, ObjectType::File)
                } else {
                    &&& r == Err::<FSEvent, FsError>(FsError::NotFound)
                    &&& final(self)@ == old(self)@
                }
            }),
    {
        let parent = String::from_str(parent);
        if !self.dir_exists(&parent) {
            return Err(FsError::NotFound);
        }
        let path = join_path(parent.as_str(), name);
        match self.get(&path) {
            None => {
                return Err(FsError::NotFound);
            },
            Some(f) => {
                if f.is_directory {
                    return Err(FsError::NotFound);
                }
            },
        }
        let event = FSEvent::Deleted { path: path.clone(), object_type: ObjectType::File };
        let _ = self.remove(&path);
        Ok(event)
    }

    /// Removes the empty directory `name` from the directory `parent`.
    pub fn rmdir(&mut self, parent: &str, name: &str) -> (r: Result<FSEvent, FsError>)
        requires
            old(self).wf(),
        ensures
            final(self).wf(),
            final(self).total_space() == old(self).total_space(),
            final(self).file_limit() == old(self).file_limit(),
            ({
                let p = join(parent@, name@);
                if !old(self).is_dir_or_root(parent@) || !old(self)@.contains_key(p) {
                    r == Err::<FSEvent, FsError>(FsError::NotFound) && final(self)@ == old(self)@
                } else if !old(self)@[p].is_directory {
                    r == Err::<FSEvent, FsError>(FsError::NotADirectory) && final(self)@ == old(self)@
                } else if old(self).has_desc(p) {
                    r == Err::<FSEvent, FsError>(FsError::DirectoryNotEmpty) && final(self)@ == old(self)@
                } else {
                    &&& final(self)@ == old(self)@.remove(p)
                    &&& r is Ok
                    &&& r->Ok_0@ == EventView::Deleted(p, ObjectType::Directory)
                }
            }),
    {
        let parent = String::from_str(parent);
        if !self.dir_exists(&parent) {
            return Err(FsError::NotFound);
        }
        let path = join_path(parent.as_str(), name);
        match self.get(&path) {
            None => {
                return Err(FsError::NotFound);
            },
            Some(f) => {
                if !f.is_directory {
                    return Err(FsError::NotADirectory);
                }
            },
        }
        if self.has_descendant(path.as_str()) {
            return Err(FsError::DirectoryNotEmpty);
        }
        let event = FSEvent::Deleted { path: path.clone(), object_type: ObjectType::Directory };
        let _ = self.remove(&path);
        Ok(event)
    }

    /// `.`, `..` and one line for each direct child of the directory `path`.
    pub fn readdir(&self, path: &str) -> (r: Result<Vec<DirEntry>, FsError>)
        requires
            self.wf(),
        ensures
            !self.is_dir_or_root(path@) ==> r == Err::<Vec<DirEntry>, FsError>(FsError::NotADirectory),
            self.is_dir_or_root(path@) ==> r is Ok && {
                let v = r->Ok_0@;
                &&& v.len() >= 2
                &&& v[0]@ == DirEntryView { ino: identity_of(path@), is_directory: true, name: seq!['.'] }
                &&& v[1]@ == DirEntryView {
                    ino: identity_of(parent_path(path@)),
                    is_directory: true,
                    name: seq!['.', '.'],
                }
                &&& forall|j: int| 2 <= j < v.len() ==> self.lists_child(#[trigger] v[j]@, path@)
                &&& forall|k: Seq<char>|
                    #[trigger] self@.contains_key(k) && is_child(k, path@) ==> exists|j: int|
                        2 <= j < v.len() && v[j]@ == self.listed(k, path@)
                &&& forall|a: int, b: int|
                    2 <= a < v.len() && 2 <= b < v.len() && a != b ==> #[trigger] v[a]@.name
                        != #[trigger] v[b]@.name
            },
    {
        let key = String::from_str(path);
        if !self.dir_exists(&key) {
            return Err(FsError::NotADirectory);
        }
        let (up, _) = split_path(path);
        let dot = String::from_str(".");
        let dotdot = String::from_str("..");
        proof {
            reveal_strlit(".");
            reveal_strlit("..");
            assert(dot@ =~= seq!['.']);
            assert(dotdot@ =~= seq!['.', '.']);
        }
        let mut v: Vec<DirEntry> = Vec::new();
        v.push(DirEntry { ino: identity(path), is_directory: true, name: dot });
        v.push(DirEntry { ino: identity(up.as_str()), is_directory: true, name: dotdot });
        let mut children = self.children(path);
        let ghost c = children@;
        let ghost head = v@;
        v.append(&mut children);
        assert(v@ =~= head + c);
        assert forall|j: int| 2 <= j < v@.len() implies self.lists_child(#[trigger] v@[j]@, path@) by {
            assert(v@[j] == c[j - 2]);
        }
        assert forall|k: Seq<char>| #[trigger] self@.contains_key(k) && is_child(k, path@) implies exists|j: int|
            2 <= j < v@.len() && v@[j]@ == self.listed(k, path@) by {
            let j = choose|j: int| 0 <= j < c.len() && c[j]@ == self.listed(k, path@);
            assert(v@[j + 2] == c[j]);
        }
        assert forall|a: int, b: int|
            2 <= a < v@.len() && 2 <= b < v@.len() && a != b implies #[trigger] v@[a]@.name
            != #[trigger] v@[b]@.name by {
            assert(v@[a] == c[a - 2]);
            assert(v@[b] == c[b - 2]);
        }
        Ok(v)
    }

    /// Adds the file `path` with `content`, replacing what was there; its
    /// parent must be the root or a directory.
    pub fn add_file(&mut self, path: &str, content: Vec<u8>, now: u64) -> (r: Result<FSEvent, FsError>)
        requires
            old(self).wf(),
        ensures
            final(self).wf(),
            final(self).total_space() == old(self).total_space(),
            final(self).file_limit() == old(self).file_limit(),
            match placement(*old(self), path@, content@.len() as int) {
                Err(e) => r == Err::<FSEvent, FsError>(e) && final(self)@ == old(self)@,
                Ok(_) => {
                    &&& final(self)@ == old(self)@.insert(
                        path@,
                        FileView { content: content@, size: content@.len() as u64, is_directory: false, mtime: now },
                    )
                    &&& r is Ok
                    &&& r->Ok_0@ == EventView::Created(path@, ObjectType::File)
                },
            },
    {
        let size = content.len() as u64;
        let key = match self.admit_path(path, size) {
            Err(e) => {
                return Err(e);
            },
            Ok(k) => k,
        };
        let file = VirtualFile { content, size, is_directory: false, mtime: now };
        let event = FSEvent::Created { path: key.clone(), object_type: ObjectType::File };
        self.put(key, file);
        Ok(event)
    }

    /// Adds the directory `path`, replacing what was there; its parent must
    /// be the root or a directory.
    pub fn add_directory(&mut self, path: &str, now: u64) -> (r: Result<FSEvent, FsError>)
        requires
            old(self).wf(),
        ensures
            final(self).wf(),
            final(self).total_space() == old(self).total_space(),
            final(self).file_limit() == old(self).file_limit(),
            match placement(*old(self), path@, 0) {
                Err(e) => r == Err::<FSEvent, FsError>(e) && final(self)@ == old(self)@,
                Ok(_) => {
                    &&& final(self)@ == old(self)@.insert(
                        path@,
                        FileView { content: Seq::empty(), size: 0, is_directory: true, mtime: now },
                    )
                    &&& r is Ok
                    &&& r->Ok_0@ == EventView::Created(path@, ObjectType::Directory)
                },
            },
    {
        let key = match self.admit_path(path, 0) {
            Err(e) => {
                return Err(e);
            },
            Ok(k) => k,
        };
        let dir = VirtualFile { content: Vec::new(), size: 0, is_directory: true, mtime: now };
        assert(dir@.content =~= Seq::<u8>::empty());
        let event = FSEvent::Created { path: key.clone(), object_type: ObjectType::Directory };
        self.put(key, dir);
        Ok(event)
    }

    /// Checks a full path for a bulk insertion of `bytes` bytes.
    fn admit_path(&self, path: &str, bytes: u64) -> (r: Result<String, FsError>)
        requires
            self.wf(),
        ensures
            match r {
                Ok(k) => placement(*self, path@, bytes as int) is Ok && k@ == path@,
                Err(e) => placement(*self, path@, bytes as int) == Err::<(), FsError>(e),
            },
    {
        let (up, base) = split_path(path);
        let key = String::from_str(path);
        let rebuilt = join_path(up.as_str(), base.as_str());
        if !is_valid_name(base.as_str()) || !rebuilt.eq(&key) {
            return Err(FsError::InvalidPath);
        }
        proof {
            self.lemma_used_fits();
        }
        let freed = match self.get(&key) {
            Some(f) => f.size,
            None => 0,
        };
        proof {
            if self@.contains_key(path@) {
                self.lemma_size_le_used(path@);
            }
        }
        let used = self.used();
        if bytes > self.total_space_bytes() - (used - freed) {
            return Err(FsError::OutOfSpace);
        }
        if self.count() as u64 >= self.max_files() {
            return Err(FsError::TooManyFiles);
        }
        if !self.dir_exists(&up) {
            return Err(FsError::NotFound);
        }
        Ok(key)
    }

    /// Removes the entry at `path`, if there is one.
    pub fn remove_entry(&mut self, path: &str) -> (r: Option<FSEvent>)
        requires
            old(self).wf(),
        ensures
            final(self).wf(),
            final(self).total_space() == old(self).total_space(),
            final(self).file_limit() == old(self).file_limit(),
            final(self)@ == old(self)@.remove(path@),
            old(self)@.contains_key(path@) ==> r is Some && r->0@ == EventView::Deleted(
                path@,
                old(self)@[path@].object_type(),
            ),
            !old(self)@.contains_key(path@) ==> r is None,
    {
        let key = String::from_str(path);
        match self.remove(&key) {
            Some(f) => {
                let object_type = f.get_type();
                Some(FSEvent::Deleted { path: key, object_type })
            },
            None => {
                assert(old(self)@.remove(path@) =~= old(self)@);
                None
            },
        }
    }

    /// Renames the entry `name` of the directory `parent` to `new_name` in
    /// `new_parent`. A directory takes everything below it along; whatever
    /// the new paths held is replaced.
    pub fn rename(&mut self, parent: &str, name: &str, new_parent: &str, new_name: &str) -> (r: Result<
        (FSEvent, FSEvent),
        FsError,
    >)
        requires
            old(self).wf(),
        ensures
            final(self).wf(),
            final(self).total_space() == old(self).total_space(),
            final(self).file_limit() == old(self).file_limit(),
            ({
                let o = join(parent@, name@);
                let n = join(new_parent@, new_name@);
                if !old(self).is_dir_or_root(parent@) || !old(self).is_dir_or_root(new_parent@)
                    || !old(self)@.contains_key(o) {
                    r == Err::<(FSEvent, FSEvent), FsError>(FsError::NotFound) && final(self)@ == old(self)@
                } else if !valid_name(new_name@) || is_desc(n, o) {
                    r == Err::<(FSEvent, FSEvent), FsError>(FsError::InvalidPath) && final(self)@ == old(self)@
                } else {
                    let t = old(self)@[o].object_type();
                    &&& final(self)@ == renamed(old(self)@, o, n)
                    &&& r is Ok
                    &&& r->Ok_0.0@ == EventView::Deleted(o, t)
                    &&& r->Ok_0.1@ == EventView::Created(n, t)
                }
            }),
    {
        let parent = String::from_str(parent);
        let new_parent = String::from_str(new_parent);
        if !self.dir_exists(&parent) || !self.dir_exists(&new_parent) {
            return Err(FsError::NotFound);
        }
        let old_path = join_path(parent.as_str(), name);
        let new_path = join_path(new_parent.as_str(), new_name);
        let object_type = match self.get(&old_path) {
            None => {
                return Err(FsError::NotFound);
            },
            Some(f) => f.get_type(),
        };
        if !is_valid_name(new_name) || is_strict_descendant(new_path.as_str(), old_path.as_str()) {
            return Err(FsError::InvalidPath);
        }
        self.move_tree(&old_path, &new_path);
        let deleted = FSEvent::Deleted { path: old_path, object_type };
        let created = FSEvent::Created { path: new_path, object_type };
        Ok((deleted, created))
    }
}

} // verus!
