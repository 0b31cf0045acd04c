//! The entry store: a flat map from normalized path to entry, with the
//! capacity it was built with, identity resolution and quota totals.
use crate::common::{DirEntry, DirEntryView, FileView, StatFs, VirtualFile};
use crate::identity::{identity, identity_of, ROOT_ID};
use crate::paths::{
    child_name, child_name_of, is_child, is_desc, is_direct_child, is_strict_descendant, join,
    lemma_rebase_desc, rebase, rebase_path,
};
use vstd::prelude::*;

verus! {

/// One stored entry and the path it is stored under.
pub struct Entry {
    pub path: String,
    pub file: VirtualFile,
}

/// The engine's store. Its value is a map from path to entry; the byte and
/// entry limits are fixed when it is built and hold in every reachable state.
pub struct VirtualFS {
    pub(crate) entries: Vec<Entry>,
    pub(crate) total_space_bytes: u64,
    pub(crate) max_files: u64,
    pub(crate) files: Ghost<Map<Seq<char>, FileView>>,
}

/// The sum of the sizes of a sequence of entries.
pub open spec fn sum_sizes(s: Seq<FileView>) -> nat
    decreases s.len(),
{
    if s.len() == 0 {
        0
    } else {
        sum_sizes(s.drop_last()) + s.last().size as nat
    }
}

pub proof fn lemma_sum_push(s: Seq<FileView>, x: FileView)
    ensures
        sum_sizes(s.push(x)) == sum_sizes(s) + x.size,
{
    assert(s.push(x).drop_last() =~= s);
}

pub proof fn lemma_sum_update(s: Seq<FileView>, i: int, x: FileView)
    requires
        0 <= i < s.len(),
    ensures
        sum_sizes(s.update(i, x)) + s[i].size == sum_sizes(s) + x.size,
    decreases s.len(),
{
    if i == s.len() - 1 {
        assert(s.update(i, x).drop_last() =~= s.drop_last());
    } else {
        assert(s.update(i, x).drop_last() =~= s.drop_last().update(i, x));
        lemma_sum_update(s.drop_last(), i, x);
    }
}

pub proof fn lemma_sum_remove(s: Seq<FileView>, i: int)
    requires
        0 <= i < s.len(),
    ensures
        sum_sizes(s.remove(i)) + s[i].size == sum_sizes(s),
    decreases s.len(),
{
    if i == s.len() - 1 {
        assert(s.remove(i) =~= s.drop_last());
    } else {
        assert(s.remove(i).drop_last() =~= s.drop_last().remove(i));
        lemma_sum_remove(s.drop_last(), i);
    }
}

pub proof fn lemma_sum_prefix(s: Seq<FileView>, i: int)
    requires
        0 <= i <= s.len(),
    ensures
        sum_sizes(s.subrange(0, i)) <= sum_sizes(s),
    decreases s.len(),
{
    if i == s.len() {
        assert(s.subrange(0, i) =~= s);
    } else {
        assert(s.drop_last().subrange(0, i) =~= s.subrange(0, i));
        lemma_sum_prefix(s.drop_last(), i);
    }
}

/// A direct child is its directory joined with its listed name.
pub proof fn lemma_join_child(k: Seq<char>, d: Seq<char>)
    requires
        is_child(k, d),
    ensures
        join(d, child_name(k, d)) == k,
{
    if d.len() > 0 {
        assert(d + seq!['/'] + k.subrange(d.len() as int + 1, k.len() as int) =~= k);
    }
}

/// The files of a sequence of entries.
pub open spec fn files_of(s: Seq<Entry>) -> Seq<FileView> {
    s.map_values(|e: Entry| e.file@)
}

/// After a rename of the directory `o` to `n`, the path `x` holds what was
/// stored at the corresponding path below `o`.
pub open spec fn moved_below(m: Map<Seq<char>, FileView>, o: Seq<char>, n: Seq<char>, x: Seq<char>) -> bool {
    is_desc(x, n) && m.contains_key(rebase(x, n, o))
}

/// The store `m` after the entry `o` is renamed to `n`. `n` takes `o`'s
/// entry; when `o` is a directory, every path below it moves below `n`;
/// entries that these replace are dropped; everything else stays.
pub open spec fn renamed(m: Map<Seq<char>, FileView>, o: Seq<char>, n: Seq<char>) -> Map<Seq<char>, FileView> {
    let dir = m[o].is_directory;
    Map::new(
        |x: Seq<char>|
            x == n || (dir && moved_below(m, o, n, x)) || (m.contains_key(x) && x != o && !(dir && is_desc(
                x,
                o,
            ))),
        |x: Seq<char>|
            if x == n {
                m[o]
            } else if dir && moved_below(m, o, n, x) {
                m[rebase(x, n, o)]
            } else {
                m[x]
            },
    )
}

/// The sum of the sizes of the entries of `m`.
pub open spec fn map_sum(m: Map<Seq<char>, FileView>) -> nat
    decreases m.dom().len(),
{
    if m.dom().finite() && m.dom().len() > 0 {
        let k = m.dom().choose();
        m[k].size as nat + map_sum(m.remove(k))
    } else {
        0
    }
}

/// Any entry can be taken out of the sum first.
pub proof fn lemma_map_sum_remove(m: Map<Seq<char>, FileView>, k: Seq<char>)
    requires
        m.dom().finite(),
        m.contains_key(k),
    ensures
        map_sum(m) == m[k].size + map_sum(m.remove(k)),
    decreases m.dom().len(),
{
    assert(m.dom().len() > 0) by {
        if m.dom().len() == 0 {
            assert(m.dom() =~= Set::empty());
        }
    }
    let c = m.dom().choose();
    if c != k {
        lemma_map_sum_remove(m.remove(c), k);
        lemma_map_sum_remove(m.remove(k), c);
        assert(m.remove(c).remove(k) =~= m.remove(k).remove(c));
    }
}

/// Storing `v` under `k` replaces what `k` held in the sum.
pub proof fn lemma_map_sum_insert(m: Map<Seq<char>, FileView>, k: Seq<char>, v: FileView)
    requires
        m.dom().finite(),
    ensures
        map_sum(m.insert(k, v)) + (if m.contains_key(k) { m[k].size as nat } else { 0 }) == map_sum(m) + v.size,
{
    lemma_map_sum_remove(m.insert(k, v), k);
    if m.contains_key(k) {
        lemma_map_sum_remove(m, k);
        assert(m.insert(k, v).remove(k) =~= m.remove(k));
    } else {
        assert(m.insert(k, v).remove(k) =~= m);
    }
}

/// Default byte capacity: 4 GiB.
pub const DEFAULT_TOTAL_SPACE_BYTES: u64 = 4294967296;

/// Default entry capacity.
pub const DEFAULT_MAX_FILES: u64 = 1048576;

/// Block size used for capacity reports only.
pub const BLOCK_SIZE: u64 = 4096;

/// Longest name reported by capacity reports.
pub const MAX_NAME_LENGTH: u32 = 255;

/// Number of whole blocks needed to hold `bytes`.
pub open spec fn blocks_for(bytes: nat) -> nat {
    ((bytes + BLOCK_SIZE - 1) / BLOCK_SIZE as int) as nat
}

/// `a - b`, or 0 when `b` exceeds `a`.
pub open spec fn minus_or_zero(a: nat, b: nat) -> nat {
    if b <= a {
        (a - b) as nat
    } else {
        0
    }
}

/// The capacity report of a store with the given totals and limits.
pub open spec fn spec_statfs(total_space: u64, max_files: u64, used: nat, count: nat) -> StatFs {
    StatFs {
        blocks: total_space / BLOCK_SIZE,
        free_blocks: minus_or_zero((total_space / BLOCK_SIZE) as nat, blocks_for(used)) as u64,
        available_blocks: minus_or_zero((total_space / BLOCK_SIZE) as nat, blocks_for(used)) as u64,
        files: max_files,
        free_files: minus_or_zero(max_files as nat, count) as u64,
        block_size: BLOCK_SIZE as u32,
        max_name_length: MAX_NAME_LENGTH,
    }
}

impl View for VirtualFS {
    type V = Map<Seq<char>, FileView>;

    closed spec fn view(&self) -> Map<Seq<char>, FileView> {
        self.files@
    }
}

impl VirtualFS {
    /// The stored path at position `i`.
    pub closed spec fn key(&self, i: int) -> Seq<char> {
        self.entries@[i].path@
    }

    /// The files of the entries, in store order.
    pub closed spec fn sizes(&self) -> Seq<FileView> {
        self.entries@.map_values(|e: Entry| e.file@)
    }

    /// The sum of the sizes of all entries.
    pub open spec fn used_bytes(&self) -> nat {
        map_sum(self@)
    }

    /// The number of entries.
    pub open spec fn entry_count(&self) -> nat {
        self@.dom().len()
    }

    /// The byte limit.
    pub closed spec fn total_space(&self) -> u64 {
        self.total_space_bytes
    }

    /// The entry-count limit.
    pub closed spec fn file_limit(&self) -> u64 {
        self.max_files
    }

    /// The store's representation matches its map, keys are unique, every
    /// entry is well formed, and both limits hold.
    pub closed spec fn wf(&self) -> bool {
        &&& forall|i: int|
            0 <= i < self.entries@.len() ==> {
                &&& #[trigger] self.files@.contains_key(self.entries@[i].path@)
                &&& self.files@[self.entries@[i].path@] == self.entries@[i].file@
                &&& self.entries@[i].file@.wf()
            }
        &&& forall|i: int, j: int|
            0 <= i < self.entries@.len() && 0 <= j < self.entries@.len() && i != j
                ==> #[trigger] self.entries@[i].path@ != #[trigger] self.entries@[j].path@
        &&& forall|k: Seq<char>|
            #[trigger] self.files@.contains_key(k) ==> exists|i: int|
                0 <= i < self.entries@.len() && self.entries@[i].path@ == k
        &&& self.files@.dom().finite()
        &&& self.files@.dom().len() == self.entries@.len()
        &&& sum_sizes(self.sizes()) == map_sum(self.files@)
        &&& self.used_bytes() <= self.total_space_bytes
        &&& self.entries@.len() <= self.max_files
    }

    /// Every stored entry is well formed.
    pub proof fn lemma_entries_wf(&self, k: Seq<char>)
        requires
            self.wf(),
            self@.contains_key(k),
        ensures
            self@[k].wf(),
            self.used_bytes() <= self.total_space(),
            self.entry_count() <= self.file_limit(),
    {
        let i = choose|i: int| 0 <= i < self.entries@.len() && self.entries@[i].path@ == k;
        assert(self.files@.contains_key(self.entries@[i].path@));
    }

    /// The byte total never exceeds the byte limit.
    pub proof fn lemma_used_fits(&self)
        requires
            self.wf(),
        ensures
            self.used_bytes() <= self.total_space(),
            self.entry_count() <= self.file_limit(),
    {
    }

    /// No entry is larger than the byte total.
    pub proof fn lemma_size_le_used(&self, k: Seq<char>)
        requires
            self.wf(),
            self@.contains_key(k),
        ensures
            self@[k].size <= self.used_bytes(),
    {
        let i = choose|i: int| 0 <= i < self.entries@.len() && self.entries@[i].path@ == k;
        assert(self.files@.contains_key(self.entries@[i].path@));
        let s = self.sizes();
        lemma_sum_remove(s, i);
    }

    /// An empty store with the default limits.
    pub fn new() -> (r: Self)
        ensures
            r.wf(),
            r@ == Map::<Seq<char>, FileView>::empty(),
            r.used_bytes() == 0,
            r.total_space() == DEFAULT_TOTAL_SPACE_BYTES,
            r.file_limit() == DEFAULT_MAX_FILES,
    {
        Self::with_size(DEFAULT_TOTAL_SPACE_BYTES, DEFAULT_MAX_FILES)
    }

    /// An empty store with the given limits.
    pub fn with_size(total_space_bytes: u64, max_files: u64) -> (r: Self)
        ensures
            r.wf(),
            r@ == Map::<Seq<char>, FileView>::empty(),
            r.used_bytes() == 0,
            r.total_space() == total_space_bytes,
            r.file_limit() == max_files,
    {
        let r = VirtualFS {
            entries: Vec::new(),
            total_space_bytes,
            max_files,
            files: Ghost(Map::empty()),
        };
        assert(r.sizes() =~= Seq::<FileView>::empty());
        assert(r.files@.dom() =~= Set::<Seq<char>>::empty());
        r
    }

    /// The byte limit.
    pub fn total_space_bytes(&self) -> (r: u64)
        ensures
            r == self.total_space(),
    {
        self.total_space_bytes
    }

    /// The entry-count limit.
    pub fn max_files(&self) -> (r: u64)
        ensures
            r == self.file_limit(),
    {
        self.max_files
    }

    /// The position of `path` in the store.
    pub(crate) fn find(&self, path: &String) -> (r: Option<usize>)
        requires
            self.wf(),
        ensures
            match r {
                Some(i) => i < self.entries@.len() && self.key(i as int) == path@,
                None => !self@.contains_key(path@),
            },
    {
        let mut i: usize = 0;
        while i < self.entries.len()
            invariant
                self.wf(),
                i <= self.entries@.len(),
                forall|j: int| 0 <= j < i ==> self.entries@[j].path@ != path@,
            decreases self.entries@.len() - i,
        {
            if self.entries[i].path.eq(path) {
                return Some(i);
            }
            i = i + 1;
        }
        None
    }

    /// The sum of the sizes of all entries, from a fresh scan.
    pub fn used(&self) -> (r: u64)
        requires
            self.wf(),
        ensures
            r == self.used_bytes(),
    {
        let ghost s = self.sizes();
        let mut acc: u64 = 0;
        let mut i: usize = 0;
        while i < self.entries.len()
            invariant
                self.wf(),
                s == self.sizes(),
                s.len() == self.entries@.len(),
                i <= self.entries@.len(),
                acc == sum_sizes(s.subrange(0, i as int)),
            decreases self.entries@.len() - i,
        {
            proof {
                assert(s.subrange(0, i + 1).drop_last() =~= s.subrange(0, i as int));
                lemma_sum_prefix(s, i + 1);
            }
            acc = acc + self.entries[i].file.size;
            i = i + 1;
        }
        assert(s.subrange(0, i as int) =~= s);
        acc
    }

    /// The path that `ino` names: the root, or the first entry whose
    /// identity is `ino`.
    pub fn resolve(&self, ino: u64) -> (r: Option<String>)
        requires
            self.wf(),
        ensures
            ino == ROOT_ID ==> (r matches Some(p) && p@.len() == 0),
            ino != ROOT_ID ==> match r {
                Some(p) => self@.contains_key(p@) && identity_of(p@) == ino,
                None => forall|k: Seq<char>| #[trigger] self@.contains_key(k) ==> identity_of(k) != ino,
            },
    {
        if ino == ROOT_ID {
            return Some(String::new());
        }
        let mut i: usize = 0;
        while i < self.entries.len()
            invariant
                self.wf(),
                ino != ROOT_ID,
                i <= self.entries@.len(),
                forall|j: int| 0 <= j < i ==> identity_of(#[trigger] self.entries@[j].path@) != ino,
            decreases self.entries@.len() - i,
        {
            if identity(self.entries[i].path.as_str()) == ino {
                assert(self.files@.contains_key(self.entries@[i as int].path@));
                return Some(self.entries[i].path.clone());
            }
            i = i + 1;
        }
        None
    }

    /// The directory path that `ino` names: the root, or the first directory
    /// entry whose identity is `ino`.
    pub fn resolve_dir(&self, ino: u64) -> (r: Option<String>)
        requires
            self.wf(),
        ensures
            ino == ROOT_ID ==> (r matches Some(p) && p@.len() == 0),
            ino != ROOT_ID ==> match r {
                Some(p) => self@.contains_key(p@) && self@[p@].is_directory && identity_of(p@) == ino,
                None => forall|k: Seq<char>|
                    #[trigger] self@.contains_key(k) && self@[k].is_directory ==> identity_of(k) != ino,
            },
    {
        if ino == ROOT_ID {
            return Some(String::new());
        }
        let mut i: usize = 0;
        while i < self.entries.len()
            invariant
                self.wf(),
                ino != ROOT_ID,
                i <= self.entries@.len(),
                forall|j: int|
                    0 <= j < i ==> !self.entries@[j].file.is_directory || identity_of(
                        #[trigger] self.entries@[j].path@,
                    ) != ino,
            decreases self.entries@.len() - i,
        {
            if self.entries[i].file.is_directory && identity(self.entries[i].path.as_str()) == ino {
                assert(self.files@.contains_key(self.entries@[i as int].path@));
                return Some(self.entries[i].path.clone());
            }
            i = i + 1;
        }
        None
    }

    /// The size that replacing `path` frees: the current entry's, or 0.
    pub open spec fn size_at(&self, path: Seq<char>) -> nat {
        if self@.contains_key(path) {
            self@[path].size as nat
        } else {
            0
        }
    }

    /// Stores `file` under `path`, replacing what was there.
    #[verifier::rlimit(30)]
    pub(crate) fn put(&mut self, path: String, file: VirtualFile)
        requires
            old(self).wf(),
            file@.wf(),
            old(self).used_bytes() - old(self).size_at(path@) + file.size <= old(self).total_space(),
            old(self).entry_count() + 1 <= old(self).file_limit(),
        ensures
            final(self).wf(),
            final(self)@ == old(self)@.insert(path@, file@),
            final(self).used_bytes() + old(self).size_at(path@) == old(self).used_bytes() + file.size,
            final(self).entry_count() == old(self).entry_count() + if old(self)@.contains_key(path@) {
                0int
            } else {
                1int
            },
            final(self).total_space() == old(self).total_space(),
            final(self).file_limit() == old(self).file_limit(),
    {
        let ghost old_sizes = self.sizes();
        let ghost key = path@;
        let ghost fv = file@;
        match self.find(&path) {
            Some(i) => {
                proof {
                    assert(self.files@.contains_key(self.entries@[i as int].path@));
                    lemma_sum_update(old_sizes, i as int, fv);
                    lemma_map_sum_insert(self.files@, key, fv);
                }
                self.entries.set(i, Entry { path, file });
                self.files = Ghost(self.files@.insert(key, fv));
                assert(self.sizes() =~= old_sizes.update(i as int, fv));
                assert(self.files@.dom() =~= old(self).files@.dom());
                assert forall|k: Seq<char>| #[trigger] self.files@.contains_key(k) implies exists|j: int|
                    0 <= j < self.entries@.len() && self.entries@[j].path@ == k by {
                    if k != key {
                        assert(old(self).files@.contains_key(k));
                        let j = choose|j: int| 0 <= j < old(self).entries@.len() && old(self).entries@[j].path@ == k;
                        assert(self.entries@[j].path@ == k);
                    } else {
                        assert(self.entries@[i as int].path@ == k);
                    }
                }
                assert forall|j: int| 0 <= j < self.entries@.len() implies {
                    &&& #[trigger] self.files@.contains_key(self.entries@[j].path@)
                    &&& self.files@[self.entries@[j].path@] == self.entries@[j].file@
                    &&& self.entries@[j].file@.wf()
                } by {
                    if j != i {
                        assert(self.entries@[j] == old(self).entries@[j]);
                        assert(old(self).files@.contains_key(old(self).entries@[j].path@));
                    }
                }
                assert(sum_sizes(self.sizes()) == map_sum(self.files@));
                assert(self.wf());
            },
            None => {
                proof {
                    lemma_sum_push(old_sizes, fv);
                    lemma_map_sum_insert(self.files@, key, fv);
                }
                self.entries.push(Entry { path, file });
                self.files = Ghost(self.files@.insert(key, fv));
                assert(self.sizes() =~= old_sizes.push(fv));
                let ghost n = old(self).entries@.len();
                assert forall|j: int| 0 <= j < n implies #[trigger] self.entries@[j].path@ != key by {
                    assert(old(self).files@.contains_key(old(self).entries@[j].path@));
                }
                assert forall|k: Seq<char>| #[trigger] self.files@.contains_key(k) implies exists|j: int|
                    0 <= j < self.entries@.len() && self.entries@[j].path@ == k by {
                    if k != key {
                        assert(old(self).files@.contains_key(k));
                        let j = choose|j: int| 0 <= j < old(self).entries@.len() && old(self).entries@[j].path@ == k;
                        assert(self.entries@[j].path@ == k);
                    } else {
                        assert(self.entries@[n as int].path@ == k);
                    }
                }
                assert forall|j: int| 0 <= j < self.entries@.len() implies {
                    &&& #[trigger] self.files@.contains_key(self.entries@[j].path@)
                    &&& self.files@[self.entries@[j].path@] == self.entries@[j].file@
                    &&& self.entries@[j].file@.wf()
                } by {
                    if j != n {
                        assert(self.entries@[j] == old(self).entries@[j]);
                        assert(old(self).files@.contains_key(old(self).entries@[j].path@));
                    }
                }
                assert(sum_sizes(self.sizes()) == map_sum(self.files@));
                assert(self.wf());
            },
        }
    }

    /// Removes the entry at position `i` and hands it back.
    #[verifier::rlimit(30)]
    pub(crate) fn remove_at(&mut self, i: usize) -> (e: Entry)
        requires
            old(self).wf(),
            i < old(self).entries@.len(),
        ensures
            final(self).wf(),
            e.path@ == old(self).key(i as int),
            old(self)@.contains_key(e.path@),
            e.file@ == old(self)@[e.path@],
            e.file@.wf(),
            final(self)@ == old(self)@.remove(e.path@),
            final(self).entries@ == old(self).entries@.remove(i as int),
            final(self).used_bytes() + e.file.size == old(self).used_bytes(),
            final(self).entry_count() + 1 == old(self).entry_count(),
            final(self).total_space() == old(self).total_space(),
            final(self).file_limit() == old(self).file_limit(),
    {
        let ghost old_sizes = self.sizes();
        let ghost old_entries = self.entries@;
        proof {
            lemma_sum_remove(old_sizes, i as int);
            assert(self.files@.contains_key(self.entries@[i as int].path@));
            lemma_map_sum_remove(self.files@, self.entries@[i as int].path@);
        }
        let e = self.entries.remove(i);
        let ghost key = e.path@;
        self.files = Ghost(self.files@.remove(key));
        assert(old(self).files@.dom().contains(key));
        assert(self.files@.dom() =~= old(self).files@.dom().remove(key));
        assert(self.files@.dom().len() == old(self).files@.dom().len() - 1);
        assert(self.sizes() =~= old_sizes.remove(i as int));
        assert forall|k: Seq<char>| #[trigger] self.files@.contains_key(k) implies exists|j: int|
            0 <= j < self.entries@.len() && self.entries@[j].path@ == k by {
            assert(old(self).files@.contains_key(k));
            let j = choose|j: int| 0 <= j < old_entries.len() && old_entries[j].path@ == k;
            assert(j != i);
            if j < i {
                assert(self.entries@[j].path@ == k);
            } else {
                assert(self.entries@[j - 1].path@ == k);
            }
        }
        assert forall|a: int, b: int|
            0 <= a < self.entries@.len() && 0 <= b < self.entries@.len() && a != b
                implies #[trigger] self.entries@[a].path@ != #[trigger] self.entries@[b].path@ by {
            let oa = if a < i { a } else { a + 1 };
            let ob = if b < i { b } else { b + 1 };
            assert(old_entries[oa].path@ != old_entries[ob].path@);
        }
        assert forall|j: int| 0 <= j < self.entries@.len() implies {
            &&& #[trigger] self.files@.contains_key(self.entries@[j].path@)
            &&& self.files@[self.entries@[j].path@] == self.entries@[j].file@
            &&& self.entries@[j].file@.wf()
        } by {
            let oj = if j < i { j } else { j + 1 };
            assert(self.entries@[j] == old_entries[oj]);
            assert(old(self).files@.contains_key(old_entries[oj].path@));
            assert(old_entries[oj].path@ != old_entries[i as int].path@);
        }
        assert(self.used_bytes() <= self.total_space_bytes);
        assert(self.entries@.len() <= self.max_files);
        assert(self.wf());
        e
    }

    /// `p` names the root or a stored directory.
    pub open spec fn is_dir_or_root(&self, p: Seq<char>) -> bool {
        p.len() == 0 || (self@.contains_key(p) && self@[p].is_directory)
    }

    /// Some stored path lies strictly below `p`.
    pub open spec fn has_desc(&self, p: Seq<char>) -> bool {
        exists|k: Seq<char>| #[trigger] self@.contains_key(k) && is_desc(k, p)
    }

    /// The entry stored under `path`.
    pub fn get(&self, path: &String) -> (r: Option<&VirtualFile>)
        requires
            self.wf(),
        ensures
            match r {
                Some(f) => self@.contains_key(path@) && f@ == self@[path@] && f@.wf(),
                None => !self@.contains_key(path@),
            },
    {
        match self.find(path) {
            Some(i) => {
                assert(self.files@.contains_key(self.entries@[i as int].path@));
                Some(&self.entries[i].file)
            },
            None => None,
        }
    }

    /// Removes the entry stored under `path` and hands it back.
    pub(crate) fn remove(&mut self, path: &String) -> (r: Option<VirtualFile>)
        requires
            old(self).wf(),
        ensures
            final(self).wf(),
            final(self).total_space() == old(self).total_space(),
            final(self).file_limit() == old(self).file_limit(),
            match r {
                Some(f) => {
                    &&& old(self)@.contains_key(path@)
                    &&& f@ == old(self)@[path@]
                    &&& final(self)@ == old(self)@.remove(path@)
                    &&& final(self).used_bytes() + f.size == old(self).used_bytes()
                    &&& final(self).entry_count() + 1 == old(self).entry_count()
                },
                None => {
                    &&& !old(self)@.contains_key(path@)
                    &&& final(self)@ == old(self)@
                    &&& final(self).used_bytes() == old(self).used_bytes()
                },
            },
    {
        match self.find(path) {
            Some(i) => {
                let e = self.remove_at(i);
                Some(e.file)
            },
            None => None,
        }
    }

    /// Whether `p` names the root or a stored directory.
    pub fn dir_exists(&self, p: &String) -> (r: bool)
        requires
            self.wf(),
        ensures
            r == self.is_dir_or_root(p@),
    {
        if p.as_str().unicode_len() == 0 {
            return true;
        }
        match self.get(p) {
            Some(f) => f.is_directory,
            None => false,
        }
    }

    /// Whether some stored path lies strictly below `p`.
    pub fn has_descendant(&self, p: &str) -> (r: bool)
        requires
            self.wf(),
        ensures
            r == self.has_desc(p@),
    {
        let mut i: usize = 0;
        while i < self.entries.len()
            invariant
                self.wf(),
                i <= self.entries@.len(),
                forall|j: int| 0 <= j < i ==> !is_desc(#[trigger] self.entries@[j].path@, p@),
            decreases self.entries@.len() - i,
        {
            if is_strict_descendant(self.entries[i].path.as_str(), p) {
                assert(self@.contains_key(self.entries@[i as int].path@));
                return true;
            }
            i = i + 1;
        }
        assert forall|k: Seq<char>| #[trigger] self@.contains_key(k) implies !is_desc(k, p@) by {
            let j = choose|j: int| 0 <= j < self.entries@.len() && self.entries@[j].path@ == k;
        }
        false
    }

    /// The number of entries.
    pub fn count(&self) -> (r: usize)
        requires
            self.wf(),
        ensures
            r == self.entry_count(),
    {
        self.entries.len()
    }

    /// The listing line of the child `k` of `d`.
    pub open spec fn listed(&self, k: Seq<char>, d: Seq<char>) -> DirEntryView {
        DirEntryView { ino: identity_of(k), is_directory: self@[k].is_directory, name: child_name(k, d) }
    }

    /// `e` is the listing line of some direct child of `d`.
    pub open spec fn lists_child(&self, e: DirEntryView, d: Seq<char>) -> bool {
        exists|k: Seq<char>| #[trigger] self@.contains_key(k) && is_child(k, d) && e == self.listed(k, d)
    }

    /// The direct children of `dir`, one line each, in store order.
    pub fn children(&self, dir: &str) -> (r: Vec<DirEntry>)
        requires
            self.wf(),
        ensures
            forall|j: int| 0 <= j < r@.len() ==> self.lists_child(#[trigger] r@[j]@, dir@),
            forall|k: Seq<char>|
                #[trigger] self@.contains_key(k) && is_child(k, dir@) ==> exists|j: int|
                    0 <= j < r@.len() && r@[j]@ == self.listed(k, dir@),
            forall|a: int, b: int|
                0 <= a < r@.len() && 0 <= b < r@.len() && a != b ==> #[trigger] r@[a]@.name != #[trigger] r@[b]@.name,
    {
        let mut r: Vec<DirEntry> = Vec::new();
        let ghost mut src: Seq<int> = Seq::empty();
        let mut i: usize = 0;
        while i < self.entries.len()
            invariant
                self.wf(),
                i <= self.entries@.len(),
                r@.len() == src.len(),
                forall|j: int|
                    0 <= j < src.len() ==> {
                        &&& 0 <= #[trigger] src[j] < i
                        &&& is_child(self.entries@[src[j]].path@, dir@)
                        &&& r@[j]@ == self.listed(self.entries@[src[j]].path@, dir@)
                    },
                forall|a: int, b: int| 0 <= a < b < src.len() ==> #[trigger] src[a] < #[trigger] src[b],
                forall|x: int|
                    0 <= x < i && is_child(#[trigger] self.entries@[x].path@, dir@) ==> exists|j: int|
                        0 <= j < src.len() && src[j] == x,
            decreases self.entries@.len() - i,
        {
            let ghost old_src = src;
            let e = &self.entries[i];
            if is_direct_child(e.path.as_str(), dir) {
                let name = child_name_of(e.path.as_str(), dir);
                let ino = identity(e.path.as_str());
                proof {
                    assert(self.files@.contains_key(self.entries@[i as int].path@));
                }
                r.push(DirEntry { ino, is_directory: e.file.is_directory, name });
                proof {
                    src = src.push(i as int);
                    assert(src[src.len() - 1] == i);
                }
            }
            assert forall|x: int|
                0 <= x < i + 1 && is_child(#[trigger] self.entries@[x].path@, dir@) implies exists|j: int|
                0 <= j < src.len() && src[j] == x by {
                if x < i {
                    let j = choose|j: int| 0 <= j < old_src.len() && old_src[j] == x;
                    assert(src[j] == x);
                } else {
                    assert(src[src.len() - 1] == x);
                }
            }
            i = i + 1;
        }
        assert forall|j: int| 0 <= j < r@.len() implies self.lists_child(#[trigger] r@[j]@, dir@) by {
            let k = self.entries@[src[j]].path@;
            assert(self.files@.contains_key(k));
            assert(self@.contains_key(k) && is_child(k, dir@) && r@[j]@ == self.listed(k, dir@));
        }
        assert forall|k: Seq<char>| #[trigger] self@.contains_key(k) && is_child(k, dir@) implies exists|j: int|
            0 <= j < r@.len() && r@[j]@ == self.listed(k, dir@) by {
            let x = choose|x: int| 0 <= x < self.entries@.len() && self.entries@[x].path@ == k;
            assert(is_child(self.entries@[x].path@, dir@));
            let j = choose|j: int| 0 <= j < src.len() && src[j] == x;
        }
        assert forall|a: int, b: int|
            0 <= a < r@.len() && 0 <= b < r@.len() && a != b implies #[trigger] r@[a]@.name != #[trigger] r@[b]@.name by {
            let ka = self.entries@[src[a]].path@;
            let kb = self.entries@[src[b]].path@;
            lemma_join_child(ka, dir@);
            lemma_join_child(kb, dir@);
            if a < b {
                assert(src[a] < src[b]);
            } else {
                assert(src[b] < src[a]);
            }
        }
        r
    }

    /// Renames the entry `o` to `n`, moving everything below `o` along when
    /// it is a directory, in one step.
    #[verifier::rlimit(60)]
    pub(crate) fn move_tree(&mut self, o: &String, n: &String)
        requires
            old(self).wf(),
            old(self)@.contains_key(o@),
            !is_desc(n@, o@),
        ensures
            final(self).wf(),
            final(self)@ == renamed(old(self)@, o@, n@),
            final(self).total_space() == old(self).total_space(),
            final(self).file_limit() == old(self).file_limit(),
    {
        let ghost m = self@;
        let ghost total = self.total_space();
        proof {
            self.lemma_used_fits();
        }
        let src = match self.remove(o) {
            Some(f) => f,
            None => {
                return;
            },
        };
        let ghost m1 = self@;
        let ghost used1 = self.used_bytes();
        let ghost count1 = self.entry_count();
        let is_dir = src.is_directory;
        let mut moved: Vec<Entry> = Vec::new();
        let ghost mut moved_old: Seq<Seq<char>> = Seq::empty();
        assert(files_of(moved@) =~= Seq::<FileView>::empty());
        let mut i: usize = 0;
        while is_dir && i < self.entries.len()
                invariant
                    !is_dir ==> moved_old.len() == 0 && self@ == m1 && moved@.len() == 0,
                    m1 == m.remove(o@),
                    src@ == m[o@],
                    is_dir == src.is_directory,
                    self.wf(),
                    self.total_space() == total,
                    self.file_limit() == old(self).file_limit(),
                    i <= self.entries@.len(),
                    forall|j: int| 0 <= j < i ==> !is_desc(#[trigger] self.entries@[j].path@, o@),
                    forall|x: Seq<char>| #[trigger]
                        self@.contains_key(x) ==> m1.contains_key(x) && self@[x] == m1[x],
                    forall|x: Seq<char>|
                        #[trigger] m1.contains_key(x) ==> self@.contains_key(x) || (is_desc(x, o@) && exists|j: int|
                            0 <= j < moved_old.len() && moved_old[j] == x),
                    moved@.len() == moved_old.len(),
                    forall|j: int|
                        0 <= j < moved_old.len() ==> {
                            &&& is_desc(#[trigger] moved_old[j], o@)
                            &&& m1.contains_key(moved_old[j])
                            &&& !self@.contains_key(moved_old[j])
                            &&& moved@[j].path@ == rebase(moved_old[j], o@, n@)
                            &&& moved@[j].file@ == m1[moved_old[j]]
                            &&& moved@[j].file@.wf()
                        },
                    forall|a: int, b: int|
                        0 <= a < moved_old.len() && 0 <= b < moved_old.len() && a != b ==> #[trigger] moved_old[a]
                            != #[trigger] moved_old[b],
                    self.used_bytes() + sum_sizes(files_of(moved@)) == used1,
                    self.entry_count() + moved@.len() == count1,
                decreases self.entries@.len() - i,
            {
                if is_strict_descendant(self.entries[i].path.as_str(), o.as_str()) {
                    let ghost before = self@;
                    let ghost old_moved = moved@;
                    let ghost old_mo = moved_old;
                    let ghost before_entries = self.entries@;
                    let e = self.remove_at(i);
                    let new_path = rebase_path(e.path.as_str(), o.as_str(), n.as_str());
                    let ghost key = e.path@;
                    let ghost fv = e.file@;
                    moved.push(Entry { path: new_path, file: e.file });
                    proof {
                        moved_old = moved_old.push(key);
                        assert(files_of(moved@) =~= files_of(old_moved).push(fv));
                        lemma_sum_push(files_of(old_moved), fv);
                        assert forall|j: int| 0 <= j < moved_old.len() implies {
                            &&& is_desc(#[trigger] moved_old[j], o@)
                            &&& m1.contains_key(moved_old[j])
                            &&& !self@.contains_key(moved_old[j])
                            &&& moved@[j].path@ == rebase(moved_old[j], o@, n@)
                            &&& moved@[j].file@ == m1[moved_old[j]]
                            &&& moved@[j].file@.wf()
                        } by {
                            if j < old_mo.len() {
                                assert(moved_old[j] == old_mo[j]);
                                assert(moved@[j] == old_moved[j]);
                            }
                        }
                        assert forall|a: int, b: int|
                            0 <= a < moved_old.len() && 0 <= b < moved_old.len() && a != b implies #[trigger] moved_old[a]
                            != #[trigger] moved_old[b] by {
                            if a < old_mo.len() && b < old_mo.len() {
                                assert(moved_old[a] == old_mo[a]);
                                assert(moved_old[b] == old_mo[b]);
                            } else if a < old_mo.len() {
                                assert(moved_old[a] == old_mo[a]);
                                assert(!before.contains_key(old_mo[a]));
                            } else if b < old_mo.len() {
                                assert(moved_old[b] == old_mo[b]);
                                assert(!before.contains_key(old_mo[b]));
                            }
                        }
                        assert forall|x: Seq<char>|
                            #[trigger] m1.contains_key(x) implies self@.contains_key(x) || (is_desc(x, o@) && exists|j: int|
                                0 <= j < moved_old.len() && moved_old[j] == x) by {
                            if !self@.contains_key(x) {
                                if x == key {
                                    assert(moved_old[moved_old.len() - 1] == x);
                                } else {
                                    assert(!before.contains_key(x));
                                    let j = choose|j: int| 0 <= j < old_mo.len() && old_mo[j] == x;
                                    assert(moved_old[j] == x);
                                }
                            }
                        }
                        assert forall|j: int| 0 <= j < i implies !is_desc(#[trigger] self.entries@[j].path@, o@) by {
                            assert(self.entries@[j] == before_entries[j]);
                        }
                    }
                } else {
                    i = i + 1;
                }
            }
        let ghost base = self@;
        proof {
            assert forall|x: Seq<char>|
                #[trigger] base.contains_key(x) <==> (m1.contains_key(x) && !(is_dir && is_desc(x, o@))) by {
                if base.contains_key(x) && is_dir {
                    let j = choose|j: int| 0 <= j < self.entries@.len() && self.entries@[j].path@ == x;
                }
            }
            assert forall|x: Seq<char>|
                #[trigger] m1.contains_key(x) && is_dir && is_desc(x, o@) implies exists|j: int|
                0 <= j < moved_old.len() && moved_old[j] == x by {
                assert(!base.contains_key(x));
            }
            assert forall|a: int, b: int|
                0 <= a < moved@.len() && 0 <= b < moved@.len() && a != b implies #[trigger] moved@[a].path@
                != #[trigger] moved@[b].path@ by {
                lemma_rebase_desc(moved_old[a], o@, n@);
                lemma_rebase_desc(moved_old[b], o@, n@);
            }
        }
        let ghost all = moved@;
        let ghost mut added: Map<Seq<char>, FileView> = Map::empty();
        assert(self@ =~= base.union_prefer_right(added));
        assert(all =~= all.subrange(0, moved@.len() as int));
        while moved.len() > 0
            invariant
                self.wf(),
                self.total_space() == total,
                self.file_limit() == old(self).file_limit(),
                all.len() == moved_old.len(),
                moved@.len() <= all.len(),
                moved@ == all.subrange(0, moved@.len() as int),
                self@ == base.union_prefer_right(added),
                forall|j: int|
                    moved@.len() <= j < all.len() ==> added.contains_key(#[trigger] all[j].path@) && added[all[j].path@]
                        == all[j].file@,
                forall|x: Seq<char>|
                    #[trigger] added.contains_key(x) ==> exists|j: int| moved@.len() <= j < all.len() && all[j].path@ == x,
                forall|j: int|
                    0 <= j < all.len() ==> {
                        &&& is_desc(#[trigger] moved_old[j], o@)
                        &&& m1.contains_key(moved_old[j])
                        &&& all[j].path@ == rebase(moved_old[j], o@, n@)
                        &&& all[j].file@ == m1[moved_old[j]]
                        &&& all[j].file@.wf()
                    },
                forall|a: int, b: int|
                    0 <= a < all.len() && 0 <= b < all.len() && a != b ==> #[trigger] all[a].path@
                        != #[trigger] all[b].path@,
                self.used_bytes() + sum_sizes(files_of(moved@)) + src.size <= total,
                self.entry_count() + moved@.len() + 1 <= self.file_limit(),
                m1 == m.remove(o@),
                src@ == m[o@],
                is_dir == src.is_directory,
                !is_dir ==> all.len() == 0,
                forall|x: Seq<char>|
                    #[trigger] base.contains_key(x) <==> (m1.contains_key(x) && !(is_dir && is_desc(x, o@))),
                forall|x: Seq<char>| #[trigger] base.contains_key(x) ==> base[x] == m1[x],
                forall|x: Seq<char>|
                    #[trigger] m1.contains_key(x) && is_dir && is_desc(x, o@) ==> exists|j: int|
                        0 <= j < moved_old.len() && moved_old[j] == x,
            decreases moved@.len(),
        {
            let ghost before = moved@;
            let ghost added0 = added;
            let e = moved.pop().unwrap();
            let ghost idx = moved@.len() as int;
            proof {
                assert(e == all[idx]);
                assert(is_desc(moved_old[idx], o@));
                assert(files_of(moved@) =~= files_of(before).drop_last());
                assert(files_of(before).last() == e.file@);
                added = added.insert(e.path@, e.file@);
            }
            self.put(e.path, e.file);
            proof {
                assert(self@ =~= base.union_prefer_right(added));
                assert forall|j: int| moved@.len() <= j < all.len() implies added.contains_key(
                    #[trigger] all[j].path@,
                ) && added[all[j].path@] == all[j].file@ by {
                    if j != idx {
                        assert(all[j].path@ != all[idx].path@);
                    }
                }
                assert forall|x: Seq<char>| #[trigger] added.contains_key(x) implies exists|j: int|
                    moved@.len() <= j < all.len() && all[j].path@ == x by {
                    if x != all[idx].path@ {
                        assert(added0.contains_key(x));
                    }
                }
                assert(moved@ =~= all.subrange(0, moved@.len() as int));
            }
        }
        proof {
            self.lemma_used_fits();
        }
        let ghost fin = self@;
        self.put(n.clone(), src);
        proof {
            let r = renamed(m, o@, n@);
            assert(m1 == m.remove(o@));
            assert forall|x: Seq<char>| #[trigger] self@.contains_key(x) <==> r.contains_key(x) by {
                if x != n@ {
                    if added.contains_key(x) {
                        let j = choose|j: int| 0 <= j < all.len() && all[j].path@ == x;
                        lemma_rebase_desc(moved_old[j], o@, n@);
                    } else if is_dir && moved_below(m, o@, n@, x) {
                        let k = rebase(x, n@, o@);
                        lemma_rebase_desc(x, n@, o@);
                        assert(m1.contains_key(k));
                        let j = choose|j: int| 0 <= j < moved_old.len() && moved_old[j] == k;
                        assert(all[j].path@ == x);
                    }
                }
            }
            assert forall|x: Seq<char>| #[trigger] self@.contains_key(x) implies self@[x] == r[x] by {
                if x != n@ {
                    if added.contains_key(x) {
                        let j = choose|j: int| 0 <= j < all.len() && all[j].path@ == x;
                        lemma_rebase_desc(moved_old[j], o@, n@);
                    } else if is_dir && moved_below(m, o@, n@, x) {
                        let k = rebase(x, n@, o@);
                        lemma_rebase_desc(x, n@, o@);
                        assert(m1.contains_key(k));
                        let j = choose|j: int| 0 <= j < moved_old.len() && moved_old[j] == k;
                        assert(all[j].path@ == x);
                    }
                }
            }
            assert(self@ =~= r);
        }
    }

    /// Block and entry counts for capacity reports.
    pub fn statfs(&self) -> (r: StatFs)
        requires
            self.wf(),
        ensures
            r == spec_statfs(self.total_space(), self.file_limit(), self.used_bytes(), self.entry_count()),
    {
        let used = self.used();
        let total_blocks = self.total_space_bytes / BLOCK_SIZE;
        let used_blocks = used / BLOCK_SIZE + if used % BLOCK_SIZE != 0 { 1 } else { 0 };
        assert(used_blocks as nat == blocks_for(used as nat)) by (nonlinear_arith)
            requires
                used_blocks == used / BLOCK_SIZE + if used % BLOCK_SIZE != 0 { 1u64 } else { 0u64 },
        {
        }
        let free_blocks = total_blocks.saturating_sub(used_blocks);
        StatFs {
            blocks: total_blocks,
            free_blocks,
            available_blocks: free_blocks,
            files: self.max_files,
            free_files: self.max_files.saturating_sub(self.entries.len() as u64),
            block_size: BLOCK_SIZE as u32,
            max_name_length: MAX_NAME_LENGTH,
        }
    }
}

} // verus!
