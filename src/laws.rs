//! Laws that relate several verbs, stated over the same spec functions that
//! the verbs' contracts use.
use crate::common::FileView;
use crate::ops::{new_file, read_range, written, zeros};
use crate::paths::{
    is_desc, join, last_slash, lemma_rebase_desc, no_slash, parent_path, rebase, valid_name,
};
use crate::store::{moved_below, renamed};
use vstd::prelude::*;

verus! {

/// Reading back, from offset 0, as many bytes as were written at offset 0
/// into a newly created file returns exactly those bytes.
pub proof fn lemma_round_trip(data: Seq<u8>, now: u64)
    ensures
        read_range(written(new_file(now).content, 0, data), 0, data.len()) == data,
{
    let c = new_file(now).content;
    let w = written(c, 0, data);
    if data.len() > 0 {
        assert(c + zeros(data.len()) =~= zeros(data.len()));
    }
    assert(w =~= data);
    assert(data.subrange(0, data.len() as int) =~= data);
}

/// Writing `data` at `offset` into an empty file gives `offset` zero bytes
/// followed by `data`.
pub proof fn lemma_zero_extend(offset: nat, data: Seq<u8>, now: u64)
    ensures
        written(new_file(now).content, offset, data).len() == offset + data.len(),
        written(new_file(now).content, offset, data) == zeros(offset) + data,
        forall|i: int| 0 <= i < offset ==> #[trigger] written(new_file(now).content, offset, data)[i] == 0,
{
    let c = new_file(now).content;
    let end = offset + data.len();
    if end > 0 {
        assert(c + zeros(end) =~= zeros(end));
        assert(zeros(end).subrange(0, offset as int) =~= zeros(offset));
        assert(zeros(end).subrange(end as int, end as int) =~= Seq::<u8>::empty());
    }
    assert(written(c, offset, data) =~= zeros(offset) + data);
}

/// A rename moves the whole tree at once: the renamed entry is found at its
/// new path, every entry below a renamed directory is found at the
/// corresponding path below the new one, and every other entry whose path
/// the move does not take over stays where it was.
pub proof fn lemma_rename_moves_whole_tree(m: Map<Seq<char>, FileView>, o: Seq<char>, n: Seq<char>, k: Seq<char>)
    requires
        m.contains_key(o),
        m.contains_key(k),
    ensures
        renamed(m, o, n).contains_key(n) && renamed(m, o, n)[n] == m[o],
        m[o].is_directory && is_desc(k, o) ==> renamed(m, o, n).contains_key(rebase(k, o, n)) && renamed(
            m,
            o,
            n,
        )[rebase(k, o, n)] == m[k],
        k != o && !(m[o].is_directory && is_desc(k, o)) && k != n && !(m[o].is_directory && is_desc(k, n)
            && m.contains_key(rebase(k, n, o))) ==> renamed(m, o, n).contains_key(k) && renamed(m, o, n)[k]
            == m[k],
{
    if m[o].is_directory && is_desc(k, o) {
        lemma_rebase_desc(k, o, n);
        assert(rebase(k, o, n).len() > n.len());
    }
}

/// Every stored path's parent is the root or a stored directory.
pub open spec fn hierarchical(m: Map<Seq<char>, FileView>) -> bool {
    forall|k: Seq<char>|
        #[trigger] m.contains_key(k) ==> parent_path(k).len() == 0 || (m.contains_key(parent_path(k))
            && m[parent_path(k)].is_directory)
}

proof fn lemma_last_slash_append(s: Seq<char>, t: Seq<char>)
    requires
        no_slash(t),
    ensures
        last_slash(s + t) == last_slash(s),
    decreases t.len(),
{
    if t.len() > 0 {
        assert((s + t).drop_last() =~= s + t.drop_last());
        assert((s + t).last() == t.last());
        lemma_last_slash_append(s, t.drop_last());
    } else {
        assert(s + t =~= s);
    }
}

/// The parent of the entry `name` inside `p` is `p`.
pub proof fn lemma_parent_of_join(p: Seq<char>, name: Seq<char>)
    requires
        no_slash(name),
    ensures
        parent_path(join(p, name)) == p,
{
    if p.len() == 0 {
        lemma_last_slash_append(Seq::empty(), name);
        assert(Seq::<char>::empty() + name =~= name);
    } else {
        lemma_last_slash_append(p + seq!['/'], name);
        assert((p + seq!['/']).last() == '/');
        assert((p + seq!['/'] + name).subrange(0, p.len() as int) =~= p);
    }
}

/// A path whose parent is the non-root `d` lies below `d`.
pub proof fn lemma_child_is_desc(k: Seq<char>, d: Seq<char>)
    requires
        parent_path(k) == d,
        d.len() > 0,
    ensures
        is_desc(k, d),
{
    crate::paths::lemma_last_slash_bounds(k);
}

/// Creating the entry `name` in the root or an existing directory `p` keeps
/// every parent a directory, unless a directory with children would turn
/// into a file.
pub proof fn lemma_create_keeps_hierarchy(m: Map<Seq<char>, FileView>, p: Seq<char>, name: Seq<char>, v: FileView)
    requires
        hierarchical(m),
        p.len() == 0 || (m.contains_key(p) && m[p].is_directory),
        valid_name(name),
        !m.contains_key(join(p, name)) || v.is_directory || !m[join(p, name)].is_directory,
    ensures
        hierarchical(m.insert(join(p, name), v)),
{
    let c = join(p, name);
    let m2 = m.insert(c, v);
    lemma_parent_of_join(p, name);
    assert forall|k: Seq<char>| #[trigger] m2.contains_key(k) implies parent_path(k).len() == 0 || (
    m2.contains_key(parent_path(k)) && m2[parent_path(k)].is_directory) by {
        if k != c {
            let q = parent_path(k);
            if q.len() > 0 && q == c {
                assert(m.contains_key(c));
            }
        } else if p.len() > 0 {
            assert(c.len() > p.len());
        }
    }
}

/// Removing a directory that nothing lies below keeps every parent a
/// directory.
pub proof fn lemma_rmdir_keeps_hierarchy(m: Map<Seq<char>, FileView>, d: Seq<char>)
    requires
        hierarchical(m),
        m.contains_key(d),
        d.len() > 0,
        forall|k: Seq<char>| #[trigger] m.contains_key(k) ==> !is_desc(k, d),
    ensures
        hierarchical(m.remove(d)),
{
    assert forall|k: Seq<char>| #[trigger] m.remove(d).contains_key(k) implies parent_path(k).len() == 0 || (
    m.remove(d).contains_key(parent_path(k)) && m.remove(d)[parent_path(k)].is_directory) by {
        if parent_path(k) == d {
            lemma_child_is_desc(k, d);
        }
    }
}

/// Removing a file keeps every parent a directory.
pub proof fn lemma_unlink_keeps_hierarchy(m: Map<Seq<char>, FileView>, f: Seq<char>)
    requires
        hierarchical(m),
        m.contains_key(f),
        !m[f].is_directory,
    ensures
        hierarchical(m.remove(f)),
{
}

proof fn lemma_last_slash_shift(s: Seq<char>, t: Seq<char>)
    requires
        last_slash(t) >= 0,
    ensures
        last_slash(s + t) == s.len() + last_slash(t),
    decreases t.len(),
{
    assert((s + t).last() == t.last());
    if t.last() != '/' {
        assert((s + t).drop_last() =~= s + t.drop_last());
        lemma_last_slash_shift(s, t.drop_last());
    }
}

proof fn lemma_slash_at_least(t: Seq<char>, i: int)
    requires
        0 <= i < t.len(),
        t[i] == '/',
    ensures
        last_slash(t) >= i,
{
    crate::paths::lemma_last_slash_bounds(t);
    if last_slash(t) < i {
        assert(t.subrange(last_slash(t) + 1, t.len() as int)[i - last_slash(t) - 1] == '/');
    }
}

/// Below `a` and `a` below `b` means below `b`.
pub proof fn lemma_desc_trans(k: Seq<char>, a: Seq<char>, b: Seq<char>)
    requires
        is_desc(k, a),
        is_desc(a, b),
    ensures
        is_desc(k, b),
{
    assert(k.subrange(0, b.len() as int) =~= k.subrange(0, a.len() as int).subrange(0, b.len() as int));
    assert(k[b.len() as int] == k.subrange(0, a.len() as int)[b.len() as int]);
}

/// The parent of a path below `o` is `o` or lies below `o`, and moving the
/// path below `n` moves its parent along.
pub proof fn lemma_parent_of_rebase(k: Seq<char>, o: Seq<char>, n: Seq<char>)
    requires
        is_desc(k, o),
    ensures
        parent_path(k) == o ==> parent_path(rebase(k, o, n)) == n,
        parent_path(k) != o ==> is_desc(parent_path(k), o) && parent_path(rebase(k, o, n)) == rebase(
            parent_path(k),
            o,
            n,
        ),
{
    let t = k.subrange(o.len() as int, k.len() as int);
    assert(t[0] == '/');
    lemma_slash_at_least(t, 0);
    assert(o + t =~= k);
    lemma_last_slash_shift(o, t);
    lemma_last_slash_shift(n, t);
    let j = last_slash(t);
    crate::paths::lemma_last_slash_bounds(t);
    if j == 0 {
        assert(k.subrange(0, o.len() as int) =~= o);
        assert((n + t).subrange(0, n.len() as int) =~= n);
    } else {
        let q = parent_path(k);
        assert(q =~= o + t.subrange(0, j));
        assert((n + t).subrange(0, n.len() + j) =~= n + t.subrange(0, j));
        assert(q.subrange(0, o.len() as int) =~= o);
        assert(q[o.len() as int] == '/');
        assert(q.subrange(o.len() as int, q.len() as int) =~= t.subrange(0, j));
    }
}

/// In a hierarchical store nothing is stored below a path that is absent.
pub proof fn lemma_nothing_below_absent(m: Map<Seq<char>, FileView>, n: Seq<char>, k: Seq<char>)
    requires
        hierarchical(m),
        n.len() > 0,
        !m.contains_key(n),
        m.contains_key(k),
    ensures
        !is_desc(k, n),
    decreases k.len(),
{
    if is_desc(k, n) {
        lemma_slash_at_least(k, n.len() as int);
        crate::paths::lemma_last_slash_bounds(k);
        let q = parent_path(k);
        assert(q.len() >= n.len());
        assert(m.contains_key(q));
        assert(q.subrange(0, n.len() as int) =~= k.subrange(0, n.len() as int));
        if q.len() == n.len() {
            assert(q =~= n);
        } else {
            assert(q[n.len() as int] == k[n.len() as int]);
            assert(is_desc(q, n));
            lemma_nothing_below_absent(m, n, q);
        }
    }
}

/// Renaming an entry to a new path in the root or an existing directory
/// keeps every parent a directory: a moved directory's subtree moves with
/// it, and nothing else loses its parent.
pub proof fn lemma_rename_keeps_hierarchy(
    m: Map<Seq<char>, FileView>,
    o: Seq<char>,
    np: Seq<char>,
    name: Seq<char>,
)
    requires
        hierarchical(m),
        m.contains_key(o),
        o.len() > 0,
        np.len() == 0 || (m.contains_key(np) && m[np].is_directory),
        valid_name(name),
        !m.contains_key(join(np, name)),
        !is_desc(join(np, name), o),
    ensures
        hierarchical(renamed(m, o, join(np, name))),
{
    let n = join(np, name);
    let r = renamed(m, o, n);
    let dir = m[o].is_directory;
    lemma_parent_of_join(np, name);
    if np.len() > 0 {
        assert(n.subrange(0, np.len() as int) =~= np);
        assert(is_desc(n, np));
    }
    assert forall|x: Seq<char>| #[trigger] r.contains_key(x) implies parent_path(x).len() == 0 || (
    r.contains_key(parent_path(x)) && r[parent_path(x)].is_directory) by {
        let q = parent_path(x);
        if q.len() > 0 {
            if x == n {
                // The new parent stays: it is neither `o` nor below it, nor
                // below the absent `n`.
                assert(q == np);
                if np == o {
                    assert(is_desc(n, o));
                }
                if dir && is_desc(np, o) {
                    lemma_desc_trans(n, np, o);
                }
                lemma_nothing_below_absent(m, n, np);
            } else if dir && moved_below(m, o, n, x) {
                let k = rebase(x, n, o);
                crate::paths::lemma_rebase_desc(x, n, o);
                assert(rebase(k, o, n) == x);
                lemma_parent_of_rebase(k, o, n);
                if parent_path(k) != o {
                    let pk = parent_path(k);
                    crate::paths::lemma_rebase_desc(pk, o, n);
                    assert(m.contains_key(pk));
                    assert(moved_below(m, o, n, q));
                    assert(q != n);
                }
            } else {
                assert(m.contains_key(x) && x != o && !(dir && is_desc(x, o)));
                assert(m.contains_key(q) && m[q].is_directory);
                lemma_child_is_desc(x, q);
                if q == o {
                    assert(dir);
                }
                if dir && is_desc(q, o) {
                    lemma_desc_trans(x, q, o);
                }
                lemma_nothing_below_absent(m, n, q);
                assert(q != n);
            }
        }
    }
}

} // verus!
