//! Normalized paths: `/`-separated, no leading slash, the empty path is the
//! root. Hierarchy is read from string prefixes alone.
use vstd::prelude::*;

verus! {

/// `s` holds no separator.
pub open spec fn no_slash(s: Seq<char>) -> bool {
    forall|i: int| 0 <= i < s.len() ==> s[i] != '/'
}

/// `k` lies strictly below the directory `d`: it starts with `d` followed by `/`.
pub open spec fn is_desc(k: Seq<char>, d: Seq<char>) -> bool {
    &&& d.len() < k.len()
    &&& k.subrange(0, d.len() as int) == d
    &&& k[d.len() as int] == '/'
}

/// `k` is a direct child of the directory `d` (the root when `d` is empty).
pub open spec fn is_child(k: Seq<char>, d: Seq<char>) -> bool {
    if d.len() == 0 {
        k.len() > 0 && no_slash(k)
    } else {
        is_desc(k, d) && no_slash(k.subrange(d.len() as int + 1, k.len() as int))
    }
}

/// The name under which the child `k` of `d` is listed.
pub open spec fn child_name(k: Seq<char>, d: Seq<char>) -> Seq<char> {
    if d.len() == 0 {
        k
    } else {
        k.subrange(d.len() as int + 1, k.len() as int)
    }
}

/// The path of the entry `name` inside the directory `parent`.
pub open spec fn join(parent: Seq<char>, name: Seq<char>) -> Seq<char> {
    if parent.len() == 0 {
        name
    } else {
        parent + seq!['/'] + name
    }
}

/// The path `k`, found below `old`, moved below `new`.
pub open spec fn rebase(k: Seq<char>, old: Seq<char>, new: Seq<char>) -> Seq<char> {
    new + k.subrange(old.len() as int, k.len() as int)
}

/// The position of the last separator in `k`, or -1.
pub open spec fn last_slash(k: Seq<char>) -> int
    decreases k.len(),
{
    if k.len() == 0 {
        -1
    } else if k.last() == '/' {
        k.len() - 1
    } else {
        last_slash(k.drop_last())
    }
}

/// Everything before the last separator (the root for a top-level path).
pub open spec fn parent_path(k: Seq<char>) -> Seq<char> {
    if last_slash(k) < 0 {
        Seq::empty()
    } else {
        k.subrange(0, last_slash(k))
    }
}

/// Everything after the last separator.
pub open spec fn base_name(k: Seq<char>) -> Seq<char> {
    k.subrange(last_slash(k) + 1, k.len() as int)
}

/// A name that may stand as one segment of a path.
pub open spec fn valid_name(n: Seq<char>) -> bool {
    &&& n.len() > 0
    &&& no_slash(n)
    &&& n != seq!['.']
    &&& n != seq!['.', '.']
}

pub proof fn lemma_last_slash_bounds(k: Seq<char>)
    ensures
        -1 <= last_slash(k) < k.len(),
        last_slash(k) >= 0 ==> k[last_slash(k)] == '/',
        no_slash(k.subrange(last_slash(k) + 1, k.len() as int)),
    decreases k.len(),
{
    if k.len() > 0 && k.last() != '/' {
        lemma_last_slash_bounds(k.drop_last());
        let j = last_slash(k);
        assert forall|i: int| 0 <= i < k.len() - (j + 1) implies #[trigger] k.subrange(j + 1, k.len() as int)[i] != '/' by {
            if i < k.len() - 1 - (j + 1) {
                assert(k.subrange(j + 1, k.len() as int)[i] == k.drop_last().subrange(j + 1, k.len() - 1)[i]);
            }
        }
    }
}

/// Moving a descendant of `old` below `new` gives a descendant of `new`,
/// and moving it back restores it.
pub proof fn lemma_rebase_desc(k: Seq<char>, old: Seq<char>, new: Seq<char>)
    requires
        is_desc(k, old),
    ensures
        is_desc(rebase(k, old, new), new),
        rebase(rebase(k, old, new), new, old) == k,
{
    let r = rebase(k, old, new);
    assert(r.subrange(0, new.len() as int) =~= new);
    assert(r[new.len() as int] == k[old.len() as int]);
    assert(r.subrange(new.len() as int, r.len() as int) =~= k.subrange(old.len() as int, k.len() as int));
    assert(old + k.subrange(old.len() as int, k.len() as int) =~= k.subrange(0, old.len() as int) + k.subrange(
        old.len() as int,
        k.len() as int,
    ));
    assert(k.subrange(0, old.len() as int) + k.subrange(old.len() as int, k.len() as int) =~= k);
}

/// Whether `s` holds a separator at or after position `from`.
fn has_slash_from(s: &str, from: usize) -> (r: bool)
    requires
        from <= s@.len(),
    ensures
        r == !no_slash(s@.subrange(from as int, s@.len() as int)),
{
    let n = s.unicode_len();
    let mut i: usize = from;
    while i < n
        invariant
            n == s@.len(),
            from <= i <= n,
            no_slash(s@.subrange(from as int, i as int)),
        decreases n - i,
    {
        if s.get_char(i) == '/' {
            assert(s@.subrange(from as int, n as int)[i - from] == '/');
            return true;
        }
        assert(s@.subrange(from as int, i + 1) =~= s@.subrange(from as int, i as int).push(s@[i as int]));
        i = i + 1;
    }
    assert(s@.subrange(from as int, n as int) =~= s@.subrange(from as int, i as int));
    false
}

/// Whether `path` lies strictly below the directory `dir`.
pub fn is_strict_descendant(path: &str, dir: &str) -> (r: bool)
    ensures
        r == is_desc(path@, dir@),
{
    let pl = path.unicode_len();
    let dl = dir.unicode_len();
    if dl >= pl {
        return false;
    }
    let mut i: usize = 0;
    while i < dl
        invariant
            pl == path@.len(),
            dl == dir@.len(),
            dl < pl,
            i <= dl,
            path@.subrange(0, i as int) =~= dir@.subrange(0, i as int),
        decreases dl - i,
    {
        if path.get_char(i) != dir.get_char(i) {
            assert(path@.subrange(0, dl as int)[i as int] != dir@[i as int]);
            return false;
        }
        assert(path@.subrange(0, i + 1) =~= path@.subrange(0, i as int).push(path@[i as int]));
        assert(dir@.subrange(0, i + 1) =~= dir@.subrange(0, i as int).push(dir@[i as int]));
        i = i + 1;
    }
    assert(dir@.subrange(0, dl as int) =~= dir@);
    path.get_char(dl) == '/'
}

/// Whether `path` is a direct child of the directory `dir`.
pub fn is_direct_child(path: &str, dir: &str) -> (r: bool)
    ensures
        r == is_child(path@, dir@),
{
    if dir.unicode_len() == 0 {
        if path.unicode_len() == 0 {
            return false;
        }
        proof {
            assert(path@.subrange(0, path@.len() as int) =~= path@);
        }
        !has_slash_from(path, 0)
    } else {
        if !is_strict_descendant(path, dir) {
            return false;
        }
        let _pl = path.unicode_len();
        let start = dir.unicode_len() + 1;
        !has_slash_from(path, start)
    }
}

/// The name under which the direct child `path` of `dir` is listed.
pub fn child_name_of(path: &str, dir: &str) -> (r: String)
    requires
        is_child(path@, dir@),
    ensures
        r@ == child_name(path@, dir@),
{
    let dl = dir.unicode_len();
    if dl == 0 {
        String::from_str(path)
    } else {
        let pl = path.unicode_len();
        String::from_str(path.substring_char(dl + 1, pl))
    }
}

/// The path of the entry `name` inside the directory `parent`.
pub fn join_path(parent: &str, name: &str) -> (r: String)
    ensures
        r@ == join(parent@, name@),
{
    if parent.unicode_len() == 0 {
        String::from_str(name)
    } else {
        let sep = "/";
        proof {
            reveal_strlit("/");
        }
        let r = String::from_str(parent).concat(sep).concat(name);
        assert(r@ =~= parent@ + seq!['/'] + name@);
        r
    }
}

/// The path `path`, found below `old`, moved below `new`.
pub fn rebase_path(path: &str, old: &str, new: &str) -> (r: String)
    requires
        is_desc(path@, old@),
    ensures
        r@ == rebase(path@, old@, new@),
{
    let ol = old.unicode_len();
    let pl = path.unicode_len();
    String::from_str(new).concat(path.substring_char(ol, pl))
}

/// The position of the last separator in `s`, if any.
fn last_slash_index(s: &str) -> (r: Option<usize>)
    ensures
        match r {
            Some(i) => i as int == last_slash(s@),
            None => last_slash(s@) == -1,
        },
{
    let n = s.unicode_len();
    let mut i: usize = n;
    assert(s@.subrange(0, n as int) =~= s@);
    while i > 0
        invariant
            n == s@.len(),
            i <= n,
            last_slash(s@) == last_slash(s@.subrange(0, i as int)),
        decreases i,
    {
        assert(s@.subrange(0, i as int).drop_last() =~= s@.subrange(0, i - 1));
        if s.get_char(i - 1) == '/' {
            return Some(i - 1);
        }
        i = i - 1;
    }
    None
}

/// Splits `path` into the path of its parent directory and its last segment.
pub fn split_path(path: &str) -> (r: (String, String))
    ensures
        r.0@ == parent_path(path@),
        r.1@ == base_name(path@),
{
    proof {
        assert(path@.subrange(0, path@.len() as int) =~= path@);
    }
    let n = path.unicode_len();
    match last_slash_index(path) {
        Some(i) => {
            proof {
                lemma_last_slash_bounds(path@);
            }
            (String::from_str(path.substring_char(0, i)), String::from_str(path.substring_char(i + 1, n)))
        },
        None => {
            let e = String::new();
            assert(e@ =~= Seq::<char>::empty());
            (e, String::from_str(path))
        },
    }
}

/// Whether `name` may stand as one segment of a path.
pub fn is_valid_name(name: &str) -> (r: bool)
    ensures
        r == valid_name(name@),
{
    let n = name.unicode_len();
    if n == 0 {
        return false;
    }
    proof {
        assert(name@.subrange(0, n as int) =~= name@);
    }
    if has_slash_from(name, 0) {
        return false;
    }
    if n == 1 && name.get_char(0) == '.' {
        assert(name@ =~= seq!['.']);
        return false;
    }
    if n == 2 && name.get_char(0) == '.' && name.get_char(1) == '.' {
        assert(name@ =~= seq!['.', '.']);
        return false;
    }
    assert(name@ != seq!['.'] && name@ != seq!['.', '.']) by {
        if n == 1 {
            assert(name@[0] != seq!['.'][0]);
        }
        if n == 2 {
            assert(name@[0] != seq!['.', '.'][0] || name@[1] != seq!['.', '.'][1]);
        }
    }
    true
}

} // verus!
