use vstd::prelude::*;
use crate::text::{chars_of, string_of};

verus! {

/// `base` joined with `rel` as `PathBuf::push` does: an absolute `rel`
/// replaces the base; otherwise a separator is put between them unless the
/// base is empty or already ends in one.
pub open spec fn join(base: Seq<char>, rel: Seq<char>) -> Seq<char> {
    if rel.len() > 0 && rel[0] == '/' {
        rel
    } else if base.len() == 0 {
        rel
    } else if base.last() == '/' {
        base + rel
    } else {
        base + seq!['/'] + rel
    }
}

/// Appends `more` to `out`.
pub(crate) fn push_chars(out: &mut Vec<char>, more: &Vec<char>)
    ensures
        final(out)@ == old(out)@ + more@,
{
    let mut i: usize = 0;
    let ghost start = out@;
    while i < more.len()
        invariant
            i <= more@.len(),
            out@ == start + more@.subrange(0, i as int),
        decreases more.len() - i,
    {
        out.push(more[i]);
        i = i + 1;
        assert(out@ =~= start + more@.subrange(0, i as int));
    }
    assert(more@.subrange(0, more@.len() as int) =~= more@);
}


/// Joins two path strings.
pub fn join_path(base: &str, rel: &str) -> (r: String)
    ensures
        r@ == join(base@, rel@),
{
    let b = chars_of(base);
    let r = chars_of(rel);
    if r.len() > 0 && r[0] == '/' {
        return string_of(&r);
    }
    if b.len() == 0 {
        return string_of(&r);
    }
    let mut out = b;
    if out[out.len() - 1] != '/' {
        out.push('/');
    }
    push_chars(&mut out, &r);
    string_of(&out)
}

/// `root` contains `path`, comparing whole components: `/a/b` contains
/// `/a/b` and `/a/b/c` but not `/a/bc`. Both are taken as canonical paths.
pub open spec fn within(root: Seq<char>, path: Seq<char>) -> bool {
    &&& root.len() <= path.len()
    &&& path.subrange(0, root.len() as int) == root
    &&& (path.len() == root.len() || (root.len() > 0 && root.last() == '/') || path[root.len() as int] == '/')
}

pub fn is_within(root: &str, path: &str) -> (r: bool)
    ensures
        r == within(root@, path@),
{
    let rc = chars_of(root);
    let pc = chars_of(path);
    if !crate::text::chars_start_with(&pc, &rc) {
        return false;
    }
    pc.len() == rc.len() || (rc.len() > 0 && rc[rc.len() - 1] == '/') || pc[rc.len()] == '/'
}

/// The extension of a file name as `Path::extension` gives it: what follows
/// the last dot, unless that dot begins the name or there is none.
pub open spec fn extension(name: Seq<char>) -> Option<Seq<char>> {
    if exists|i: int| 0 < i < name.len() && name[i] == '.' {
        let i = choose|i: int|
            0 < i < name.len() && name[i] == '.' && forall|j: int| i < j < name.len() ==> name[j] != '.';
        Some(name.subrange(i + 1, name.len() as int))
    } else {
        None
    }
}

pub fn file_extension(name: &str) -> (r: Option<Vec<char>>)
    ensures
        match extension(name@) {
            Some(e) => r is Some && r->0@ == e,
            None => r is None,
        },
{
    let cs = chars_of(name);
    let mut i: usize = cs.len();
    while i > 1 && cs[i - 1] != '.'
        invariant
            cs@ == name@,
            i <= cs@.len(),
            forall|j: int| i <= j < cs@.len() ==> cs@[j] != '.',
        decreases i,
    {
        i = i - 1;
    }
    if i > 1 {
        let d = i - 1;
        proof {
            let w = choose|w: int|
                0 < w < name@.len() && name@[w] == '.' && forall|j: int| w < j < name@.len() ==> name@[j] != '.';
            if w != d as int {
                if w < d {
                } else {
                    assert(name@[w] != '.');
                }
            }
        }
        let mut out: Vec<char> = Vec::new();
        let mut k: usize = i;
        while k < cs.len()
            invariant
                cs@ == name@,
                i <= k <= cs@.len(),
                out@ == name@.subrange(i as int, k as int),
            decreases cs.len() - k,
        {
            out.push(cs[k]);
            k = k + 1;
            assert(out@ =~= name@.subrange(i as int, k as int));
        }
        Some(out)
    } else {
        proof {
            if exists|w: int| 0 < w < name@.len() && name@[w] == '.' {
                let w = choose|w: int| 0 < w < name@.len() && name@[w] == '.';
                assert(w >= i);
            }
        }
        None
    }
}

/// The last component of a path: what follows its last `/`.
pub open spec fn last_component(path: Seq<char>) -> Seq<char> {
    if exists|i: int| 0 <= i < path.len() && path[i] == '/' {
        let i = choose|i: int|
            0 <= i < path.len() && path[i] == '/' && forall|j: int| i < j < path.len() ==> path[j] != '/';
        path.subrange(i + 1, path.len() as int)
    } else {
        path
    }
}

pub fn last_component_of(path: &str) -> (r: String)
    ensures
        r@ == last_component(path@),
{
    let cs = chars_of(path);
    let mut i: usize = cs.len();
    while i > 0 && cs[i - 1] != '/'
        invariant
            cs@ == path@,
            i <= cs@.len(),
            forall|j: int| i <= j < cs@.len() ==> cs@[j] != '/',
        decreases i,
    {
        i = i - 1;
    }
    proof {
        if i > 0 {
            let w = choose|w: int|
                0 <= w < path@.len() && path@[w] == '/' && forall|j: int| w < j < path@.len() ==> path@[j] != '/';
            if w != i - 1 {
                if w > i - 1 {
                    assert(path@[w] != '/');
                } else {
                    assert(path@[i - 1] != '/');
                }
            }
        } else {
            assert(!exists|w: int| 0 <= w < path@.len() && path@[w] == '/');
        }
    }
    let mut out: Vec<char> = Vec::new();
    let mut k: usize = i;
    while k < cs.len()
        invariant
            cs@ == path@,
            i <= k <= cs@.len(),
            out@ == path@.subrange(i as int, k as int),
        decreases cs.len() - k,
    {
        out.push(cs[k]);
        k = k + 1;
        assert(out@ =~= path@.subrange(i as int, k as int));
    }
    if i == 0 {
        assert(out@ =~= path@);
    }
    string_of(&out)
}

} // verus!
