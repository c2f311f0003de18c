//! Path-string helpers: final path components, filename extensions, and
//! shortening a path against known directory prefixes. Paths are plain
//! `/`-separated strings; the library never touches the filesystem.

use vstd::prelude::*;

verus! {

/// `p` without its trailing `/` separators.
pub open spec fn strip_trailing_slashes(p: Seq<char>) -> Seq<char>
    decreases p.len(),
{
    if p.len() > 0 && p.last() == '/' {
        strip_trailing_slashes(p.drop_last())
    } else {
        p
    }
}

/// The longest suffix of `p` that contains no `/`.
pub open spec fn last_component(p: Seq<char>) -> Seq<char>
    decreases p.len(),
{
    if p.len() == 0 {
        p
    } else if p.last() == '/' {
        Seq::empty()
    } else {
        last_component(p.drop_last()) + seq![p.last()]
    }
}

/// The final path component of `p`: what follows the last separator,
/// after trailing separators are dropped.
pub open spec fn file_name_chars(p: Seq<char>) -> Seq<char> {
    last_component(strip_trailing_slashes(p))
}

/// The index of the last `.` in `name`, or -1 if there is none.
pub open spec fn last_dot_index(name: Seq<char>) -> int
    decreases name.len(),
{
    if name.len() == 0 {
        -1
    } else if name.last() == '.' {
        name.len() - 1
    } else {
        last_dot_index(name.drop_last())
    }
}

/// The extension of a filename: what follows the last dot, provided that
/// dot is not the leading character. A name without such a dot, and a
/// name whose only dot leads it, have the empty extension.
pub open spec fn ext_of_name(name: Seq<char>) -> Seq<char> {
    let k = last_dot_index(name);
    if k >= 1 {
        name.skip(k + 1)
    } else {
        Seq::empty()
    }
}

/// The extension of the final path component of `p`.
pub open spec fn extension_chars(p: Seq<char>) -> Seq<char> {
    ext_of_name(file_name_chars(p))
}

proof fn lemma_strip_trailing(p: Seq<char>, j: int)
    requires
        0 <= j <= p.len(),
        forall|k: int| j <= k < p.len() ==> p[k] == '/',
        j == 0 || p[j - 1] != '/',
    ensures
        strip_trailing_slashes(p) == p.take(j),
    decreases p.len(),
{
    if j == p.len() {
        assert(p.take(j) =~= p);
    } else {
        assert(p.last() == '/');
        lemma_strip_trailing(p.drop_last(), j);
        assert(p.drop_last().take(j) =~= p.take(j));
    }
}

proof fn lemma_last_component(p: Seq<char>, i: int)
    requires
        0 <= i <= p.len(),
        forall|k: int| i <= k < p.len() ==> p[k] != '/',
        i == 0 || p[i - 1] == '/',
    ensures
        last_component(p) == p.skip(i),
    decreases p.len(),
{
    if p.len() == 0 {
        assert(p.skip(0) =~= p);
    } else if i == p.len() {
        assert(p.last() == '/');
        assert(p.skip(i) =~= Seq::<char>::empty());
    } else {
        assert(p.last() != '/');
        lemma_last_component(p.drop_last(), i);
        assert(p.drop_last().skip(i) =~= p.skip(i).drop_last());
        assert(p.skip(i).len() > 0);
        assert(p.skip(i).drop_last() + seq![p.last()] =~= p.skip(i));
    }
}

proof fn lemma_last_dot_found(name: Seq<char>, k: int)
    requires
        0 <= k < name.len(),
        name[k] == '.',
        forall|j: int| k < j < name.len() ==> name[j] != '.',
    ensures
        last_dot_index(name) == k,
    decreases name.len(),
{
    if k == name.len() - 1 {
    } else {
        assert(name.last() != '.');
        lemma_last_dot_found(name.drop_last(), k);
    }
}

proof fn lemma_last_dot_none(name: Seq<char>)
    requires
        forall|j: int| 0 <= j < name.len() ==> name[j] != '.',
    ensures
        last_dot_index(name) == -1,
    decreases name.len(),
{
    if name.len() > 0 {
        lemma_last_dot_none(name.drop_last());
    }
}

/// Copies the characters of `v` between `i` and `j`.
pub(crate) fn copy_subrange(v: &Vec<char>, i: usize, j: usize) -> (r: Vec<char>)
    requires
        i <= j <= v@.len(),
    ensures
        r@ == v@.subrange(i as int, j as int),
{
    let mut out: Vec<char> = Vec::new();
    let mut k: usize = i;
    while k < j
        invariant
            i <= k <= j <= v@.len(),
            out@ == v@.subrange(i as int, k as int),
        decreases j - k,
    {
        out.push(v[k]);
        k = k + 1;
        proof {
            assert(out@ =~= v@.subrange(i as int, k as int));
        }
    }
    out
}

/// The final path component of `v`.
pub(crate) fn file_name_exec(v: &Vec<char>) -> (r: Vec<char>)
    ensures
        r@ == file_name_chars(v@),
{
    let n = v.len();
    let mut j: usize = n;
    while j > 0 && v[j - 1] == '/'
        invariant
            n == v@.len(),
            0 <= j <= n,
            forall|k: int| j <= k < n ==> v@[k] == '/',
        decreases j,
    {
        j = j - 1;
    }
    proof {
        lemma_strip_trailing(v@, j as int);
    }
    let mut i: usize = j;
    while i > 0 && v[i - 1] != '/'
        invariant
            0 <= i <= j <= n == v@.len(),
            forall|k: int| i <= k < j ==> v@[k] != '/',
        decreases i,
    {
        i = i - 1;
    }
    proof {
        let stripped = v@.take(j as int);
        lemma_last_component(stripped, i as int);
        assert(stripped.skip(i as int) =~= v@.subrange(i as int, j as int));
    }
    copy_subrange(v, i, j)
}

/// The extension of the final path component of `v`.
pub(crate) fn extension_exec(v: &Vec<char>) -> (r: Vec<char>)
    ensures
        r@ == extension_chars(v@),
{
    let name = file_name_exec(v);
    let n = name.len();
    let mut j: usize = n;
    while j > 0 && name[j - 1] != '.'
        invariant
            n == name@.len(),
            0 <= j <= n,
            forall|k: int| j <= k < n ==> name@[k] != '.',
        decreases j,
    {
        j = j - 1;
    }
    if j >= 2 {
        // the dot at j - 1 is the last one and is not the leading character
        proof {
            lemma_last_dot_found(name@, j as int - 1);
        }
        copy_subrange(&name, j, n)
    } else {
        proof {
            if j == 0 {
                lemma_last_dot_none(name@);
            } else {
                lemma_last_dot_found(name@, 0);
            }
        }
        Vec::new()
    }
}

/// Whether `path` lies under the directory `prefix`: it equals `prefix`
/// (ignoring trailing separators) or continues it at a separator.
pub open spec fn has_dir_prefix(path: Seq<char>, prefix: Seq<char>) -> bool {
    let p = strip_trailing_slashes(prefix);
    path == p || (path.len() > p.len() && path.take(p.len() as int) == p && path[p.len() as int]
        == '/')
}

/// What follows the directory prefix `prefix` in `path`, without the
/// separator that joins them.
pub open spec fn rest_after_prefix(path: Seq<char>, prefix: Seq<char>) -> Seq<char> {
    let p = strip_trailing_slashes(prefix);
    if path == p {
        Seq::empty()
    } else {
        path.skip(p.len() as int + 1)
    }
}

/// `path` rewritten against a directory prefix `mark`: the prefix is
/// replaced by the marker character, keeping the rest.
pub open spec fn reanchored(path: Seq<char>, prefix: Seq<char>, mark: char) -> Seq<char> {
    if path == strip_trailing_slashes(prefix) {
        seq![mark]
    } else {
        seq![mark] + seq!['/'] + rest_after_prefix(path, prefix)
    }
}

/// `path` shortened for readability: a path under the current directory
/// is anchored at `.`, a path under the home directory at `~`, and any
/// other path stays as it is.
pub open spec fn spec_shorten_path(path: Seq<char>, current_dir: Seq<char>, home_dir: Seq<char>) -> Seq<
    char,
> {
    if has_dir_prefix(path, current_dir) {
        reanchored(path, current_dir, '.')
    } else if has_dir_prefix(path, home_dir) {
        reanchored(path, home_dir, '~')
    } else {
        path
    }
}

fn has_dir_prefix_exec(path: &Vec<char>, prefix: &Vec<char>) -> (r: bool)
    ensures
        r == has_dir_prefix(path@, prefix@),
{
    let n = prefix.len();
    let mut j: usize = n;
    while j > 0 && prefix[j - 1] == '/'
        invariant
            n == prefix@.len(),
            0 <= j <= n,
            forall|k: int| j <= k < n ==> prefix@[k] == '/',
        decreases j,
    {
        j = j - 1;
    }
    proof {
        lemma_strip_trailing(prefix@, j as int);
    }
    let plen = path.len();
    if plen < j {
        proof {
            assert(path@ != prefix@.take(j as int));
        }
        return false;
    }
    let mut k: usize = 0;
    while k < j
        invariant
            j <= plen == path@.len(),
            j <= n == prefix@.len(),
            strip_trailing_slashes(prefix@) == prefix@.take(j as int),
            0 <= k <= j,
            forall|t: int| 0 <= t < k ==> path@[t] == prefix@[t],
        decreases j - k,
    {
        if path[k] != prefix[k] {
            proof {
                let p = strip_trailing_slashes(prefix@);
                assert(p[k as int] != path@[k as int]);
                assert(path@ != p);
                assert(path@.take(p.len() as int) != p);
            }
            return false;
        }
        k = k + 1;
    }
    if plen == j {
        proof {
            assert(path@ =~= strip_trailing_slashes(prefix@));
        }
        true
    } else {
        proof {
            assert(path@.take(j as int) =~= strip_trailing_slashes(prefix@));
        }
        let r = path[j] == '/';
        proof {
            if path@ == strip_trailing_slashes(prefix@) {
                assert(path@.len() == j);
            }
        }
        r
    }
}

fn reanchor_exec(path: &Vec<char>, prefix: &Vec<char>, mark: char) -> (r: Vec<char>)
    requires
        has_dir_prefix(path@, prefix@),
    ensures
        r@ == reanchored(path@, prefix@, mark),
{
    let n = prefix.len();
    let mut j: usize = n;
    while j > 0 && prefix[j - 1] == '/'
        invariant
            n == prefix@.len(),
            0 <= j <= n,
            forall|k: int| j <= k < n ==> prefix@[k] == '/',
        decreases j,
    {
        j = j - 1;
    }
    proof {
        lemma_strip_trailing(prefix@, j as int);
    }
    let mut out: Vec<char> = Vec::new();
    out.push(mark);
    if path.len() > j {
        out.push('/');
        let rest = copy_subrange(path, j + 1, path.len());
        let mut rest_mut = rest;
        out.append(&mut rest_mut);
        proof {
            assert(path@ != strip_trailing_slashes(prefix@));
            assert(out@ =~= reanchored(path@, prefix@, mark));
        }
    } else {
        proof {
            assert(path@ =~= strip_trailing_slashes(prefix@));
            assert(out@ =~= reanchored(path@, prefix@, mark));
        }
    }
    out
}

/// Shortens `path` for readability: a path under `current_dir` is
/// anchored at `.`, a path under `home_dir` at `~`, any other path is
/// returned unchanged. The directories are supplied by the caller; the
/// function itself consults nothing outside its arguments.
pub fn shorten_path(path: &str, current_dir: &str, home_dir: &str) -> (r: String)
    ensures
        r@ == spec_shorten_path(path@, current_dir@, home_dir@),
{
    let p = crate::text::to_chars(path);
    let cwd = crate::text::to_chars(current_dir);
    let home = crate::text::to_chars(home_dir);
    if has_dir_prefix_exec(&p, &cwd) {
        let out = reanchor_exec(&p, &cwd, '.');
        crate::text::chars_to_string(&out)
    } else if has_dir_prefix_exec(&p, &home) {
        let out = reanchor_exec(&p, &home, '~');
        crate::text::chars_to_string(&out)
    } else {
        crate::text::chars_to_string(&p)
    }
}

} // verus!
