//! Paths as `/`-separated text: the part under a category root, file names,
//! stems and extensions.
use crate::front_matter::starts_with;
use crate::text::{chars_of, copy_range, push_all, string_of};
use vstd::prelude::*;

verus! {

/// The index of the last `c` in `s`, or -1.
pub open spec fn last_index_of(s: Seq<char>, c: char) -> int
    decreases s.len(),
{
    if s.len() == 0 {
        -1
    } else if s.last() == c {
        s.len() - 1
    } else {
        last_index_of(s.drop_last(), c)
    }
}

/// Where the last component (the file name) starts.
pub open spec fn name_start(s: Seq<char>) -> int {
    last_index_of(s, '/') + 1
}

/// Whether the file name has an extension: a dot inside it, not its first
/// character.
pub open spec fn has_extension(s: Seq<char>) -> bool {
    last_index_of(s, '.') > name_start(s)
}

/// Where the file name's stem ends.
pub open spec fn stem_end(s: Seq<char>) -> int {
    if has_extension(s) {
        last_index_of(s, '.')
    } else {
        s.len() as int
    }
}

/// The path with the extension of its file name replaced (or added).
pub open spec fn with_extension(s: Seq<char>, ext: Seq<char>) -> Seq<char> {
    s.subrange(0, stem_end(s)) + seq!['.'] + ext
}

/// The file name without its extension.
pub open spec fn file_stem(s: Seq<char>) -> Seq<char> {
    s.subrange(name_start(s), stem_end(s))
}

/// The extension of the file name, if it has one.
pub open spec fn extension(s: Seq<char>) -> Option<Seq<char>> {
    if has_extension(s) {
        Some(s.subrange(last_index_of(s, '.') + 1, s.len() as int))
    } else {
        None
    }
}

/// The part of `p` under the directory `root`, if `p` lies under it.
pub open spec fn relative_to(p: Seq<char>, root: Seq<char>) -> Option<Seq<char>> {
    let prefix = root + seq!['/'];
    if starts_with(p, prefix) && p.len() > prefix.len() {
        Some(p.subrange(prefix.len() as int, p.len() as int))
    } else {
        None
    }
}

pub proof fn lemma_last_index_bounds(s: Seq<char>, c: char)
    ensures
        -1 <= last_index_of(s, c) < s.len(),
        last_index_of(s, c) >= 0 ==> s[last_index_of(s, c)] == c,
    decreases s.len(),
{
    if s.len() > 0 && s.last() != c {
        lemma_last_index_bounds(s.drop_last(), c);
    }
}

fn last_index(s: &Vec<char>, c: char) -> (r: Option<usize>)
    ensures
        match r {
            Some(i) => last_index_of(s@, c) == i as int,
            None => last_index_of(s@, c) == -1,
        },
{
    let mut i = s.len();
    assert(s@.subrange(0, i as int) =~= s@);
    while i > 0 && s[i - 1] != c
        invariant
            i <= s.len(),
            last_index_of(s@, c) == last_index_of(s@.subrange(0, i as int), c),
        decreases i,
    {
        assert(s@.subrange(0, i as int).drop_last() =~= s@.subrange(0, i - 1));
        i = i - 1;
    }
    if i == 0 {
        None
    } else {
        Some(i - 1)
    }
}

/// Where the stem of the file name ends, and whether there is an extension.
fn stem_bounds(s: &Vec<char>) -> (r: (usize, bool))
    ensures
        r.0 == stem_end(s@),
        r.1 == has_extension(s@),
        name_start(s@) <= r.0 <= s.len(),
{
    proof {
        lemma_last_index_bounds(s@, '/');
        lemma_last_index_bounds(s@, '.');
    }
    let n = s.len();
    let start: usize = match last_index(s, '/') {
        Some(i) => {
            assert(i < n);
            i + 1
        },
        None => 0,
    };
    match last_index(s, '.') {
        Some(d) => {
            if d > start {
                (d, true)
            } else {
                (s.len(), false)
            }
        },
        None => (s.len(), false),
    }
}

/// The path with its extension replaced by `ext`.
pub fn replace_extension(path: &str, ext: &str) -> (r: String)
    ensures
        r@ == with_extension(path@, ext@),
{
    let s = chars_of(path);
    let (e, _) = stem_bounds(&s);
    let mut out = copy_range(&s, 0, e);
    out.push('.');
    push_all(&mut out, &chars_of(ext));
    string_of(out.as_slice())
}

/// The file name of the path without its extension.
pub fn stem_of(path: &str) -> (r: String)
    ensures
        r@ == file_stem(path@),
{
    let s = chars_of(path);
    proof {
        lemma_last_index_bounds(s@, '/');
    }
    let start: usize = match last_index(&s, '/') {
        Some(i) => i + 1,
        None => 0,
    };
    let (e, _) = stem_bounds(&s);
    string_of(copy_range(&s, start, e).as_slice())
}

/// The extension of the path's file name, if any.
pub fn extension_of(path: &str) -> (r: Option<String>)
    ensures
        match r {
            Some(x) => extension(path@) == Some(x@),
            None => extension(path@) is None,
        },
{
    let s = chars_of(path);
    let (e, has) = stem_bounds(&s);
    if has {
        proof {
            lemma_last_index_bounds(s@, '.');
        }
        Some(string_of(copy_range(&s, e + 1, s.len()).as_slice()))
    } else {
        None
    }
}

/// The part of `path` under the directory `root`.
pub fn strip_root(path: &str, root: &str) -> (r: Option<String>)
    ensures
        match r {
            Some(x) => relative_to(path@, root@) == Some(x@),
            None => relative_to(path@, root@) is None,
        },
{
    let p = chars_of(path);
    let mut prefix = chars_of(root);
    prefix.push('/');
    assert(prefix@ =~= root@ + seq!['/']);
    if p.len() <= prefix.len() {
        return None;
    }
    let mut k: usize = 0;
    while k < prefix.len()
        invariant
            prefix.len() < p.len(),
            prefix@ == root@ + seq!['/'],
            p@ == path@,
            k <= prefix.len(),
            forall|j: int| 0 <= j < k ==> p@[j] == prefix@[j],
        decreases prefix.len() - k,
    {
        if p[k] != prefix[k] {
            proof {
                assert(p@.subrange(0, prefix.len() as int)[k as int] != prefix@[k as int]);
                assert(p@.subrange(0, prefix.len() as int) != root@ + seq!['/']);
                assert(!starts_with(p@, root@ + seq!['/']));
            }
            return None;
        }
        k = k + 1;
    }
    assert(p@.subrange(0, prefix.len() as int) =~= prefix@);
    Some(string_of(copy_range(&p, prefix.len(), p.len()).as_slice()))
}

} // verus!
