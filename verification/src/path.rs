//! File names and extensions of paths, through `std::path::Path`.
use vstd::prelude::*;

use crate::text::{chars_of, string_from};

verus! {

/// The final component of `path` as text, as `Path::file_name` followed by
/// `OsStr::to_str` gives it; `None` where the path has no file name (for
/// example when it is empty, is `/`, or ends in `..`).  Used for the paths
/// that `plain_tail` does not cover.
pub uninterp spec fn path_file_name(path: Seq<char>) -> Option<Seq<char>>;

/// The position of the last `c` in `s`, or -1.
pub open spec fn last_index(s: Seq<char>, c: char) -> int
    decreases s.len(),
{
    if s.len() == 0 {
        -1
    } else if s.last() == c {
        s.len() - 1
    } else {
        last_index(s.drop_last(), c)
    }
}

/// A name that is one normal path component on every platform: not empty,
/// not `.` or `..`, and free of `/`, `\` and `:`.
pub open spec fn is_plain_name(t: Seq<char>) -> bool {
    &&& t.len() > 0
    &&& !t.contains('/')
    &&& !t.contains('\\')
    &&& !t.contains(':')
    &&& t != seq!['.']
    &&& t != seq!['.', '.']
}

/// What follows the last `/` of `p` (all of `p` if there is none).
pub open spec fn after_last_slash(p: Seq<char>) -> Seq<char> {
    p.skip(last_index(p, '/') + 1)
}

/// Whether `p` starts with two `/`, which Windows reads as the start of a
/// UNC or device prefix.
pub open spec fn starts_with_double_slash(p: Seq<char>) -> bool {
    p.len() >= 2 && p[0] == '/' && p[1] == '/'
}

/// A path in which `/` is the only separator and no prefix can start, on
/// Unix and on Windows alike: no `\`, and not two `/` at the start.
pub open spec fn is_portable_path(p: Seq<char>) -> bool {
    !p.contains('\\') && !starts_with_double_slash(p)
}

/// For a portable path whose text after the last `/` is a plain name, that
/// name: it is the path's final component.
pub open spec fn plain_tail(p: Seq<char>) -> Option<Seq<char>> {
    if is_portable_path(p) && is_plain_name(after_last_slash(p)) {
        Some(after_last_slash(p))
    } else {
        None
    }
}

/// Paths that `Path::file_name`'s documentation gives no file name: the
/// empty path (no final component), `/`, and a portable path ending in `..`.
pub open spec fn is_nameless(p: Seq<char>) -> bool {
    ||| p.len() == 0
    ||| p == seq!['/']
    ||| is_portable_path(p) && after_last_slash(p) == seq!['.', '.']
}

/// The file name of `path`: its plain tail where it has one, none where the
/// documentation says so, else the named result of `Path::file_name`.
pub open spec fn file_name_spec(path: Seq<char>) -> Option<Seq<char>> {
    if plain_tail(path) is Some {
        plain_tail(path)
    } else if is_nameless(path) {
        None
    } else {
        path_file_name(path)
    }
}

/// The position of the last `.` in `name`, or -1.
pub open spec fn last_dot(name: Seq<char>) -> int {
    last_index(name, '.')
}

/// The extension of a file name, as `Path::extension` documents it: none
/// if there is no `.` or the only `.` is the first character, otherwise
/// what follows the last `.`.
pub open spec fn extension_of_name(name: Seq<char>) -> Option<Seq<char>> {
    if last_dot(name) <= 0 {
        None
    } else {
        Some(name.skip(last_dot(name) + 1))
    }
}

/// The extension of `path`: that of its file name, if it has one.
pub open spec fn path_extension(path: Seq<char>) -> Option<Seq<char>> {
    match file_name_spec(path) {
        Some(name) => extension_of_name(name),
        None => None,
    }
}

/// The view of an optional string.
pub open spec fn opt_view(o: Option<String>) -> Option<Seq<char>> {
    match o {
        Some(s) => Some(s@),
        None => None,
    }
}

pub proof fn lemma_last_index_bounds(s: Seq<char>, c: char)
    ensures
        -1 <= last_index(s, c) < s.len(),
        last_index(s, c) >= 0 ==> s[last_index(s, c)] == c,
    decreases s.len(),
{
    if s.len() > 0 && s.last() != c {
        lemma_last_index_bounds(s.drop_last(), c);
    }
}

/// Text without `c` added at the end leaves the last `c` where it was.
pub proof fn lemma_last_index_append(s: Seq<char>, t: Seq<char>, c: char)
    requires
        !t.contains(c),
    ensures
        last_index(s + t, c) == last_index(s, c),
    decreases t.len(),
{
    if t.len() == 0 {
        assert(s + t =~= s);
    } else {
        let t0 = t.drop_last();
        assert(!t0.contains(c)) by {
            if t0.contains(c) {
                let k = choose|k: int| 0 <= k < t0.len() && t0[k] == c;
                assert(t[k] == c);
            }
        }
        assert(t[t.len() - 1] == t.last());
        assert((s + t).drop_last() =~= s + t0);
        lemma_last_index_append(s, t0, c);
    }
}

/// A plain name is its own file name, and stays the file name under any
/// directory that leaves the path portable.
pub proof fn lemma_plain_name_is_file_name(dir: Seq<char>, name: Seq<char>)
    requires
        is_plain_name(name),
        is_portable_path(dir.push('/')),
    ensures
        file_name_spec(name) == Some(name),
        file_name_spec(dir.push('/') + name) == Some(name),
{
    let p = dir.push('/') + name;
    lemma_last_index_append(Seq::<char>::empty(), name, '/');
    assert(Seq::<char>::empty() + name =~= name);
    assert(name.skip(0) =~= name);
    lemma_last_index_append(dir.push('/'), name, '/');
    assert(last_index(dir.push('/'), '/') == dir.len()) by {
        assert(dir.push('/').last() == '/');
    }
    assert(p.skip(dir.len() + 1int) =~= name);
    assert(!p.contains('\\')) by {
        if p.contains('\\') {
            let k = choose|k: int| 0 <= k < p.len() && p[k] == '\\';
            if k < dir.len() {
                assert(dir[k] == '\\');
            } else if k > dir.len() {
                assert(name[k - dir.len() - 1] == '\\');
            }
        }
    }
    assert(!starts_with_double_slash(p)) by {
        if dir.len() == 0 {
            assert(p[1] == name[0]);
        } else {
            assert(p[0] == dir.push('/')[0]);
            assert(p[1] == dir.push('/')[1]);
        }
    }
    assert(!starts_with_double_slash(name)) by {
        if name.len() >= 2 {
            assert(name.contains(name[0]));
        }
    }
}

/// Calls `std::path::Path::file_name` on `path`, and `OsStr::to_str` on
/// the result.  In a portable path (no `\`, not starting with `//`) the
/// separator is `/` and no prefix starts, on Unix and on Windows alike, so
/// where the text after the last `/` is a plain name it is the final, normal
/// component and the file name.  The documentation gives no file name for a
/// path ending in `..` and for `/`; an empty path has no final component.
/// Elsewhere the result is named `path_file_name`.
#[verifier::external_body]
pub(crate) fn file_name(path: &str) -> (res: Option<String>)
    ensures
        opt_view(res) == file_name_spec(path@),
        plain_tail(path@) is None && !is_nameless(path@) ==> opt_view(res) == path_file_name(
            path@,
        ),
{
    match std::path::Path::new(path).file_name() {
        Some(name) => match name.to_str() {
            Some(s) => Some(s.to_string()),
            None => None,
        },
        None => None,
    }
}

/// The extension of the file name of `path`, by the rule that
/// `Path::extension` documents.
pub fn extension(path: &str) -> (res: Option<String>)
    ensures
        opt_view(res) == path_extension(path@),
{
    let name = match file_name(path) {
        Some(name) => name,
        None => return None,
    };
    let v = chars_of(name.as_str());
    let mut last: Option<usize> = None;
    let mut i: usize = 0;
    assert(v@.take(0) =~= Seq::<char>::empty());
    while i < v.len()
        invariant
            i <= v.len(),
            v@ == name@,
            last matches Some(k) ==> k < i,
            match last {
                Some(k) => last_index(v@.take(i as int), '.') == k,
                None => last_index(v@.take(i as int), '.') == -1,
            },
        decreases v.len() - i,
    {
        assert(v@.take(i + 1).drop_last() =~= v@.take(i as int));
        assert(v@.take(i + 1).last() == v@[i as int]);
        if v[i] == '.' {
            last = Some(i);
        }
        i += 1;
    }
    assert(v@.take(v.len() as int) =~= v@);
    match last {
        Some(k) => {
            if k == 0 {
                None
            } else {
                let ext = string_from(&v, k + 1, v.len());
                assert(v@.subrange(k + 1, v@.len() as int) =~= v@.skip(k + 1));
                Some(ext)
            }
        },
        None => None,
    }
}

} // verus!
