use vstd::prelude::*;
use vstd::string::StrSliceExecFns;

verus! {

/// A path typed by a user is valid when it holds no NUL character and
/// none of its `/`-separated segments is empty.
pub open spec fn valid_path(s: Seq<char>) -> bool {
    &&& s.len() > 0
    &&& s[0] != '/'
    &&& s.last() != '/'
    &&& forall|i: int| 0 <= i < s.len() ==> s[i] != '\0'
    &&& forall|i: int| 0 <= i < s.len() - 1 ==> !(#[trigger] s[i] == '/' && s[i + 1] == '/')
}

/// Position of the last `c` in `s`, or -1 when there is none.
pub open spec fn last_index_of(s: Seq<char>, c: char) -> int
    decreases s.len(),
{
    if s.len() == 0 {
        -1
    } else if s.last() == c {
        s.len() - 1
    } else {
        last_index_of(s.drop_last(), c)
    }
}

/// The last segment of a `/`-separated path.
pub open spec fn file_name_of(path: Seq<char>) -> Seq<char> {
    path.subrange(last_index_of(path, '/') + 1, path.len() as int)
}

/// The extension of a file name: what follows its last dot, unless that dot
/// is the first character (a hidden file) or there is none; `..` has none.
pub open spec fn extension_of(name: Seq<char>) -> Option<Seq<char>> {
    let d = last_index_of(name, '.');
    if name =~= seq!['.', '.'] || d <= 0 {
        None
    } else {
        Some(name.subrange(d + 1, name.len() as int))
    }
}

/// Whether the file at `path` carries the remove marker as its extension.
pub open spec fn has_marker(path: Seq<char>, marker: Seq<char>) -> bool {
    extension_of(file_name_of(path)) == Some(marker)
}

/// Where a file is moved aside to when a delete is applied by renaming: the
/// marker is appended to its extension, so `b.txt` becomes `b.txt.del`, and
/// a name without extension `b` becomes `b..del`.
pub open spec fn renamed_spec(path: Seq<char>, marker: Seq<char>) -> Seq<char> {
    if extension_of(file_name_of(path)) is Some {
        path + seq!['.'] + marker
    } else {
        path + seq!['.', '.'] + marker
    }
}

/// The local path of a path key under a working directory.
pub open spec fn joined_spec(dir: Seq<char>, key: Seq<char>) -> Seq<char> {
    if dir.len() == 0 {
        key
    } else if dir.last() == '/' {
        dir + key
    } else {
        dir + seq!['/'] + key
    }
}

proof fn lemma_last_index_bounds(s: Seq<char>, c: char)
    ensures
        -1 <= last_index_of(s, c) < s.len(),
        last_index_of(s, c) >= 0 ==> s[last_index_of(s, c)] == c,
        forall|j: int| last_index_of(s, c) < j < s.len() ==> s[j] != c,
    decreases s.len(),
{
    if s.len() > 0 && s.last() != c {
        lemma_last_index_bounds(s.drop_last(), c);
        assert forall|j: int| last_index_of(s, c) < j < s.len() implies s[j] != c by {
            if j < s.len() - 1 {
                assert(s.drop_last()[j] == s[j]);
            }
        }
    }
}

/// Checks a path typed by a user before it is taken as a directory.
pub fn is_valid_path(path: &str) -> (r: bool)
    ensures
        r == valid_path(path@),
{
    let n = path.unicode_len();
    if n == 0 {
        return false;
    }
    if path.get_char(0) == '/' || path.get_char(n - 1) == '/' {
        return false;
    }
    let mut i: usize = 0;
    while i < n
        invariant
            n == path@.len(),
            0 <= i <= n,
            forall|j: int| 0 <= j < i ==> path@[j] != '\0',
            forall|j: int| 0 <= j < i && j < n - 1 ==> !(#[trigger] path@[j] == '/' && path@[j + 1] == '/'),
        decreases n - i,
    {
        let c = path.get_char(i);
        if c == '\0' {
            return false;
        }
        if c == '/' && i + 1 < n && path.get_char(i + 1) == '/' {
            return false;
        }
        i += 1;
    }
    true
}

/// The position of the last `c` in `s`, if any.
fn find_last(s: &str, c: char) -> (r: Option<usize>)
    ensures
        r is None <==> last_index_of(s@, c) == -1,
        r is Some ==> r->0 as int == last_index_of(s@, c),
{
    proof {
        lemma_last_index_bounds(s@, c);
    }
    let n = s.unicode_len();
    let mut i: usize = n;
    while i > 0
        invariant
            n == s@.len(),
            i <= n,
            forall|j: int| i <= j < n ==> s@[j] != c,
            -1 <= last_index_of(s@, c) < i as int,
            last_index_of(s@, c) >= 0 ==> s@[last_index_of(s@, c)] == c,
        decreases i,
    {
        if s.get_char(i - 1) == c {
            proof {
                lemma_last_index_bounds(s@, c);
            }
            return Some(i - 1);
        }
        i -= 1;
    }
    None
}

/// The last `/`-separated segment of `path`.
pub fn file_name(path: &str) -> (r: &str)
    ensures
        r@ == file_name_of(path@),
{
    proof {
        lemma_last_index_bounds(path@, '/');
    }
    let n = path.unicode_len();
    match find_last(path, '/') {
        Some(i) => path.substring_char(i + 1, n),
        None => path.substring_char(0, n),
    }
}

/// The extension of a file name, as `Path::extension` gives it.
pub fn extension(name: &str) -> (r: Option<&str>)
    ensures
        r is Some <==> extension_of(name@) is Some,
        r is Some ==> r->0@ == extension_of(name@)->0,
{
    proof {
        lemma_last_index_bounds(name@, '.');
        reveal_strlit("..");
    }
    let n = name.unicode_len();
    if n == 2 && name.get_char(0) == '.' && name.get_char(1) == '.' {
        assert(name@ =~= seq!['.', '.']);
        return None;
    }
    match find_last(name, '.') {
        Some(d) => {
            if d == 0 {
                None
            } else {
                Some(name.substring_char(d + 1, n))
            }
        },
        None => None,
    }
}

/// Whether `a` and `b` hold the same characters.
pub fn same_text(a: &str, b: &str) -> (r: bool)
    ensures
        r == (a@ == b@),
{
    let n = a.unicode_len();
    if n != b.unicode_len() {
        return false;
    }
    let mut i: usize = 0;
    while i < n
        invariant
            n == a@.len(),
            n == b@.len(),
            i <= n,
            forall|j: int| 0 <= j < i ==> a@[j] == b@[j],
        decreases n - i,
    {
        if a.get_char(i) != b.get_char(i) {
            return false;
        }
        i += 1;
    }
    assert(a@ =~= b@);
    true
}

/// Whether the file at `path` is a tombstone: its extension is the remove
/// marker.
pub fn has_remove_marker(path: &str, marker: &str) -> (r: bool)
    ensures
        r == has_marker(path@, marker@),
{
    let name = file_name(path);
    match extension(name) {
        Some(ext) => same_text(ext, marker),
        None => false,
    }
}

/// The path a file is renamed to when a remove is applied by renaming.
pub fn renamed_path(path: &str, marker: &str) -> (r: String)
    ensures
        r@ == renamed_spec(path@, marker@),
{
    let name = file_name(path);
    let mut r = path.to_string();
    proof {
        reveal_strlit(".");
        reveal_strlit("..");
    }
    if extension(name).is_some() {
        r.append(".");
    } else {
        r.append("..");
    }
    r.append(marker);
    r
}

/// The local path of a path key under the directory `dir`.
pub fn join_path(dir: &str, key: &str) -> (r: String)
    ensures
        r@ == joined_spec(dir@, key@),
{
    let n = dir.unicode_len();
    let mut r = dir.to_string();
    if n > 0 && dir.get_char(n - 1) != '/' {
        proof {
            reveal_strlit("/");
        }
        r.append("/");
    }
    r.append(key);
    r
}

} // verus!
