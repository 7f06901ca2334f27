//! Path strings: components, file names, extensions, joining and
//! prefix-stripping.
//!
//! Paths are plain strings whose components are separated by `/`.  The
//! archiver works on paths relative to the scanned source root, so a path's
//! components are exactly the directory names between the root and the entry,
//! ending with the entry's own name.

use vstd::prelude::*;

verus! {

/// Index of the last occurrence of `c` in `s`, or `-1` when `c` does not
/// occur.
pub open spec fn last_index_of_char(s: Seq<char>, c: char) -> int
    decreases s.len(),
{
    if s.len() == 0 {
        -1
    } else if s[s.len() - 1] == c {
        s.len() - 1
    } else {
        last_index_of_char(s.drop_last(), c)
    }
}

/// `last_index_of_char` indeed points at the last occurrence.
pub proof fn lemma_last_index_of_char(s: Seq<char>, c: char)
    ensures
        -1 <= last_index_of_char(s, c) < s.len(),
        last_index_of_char(s, c) >= 0 ==> s[last_index_of_char(s, c)] == c,
        forall|i: int| last_index_of_char(s, c) < i < s.len() ==> s[i] != c,
    decreases s.len(),
{
    if s.len() > 0 && s[s.len() - 1] != c {
        lemma_last_index_of_char(s.drop_last(), c);
        assert(forall|i: int| 0 <= i < s.len() - 1 ==> s[i] == s.drop_last()[i]);
    }
}

/// The last occurrence is the only index with nothing equal to `c` after it.
pub proof fn lemma_last_index_of_char_unique(s: Seq<char>, c: char, k: int)
    requires
        0 <= k < s.len(),
        s[k] == c,
        forall|i: int| k < i < s.len() ==> s[i] != c,
    ensures
        last_index_of_char(s, c) == k,
{
    lemma_last_index_of_char(s, c);
}

/// When `c` does not occur at all, the index is `-1`.
pub proof fn lemma_last_index_of_char_absent(s: Seq<char>, c: char)
    requires
        forall|i: int| 0 <= i < s.len() ==> s[i] != c,
    ensures
        last_index_of_char(s, c) == -1,
{
    lemma_last_index_of_char(s, c);
}

/// The final component of `path`: everything after the last separator, or the
/// whole path when it has a single component.
pub open spec fn file_name_spec(path: Seq<char>) -> Seq<char> {
    path.subrange(last_index_of_char(path, '/') + 1, path.len() as int)
}

/// The extension of `path`'s file name: the substring after the final `.`,
/// or `None` when the name holds no `.`, or only a leading one (a
/// conventionally hidden name such as `.gitignore` has no extension).
pub open spec fn extension_spec(path: Seq<char>) -> Option<Seq<char>> {
    let name = file_name_spec(path);
    let j = last_index_of_char(name, '.');
    if j <= 0 {
        None
    } else {
        Some(name.subrange(j + 1, name.len() as int))
    }
}

/// Whether some component of `path` begins with the hidden-file marker `.`.
/// Component starts are the first character and every character after a
/// separator.
pub open spec fn has_hidden_component(path: Seq<char>) -> bool {
    exists|i: int|
        0 <= i < path.len() && #[trigger] path[i] == '.' && (i == 0 || path[i - 1] == '/')
}

/// `base` and `rel` joined with a single separator.
pub open spec fn join_spec(base: Seq<char>, rel: Seq<char>) -> Seq<char> {
    base.push('/') + rel
}

/// `path` relative to `base`: the remainder after `base` and a separator, or
/// the empty path when the two are equal, or `None` when `path` is not rooted
/// under `base`.
pub open spec fn strip_prefix_spec(path: Seq<char>, base: Seq<char>) -> Option<Seq<char>> {
    if path == base {
        Some(Seq::empty())
    } else if base.len() < path.len() && path.take(base.len() as int) == base && path[
        base.len() as int
    ] == '/' {
        Some(path.skip(base.len() as int + 1))
    } else {
        None
    }
}

/// Everything before the last separator of `path`, or the empty path when it
/// has no separator.
pub open spec fn parent_spec(path: Seq<char>) -> Seq<char> {
    if last_index_of_char(path, '/') >= 0 {
        path.take(last_index_of_char(path, '/'))
    } else {
        Seq::empty()
    }
}

/// Position one past the last occurrence of `c` within `s`, or `0` when `c`
/// does not occur.
fn position_after_last(s: &str, c: char) -> (r: usize)
    ensures
        r == last_index_of_char(s@, c) + 1,
{
    let len = s.unicode_len();
    let mut j = len;
    while j > 0
        invariant
            j <= len,
            len == s@.len(),
            forall|i: int| j <= i < s@.len() ==> s@[i] != c,
        decreases j,
    {
        if s.get_char(j - 1) == c {
            proof {
                lemma_last_index_of_char_unique(s@, c, j - 1);
            }
            return j;
        }
        j = j - 1;
    }
    proof {
        lemma_last_index_of_char_absent(s@, c);
    }
    0
}

/// The extension of `path`'s file name, as `extension_spec` gives it.
pub fn extension_part<'a>(path: &'a str) -> (r: Option<&'a str>)
    ensures
        match r {
            Some(e) => extension_spec(path@) == Some(e@),
            None => extension_spec(path@) is None,
        },
{
    let len = path.unicode_len();
    let name_start = position_after_last(path, '/');
    proof {
        lemma_last_index_of_char(path@, '/');
    }
    let name = path.substring_char(name_start, len);
    assert(name@ =~= file_name_spec(path@));
    let dot = position_after_last(name, '.');
    proof {
        lemma_last_index_of_char(name@, '.');
    }
    if dot <= 1 {
        None
    } else {
        let name_len = name.unicode_len();
        Some(name.substring_char(dot, name_len))
    }
}

/// Whether some component of `path` begins with the hidden-file marker, as
/// `has_hidden_component` gives it.
pub fn is_hidden(path: &str) -> (r: bool)
    ensures
        r == has_hidden_component(path@),
{
    let len = path.unicode_len();
    let mut i: usize = 0;
    let mut prev: char = '/';
    while i < len
        invariant
            i <= len,
            len == path@.len(),
            i > 0 ==> prev == path@[i - 1],
            i == 0 ==> prev == '/',
            forall|k: int|
                0 <= k < i ==> !(#[trigger] path@[k] == '.' && (k == 0 || path@[k - 1] == '/')),
        decreases len - i,
    {
        let c = path.get_char(i);
        if c == '.' && prev == '/' {
            assert(path@[i as int] == '.' && (i as int == 0 || path@[i as int - 1] == '/'));
            return true;
        }
        prev = c;
        i = i + 1;
    }
    false
}

/// `base` and `rel` joined with a single separator, as `join_spec` gives it.
pub fn join_path(base: &str, rel: &str) -> (r: String)
    ensures
        r@ == join_spec(base@, rel@),
{
    let mut r = base.to_owned();
    crate::text::push_char(&mut r, '/');
    r.append(rel);
    r
}

/// Everything before the last separator, as `parent_spec` gives it.
pub fn parent_of(path: &str) -> (r: String)
    ensures
        r@ == parent_spec(path@),
{
    let end = position_after_last(path, '/');
    proof {
        lemma_last_index_of_char(path@, '/');
    }
    if end == 0 {
        String::new()
    } else {
        let r = path.substring_char(0, end - 1);
        assert(r@ =~= parent_spec(path@));
        r.to_owned()
    }
}

} // verus!
