//! Names of archive entries: relative paths with forward slashes.

use vstd::prelude::*;

verus! {

/// No character of `s` is a backslash.
pub open spec fn no_backslash(s: Seq<char>) -> bool {
    forall|i: int| 0 <= i < s.len() ==> s[i] != '\\'
}

/// `name` can name an entry: it is not empty, does not start at the root,
/// and separates its parts with forward slashes only.
pub open spec fn valid_entry_name(name: Seq<char>) -> bool {
    &&& name.len() > 0
    &&& name[0] != '/'
    &&& no_backslash(name)
}

/// Tells whether `name` can name an entry.
pub fn is_valid_entry_name(name: &str) -> (ok: bool)
    ensures
        ok == valid_entry_name(name@),
{
    let mut first: bool = true;
    let mut ok: bool = true;
    for c in it: name.chars()
        invariant
            it.seq() == name@,
            first == (it.index() == 0),
            ok == (forall|i: int| 0 <= i < it.index() ==> name@[i] != '\\' && (i == 0 ==> name@[i] != '/')),
    {
        if c == '\\' || (first && c == '/') {
            ok = false;
        }
        first = false;
    }
    ok && !first
}

/// `name` is one part of a path: not empty, free of separators, and
/// neither `.` nor `..`, which name no file.
pub open spec fn valid_component(name: Seq<char>) -> bool {
    &&& name.len() > 0
    &&& forall|i: int| 0 <= i < name.len() ==> name[i] != '/' && name[i] != '\\'
    &&& name != seq!['.']
    &&& name != seq!['.', '.']
}

/// `dest` can stand before the names of the files of a directory: it is
/// empty, or a relative path with forward slashes.
pub open spec fn valid_prefix(dest: Seq<char>) -> bool {
    dest.len() == 0 || valid_entry_name(dest)
}

/// The path of `name` below `dest`: the two joined by one slash, which is
/// left out where `dest` is empty or ends in one.
pub open spec fn join(dest: Seq<char>, name: Seq<char>) -> Seq<char> {
    if dest.len() == 0 {
        name
    } else if dest.last() == '/' {
        dest + name
    } else {
        dest + seq!['/'] + name
    }
}

/// A part joined to a prefix names an entry, and can stand as a prefix
/// itself.
pub proof fn lemma_join_is_valid(dest: Seq<char>, name: Seq<char>)
    requires
        valid_prefix(dest),
        valid_component(name),
    ensures
        valid_entry_name(join(dest, name)),
        valid_prefix(join(dest, name)),
{
}

/// Tells whether `name` is one part of a path.
pub fn is_valid_component(name: &str) -> (ok: bool)
    ensures
        ok == valid_component(name@),
{
    let mut seen: u8 = 0;
    let mut dots: bool = true;
    let mut ok: bool = true;
    for c in it: name.chars()
        invariant
            it.seq() == name@,
            seen == if it.index() < 3 { it.index() } else { 3 },
            dots == (forall|i: int| 0 <= i < it.index() ==> name@[i] == '.'),
            ok == (forall|i: int| 0 <= i < it.index() ==> name@[i] != '/' && name@[i] != '\\'),
    {
        if c == '/' || c == '\\' {
            ok = false;
        }
        if c != '.' {
            dots = false;
        }
        if seen < 3 {
            seen += 1;
        }
    }
    proof {
        if dots && name@.len() == 1 {
            assert(name@ =~= seq!['.']);
        }
        if dots && name@.len() == 2 {
            assert(name@ =~= seq!['.', '.']);
        }
        if name@ == seq!['.'] || name@ == seq!['.', '.'] {
            assert(seq!['.'].len() == 1 && seq!['.', '.'].len() == 2);
            assert(seq!['.'][0] == '.' && seq!['.', '.'][0] == '.' && seq!['.', '.'][1] == '.');
        }
    }
    ok && seen > 0 && !(dots && seen < 3)
}

/// Tells whether `dest` can stand before the names of the files of a
/// directory.
pub fn is_valid_prefix(dest: &str) -> (ok: bool)
    ensures
        ok == valid_prefix(dest@),
{
    dest.is_empty() || is_valid_entry_name(dest)
}

/// Joins `name` to `dest`.
pub fn join_names(dest: &str, name: &str) -> (joined: String)
    ensures
        joined@ == join(dest@, name@),
{
    let len = dest.unicode_len();
    if len == 0 {
        name.to_owned()
    } else {
        let mut joined = dest.to_owned();
        if dest.get_char(len - 1) != '/' {
            joined.append("/");
            proof {
                reveal_strlit("/");
                assert("/"@ =~= seq!['/']);
            }
        }
        joined.append(name);
        joined
    }
}

} // verus!
