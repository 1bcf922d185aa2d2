//! File paths, written with `/` between their parts.

use vstd::prelude::*;

use crate::text::{chars_of, glue, glue3, same_text, text_of};

verus! {

/// `name` as seen from the directory `dir`. An absolute name stands for itself.
pub open spec fn joined_path(dir: Seq<char>, name: Seq<char>) -> Seq<char> {
    if name.len() > 0 && name[0] == '/' {
        name
    } else if dir.len() == 0 || dir.last() == '/' {
        dir + name
    } else {
        dir + "/"@ + name
    }
}

/// `name` as seen from the directory `dir`.
pub fn join_path(dir: &str, name: &str) -> (path: String)
    ensures
        path@ == joined_path(dir@, name@),
{
    let parts = chars_of(name);
    let above = chars_of(dir);
    if parts.len() > 0 && parts[0] == '/' {
        name.to_string()
    } else if above.len() == 0 || above[above.len() - 1] == '/' {
        glue(dir, name)
    } else {
        glue3(dir, "/", name)
    }
}

/// The position of the last dot in `name`, if it has one.
pub open spec fn last_dot(name: Seq<char>) -> Option<int>
    decreases name.len(),
{
    if name.len() == 0 {
        None
    } else if name.last() == '.' {
        Some(name.len() - 1)
    } else {
        last_dot(name.drop_last())
    }
}

/// What stands before the last dot of a file name. A name without a dot, a name
/// whose only dot comes first, and `..` are their own stem.
pub open spec fn file_stem(name: Seq<char>) -> Seq<char> {
    match last_dot(name) {
        Some(at) => if at == 0 || name == ".."@ {
            name
        } else {
            name.take(at)
        },
        None => name,
    }
}

/// What stands behind the last dot of a file name, under the same exceptions.
pub open spec fn file_extension(name: Seq<char>) -> Option<Seq<char>> {
    match last_dot(name) {
        Some(at) => if at == 0 || name == ".."@ {
            None
        } else {
            Some(name.skip(at + 1))
        },
        None => None,
    }
}

fn find_last_dot(name: &Vec<char>) -> (at: Option<usize>)
    ensures
        match at {
            Some(at) => last_dot(name@) == Some(at as int) && at < name@.len() && name@[at as int]
                == '.',
            None => last_dot(name@) is None,
        },
{
    let mut end: usize = name.len();
    proof {
        assert(name@.take(end as int) =~= name@);
    }
    while end > 0
        invariant
            end <= name@.len(),
            last_dot(name@) == last_dot(name@.take(end as int)),
        decreases end,
    {
        if name[end - 1] == '.' {
            return Some(end - 1);
        }
        proof {
            assert(name@.take(end as int).drop_last() =~= name@.take(end - 1));
        }
        end -= 1;
    }
    None
}

/// The stem of a file name.
pub fn file_stem_of(name: &str) -> (stem: String)
    ensures
        stem@ == file_stem(name@),
{
    let chars = chars_of(name);
    match find_last_dot(&chars) {
        Some(at) => if at == 0 || same_text(name, "..") {
            name.to_string()
        } else {
            proof {
                assert(name@.subrange(0, at as int) =~= name@.take(at as int));
            }
            text_of(&chars, 0, at)
        },
        None => name.to_string(),
    }
}

/// Whether the file name `name` has the extension `extension`.
pub fn has_extension(name: &str, extension: &str) -> (has: bool)
    ensures
        has == (file_extension(name@) == Some(extension@)),
{
    let chars = chars_of(name);
    match find_last_dot(&chars) {
        Some(at) => if at == 0 || same_text(name, "..") {
            false
        } else {
            proof {
                assert(name@.subrange(at + 1, name@.len() as int) =~= name@.skip(at + 1));
            }
            let end: usize = chars.len();
            let found = text_of(&chars, at + 1, end);
            same_text(found.as_str(), extension)
        },
        None => false,
    }
}

} // verus!
