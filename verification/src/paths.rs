//! Paths as texts: the final component of a path, its stem and extension,
//! and joining a directory and a name. A path is read as on Unix, with `/`
//! between its components.

use vstd::prelude::*;
use crate::text::{
    after_last, append, find_last_char, last_position_of, slice_of, take_after_last,
};

verus! {

/// The two full stops that name the parent directory.
pub open spec fn parent_dir() -> Seq<char> {
    seq!['.', '.']
}

/// The full stop that names the directory itself.
pub open spec fn current_dir() -> Seq<char> {
    seq!['.']
}

/// The final component of a path, if it names a file or a directory:
/// trailing separators and components that are a single full stop are
/// passed over, and a path that ends in the parent directory has none.
pub open spec fn file_name_of(path: Seq<char>) -> Option<Seq<char>>
    decreases path.len(),
{
    let segment = after_last(path, '/');
    if segment == parent_dir() {
        None
    } else if segment.len() > 0 && segment != current_dir() {
        Some(segment)
    } else {
        match last_position_of(path, '/') {
            Some(i) => if 0 <= i < path.len() {
                file_name_of(path.take(i))
            } else {
                None
            },
            None => None,
        }
    }
}

/// A file name split at its last full stop into stem and extension. A name
/// without a full stop, or with none but the one it begins with, is all
/// stem.
pub open spec fn dot_split(name: Seq<char>) -> (Seq<char>, Option<Seq<char>>) {
    match last_position_of(name, '.') {
        Some(i) => if i == 0 {
            (name, None)
        } else {
            (name.take(i), Some(name.skip(i + 1)))
        },
        None => (name, None),
    }
}

/// The extension of the final component of a path.
pub open spec fn extension_of(path: Seq<char>) -> Option<Seq<char>> {
    match file_name_of(path) {
        Some(name) => dot_split(name).1,
        None => None,
    }
}

/// The stem of the final component of a path.
pub open spec fn stem_of(path: Seq<char>) -> Option<Seq<char>> {
    match file_name_of(path) {
        Some(name) => Some(dot_split(name).0),
        None => None,
    }
}

/// The path of `name` inside the directory `dir`. A name that begins at the
/// root stands for itself.
pub open spec fn joined(dir: Seq<char>, name: Seq<char>) -> Seq<char> {
    if name.len() > 0 && name[0] == '/' {
        name
    } else if dir.len() > 0 && dir.last() != '/' {
        dir.push('/') + name
    } else {
        dir + name
    }
}

fn is_dots(segment: &Vec<char>, count: usize) -> (yes: bool)
    requires
        count == 1 || count == 2,
    ensures
        yes == (segment@ == if count == 1 {
            current_dir()
        } else {
            parent_dir()
        }),
{
    if segment.len() != count {
        return false;
    }
    if count == 1 {
        let yes = segment[0] == '.';
        assert(yes ==> segment@ =~= current_dir());
        yes
    } else {
        let yes = segment[0] == '.' && segment[1] == '.';
        assert(yes ==> segment@ =~= parent_dir());
        yes
    }
}

/// Finds the final component of a path.
pub fn file_name(path: &Vec<char>) -> (name: Option<Vec<char>>)
    ensures
        match name {
            Some(n) => file_name_of(path@) == Some(n@),
            None => file_name_of(path@) is None,
        },
    decreases path.len(),
{
    let segment = take_after_last(path, '/');
    if is_dots(&segment, 2) {
        None
    } else if segment.len() > 0 && !is_dots(&segment, 1) {
        Some(segment)
    } else {
        match find_last_char(path, '/') {
            Some(i) => {
                let shorter = slice_of(path, 0, i);
                assert(path@.subrange(0, i as int) =~= path@.take(i as int));
                file_name(&shorter)
            },
            None => None,
        }
    }
}

/// Splits a file name into stem and extension.
pub fn split_at_dot(name: &Vec<char>) -> (parts: (Vec<char>, Option<Vec<char>>))
    ensures
        parts.0@ == dot_split(name@).0,
        match parts.1 {
            Some(e) => dot_split(name@).1 == Some(e@),
            None => dot_split(name@).1 is None,
        },
{
    match find_last_char(name, '.') {
        Some(i) => {
            if i == 0 {
                assert(name@.subrange(0, name.len() as int) =~= name@);
                (slice_of(name, 0, name.len()), None)
            } else {
                assert(name@.subrange(0, i as int) =~= name@.take(i as int));
                assert(name@.subrange(i + 1, name.len() as int) =~= name@.skip(i + 1));
                (slice_of(name, 0, i), Some(slice_of(name, i + 1, name.len())))
            }
        },
        None => {
            assert(name@.subrange(0, name.len() as int) =~= name@);
            (slice_of(name, 0, name.len()), None)
        },
    }
}

/// Finds the extension of the final component of a path.
pub fn extension(path: &Vec<char>) -> (ext: Option<Vec<char>>)
    ensures
        match ext {
            Some(e) => extension_of(path@) == Some(e@),
            None => extension_of(path@) is None,
        },
{
    match file_name(path) {
        Some(name) => split_at_dot(&name).1,
        None => None,
    }
}

/// Writes the path of `name` inside the directory `dir`.
pub fn join_path(dir: &Vec<char>, name: &Vec<char>) -> (path: Vec<char>)
    ensures
        path@ == joined(dir@, name@),
{
    let mut path: Vec<char> = Vec::new();
    if name.len() > 0 && name[0] == '/' {
        append(&mut path, name);
        assert(Seq::<char>::empty() + name@ =~= name@);
    } else {
        append(&mut path, dir);
        assert(Seq::<char>::empty() + dir@ =~= dir@);
        if dir.len() > 0 && dir[dir.len() - 1] != '/' {
            path.push('/');
        }
        append(&mut path, name);
    }
    path
}

} // verus!
