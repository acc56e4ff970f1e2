//! How `std::path` reads a Unix path given as text: its components, its
//! final component, and that component's stem and extension.

use vstd::prelude::*;
use crate::text::split_char;

verus! {

/// The text after the last `/` of `p` (all of `p` when it has none).
pub open spec fn last_segment(p: Seq<char>) -> Seq<char>
    decreases p.len(),
{
    if p.len() == 0 || p.last() == '/' {
        Seq::empty()
    } else {
        last_segment(p.drop_last()).push(p.last())
    }
}

/// The final component of a path: trailing slashes and `.` components are
/// passed over; there is none for an empty path, the root, a path of `.`
/// components only, or a path that ends in `..`.
pub open spec fn file_name_of(p: Seq<char>) -> Option<Seq<char>>
    decreases p.len(),
{
    if p.len() == 0 {
        None
    } else if p.last() == '/' {
        file_name_of(p.drop_last())
    } else if last_segment(p) == seq!['.'] {
        file_name_of(p.drop_last())
    } else if last_segment(p) == seq!['.', '.'] {
        None
    } else {
        Some(last_segment(p))
    }
}

/// Index of the last `c` in `s`, or -1 when there is none.
pub open spec fn last_index(s: Seq<char>, c: char) -> int
    decreases s.len(),
{
    if s.len() == 0 {
        -1
    } else if s.last() == c {
        s.len() - 1
    } else {
        last_index(s.drop_last(), c)
    }
}

/// The stem of a file name: the text before its last dot, or the whole
/// name when it has no dot or its only dot comes first.
pub open spec fn stem_of(name: Seq<char>) -> Seq<char> {
    let i = last_index(name, '.');
    if i <= 0 {
        name
    } else {
        name.take(i)
    }
}

/// The extension of a file name: the text after its last dot; none when
/// it has no dot or its only dot comes first.
pub open spec fn extension_of(name: Seq<char>) -> Option<Seq<char>> {
    let i = last_index(name, '.');
    if i <= 0 {
        None
    } else {
        Some(name.skip(i + 1))
    }
}

/// The named components of a path: the pieces between slashes that are
/// neither empty nor `.` (`..` stays: it names the parent directory).
pub open spec fn path_parts(p: Seq<char>) -> Seq<Seq<char>> {
    split_char(p, '/').filter(|s: Seq<char>| s.len() > 0 && s != seq!['.'])
}

/// The path starts at the root.
pub open spec fn rooted(p: Seq<char>) -> bool {
    p.len() > 0 && p[0] == '/'
}

/// A relative path that starts with the current directory: `.` alone or
/// followed by `/`.
pub open spec fn starts_at_current_dir(p: Seq<char>) -> bool {
    p.len() > 0 && p[0] == '.' && (p.len() == 1 || p[1] == '/')
}

/// Two paths have the same components: a root or a leading current
/// directory in both or neither, and the same named components.
pub open spec fn same_components(a: Seq<char>, b: Seq<char>) -> bool {
    &&& rooted(a) == rooted(b)
    &&& starts_at_current_dir(a) == starts_at_current_dir(b)
    &&& path_parts(a) == path_parts(b)
}

} // verus!
