//! Paths below directories, and paths that are the same.

use vstd::prelude::*;

use crate::change_tree::at_or_above;
use crate::input::Platform;
use crate::paths::{native, native_under, same_parts, under_dir};

verus! {

/// A path below a directory is written behind it, with one separator between the two that is
/// the system's own; an absolute one stands for itself.
pub proof fn law_one_separator_parts_the_two(dir: Seq<char>, child: Seq<char>)
    requires
        dir.len() > 0,
        dir.last() != '/',
        dir.last() != '\\',
        child.len() > 0,
        child[0] != '/',
    ensures
        under_dir(dir, child) == dir + seq!['/'] + child,
        under_dir(dir.push('/'), child) == dir + seq!['/'] + child,
        under_dir(Seq::empty(), child) == child,
        under_dir(dir, seq!['/'] + child) == seq!['/'] + child,
        native_under(dir, child, Platform::Other) == dir + seq!['/'] + child,
        native_under(dir, child, Platform::Mac) == dir + seq!['/'] + child,
        native_under(dir, child, Platform::Windows) == dir + seq!['\\'] + child,
        native_under(dir.push('\\'), child, Platform::Windows) == dir + seq!['\\'] + child,
        native_under(Seq::empty(), child, Platform::Windows) == child,
{
    assert(dir.push('/') + child =~= dir + seq!['/'] + child);
    assert(dir.push('\\') + child =~= dir + seq!['\\'] + child);
    assert(Seq::<char>::empty() + child =~= child);
}

/// Only on one system does a path change when it is written as the system does, and there each
/// slash turns round and nothing else does.
pub proof fn law_slashes_turn_round(path: Seq<char>, i: int)
    requires
        0 <= i < path.len(),
    ensures
        native(path, Platform::Other) == path,
        native(path, Platform::Mac) == path,
        native(path, Platform::Windows).len() == path.len(),
        native(path, Platform::Windows)[i] == (if path[i] == '/' {
            '\\'
        } else {
            path[i]
        }),
{
    assert(native(path, Platform::Other) =~= path);
    assert(native(path, Platform::Mac) =~= path);
}

/// That two paths are the same goes both ways and on and on; an absolute path is never the same
/// as one that is not.
pub proof fn law_same_paths_are_alike(a: Seq<char>, b: Seq<char>, c: Seq<char>)
    ensures
        same_parts(a, a),
        same_parts(a, b) ==> same_parts(b, a),
        same_parts(a, b) && same_parts(b, c) ==> same_parts(a, c),
        a.len() > 0 && a[0] == '/' && (b.len() == 0 || b[0] != '/') ==> !same_parts(a, b),
{
    reveal_strlit("/");
    assert("/"@ =~= seq!['/']);
    if a.len() > 0 && a[0] == '/' {
        assert(a.subrange(0, 1) =~= "/"@);
        assert(a.take(1) =~= "/"@);
    }
    if b.len() > 0 && b[0] != '/' {
        assert(b.subrange(0, 1)[0] != '/');
        assert(b.take(1)[0] != '/');
    }
}

/// A directory is above what lies below it and above itself, and not above a path that only
/// begins with the same letters.
pub proof fn law_directories_are_above_their_paths(dir: Seq<char>, child: Seq<char>)
    requires
        child.len() > 0,
    ensures
        at_or_above(dir, dir),
        at_or_above(dir, dir + seq!['/'] + child),
        child[0] != '/' ==> !at_or_above(dir, dir + child),
        !at_or_above(dir + child, dir),
{
    let below = dir + seq!['/'] + child;
    assert(below.subrange(0, dir.len() as int) =~= dir);
    assert(below.take(dir.len() as int) =~= dir);
    assert((dir + child)[dir.len() as int] == child[0]);
    assert((dir + child).len() > dir.len());
}

} // verus!
