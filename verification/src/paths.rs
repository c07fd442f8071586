//! Paths as text, joined as the system that they are for joins them.

use vstd::prelude::*;
use crate::text::{after, behind, cat, cat3, followed, head, is_letter, letter, Class};

verus! {

/// The family of systems that the program runs on.
#[derive(Clone, Copy, Debug, PartialEq, Eq, Structural)]
pub enum Platform {
    MacOs,
    Windows,
    Linux,
}

/// Whether a character parts the names of a path.
pub open spec fn separates(platform: Platform, c: char) -> bool {
    c == '/' || platform == Platform::Windows && c == '\\'
}

/// Whether a path begins with the letter of a drive.
pub open spec fn has_drive(platform: Platform, path: Seq<char>) -> bool {
    platform == Platform::Windows && path.len() >= 2 && letter(path[0]) && path[1] == ':'
}

/// The separator that a system writes.
pub open spec fn separator(platform: Platform) -> Seq<char> {
    if platform == Platform::Windows {
        "\\"@
    } else {
        "/"@
    }
}

/// The path of the entry `name` in the directory `dir`. A name that is a path
/// with a drive, or from the root, stands for itself; from the root it stays on
/// the drive of the directory. No separator is put behind a bare drive, which is
/// the current directory of that drive.
pub open spec fn joined(platform: Platform, dir: Seq<char>, name: Seq<char>) -> Seq<char> {
    if has_drive(platform, name) {
        name
    } else if name.len() > 0 && separates(platform, name[0]) {
        if has_drive(platform, dir) && !(name.len() > 1 && separates(platform, name[1])) {
            dir.take(2) + name
        } else {
            name
        }
    } else if dir.len() == 0 || separates(platform, dir.last()) || has_drive(platform, dir)
        && dir.len() == 2 {
        dir + name
    } else {
        dir + separator(platform) + name
    }
}

fn is_separator(platform: Platform, c: char) -> (r: bool)
    ensures
        r == separates(platform, c),
{
    c == '/' || platform == Platform::Windows && c == '\\'
}

fn on_drive(platform: Platform, path: &str) -> (r: bool)
    ensures
        r == has_drive(platform, path@),
{
    platform == Platform::Windows && path.unicode_len() >= 2 && is_letter(path.get_char(0))
        && path.get_char(1) == ':'
}

pub fn join(platform: Platform, dir: &str, name: &str) -> (r: String)
    ensures
        r@ == joined(platform, dir@, name@),
{
    let m: usize = name.unicode_len();
    let n: usize = dir.unicode_len();
    if on_drive(platform, name) {
        return name.to_owned();
    }
    if m > 0 && is_separator(platform, name.get_char(0)) {
        if on_drive(platform, dir) && !(m > 1 && is_separator(platform, name.get_char(1))) {
            return cat(head(dir, 2), name);
        }
        return name.to_owned();
    }
    if n == 0 || is_separator(platform, dir.get_char(n - 1)) || on_drive(platform, dir) && n == 2 {
        cat(dir, name)
    } else if platform == Platform::Windows {
        cat3(dir, "\\", name)
    } else {
        cat3(dir, "/", name)
    }
}

/// What parts the names of a path.
pub open spec fn separators(platform: Platform) -> Class {
    if platform == Platform::Windows {
        Class::Either('/', '\\')
    } else {
        Class::Is('/')
    }
}

/// The last name in a path.
pub open spec fn last_name(platform: Platform, path: Seq<char>) -> Seq<char> {
    behind(path, separators(platform))
}

pub fn file_name(platform: Platform, path: &str) -> (r: String)
    ensures
        r@ == last_name(platform, path@),
{
    if platform == Platform::Windows {
        after(path, Class::Either('/', '\\')).to_owned()
    } else {
        after(path, Class::Is('/')).to_owned()
    }
}

/// An entry of a directory lies behind it and one separator, the system's own; where
/// the directory ends in one, no other is put in.
pub proof fn law_entries_lie_behind(dir: Seq<char>, name: Seq<char>)
    requires
        dir.len() > 0 && name.len() > 0,
        name[0] != '/' && name[0] != '\\',
    ensures
        dir.last() != '/' ==> joined(Platform::Linux, dir, name) == dir + "/"@ + name,
        dir.last() != '/' ==> joined(Platform::MacOs, dir, name) == dir + "/"@ + name,
        dir.last() == '/' ==> joined(Platform::Linux, dir, name) == dir + name,
        dir.last() == '/' ==> joined(Platform::MacOs, dir, name) == dir + name,
        dir.last() != '/' && dir.last() != '\\' && dir.len() > 2 && !(name.len() >= 2 && name[1] == ':')
            ==> joined(Platform::Windows, dir, name) == dir + "\\"@ + name,
        dir.last() == '\\' && !(name.len() >= 2 && name[1] == ':') ==> joined(
            Platform::Windows,
            dir,
            name,
        ) == dir + name,
{
}

/// The last name of a path is the entry that was put behind a directory.
pub proof fn law_last_name_is_the_entry(platform: Platform, dir: Seq<char>, name: Seq<char>)
    requires
        dir.len() > 2 && name.len() > 0,
        forall|i: int|
            0 <= i < name.len() ==> #[trigger] name[i] != '/' && name[i] != '\\' && name[i] != ':',
    ensures
        last_name(platform, joined(platform, dir, name)) == name,
{
    reveal_strlit("/");
    reveal_strlit("\\");
    let p = joined(platform, dir, name);
    let k = separators(platform);
    assert(name[0] != '/' && name[0] != '\\');
    if name.len() >= 2 {
        assert(name[1] != ':');
    }
    let n = p.len() - name.len();
    assert forall|j: int| n <= j < p.len() implies k.has(#[trigger] p[j]) != true by {
        assert(p[j] == name[j - n]);
    }
    assert(k.has(p[n - 1]));
    crate::text::lemma_after_last_is(p, k, true, n);
    assert(p.skip(n) =~= name);
}

/// A path from the root stands for itself.
pub proof fn law_rooted_paths_stand_alone(dir: Seq<char>, name: Seq<char>)
    requires
        name.len() > 0 && name[0] == '/',
    ensures
        joined(Platform::Linux, dir, name) == name,
        joined(Platform::MacOs, dir, name) == name,
{
}

} // verus!
