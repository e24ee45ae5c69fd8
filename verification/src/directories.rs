//! The directories above a native path, and the configuration layers that say
//! where the walk up to them ends.

use vstd::prelude::*;

use crate::environment_path::PathFlavor;
use crate::path_uri;
use crate::text;

verus! {

// ---------------------------------------------------------------------------
// Configuration layers
// ---------------------------------------------------------------------------
/// Where a configuration layer comes from, as far as the search for the project
/// root cares.
#[derive(Clone, Copy, Debug, PartialEq, Eq, Structural)]
pub enum ConfigLayerSource {
    /// A project, which cannot say where it begins.
    Project,
    /// Anything else.
    Other,
}

/// The positions of the layers that say what marks a project root, in order:
/// all layers but those of a project.
pub fn root_marker_layers(layers: &Vec<ConfigLayerSource>) -> (r: Vec<usize>)
    ensures
        forall|k: int| 0 <= k < r@.len() ==> #[trigger] r@[k] < layers@.len(),
        forall|k: int|
            0 <= k < r@.len() ==> layers@[#[trigger] r@[k] as int] is Other,
        forall|i: int|
            0 <= i < layers@.len() && #[trigger] layers@[i] is Other ==> r@.contains(i as usize),
        forall|j: int, k: int| 0 <= j < k < r@.len() ==> r@[j] < r@[k],
{
    let mut kept: Vec<usize> = Vec::new();
    let mut i: usize = 0;
    while i < layers.len()
        invariant
            i <= layers@.len(),
            forall|k: int| 0 <= k < kept@.len() ==> #[trigger] kept@[k] < i,
            forall|k: int|
                0 <= k < kept@.len() ==> layers@[#[trigger] kept@[k] as int] is Other,
            forall|n: int|
                0 <= n < i && #[trigger] layers@[n] is Other ==> kept@.contains(n as usize),
            forall|j: int, k: int| 0 <= j < k < kept@.len() ==> kept@[j] < kept@[k],
        decreases layers.len() - i,
    {
        let ghost before = kept@;
        match layers[i] {
            ConfigLayerSource::Project => {},
            ConfigLayerSource::Other => {
                kept.push(i);
                assert(kept@[kept@.len() - 1] == i);
                assert forall|n: int| 0 <= n < i && #[trigger] layers@[n] is Other implies
                    kept@.contains(n as usize) by {
                    let k = before.index_of(n as usize);
                    assert(kept@[k] == n as usize);
                }
            },
        }
        i += 1;
    }
    kept
}

// ---------------------------------------------------------------------------
// Directories above a path
// ---------------------------------------------------------------------------
/// What separates the names of a native path.
pub open spec fn separator(flavor: PathFlavor) -> char {
    match flavor {
        PathFlavor::Posix => '/',
        PathFlavor::Windows => '\\',
    }
}

/// How many characters of a native path make up its root: the leading slash, a
/// drive and its separator, or a server and a share with what frames them.
pub open spec fn root_len(path: Seq<char>, flavor: PathFlavor) -> nat {
    match flavor {
        PathFlavor::Posix => if path.len() > 0 && path[0] == '/' {
            1
        } else {
            0
        },
        PathFlavor::Windows => if path.len() >= 3 && path[1] == ':' && path[2] == '\\' {
            3
        } else if path.len() >= 2 && path[0] == '\\' && path[1] == '\\' {
            match path_uri::cut(path.skip(2), '\\') {
                Some((server, rest)) => match path_uri::cut(rest, '\\') {
                    Some((share, _)) => 4 + server.len() + share.len(),
                    None => path.len(),
                },
                None => path.len(),
            }
        } else {
            0
        },
    }
}

/// `path` without the separators at its end, down to `root` characters.
pub open spec fn without_separators(path: Seq<char>, root: nat, sep: char) -> Seq<char>
    decreases path.len(),
{
    if path.len() > root && path.last() == sep {
        without_separators(path.drop_last(), root, sep)
    } else {
        path
    }
}

/// `path` without the name at its end, down to `root` characters.
pub open spec fn without_name(path: Seq<char>, root: nat, sep: char) -> Seq<char>
    decreases path.len(),
{
    if path.len() > root && path.last() != sep {
        without_name(path.drop_last(), root, sep)
    } else {
        path
    }
}

/// The directory that `path` is in; none for a root.
pub open spec fn directory_of(path: Seq<char>, root: nat, sep: char) -> Option<Seq<char>> {
    let bare = without_separators(path, root, sep);
    if bare.len() <= root {
        None
    } else {
        Some(without_separators(without_name(bare, root, sep), root, sep))
    }
}

proof fn lemma_shorter(path: Seq<char>, root: nat, sep: char)
    ensures
        without_separators(path, root, sep).len() <= path.len(),
        without_separators(path, root, sep).is_prefix_of(path),
        without_name(path, root, sep).len() <= path.len(),
        without_name(path, root, sep).is_prefix_of(path),
        path.len() >= root ==> without_separators(path, root, sep).len() >= root
            && without_name(path, root, sep).len() >= root,
        path.len() > root && path.last() != sep ==> without_name(path, root, sep).len()
            < path.len(),
        path.len() > root ==> without_separators(path, root, sep).len() == root
            || without_separators(path, root, sep).last() != sep,
    decreases path.len(),
{
    if path.len() > root {
        let init = path.drop_last();
        lemma_shorter(init, root, sep);
        let a = without_separators(init, root, sep);
        let b = without_name(init, root, sep);
        assert(a == path.subrange(0, a.len() as int)) by {
            assert(a == init.subrange(0, a.len() as int));
        }
        assert(b == path.subrange(0, b.len() as int)) by {
            assert(b == init.subrange(0, b.len() as int));
        }
    }
    assert(path == path.subrange(0, path.len() as int));
}

/// The directories above `path`, nearest first.
pub open spec fn directories_above(path: Seq<char>, root: nat, sep: char) -> Seq<Seq<char>>
    decreases path.len(),
    via directories_above_decreases
{
    match directory_of(path, root, sep) {
        Some(up) => seq![up] + directories_above(up, root, sep),
        None => Seq::empty(),
    }
}

#[via_fn]
proof fn directories_above_decreases(path: Seq<char>, root: nat, sep: char) {
    lemma_directory_is_shorter(path, root, sep);
}

proof fn lemma_directory_is_shorter(path: Seq<char>, root: nat, sep: char)
    ensures
        directory_of(path, root, sep) matches Some(up) ==> {
            &&& root <= up.len() < path.len()
            &&& up.is_prefix_of(path)
        },
{
    let bare = without_separators(path, root, sep);
    lemma_shorter(path, root, sep);
    if bare.len() > root {
        lemma_shorter(bare, root, sep);
        let unnamed = without_name(bare, root, sep);
        lemma_shorter(unnamed, root, sep);
        let up = without_separators(unnamed, root, sep);
        assert(up == path.subrange(0, up.len() as int)) by {
            assert(up == unnamed.subrange(0, up.len() as int));
            assert(unnamed == bare.subrange(0, unnamed.len() as int));
            assert(bare == path.subrange(0, bare.len() as int));
        }
    }
}

/// Every directory above a path is a proper part of the path, from its start,
/// and each is shorter than the one before it; the last one is the root.
pub proof fn law_directories_lead_to_the_root(path: Seq<char>, root: nat, sep: char)
    requires
        root <= path.len(),
    ensures
        ({
            let above = directories_above(path, root, sep);
            &&& forall|i: int|
                0 <= i < above.len() ==> (#[trigger] above[i]).is_prefix_of(path) && above[i].len()
                    < path.len()
            &&& forall|i: int, j: int|
                0 <= i < j < above.len() ==> (#[trigger] above[j]).len() < (
                #[trigger] above[i]).len()
            &&& above.len() > 0 ==> above.last() == path.take(root as int)
            &&& above.len() == 0 <==> without_separators(path, root, sep).len() == root
        }),
    decreases path.len(),
{
    let above = directories_above(path, root, sep);
    lemma_directory_is_shorter(path, root, sep);
    lemma_shorter(path, root, sep);
    match directory_of(path, root, sep) {
        Some(up) => {
            law_directories_lead_to_the_root(up, root, sep);
            let more = directories_above(up, root, sep);
            assert(above == seq![up] + more);
            assert(up == path.subrange(0, up.len() as int));
            assert forall|i: int| 0 <= i < above.len() implies (
            #[trigger] above[i]).is_prefix_of(path) && above[i].len() < path.len() && (i > 0
                ==> above[i].len() < up.len()) by {
                if i > 0 {
                    let q = more[i - 1];
                    assert(above[i] == q);
                    assert(q.is_prefix_of(up));
                    assert(q == path.subrange(0, q.len() as int)) by {
                        assert(q == up.subrange(0, q.len() as int));
                    }
                }
            }
            assert forall|i: int, j: int| 0 <= i < j < above.len() implies (
            #[trigger] above[j]).len() < (#[trigger] above[i]).len() by {
                if i > 0 {
                    assert(more[j - 1].len() < more[i - 1].len());
                }
            }
            if more.len() > 0 {
                assert(above.last() == more.last());
                assert(up.take(root as int) == path.take(root as int));
            } else {
                assert(above.last() == up);
                assert(up.len() == root) by {
                    lemma_trimmed(path, root, sep);
                }
                assert(up == path.take(root as int));
            }
        },
        None => {},
    }
}

/// A directory has no separators left at its end but those of the root.
proof fn lemma_trimmed(path: Seq<char>, root: nat, sep: char)
    requires
        directory_of(path, root, sep) is Some,
    ensures
        ({
            let up = directory_of(path, root, sep)->0;
            without_separators(up, root, sep) == up
        }),
{
    let bare = without_separators(path, root, sep);
    let unnamed = without_name(bare, root, sep);
    lemma_shorter(path, root, sep);
    lemma_shorter(bare, root, sep);
    lemma_shorter(unnamed, root, sep);
}

proof fn lemma_without_name(dir: Seq<char>, name: Seq<char>, root: nat, sep: char)
    requires
        dir.len() >= root,
        !name.contains(sep),
        dir.len() == root || dir.last() == sep,
    ensures
        without_name(dir + name, root, sep) == dir,
    decreases name.len(),
{
    let whole = dir + name;
    if name.len() > 0 {
        assert(whole.last() == name.last());
        assert(name.contains(name[name.len() - 1]));
        assert(whole.drop_last() =~= dir + name.drop_last());
        assert forall|k: int| 0 <= k < name.drop_last().len() implies name.drop_last()[k] != sep by {
            assert(name.contains(name[k]));
        }
        lemma_without_name(dir, name.drop_last(), root, sep);
    } else {
        assert(whole =~= dir);
    }
}

/// The directories above a name in a directory are that directory and the
/// directories above it: no level is left out. A directory other than the root
/// has a separator between it and the name.
pub proof fn law_directories_go_up_one_by_one(
    dir: Seq<char>,
    name: Seq<char>,
    root: nat,
    sep: char,
)
    requires
        name.len() > 0,
        !name.contains(sep),
        dir.len() >= root,
        dir.len() > root ==> dir.last() != sep,
    ensures
        ({
            let path = if dir.len() == root {
                dir + name
            } else {
                dir.push(sep) + name
            };
            directories_above(path, root, sep) == seq![dir] + directories_above(dir, root, sep)
        }),
        dir.len() == root ==> directories_above(dir, root, sep) == Seq::<Seq<char>>::empty(),
{
    let head = if dir.len() == root {
        dir
    } else {
        dir.push(sep)
    };
    let path = head + name;
    assert(path.last() == name.last());
    assert(name.contains(name[name.len() - 1]));
    assert(without_separators(path, root, sep) == path);
    lemma_without_name(head, name, root, sep);
    if dir.len() > root {
        assert(head.drop_last() =~= dir);
        assert(without_separators(dir, root, sep) == dir);
        assert(without_separators(head, root, sep) == dir);
    }
    assert(directory_of(path, root, sep) == Some(dir));
}

/// The root of a POSIX path is its leading slash.
pub proof fn law_posix_roots(rest: Seq<char>)
    ensures
        root_len(seq!['/'] + rest, PathFlavor::Posix) == 1,
        separator(PathFlavor::Posix) == '/',
{
}

/// The root of a Windows path is a drive with its separator, or a server and a
/// share with the separators around them.
pub proof fn law_windows_roots(
    drive: char,
    server: Seq<char>,
    share: Seq<char>,
    rest: Seq<char>,
)
    requires
        !server.contains('\\'),
        !share.contains('\\'),
        server.len() > 0,
        server[0] != ':',
    ensures
        root_len(seq![drive, ':', '\\'] + rest, PathFlavor::Windows) == 3,
        root_len(
            seq!['\\', '\\'] + server + seq!['\\'] + share + seq!['\\'] + rest,
            PathFlavor::Windows,
        ) == 2 + server.len() + 1 + share.len() + 1,
        root_len(
            seq!['\\', '\\'] + server + seq!['\\'] + share,
            PathFlavor::Windows,
        ) == 2 + server.len() + 1 + share.len(),
        separator(PathFlavor::Windows) == '\\',
{
    let on_drive = seq![drive, ':', '\\'] + rest;
    assert(on_drive[1] == ':' && on_drive[2] == '\\');
    let tail = share + seq!['\\'] + rest;
    let inner = server + seq!['\\'] + tail;
    let path = seq!['\\', '\\'] + server + seq!['\\'] + share + seq!['\\'] + rest;
    assert(path.skip(2) =~= inner);
    assert(path[0] == '\\' && path[1] == '\\');
    lemma_cut_first(server, tail);
    lemma_cut_first(share, rest);
    let bare = seq!['\\', '\\'] + server + seq!['\\'] + share;
    assert(bare.skip(2) =~= server + seq!['\\'] + share);
    assert(bare[0] == '\\' && bare[1] == '\\');
    lemma_cut_first(server, share);
    path_uri::lemma_cut_none(share, '\\');
}

proof fn lemma_cut_first(a: Seq<char>, b: Seq<char>)
    requires
        !a.contains('\\'),
    ensures
        path_uri::cut(a + seq!['\\'] + b, '\\') == Some((a, b)),
{
    let s = a + seq!['\\'] + b;
    assert forall|k: int| 0 <= k < a.len() implies s[k] != '\\' by {
        assert(a.contains(a[k]));
    }
    path_uri::lemma_cut_at(s, '\\', a.len() as int);
    assert(s.take(a.len() as int) =~= a);
    assert(s.skip(a.len() as int + 1) =~= b);
}

fn end_without(path: &[char], from: usize, root: usize, sep: char, drop_separators: bool) -> (r:
    usize)
    requires
        from <= path@.len(),
    ensures
        r <= from,
        path@.take(r as int) == if drop_separators {
            without_separators(path@.take(from as int), root as nat, sep)
        } else {
            without_name(path@.take(from as int), root as nat, sep)
        },
{
    let mut end: usize = from;
    while end > root && (path[end - 1] == sep) == drop_separators
        invariant
            end <= from <= path@.len(),
            drop_separators ==> without_separators(path@.take(from as int), root as nat, sep)
                == without_separators(path@.take(end as int), root as nat, sep),
            !drop_separators ==> without_name(path@.take(from as int), root as nat, sep)
                == without_name(path@.take(end as int), root as nat, sep),
        decreases end,
    {
        proof {
            let t = path@.take(end as int);
            assert(t.last() == path@[end - 1]);
            assert(t.drop_last() == path@.take(end - 1));
        }
        end -= 1;
    }
    proof {
        let t = path@.take(end as int);
        if end > root {
            assert(t.last() == path@[end - 1]);
        }
    }
    end
}

fn native_root_len(path: &[char], flavor: PathFlavor) -> (r: usize)
    ensures
        r == root_len(path@, flavor),
        r <= path@.len(),
{
    match flavor {
        PathFlavor::Posix => if path.len() > 0 && path[0] == '/' {
            1
        } else {
            0
        },
        PathFlavor::Windows => {
            if path.len() >= 3 && path[1] == ':' && path[2] == '\\' {
                return 3;
            }
            if !(path.len() >= 2 && path[0] == '\\' && path[1] == '\\') {
                return 0;
            }
            let tail = text::part(path, 2, path.len());
            assert(tail@ == path@.skip(2));
            match path_uri::cut_chars(&tail, '\\') {
                Some((server, rest)) => {
                    proof {
                        path_uri::lemma_cut_parts(tail@, '\\');
                    }
                    match path_uri::cut_chars(&rest, '\\') {
                        Some((share, _)) => {
                            proof {
                                path_uri::lemma_cut_parts(rest@, '\\');
                            }
                            4 + server.len() + share.len()
                        },
                        None => path.len(),
                    }
                },
                None => path.len(),
            }
        },
    }
}

/// The directories above the absolute native path `path`, nearest first, up to
/// its root.
pub fn parent_directories(path: &str, flavor: PathFlavor) -> (r: Vec<String>)
    ensures
        text::views(r@) == directories_above(path@, root_len(path@, flavor), separator(flavor)),
{
    let chars = text::chars_of(path);
    let root = native_root_len(&chars, flavor);
    let sep = match flavor {
        PathFlavor::Posix => '/',
        PathFlavor::Windows => '\\',
    };
    let mut above: Vec<String> = Vec::new();
    let mut end: usize = chars.len();
    let ghost all = directories_above(chars@, root as nat, sep);
    assert(chars@.take(end as int) == chars@);
    assert(text::views(above@) + all =~= all);
    loop
        invariant
            end <= chars@.len(),
            root <= chars@.len(),
            text::views(above@) + directories_above(chars@.take(end as int), root as nat, sep)
                == all,
        ensures
            text::views(above@) == all,
        decreases end,
    {
        let ghost at = chars@.take(end as int);
        let ghost before = above@;
        proof {
            lemma_directory_is_shorter(at, root as nat, sep);
            lemma_shorter(at, root as nat, sep);
        }
        let bare = end_without(&chars, end, root, sep, true);
        assert(chars@.take(bare as int).len() == bare);
        if bare <= root {
            assert(text::views(above@) + Seq::<Seq<char>>::empty() =~= text::views(above@));
            break;
        }
        let unnamed = end_without(&chars, bare, root, sep, false);
        let up = end_without(&chars, unnamed, root, sep, true);
        let directory = text::part(&chars, 0, up);
        assert(directory@ == chars@.take(up as int));
        above.push(text::string_of(&directory));
        proof {
            assert(directory_of(at, root as nat, sep) == Some(directory@));
            assert(text::views(above@) =~= text::views(before).push(directory@));
            assert(text::views(above@) + directories_above(directory@, root as nat, sep)
                =~= text::views(before) + directories_above(at, root as nat, sep));
            assert(chars@.take(up as int).len() == up);
        }
        end = up;
    }
    above
}

} // verus!
