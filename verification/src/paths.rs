//! Paths as text, with `/` between components.
use crate::text::chars_of;
use vstd::prelude::*;

verus! {

/// Whether a path starts at the root.
pub open spec fn is_absolute(path: Seq<char>) -> bool {
    path.len() > 0 && path[0] == '/'
}

/// `path` as seen from `base`: an absolute path stands for itself, any other
/// is appended to `base` behind a single separator. No separator is put
/// behind an empty base or one that ends in a separator.
pub open spec fn path_in(base: Seq<char>, path: Seq<char>) -> Seq<char> {
    if is_absolute(path) {
        path
    } else if base.len() == 0 || base.last() == '/' {
        base + path
    } else {
        base.push('/') + path
    }
}

/// `path` as seen from `base`.
pub fn abs(base: &str, path: &str) -> (whole: String)
    ensures
        whole@ == path_in(base@, path@),
{
    let front = chars_of(base);
    let back = chars_of(path);
    if back.len() > 0 && back[0] == '/' {
        return path.to_owned();
    }
    let mut whole = base.to_owned();
    if front.len() > 0 && front[front.len() - 1] != '/' {
        proof {
            reveal_strlit("/");
        }
        whole.append("/");
        assert(whole@ =~= base@.push('/'));
    }
    whole.append(path);
    whole
}

/// `path` without trailing separators and trailing `.` components. A lone
/// root and a lone `.` stay.
pub open spec fn trimmed(path: Seq<char>) -> Seq<char>
    decreases path.len(),
{
    let n = path.len();
    if n > 1 && (path[n - 1] == '/' || (path[n - 1] == '.' && path[n - 2] == '/')) {
        trimmed(path.drop_last())
    } else {
        path
    }
}

/// What stands in `path` up to its last separator, the separator with it.
pub open spec fn up_to_last_separator(path: Seq<char>) -> Seq<char>
    decreases path.len(),
{
    if path.len() == 0 || path.last() == '/' {
        path
    } else {
        up_to_last_separator(path.drop_last())
    }
}

/// The path without its last component. The root and the empty path have
/// none.
pub open spec fn parent_path(path: Seq<char>) -> Option<Seq<char>> {
    let whole = trimmed(path);
    if whole.len() == 0 || whole == seq!['/'] {
        None
    } else {
        Some(trimmed(up_to_last_separator(whole)))
    }
}

fn trimmed_end(path: &Vec<char>, end: usize) -> (kept: usize)
    requires
        end <= path.len(),
    ensures
        kept <= end,
        path@.take(kept as int) == trimmed(path@.take(end as int)),
{
    let mut kept: usize = end;
    while kept > 1 && (path[kept - 1] == '/' || (path[kept - 1] == '.' && path[kept - 2] == '/'))
        invariant
            kept <= end <= path.len(),
            trimmed(path@.take(kept as int)) == trimmed(path@.take(end as int)),
        decreases kept,
    {
        assert(path@.take(kept as int).drop_last() =~= path@.take(kept - 1));
        kept -= 1;
    }
    kept
}

/// The path without its last component.
pub fn parent(path: &str) -> (up: Option<String>)
    ensures
        match up {
            Some(p) => parent_path(path@) == Some(p@),
            None => parent_path(path@) is None,
        },
{
    let list = chars_of(path);
    assert(list@.take(list.len() as int) =~= list@);
    let end = trimmed_end(&list, list.len());
    let ghost whole = trimmed(path@);
    if end == 0 {
        return None;
    }
    if end == 1 && list[0] == '/' {
        assert(whole =~= seq!['/']);
        return None;
    }
    assert(whole != seq!['/']) by {
        if whole == seq!['/'] {
            assert(whole.len() == 1);
            assert(whole[0] == '/');
        }
    }
    let mut cut: usize = end;
    while cut > 0 && list[cut - 1] != '/'
        invariant
            cut <= end <= list.len(),
            up_to_last_separator(list@.take(cut as int)) == up_to_last_separator(
                list@.take(end as int),
            ),
        decreases cut,
    {
        assert(list@.take(cut as int).drop_last() =~= list@.take(cut - 1));
        cut -= 1;
    }
    let kept = trimmed_end(&list, cut);
    let up = path.substring_char(0, kept).to_owned();
    assert(up@ =~= list@.take(kept as int));
    Some(up)
}

/// The directory that `path` is in, `.` where it names none.
pub open spec fn directory_of(path: Seq<char>) -> Seq<char> {
    match parent_path(path) {
        Some(p) => p,
        None => "."@,
    }
}

/// The directory that `path` is in.
pub fn directory(path: &str) -> (dir: String)
    ensures
        dir@ == directory_of(path@),
{
    match parent(path) {
        Some(p) => p,
        None => ".".to_owned(),
    }
}

/// Where the metadata of `bag` stands: in the bag where it is a directory,
/// beside it where it is a file.
pub open spec fn metadata_place(bag: Seq<char>, is_dir: bool) -> Seq<char> {
    path_in(
        if is_dir {
            bag
        } else {
            directory_of(bag)
        },
        "metadata.yaml"@,
    )
}

/// Where the metadata of `bag` stands.
pub fn metadata_path(bag: &str, is_dir: bool) -> (path: String)
    ensures
        path@ == metadata_place(bag@, is_dir),
{
    if is_dir {
        abs(bag, "metadata.yaml")
    } else {
        abs(directory(bag).as_str(), "metadata.yaml")
    }
}

/// An absolute path is itself, seen from anywhere. A relative one comes behind
/// its base, with one slash between the two where the base is not empty and
/// has none at its end.
pub proof fn a_relative_path_comes_behind_its_base(base: Seq<char>, path: Seq<char>)
    ensures
        path.len() > 0 && path[0] == '/' ==> path_in(base, path) == path,
        path.len() == 0 || path[0] != '/' ==> {
            if base.len() == 0 || base[base.len() - 1] == '/' {
                path_in(base, path) == base + path
            } else {
                path_in(base, path) == base + seq!['/'] + path
            }
        },
{
    assert(base.push('/') =~= base + seq!['/']);
}

/// The parent of a path is what its last component was put in. Slashes at the
/// end do not count, and neither the root nor the empty path has a parent.
pub proof fn a_component_is_in_its_parent(dir: Seq<char>, name: Seq<char>)
    requires
        name.len() > 0,
        !name.contains('/'),
        name != seq!['.'],
    ensures
        parent_path(seq![]) is None,
        parent_path(seq!['/']) is None,
        parent_path(name) == Some(Seq::<char>::empty()),
        parent_path(seq!['/'] + name) == Some(seq!['/']),
        dir.len() > 0 ==> parent_path(dir.push('/')) == parent_path(dir),
        dir.len() > 0 ==> parent_path(dir.push('/').push('.')) == parent_path(dir),
        dir.len() > 0 && dir[dir.len() - 1] != '/' && !(dir.len() > 1 && dir[dir.len() - 1] == '.'
            && dir[dir.len() - 2] == '/') ==> parent_path(dir + seq!['/'] + name) == Some(dir),
        directory_of(seq!['/']) == "."@,
        parent_path(name) is Some ==> directory_of(name) == Seq::<char>::empty(),
        dir.len() > 0 && dir[dir.len() - 1] != '/' && !(dir.len() > 1 && dir[dir.len() - 1] == '.'
            && dir[dir.len() - 2] == '/') ==> directory_of(dir + seq!['/'] + name) == dir,
{
    let none = Seq::<char>::empty();
    lemma_component(none, name);
    assert(none + name =~= name);
    lemma_component(seq!['/'], name);
    assert(trimmed(none) == none);
    assert(trimmed(seq!['/']) == seq!['/']);
    assert(name != seq!['/']) by {
        if name == seq!['/'] {
            assert(name[0] == '/');
            assert(name.contains('/'));
        }
    }
    assert((seq!['/'] + name).len() > 1);
    if dir.len() > 0 {
        assert(dir.push('/').drop_last() =~= dir);
        assert(dir.push('/').push('.').drop_last() =~= dir.push('/'));
        if dir[dir.len() - 1] != '/' {
            let front = dir + seq!['/'];
            lemma_component(front, name);
            assert(front.drop_last() =~= dir);
            assert(trimmed(dir) == dir || (dir.len() > 1 && dir[dir.len() - 1] == '.' && dir[
                dir.len() - 2] == '/'));
            assert((front + name).len() > 1);
        }
    }
}

/// Behind a separator, or at the start, a component is kept whole and is what
/// is cut off.
proof fn lemma_component(front: Seq<char>, name: Seq<char>)
    requires
        front.len() == 0 || front.last() == '/',
        name.len() > 0,
        !name.contains('/'),
        name != seq!['.'],
    ensures
        trimmed(front + name) == front + name,
        up_to_last_separator(front + name) == front,
{
    let whole = front + name;
    let n = whole.len();
    assert(whole[n - 1] == name[name.len() - 1]);
    assert(name.contains(name[name.len() - 1]));
    if name.len() > 1 {
        assert(whole[n - 2] == name[name.len() - 2]);
        assert(name.contains(name[name.len() - 2]));
    } else if name[0] == '.' {
        assert(name =~= seq!['.']);
    }
    lemma_cut_component(front, name);
}

proof fn lemma_cut_component(front: Seq<char>, name: Seq<char>)
    requires
        front.len() == 0 || front.last() == '/',
        !name.contains('/'),
    ensures
        up_to_last_separator(front + name) == front,
    decreases name.len(),
{
    let whole = front + name;
    if name.len() == 0 {
        assert(whole =~= front);
    } else {
        assert(whole.last() == name.last());
        assert(name.contains(name.last()));
        let rest = name.drop_last();
        assert(!rest.contains('/')) by {
            if rest.contains('/') {
                let i = choose|i: int| 0 <= i < rest.len() && rest[i] == '/';
                assert(name[i] == '/');
            }
        }
        assert(whole.drop_last() =~= front + rest);
        lemma_cut_component(front, rest);
    }
}

/// The metadata of a bag directory stands in it, and that of a bag file beside
/// it.
pub proof fn metadata_stands_with_its_bag(dir: Seq<char>, name: Seq<char>)
    requires
        dir.len() > 0,
        dir[dir.len() - 1] != '/',
        !(dir.len() > 1 && dir[dir.len() - 1] == '.' && dir[dir.len() - 2] == '/'),
        name.len() > 0,
        !name.contains('/'),
        name != seq!['.'],
    ensures
        metadata_place(dir, true) == dir + "/metadata.yaml"@,
        metadata_place(dir + seq!['/'] + name, false) == dir + "/metadata.yaml"@,
        metadata_place(name, false) == "metadata.yaml"@,
{
    reveal_strlit("metadata.yaml");
    reveal_strlit("/metadata.yaml");
    assert("/metadata.yaml"@ =~= seq!['/'] + "metadata.yaml"@);
    assert("metadata.yaml"@[0] == 'm');
    a_component_is_in_its_parent(dir, name);
    a_relative_path_comes_behind_its_base(dir, "metadata.yaml"@);
    assert(dir + "/metadata.yaml"@ =~= dir + seq!['/'] + "metadata.yaml"@);
    assert(Seq::<char>::empty() + "metadata.yaml"@ =~= "metadata.yaml"@);
}

} // verus!
