//! File names, extensions and stems of slash-separated relative paths.
//!
//! A path is read as a sequence of components separated by `/`. Empty
//! components and `.` components carry no name. The file name of a path is its
//! final component that carries one, unless that component is `..`. The
//! extension of a file name is what follows its last dot, provided that dot is
//! not the first character of the name.

use crate::text::{chars_of, joined_by, texts};
use vstd::prelude::*;

verus! {

/// The length of `path` once trailing separators and trailing `.` components are dropped.
pub open spec fn trimmed_len(path: Seq<char>) -> nat
    decreases path.len(),
{
    if path.len() == 0 {
        0
    } else if path.last() == '/' {
        trimmed_len(path.drop_last())
    } else if path.last() == '.' && (path.len() == 1 || path[path.len() - 2] == '/') {
        trimmed_len(path.drop_last())
    } else {
        path.len()
    }
}

/// The index at which the final component of `path` starts: just behind the last separator.
pub open spec fn component_start(path: Seq<char>) -> nat
    decreases path.len(),
{
    if path.len() == 0 || path.last() == '/' {
        path.len()
    } else {
        component_start(path.drop_last())
    }
}

/// The index of the last dot in `name`, or -1 where it has none.
pub open spec fn last_dot(name: Seq<char>) -> int
    decreases name.len(),
{
    if name.len() == 0 {
        -1
    } else if name.last() == '.' {
        name.len() - 1
    } else {
        last_dot(name.drop_last())
    }
}

/// The file name of `path`, if it has one.
pub open spec fn file_name_of(path: Seq<char>) -> Option<Seq<char>> {
    let trimmed = path.take(trimmed_len(path) as int);
    let name = trimmed.skip(component_start(trimmed) as int);
    if name.len() == 0 || name == seq!['.', '.'] {
        None
    } else {
        Some(name)
    }
}

/// The extension of the file name of `path`, without its dot.
pub open spec fn extension_of(path: Seq<char>) -> Option<Seq<char>> {
    match file_name_of(path) {
        Some(name) => if last_dot(name) >= 1 {
            Some(name.skip(last_dot(name) + 1))
        } else {
            None
        },
        None => None,
    }
}

/// The file name of `path` without its extension and the dot before it.
pub open spec fn stem_of(path: Seq<char>) -> Option<Seq<char>> {
    match file_name_of(path) {
        Some(name) => if last_dot(name) >= 1 {
            Some(name.take(last_dot(name)))
        } else {
            Some(name)
        },
        None => None,
    }
}

/// Where the parts of a path lie, as indices into its characters.
pub struct NameBounds {
    /// Start of the file name.
    pub start: usize,
    /// End of the file name (exclusive).
    pub end: usize,
    /// Position of the dot that introduces the extension, or `end` where there is no extension.
    pub dot: usize,
}

impl NameBounds {
    /// The bounds describe the file name of `path`, its stem and its extension.
    pub open spec fn locates(&self, path: Seq<char>) -> bool {
        &&& self.start <= self.dot <= self.end <= path.len()
        &&& self.start < self.end
        &&& file_name_of(path) == Some(path.subrange(self.start as int, self.end as int))
        &&& self.dot < self.end ==> {
            &&& extension_of(path) == Some(path.subrange(self.dot + 1, self.end as int))
            &&& stem_of(path) == Some(path.subrange(self.start as int, self.dot as int))
        }
        &&& self.dot == self.end ==> {
            &&& extension_of(path) is None
            &&& stem_of(path) == file_name_of(path)
        }
    }
}

/// End of the part of `chars` that is left once trailing separators and `.` components are dropped.
fn trimmed_end(chars: &Vec<char>) -> (end: usize)
    ensures
        end <= chars@.len(),
        end == trimmed_len(chars@),
{
    let mut end: usize = chars.len();
    assert(chars@.take(end as int) =~= chars@);
    loop
        invariant
            end <= chars@.len(),
            trimmed_len(chars@) == trimmed_len(chars@.take(end as int)),
        ensures
            end <= chars@.len(),
            end == trimmed_len(chars@),
        decreases end,
    {
        if end == 0 {
            break ;
        }
        let last = chars[end - 1];
        let dropped = last == '/' || (last == '.' && (end == 1 || chars[end - 2] == '/'));
        if !dropped {
            break ;
        }
        proof {
            assert(chars@.take(end as int).drop_last() =~= chars@.take(end - 1));
        }
        end = end - 1;
    }
    end
}

/// Start of the component of `chars` that ends at `end`.
fn name_start(chars: &Vec<char>, end: usize) -> (start: usize)
    requires
        end <= chars@.len(),
    ensures
        start <= end,
        start == component_start(chars@.take(end as int)),
{
    let ghost trimmed = chars@.take(end as int);
    let mut start: usize = end;
    assert(trimmed.take(end as int) =~= trimmed);
    while start > 0 && chars[start - 1] != '/'
        invariant
            start <= end <= chars@.len(),
            trimmed == chars@.take(end as int),
            component_start(trimmed) == component_start(trimmed.take(start as int)),
        decreases start,
    {
        proof {
            assert(trimmed.take(start as int).drop_last() =~= trimmed.take(start - 1));
        }
        start = start - 1;
    }
    start
}

/// Position of the dot that introduces the extension of the name `chars[start..end]`.
fn extension_dot(chars: &Vec<char>, start: usize, end: usize) -> (dot: usize)
    requires
        start <= end <= chars@.len(),
    ensures
        start <= dot <= end,
        dot < end <==> last_dot(chars@.subrange(start as int, end as int)) >= 1,
        dot < end ==> dot == start + last_dot(chars@.subrange(start as int, end as int)),
{
    let ghost name = chars@.subrange(start as int, end as int);
    let mut at: usize = end;
    assert(name.take(end - start) =~= name);
    while at > start && chars[at - 1] != '.'
        invariant
            start <= at <= end <= chars@.len(),
            name == chars@.subrange(start as int, end as int),
            last_dot(name) == last_dot(name.take(at - start)),
        decreases at,
    {
        proof {
            assert(name.take(at - start).drop_last() =~= name.take(at - start - 1));
        }
        at = at - 1;
    }
    if at - start > 1 {
        at - 1
    } else {
        end
    }
}

/// Finds the file name of a path and the dot of its extension; `None` where the path has no file name.
pub fn locate_name(chars: &Vec<char>) -> (res: Option<NameBounds>)
    ensures
        res is None <==> file_name_of(chars@) is None,
        res matches Some(bounds) ==> bounds.locates(chars@),
{
    let end = trimmed_end(chars);
    let start = name_start(chars, end);
    let ghost trimmed = chars@.take(end as int);
    let ghost name = trimmed.skip(start as int);
    assert(name =~= chars@.subrange(start as int, end as int));
    if start == end {
        return None;
    }
    if end - start == 2 && chars[start] == '.' && chars[start + 1] == '.' {
        assert(name =~= seq!['.', '.']);
        return None;
    }
    assert(name != seq!['.', '.']) by {
        if name.len() == 2 {
            assert(name[0] == chars@[start as int] && name[1] == chars@[start + 1]);
            assert(seq!['.', '.'][0] == '.' && seq!['.', '.'][1] == '.');
        } else {
            assert(seq!['.', '.'].len() == 2);
        }
    }
    let dot = extension_dot(chars, start, end);
    proof {
        if dot < end {
            assert(name.skip(last_dot(name) + 1) =~= chars@.subrange(dot + 1, end as int));
            assert(name.take(last_dot(name)) =~= chars@.subrange(start as int, dot as int));
        }
    }
    Some(NameBounds { start, end, dot })
}

/// Whether the file name of `path` carries an extension.
pub fn has_extension(path: &str) -> (res: bool)
    ensures
        res == extension_of(path@) is Some,
{
    let chars = chars_of(path);
    match locate_name(&chars) {
        Some(bounds) => bounds.dot < bounds.end,
        None => false,
    }
}

/// The extension of the file name of `path`, without its dot.
pub fn extension(path: &str) -> (res: Option<String>)
    ensures
        res is Some <==> extension_of(path@) is Some,
        res matches Some(ext) ==> extension_of(path@) == Some(ext@),
{
    let chars = chars_of(path);
    match locate_name(&chars) {
        Some(bounds) => {
            if bounds.dot < bounds.end {
                Some(String::from_str(path.substring_char(bounds.dot + 1, bounds.end)))
            } else {
                None
            }
        },
        None => None,
    }
}

/// The file name of `path` without its extension.
pub fn file_stem(path: &str) -> (res: Option<String>)
    ensures
        res is Some <==> stem_of(path@) is Some,
        res matches Some(stem) ==> stem_of(path@) == Some(stem@),
{
    let chars = chars_of(path);
    match locate_name(&chars) {
        Some(bounds) => {
            if bounds.dot < bounds.end {
                Some(String::from_str(path.substring_char(bounds.start, bounds.dot)))
            } else {
                Some(String::from_str(path.substring_char(bounds.start, bounds.end)))
            }
        },
        None => None,
    }
}

/// The path of `entry` below `root`, both given by their components: the
/// components of `entry` behind those of `root`, with `/` between them. There
/// is none where `entry` does not begin with the components of `root`.
pub open spec fn relative_of(root: Seq<Seq<char>>, entry: Seq<Seq<char>>) -> Option<Seq<char>> {
    if root.is_prefix_of(entry) {
        Some(joined_by(entry.skip(root.len() as int), '/'))
    } else {
        None
    }
}

/// The path of `entry` below `root`, with `/` between its components whatever the platform.
pub fn relative_to(root: &Vec<String>, entry: &Vec<String>) -> (res: Option<String>)
    ensures
        res is Some <==> relative_of(texts(root@), texts(entry@)) is Some,
        res matches Some(path) ==> relative_of(texts(root@), texts(entry@)) == Some(path@),
{
    let ghost above = texts(root@);
    let ghost whole = texts(entry@);
    if root.len() > entry.len() {
        return None;
    }
    let mut i: usize = 0;
    while i < root.len()
        invariant
            i <= root@.len() <= entry@.len(),
            above == texts(root@),
            whole == texts(entry@),
            forall|j: int| 0 <= j < i ==> above[j] == whole[j],
        decreases root@.len() - i,
    {
        if !crate::text::str_eq(root[i].as_str(), entry[i].as_str()) {
            assert(above[i as int] != whole[i as int]);
            return None;
        }
        i = i + 1;
    }
    assert(above =~= whole.subrange(0, above.len() as int));
    let ghost below = whole.skip(above.len() as int);
    let mut path = String::new();
    let mut k: usize = root.len();
    assert(below.take(0) =~= Seq::<Seq<char>>::empty());
    while k < entry.len()
        invariant
            root@.len() <= k <= entry@.len(),
            whole == texts(entry@),
            below == whole.skip(root@.len() as int),
            path@ == joined_by(below.take(k - root@.len()), '/'),
        decreases entry@.len() - k,
    {
        let ghost done = below.take(k - root@.len());
        proof {
            assert(below.take(k - root@.len() + 1).drop_last() =~= done);
            assert(below.take(k - root@.len() + 1).last() == whole[k as int]);
        }
        if k > root.len() {
            proof {
                reveal_strlit("/");
            }
            path.append("/");
        }
        path.append(entry[k].as_str());
        assert(path@ =~= joined_by(below.take(k - root@.len() + 1), '/'));
        k = k + 1;
    }
    assert(below.take(k - root@.len()) =~= below);
    Some(path)
}

} // verus!
