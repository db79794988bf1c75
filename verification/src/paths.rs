//! Paths as texts of components separated by slashes.

use vstd::prelude::*;

use crate::text::{
    copied, is, joined, last_of, lemma_views_push, next_where, replace, replaced, rfind, to_chars,
    to_text, views,
};
use crate::text_map::{sorted_keys, TextMap};

verus! {

/// A path without the slashes and current-directory components at its end.
pub open spec fn path_body(path: Seq<char>) -> Seq<char>
    decreases path.len(),
{
    if path.len() > 0 && path.last() == '/' {
        path_body(path.drop_last())
    } else if path.len() > 1 && path.last() == '.' && path[path.len() - 2] == '/' {
        path_body(path.drop_last())
    } else {
        path
    }
}

/// The part of a text after the last of a character, all of it where there is none.
pub open spec fn after_last(text: Seq<char>, c: char) -> Seq<char> {
    match last_of(text, c) {
        Some(at) => text.skip(at + 1),
        None => text,
    }
}

/// The final component of a path, absent where that is a root, the current directory, or a parent
/// directory.
pub open spec fn name_of(path: Seq<char>) -> Option<Seq<char>> {
    let name = after_last(path_body(path), '/');
    if name.len() == 0 || name == "."@ || name == ".."@ {
        None
    } else {
        Some(name)
    }
}

/// A path without the slashes and current-directory components at its end.
fn body(path: &[char]) -> (kept: &[char])
    ensures
        kept@ == path_body(path@),
{
    let mut end: usize = path.len();
    assert(path@.take(end as int) =~= path@);
    while end > 0 && (path[end - 1] == '/' || (end > 1 && path[end - 1] == '.' && path[end - 2]
        == '/'))
        invariant
            end <= path@.len(),
            path_body(path@) == path_body(path@.take(end as int)),
        decreases end,
    {
        assert(path@.take(end as int).drop_last() =~= path@.take(end - 1));
        end -= 1;
    }
    let kept = &path[0..end];
    assert(kept@ =~= path@.take(end as int));
    kept
}

fn tail(text: &[char], c: char) -> (rest: &[char])
    ensures
        rest@ == after_last(text@, c),
{
    match rfind(text, c) {
        Some(at) => {
            let len: usize = text.len();
            let rest = &text[at + 1..len];
            assert(rest@ =~= text@.skip(at + 1));
            rest
        },
        None => text,
    }
}

fn final_component(path: &[char]) -> (name: Option<&[char]>)
    ensures
        match name {
            Some(name) => name_of(path@) == Some(name@),
            None => name_of(path@) is None,
        },
{
    let name = tail(body(path), '/');
    if name.len() == 0 || is(name, ".") || is(name, "..") {
        None
    } else {
        Some(name)
    }
}

/// The final component of a path.
pub fn file_name(path: &str) -> (name: Option<String>)
    ensures
        name.deep_view() == name_of(path@),
{
    let chars: Vec<char> = to_chars(path);
    match final_component(chars.as_slice()) {
        Some(name) => Some(to_text(name)),
        None => None,
    }
}

/// The extension of a file name: what follows its last dot, unless the dot is its first character.
pub open spec fn name_extension(name: Seq<char>) -> Option<Seq<char>> {
    match last_of(name, '.') {
        Some(at) => if at == 0 {
            None
        } else {
            Some(name.skip(at + 1))
        },
        None => None,
    }
}

/// The extension of a path's file name.
pub open spec fn extension_of(path: Seq<char>) -> Option<Seq<char>> {
    match name_of(path) {
        Some(name) => name_extension(name),
        None => None,
    }
}

/// The file name without its extension.
pub open spec fn name_stem(name: Seq<char>) -> Seq<char> {
    match last_of(name, '.') {
        Some(at) => if at == 0 {
            name
        } else {
            name.take(at)
        },
        None => name,
    }
}

/// The extension of a path's file name.
pub fn extension(path: &str) -> (extension: Option<String>)
    ensures
        extension.deep_view() == extension_of(path@),
{
    let chars: Vec<char> = to_chars(path);
    match final_component(chars.as_slice()) {
        Some(name) => match rfind(name, '.') {
            Some(at) => if at == 0 {
                None
            } else {
                let len: usize = name.len();
                let rest = &name[at + 1..len];
                assert(rest@ =~= name@.skip(at + 1));
                Some(to_text(rest))
            },
            None => None,
        },
        None => None,
    }
}

/// The file name of a path without its extension, empty where the path has none.
pub fn file_stem(path: &str) -> (stem: String)
    ensures
        stem@ == match name_of(path@) {
            Some(name) => name_stem(name),
            None => seq![],
        },
{
    let chars: Vec<char> = to_chars(path);
    match final_component(chars.as_slice()) {
        Some(name) => match rfind(name, '.') {
            Some(at) => if at == 0 {
                to_text(name)
            } else {
                let rest = &name[0..at];
                assert(rest@ =~= name@.take(at as int));
                to_text(rest)
            },
            None => to_text(name),
        },
        None => {
            let none = String::new();
            assert(none@ =~= seq![]);
            none
        },
    }
}

/// A path with an extension appended to its file name, and as it is where it has none.
pub open spec fn extended(path: Seq<char>, extension: Seq<char>) -> Seq<char> {
    if name_of(path) is Some {
        path_body(path) + "."@ + extension
    } else {
        path
    }
}

/// Appends an extension to a path's file name, keeping the one that it has.
pub fn with_added_extension(path: &str, extension: &str) -> (longer: String)
    requires
        extension@.len() > 0,
    ensures
        longer@ == extended(path@, extension@),
{
    let chars: Vec<char> = to_chars(path);
    if final_component(chars.as_slice()).is_none() {
        return path.to_string();
    }
    let dotted: Vec<char> = joined(body(chars.as_slice()), to_chars(".").as_slice());
    to_text(joined(dotted.as_slice(), to_chars(extension).as_slice()).as_slice())
}

/// The components of a path that slashes separate, from position `from` on.
pub open spec fn parts_from(path: Seq<char>, from: int) -> Seq<Seq<char>>
    decreases path.len() - from,
{
    let end = next_where(path, from, |c: char| c == '/');
    if from < 0 || end < from || end >= path.len() {
        seq![path.skip(from)]
    } else {
        seq![path.subrange(from, end)] + parts_from(path, end + 1)
    }
}

/// The components of a path that slashes separate.
pub fn parts(path: &[char]) -> (parts: Vec<Vec<char>>)
    ensures
        views(parts@) == parts_from(path@, 0),
{
    let len: usize = path.len();
    let mut parts: Vec<Vec<char>> = Vec::new();
    let mut from: usize = 0;
    assert(views(parts@) =~= seq![]);
    assert(views(parts@) + parts_from(path@, 0) =~= parts_from(path@, 0));
    loop
        invariant
            len == path@.len(),
            from <= len,
            views(parts@) + parts_from(path@, from as int) == parts_from(path@, 0),
        decreases len - from,
    {
        let mut end: usize = from;
        while end < len && path[end] != '/'
            invariant
                len == path@.len(),
                from <= end <= len,
                next_where(path@, from as int, |c: char| c == '/')
                    == next_where(path@, end as int, |c: char| c == '/'),
            decreases len - end,
        {
            end += 1;
        }
        let ghost before = parts@;
        let ghost rest = parts_from(path@, from as int);
        let part: Vec<char> = copied(&path[from..end]);
        proof {
            lemma_views_push(before, part);
        }
        parts.push(part);
        if end == len {
            assert(part@ =~= path@.skip(from as int));
            assert(views(parts@) =~= views(before) + rest);
            return parts;
        }
        from = end + 1;
        assert(views(parts@) + parts_from(path@, from as int)
            =~= views(before) + rest);
    }
}

/// The text by which paths are ordered component by component: the slashes stand below every other
/// character.
pub open spec fn path_key(path: Seq<char>) -> Seq<char> {
    replaced(path, "/"@, "\0"@)
}

/// The paths of a list by the texts that they are ordered by.
pub open spec fn keyed(paths: Seq<Seq<char>>, count: int) -> Map<Seq<char>, Seq<char>>
    decreases count,
{
    if count <= 0 {
        Map::empty()
    } else {
        keyed(paths, count - 1).insert(path_key(paths[count - 1]), paths[count - 1])
    }
}

/// The paths of a list in the order of their components.
pub open spec fn sorted_paths_of(paths: Seq<Seq<char>>) -> Seq<Seq<char>> {
    let map = keyed(paths, paths.len() as int);
    sorted_keys(map).map_values(|key: Seq<char>| map[key])
}

/// Sorts paths by their components, one after the other.
pub fn sorted_paths(paths: &Vec<String>) -> (sorted: Vec<String>)
    ensures
        sorted.deep_view() == sorted_paths_of(paths.deep_view()),
{
    proof {
        reveal_strlit("/");
    }
    let ghost model = paths.deep_view();
    let mut map: TextMap<String> = TextMap::new();
    for i in 0..paths.len()
        invariant
            "/"@.len() > 0,
            model == paths.deep_view(),
            map@ == keyed(model, i as int),
    {
        assert(model[i as int] == paths@[i as int]@);
        let key: Vec<char> = replace(
            to_chars(paths[i].as_str()).as_slice(),
            to_chars("/").as_slice(),
            to_chars("\0").as_slice(),
        );
        map.insert(key, paths[i].clone());
    }
    let mut sorted: Vec<String> = Vec::new();
    let len: usize = map.len();
    for i in 0..len
        invariant
            len == sorted_keys(map@).len(),
            sorted@.len() == i,
            forall|k: int|
                0 <= k < i ==> (#[trigger] sorted@[k]).deep_view() == map@[sorted_keys(map@)[k]],
    {
        sorted.push(map.value_at(i).clone());
    }
    assert(sorted.deep_view() =~= sorted_paths_of(model));
    sorted
}

} // verus!
