//! File names and extensions of paths, separated by `/`.
use crate::text::{
    contains_text, last_occurrence, law_a_text_is_parted_at_the_last_place,
    law_a_text_without_the_mark_is_not_parted, lemma_last_occurrence, occurs_at, option_view,
    parted_last, rsplit_once, str_eq,
};
use vstd::prelude::*;

verus! {

/// The last component of a path that names something: a trailing slash and components `.`
/// do not count, and `..` names nothing.
pub open spec fn file_name(path: Seq<char>) -> Option<Seq<char>>
    decreases path.len(),
    via file_name_decreases
{
    match parted_last(path, seq!['/']) {
        Some((before, last)) => if last.len() == 0 || last == seq!['.'] {
            file_name(before)
        } else if last == seq!['.', '.'] {
            None
        } else {
            Some(last)
        },
        None => if path.len() == 0 || path == seq!['.'] || path == seq!['.', '.'] {
            None
        } else {
            Some(path)
        },
    }
}

#[via_fn]
proof fn file_name_decreases(path: Seq<char>) {
    lemma_last_occurrence(path, seq!['/'], path.len() as int);
}

/// What follows the last dot of a name, unless the dot begins the name.
pub open spec fn name_extension(name: Seq<char>) -> Option<Seq<char>> {
    match parted_last(name, seq!['.']) {
        Some((stem, extension)) => if stem.len() > 0 {
            Some(extension)
        } else {
            None
        },
        None => None,
    }
}

/// The extension of the file that a path names.
pub open spec fn path_extension(path: Seq<char>) -> Option<Seq<char>> {
    match file_name(path) {
        Some(name) => name_extension(name),
        None => None,
    }
}

/// The last component of a path that names something.
pub fn path_file_name(path: &str) -> (name: Option<String>)
    ensures
        option_view(name) == file_name(path@),
    decreases path@.len(),
{
    proof {
        reveal_strlit("/");
        reveal_strlit(".");
        reveal_strlit("..");
        assert("/"@ =~= seq!['/']);
        assert("."@ =~= seq!['.']);
        assert(".."@ =~= seq!['.', '.']);
        lemma_last_occurrence(path@, "/"@, path@.len() as int);
    }
    match rsplit_once(path, "/") {
        Some((before, last)) => {
            if str_eq(&last, "") || str_eq(&last, ".") {
                proof {
                    reveal_strlit("");
                    assert(last@.len() == 0 || last@ == seq!['.']);
                }
                path_file_name(&before)
            } else if str_eq(&last, "..") {
                proof {
                    reveal_strlit("");
                }
                None
            } else {
                proof {
                    reveal_strlit("");
                    assert(last@.len() == 0 ==> last@ =~= ""@);
                }
                Some(last)
            }
        },
        None => {
            proof {
                reveal_strlit("");
                assert(path@.len() == 0 ==> path@ =~= ""@);
            }
            if str_eq(path, "") || str_eq(path, ".") || str_eq(path, "..") {
                None
            } else {
                Some(path.to_owned())
            }
        },
    }
}

/// The extension of the file that a path names.
pub fn extension(path: &str) -> (extension: Option<String>)
    ensures
        option_view(extension) == path_extension(path@),
{
    match path_file_name(path) {
        Some(name) => {
            proof {
                reveal_strlit(".");
                assert("."@ =~= seq!['.']);
                reveal_strlit("");
            }
            match rsplit_once(&name, ".") {
                Some((stem, extension)) => {
                    proof {
                        assert(stem@.len() == 0 ==> stem@ =~= ""@);
                    }
                    if str_eq(&stem, "") {
                        None
                    } else {
                        Some(extension)
                    }
                },
                None => None,
            }
        },
        None => None,
    }
}

/// A file's extension is what stands behind the last dot of its name: a path that ends in a
/// name with a stem, a dot and an extension has that extension.
pub proof fn law_an_extension_stands_behind_the_last_dot(
    directory: Seq<char>,
    stem: Seq<char>,
    extension: Seq<char>,
)
    requires
        stem.len() > 0,
        extension.len() > 0,
        !stem.contains('/'),
        !extension.contains('/'),
        !extension.contains('.'),
    ensures
        path_extension(stem + seq!['.'] + extension) == Some(extension),
        path_extension(directory + seq!['/'] + (stem + seq!['.'] + extension)) == Some(extension),
{
    let name = stem + seq!['.'] + extension;
    let dot = stem.len() as int;
    assert(name.subrange(dot, dot + 1) =~= seq!['.']);
    assert forall|i: int| dot < i implies !#[trigger] occurs_at(name, seq!['.'], i) by {
        if occurs_at(name, seq!['.'], i) {
            assert(name.subrange(i, i + 1)[0] == '.');
            assert(extension[i - dot - 1] == '.');
        }
    }
    law_a_text_is_parted_at_the_last_place(name, seq!['.'], dot);
    assert(name.take(dot) =~= stem);
    assert(name.skip(dot + 1) =~= extension);
    assert(name_extension(name) == Some(extension));
    assert(name.len() >= 3);
    assert(!name.contains('/')) by {
        if name.contains('/') {
            let i = choose|i: int| 0 <= i < name.len() && name[i] == '/';
            if i < dot {
                assert(stem[i] == '/');
            } else if i > dot {
                assert(extension[i - dot - 1] == '/');
            }
        }
    }
    assert(!contains_text(name, seq!['/'])) by {
        if contains_text(name, seq!['/']) {
            let i = choose|i: int| occurs_at(name, seq!['/'], i);
            assert(name.subrange(i, i + 1)[0] == '/');
            assert(name[i] == '/');
        }
    }
    law_a_text_without_the_mark_is_not_parted(name, seq!['/']);
    assert(file_name(name) == Some(name));
    let path = directory + seq!['/'] + name;
    let slash = directory.len() as int;
    assert(path.subrange(slash, slash + 1) =~= seq!['/']);
    assert forall|i: int| slash < i implies !#[trigger] occurs_at(path, seq!['/'], i) by {
        if occurs_at(path, seq!['/'], i) {
            assert(path.subrange(i, i + 1)[0] == '/');
            assert(name[i - slash - 1] == '/');
        }
    }
    law_a_text_is_parted_at_the_last_place(path, seq!['/'], slash);
    assert(path.skip(slash + 1) =~= name);
    assert(file_name(path) == Some(name));
}

/// A name without a dot, and one whose only dot is its first character, have no extension.
pub proof fn law_a_dot_in_front_begins_no_extension(name: Seq<char>)
    requires
        name.len() > 0,
        !name.drop_first().contains('.'),
    ensures
        name_extension(name) is None,
{
    lemma_last_occurrence(name, seq!['.'], name.len() as int);
    if let Some(i) = last_occurrence(name, seq!['.']) {
        assert(name.subrange(i, i + 1)[0] == '.');
        assert(name[i] == '.');
        if i > 0 {
            assert(name.drop_first()[i - 1] == '.');
        }
    }
}

} // verus!
