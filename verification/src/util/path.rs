//! File names: the last part of a path, and names that are safe to write.
use crate::outside::path::path_file_name;
use crate::outside::random::{fresh_id, lower_hex};
use crate::outside::text::push_char;
use crate::util::text::{
    char_is_control, chars_of, is_control, joined, opt_text, split_on, string_of, trim, trimmed,
};
use vstd::prelude::*;

verus! {

/// The last part of a path that names something: neither empty nor the current directory.
pub open spec fn last_named(parts: Seq<Seq<char>>) -> Option<Seq<char>>
    decreases parts.len(),
{
    if parts.len() == 0 {
        None
    } else if parts.last().len() == 0 || parts.last() == "."@ {
        last_named(parts.drop_last())
    } else {
        Some(parts.last())
    }
}

/// The name of the file that a path leads to where only a slash separates. A path that ends by going
/// up has none.
pub open spec fn file_name_of(path: Seq<char>) -> Option<Seq<char>> {
    name_of_parts(split_on(path, '/'))
}

/// Whether a character separates the parts of a path on some machine.
pub open spec fn is_any_separator(c: char) -> bool {
    c == '/' || c == '\\'
}

/// The parts of a path between slashes and backslashes.
pub open spec fn split_at_any(path: Seq<char>) -> Seq<Seq<char>> {
    split_on(
        path.map_values(
            |c: char|
                if is_any_separator(c) {
                    '/'
                } else {
                    c
                },
        ),
        '/',
    )
}

/// Whether a path starts neither with a drive nor with two separators, which mean something of their
/// own where backslashes separate.
pub open spec fn has_no_prefix(path: Seq<char>) -> bool {
    path.len() < 2 || (path[1] != ':' && !(is_any_separator(path[0]) && is_any_separator(path[1])))
}

/// The name that the last part of a path gives.
pub open spec fn name_of_parts(parts: Seq<Seq<char>>) -> Option<Seq<char>> {
    match last_named(parts) {
        Some(name) => if name == ".."@ {
            None
        } else {
            Some(name)
        },
        None => None,
    }
}

/// Whether a path may lead to a file of a name, on a machine where a slash separates or on one where
/// a backslash does too.
pub open spec fn may_be_name(path: Seq<char>, name: Option<Seq<char>>) -> bool {
    name == file_name_of(path) || (has_no_prefix(path) ==> name == name_of_parts(
        split_at_any(path),
    ))
}

/// What a machine takes for the names of files: the name for each path.
pub type PathNames = spec_fn(Seq<char>) -> Option<Seq<char>>;

/// Whether names are those of some machine.
pub open spec fn path_rule(names: PathNames) -> bool {
    forall|path: Seq<char>| may_be_name(path, #[trigger] names(path))
}

/// The names of files where a slash separates.
pub open spec fn slash_names() -> PathNames {
    |path: Seq<char>| file_name_of(path)
}

/// The names of files where a slash separates are those of a machine.
pub proof fn lemma_slash_names()
    ensures
        path_rule(slash_names()),
{
}

/// A name that may be that of a path is the name on some machine.
pub proof fn lemma_names_with(path: Seq<char>, name: Option<Seq<char>>) -> (names: PathNames)
    requires
        may_be_name(path, name),
    ensures
        path_rule(names),
        names(path) == name,
{
    let names = |p: Seq<char>|
        if p == path {
            name
        } else {
            file_name_of(p)
        };
    assert forall|p: Seq<char>| may_be_name(p, #[trigger] names(p)) by {}
    names
}

/// A path without backslashes, and without a prefix, has the same name on every machine.
pub proof fn law_plain_path_has_one_name(path: Seq<char>, name: Option<Seq<char>>)
    requires
        may_be_name(path, name),
        has_no_prefix(path),
        !path.contains('\\'),
    ensures
        name == file_name_of(path),
{
    assert forall|i: int| 0 <= i < path.len() implies path[i] != '\\' by {
        assert(path.contains(path[i]));
    }
    assert(path.map_values(
        |c: char|
            if is_any_separator(c) {
                '/'
            } else {
                c
            },
    ) =~= path);
}

/// Whether a path may be absolute or not: it is where it starts with a slash, or, on a machine where a
/// backslash separates, only with a drive or two separators.
pub open spec fn may_be_absolute(path: Seq<char>, yes: bool) -> bool {
    yes == (path.len() > 0 && path[0] == '/') || (has_no_prefix(path) ==> !yes)
}

/// The place of the last `c`; `-1` when there is none.
pub open spec fn last_pos(s: Seq<char>, c: char) -> int
    decreases s.len(),
{
    if s.len() == 0 {
        -1
    } else if s.last() == c {
        s.len() - 1
    } else {
        last_pos(s.drop_last(), c)
    }
}

/// What follows the last dot of a file's name, unless the name only starts with a dot.
pub open spec fn extension_of(name: Option<Seq<char>>) -> Option<Seq<char>> {
    match name {
        Some(name) => {
            let p = last_pos(name, '.');
            if p <= 0 {
                None
            } else {
                Some(name.skip(p + 1))
            }
        },
        None => None,
    }
}

pub fn extension(name: &Option<String>) -> (ext: Option<String>)
    ensures
        opt_text(ext) == extension_of(opt_text(*name)),
{
    let text = match name {
        Some(name) => name.as_str(),
        None => {
            return None;
        },
    };
    let chars = chars_of(text);
    let mut i: usize = chars.len();
    assert(chars@.take(i as int) =~= chars@);
    while i > 0
        invariant
            i <= chars@.len(),
            chars@ == text@,
            opt_text(*name) == Some(text@),
            last_pos(chars@.take(i as int), '.') == last_pos(text@, '.'),
        decreases i,
    {
        proof {
            assert(chars@.take(i as int).last() == chars@[i - 1]);
            assert(chars@.take(i as int).drop_last() =~= chars@.take(i - 1));
        }
        if chars[i - 1] == '.' {
            if i == 1 {
                return None;
            }
            let ext = string_of(vstd::slice::slice_subrange(chars.as_slice(), i, chars.len()));
            assert(ext@ =~= text@.skip(i as int));
            return Some(ext);
        }
        i -= 1;
    }
    None
}

/// What an attachment without a name is called.
pub const DEFAULT_NAME: &'static str = "attachment.bin";

/// The name of a file, or the default.
pub open spec fn name_or_default(name: Option<Seq<char>>) -> Seq<char> {
    match name {
        Some(name) => if trimmed(name).len() > 0 {
            name
        } else {
            DEFAULT_NAME@
        },
        None => DEFAULT_NAME@,
    }
}

/// The name of a file, or the default.
pub fn named_or_default(name: Option<String>) -> (out: String)
    ensures
        out@ == name_or_default(opt_text(name)),
{
    match name {
        Some(name) => {
            let inner = trim(name.as_str());
            if inner.as_str().unicode_len() > 0 {
                name
            } else {
                DEFAULT_NAME.to_owned()
            }
        },
        None => DEFAULT_NAME.to_owned(),
    }
}

/// The name of the file that a path leads to, or the default.
pub fn file_name_or_default(path: &str) -> (name: String)
    ensures
        exists|base: Option<Seq<char>>|
            may_be_name(path@, base) && name@ == #[trigger] name_or_default(base),
{
    let base = path_file_name(path);
    named_or_default(base)
}

/// Whether a character is left out of file names.
pub open spec fn is_unsafe_char(c: char) -> bool {
    c == '/' || c == '\\' || c == ':' || c == '*' || c == '?' || c == '"' || c == '<' || c == '>' || c
        == '|' || is_control(c)
}

/// A character as it stands in a safe name.
pub open spec fn safe_char(c: char) -> char {
    if is_unsafe_char(c) {
        '_'
    } else {
        c
    }
}

/// A file's name with the unsafe characters replaced; it may be empty.
pub open spec fn cleaned_name(name: Option<Seq<char>>) -> Seq<char> {
    let raw = match name {
        Some(raw) => raw,
        None => DEFAULT_NAME@,
    };
    trimmed(raw).map_values(|c: char| safe_char(c))
}

/// The safe name of an attachment, given an identifier for one that has no name.
pub open spec fn safe_name(name: Option<Seq<char>>, id: Seq<char>) -> Seq<char> {
    if cleaned_name(name).len() == 0 {
        "attachment-"@ + id + ".bin"@
    } else {
        cleaned_name(name)
    }
}

fn clean_char(c: char) -> (out: char)
    ensures
        out == safe_char(c),
{
    if c == '/' || c == '\\' || c == ':' || c == '*' || c == '?' || c == '"' || c == '<' || c == '>'
        || c == '|' || char_is_control(c) {
        '_'
    } else {
        c
    }
}

/// The safe name for the name of a file, given an identifier for one that has no name.
pub fn safe_file_name(name: Option<String>, id: &str) -> (safe: String)
    ensures
        safe@ == safe_name(opt_text(name), id@),
{
    let raw = match name {
        Some(raw) => raw,
        None => DEFAULT_NAME.to_owned(),
    };
    let inner = trim(raw.as_str());
    let chars = chars_of(inner.as_str());
    let ghost want = inner@.map_values(|c: char| safe_char(c));
    let mut out = String::new();
    let mut i: usize = 0;
    assert(out@ =~= want.take(0));
    while i < chars.len()
        invariant
            i <= chars@.len(),
            chars@ == inner@,
            want == inner@.map_values(|c: char| safe_char(c)),
            out@ == want.take(i as int),
        decreases chars.len() - i,
    {
        push_char(&mut out, clean_char(chars[i]));
        assert(want.take(i + 1) =~= want.take(i as int).push(want[i as int]));
        i += 1;
    }
    assert(want.take(want.len() as int) =~= want);
    if chars.len() == 0 {
        let mut fallback = joined("attachment-", id);
        fallback.append(".bin");
        fallback
    } else {
        out
    }
}

/// The safe name of an attachment, given an identifier for one that has no name.
pub fn sanitize_attachment_name_with(name: &str, id: &str) -> (safe: String)
    ensures
        exists|base: Option<Seq<char>>|
            may_be_name(name@, base) && safe@ == #[trigger] safe_name(base, id@),
{
    let base = path_file_name(name);
    safe_file_name(base, id)
}

/// The safe name of an attachment. One that has no name gets a fresh one.
pub fn sanitize_attachment_name(name: &str) -> (safe: String)
    ensures
        exists|base: Option<Seq<char>>, id: Seq<char>|
            {
                &&& may_be_name(name@, base)
                &&& id.len() == 32
                &&& lower_hex(id)
                &&& safe@ == #[trigger] safe_name(base, id)
            },
{
    let id = fresh_id();
    sanitize_attachment_name_with(name, id.as_str())
}

/// A safe name is not empty and holds no separator and no control character.
pub proof fn law_safe_name_is_safe(name: Option<Seq<char>>, id: Seq<char>)
    requires
        lower_hex(id),
    ensures
        safe_name(name, id).len() > 0,
        forall|i: int|
            0 <= i < safe_name(name, id).len()
                ==> !is_unsafe_char(#[trigger] safe_name(name, id)[i]),
{
    reveal_strlit("attachment-");
    reveal_strlit(".bin");
}

} // verus!
