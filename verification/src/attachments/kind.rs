//! What an attachment is shown as.
pub use crate::protocol::attachment::AttachmentKind;
use crate::outside::path::path_file_name;
use crate::outside::text::push_char;
use crate::util::path::{extension, extension_of, may_be_name};
use crate::util::text::{chars_of, opt_text, same_text};
use vstd::prelude::*;

verus! {

/// The lower-case form of an ASCII letter; other characters stay.
pub open spec fn ascii_lower(c: char) -> char {
    if 'A' <= c && c <= 'Z' {
        ((c as u32) + 32) as char
    } else {
        c
    }
}

pub open spec fn ascii_lower_text(s: Seq<char>) -> Seq<char> {
    s.map_values(|c: char| ascii_lower(c))
}

/// The lower-case form of a text, for its ASCII letters.
pub fn to_ascii_lower(s: &str) -> (out: String)
    ensures
        out@ == ascii_lower_text(s@),
{
    let chars = chars_of(s);
    let ghost want = ascii_lower_text(s@);
    let mut out = String::new();
    let mut i: usize = 0;
    assert(out@ =~= want.take(0));
    while i < chars.len()
        invariant
            i <= chars@.len(),
            chars@ == s@,
            want == ascii_lower_text(s@),
            out@ == want.take(i as int),
        decreases chars.len() - i,
    {
        let c = chars[i];
        let lower = if 'A' <= c && c <= 'Z' {
            ((c as u8) + 32) as char
        } else {
            c
        };
        push_char(&mut out, lower);
        assert(want[i as int] == ascii_lower(c));
        assert(want.take(i + 1) =~= want.take(i as int).push(want[i as int]));
        i += 1;
    }
    assert(want.take(want.len() as int) =~= want);
    out
}

/// Whether an extension in lower case is that of an image.
pub open spec fn is_image_extension(ext: Seq<char>) -> bool {
    ext == "png"@ || ext == "jpg"@ || ext == "jpeg"@ || ext == "gif"@ || ext == "bmp"@ || ext
        == "webp"@
}

/// What a file is shown as, by the extension of its name.
pub open spec fn kind_of(name: Option<Seq<char>>) -> AttachmentKind {
    match extension_of(name) {
        Some(ext) => if is_image_extension(ascii_lower_text(ext)) {
            AttachmentKind::Image
        } else {
            AttachmentKind::File
        },
        None => AttachmentKind::File,
    }
}

/// What a file is shown as, by the extension of its name.
pub fn kind_of_file(name: &Option<String>) -> (kind: AttachmentKind)
    ensures
        kind == kind_of(opt_text(*name)),
{
    match extension(name) {
        Some(ext) => {
            let lower = to_ascii_lower(ext.as_str());
            let e = lower.as_str();
            if same_text(e, "png") || same_text(e, "jpg") || same_text(e, "jpeg") || same_text(
                e,
                "gif",
            ) || same_text(e, "bmp") || same_text(e, "webp") {
                AttachmentKind::Image
            } else {
                AttachmentKind::File
            }
        },
        None => AttachmentKind::File,
    }
}

/// What the file that a path leads to is shown as.
pub fn infer_attachment_kind(path: &str) -> (kind: AttachmentKind)
    ensures
        exists|base: Option<Seq<char>>|
            may_be_name(path@, base) && kind == #[trigger] kind_of(base),
{
    let base = path_file_name(path);
    kind_of_file(&base)
}

} // verus!
