//! What is pasted: images and lists of files.
use crate::client::input::{strip_optional_quotes, unquoted};
use crate::outside::image::{png_encode, png_file};
use crate::outside::path::path_is_absolute;
use crate::util::path::may_be_absolute;
use crate::util::text::{
    decimal, decimal_text, joined, lemma_views, split_char, split_on, trim_ref, trimmed, views,
};
use vstd::prelude::*;

verus! {

/// What the clipboard holds.
#[derive(Debug)]
pub enum ClipData {
    Text(String),
    /// An image, of four bytes for each of its pixels.
    Image { width: u32, height: u32, bytes: Vec<u8> },
    /// Files, by their paths.
    Files(Vec<String>),
}

/// What the clipboard holds.
pub ghost enum ClipView {
    Text(Seq<char>),
    Image { width: u32, height: u32, bytes: Seq<u8> },
    Files(Seq<Seq<char>>),
}

impl View for ClipData {
    type V = ClipView;

    open spec fn view(&self) -> ClipView {
        match self {
            ClipData::Text(text) => ClipView::Text(text@),
            ClipData::Image { width, height, bytes } => ClipView::Image {
                width: *width,
                height: *height,
                bytes: bytes@,
            },
            ClipData::Files(paths) => ClipView::Files(views(paths@)),
        }
    }
}

/// Why an image cannot be pasted.
#[derive(Debug, Clone, Copy, PartialEq, Eq, Structural)]
pub enum ClipboardError {
    TooLarge,
    SizeMismatch { expected: usize, got: usize },
}

/// The text shown to the user.
pub open spec fn clipboard_error_text(e: ClipboardError) -> Seq<char> {
    match e {
        ClipboardError::TooLarge => "Clipboard image dimensions are too large"@,
        ClipboardError::SizeMismatch { expected, got } => {
            "Clipboard image buffer size mismatch: expected "@ + decimal(expected as nat) + ", got "@
                + decimal(got as nat)
        },
    }
}

impl ClipboardError {
    pub fn message(self) -> (text: String)
        ensures
            text@ == clipboard_error_text(self),
    {
        match self {
            ClipboardError::TooLarge => "Clipboard image dimensions are too large".to_owned(),
            ClipboardError::SizeMismatch { expected, got } => {
                let a = decimal_text(expected as u64);
                let b = decimal_text(got as u64);
                let mut text = joined(
                    "Clipboard image buffer size mismatch: expected ",
                    a.as_str(),
                );
                text.append(", got ");
                text.append(b.as_str());
                text
            },
        }
    }
}

/// How many bytes an image takes.
pub open spec fn rgba_len(w: u32, h: u32) -> nat {
    (w as nat) * (h as nat) * 4
}

/// Whether every pixel is transparent.
pub open spec fn all_transparent(bytes: Seq<u8>) -> bool {
    forall|i: int| 0 <= i < bytes.len() && i % 4 == 3 ==> #[trigger] bytes[i] == 0
}

/// An image all of whose pixels are transparent is made opaque; any other stays.
pub open spec fn with_alpha(bytes: Seq<u8>) -> Seq<u8> {
    if all_transparent(bytes) {
        Seq::new(
            bytes.len(),
            |i: int|
                if i % 4 == 3 {
                    255u8
                } else {
                    bytes[i]
                },
        )
    } else {
        bytes
    }
}

/// The pixels of a pasted image.
pub open spec fn normalized_rgba(
    bytes: Seq<u8>,
    w: u32,
    h: u32,
) -> Result<Seq<u8>, ClipboardError> {
    if rgba_len(w, h) > usize::MAX {
        Err(ClipboardError::TooLarge)
    } else if bytes.len() != rgba_len(w, h) {
        Err(
            ClipboardError::SizeMismatch {
                expected: rgba_len(w, h) as usize,
                got: bytes.len() as usize,
            },
        )
    } else {
        Ok(with_alpha(bytes))
    }
}

pub fn normalize_clipboard_rgba(bytes: &[u8], w: u32, h: u32) -> (out: Result<
    Vec<u8>,
    ClipboardError,
>)
    ensures
        match (out, normalized_rgba(bytes@, w, h)) {
            (Ok(o), Ok(v)) => o@ == v,
            (Err(e), Err(v)) => e == v,
            _ => false,
        },
{
    proof {
        assert(w * h <= 0xffff_fffe_0000_0001) by (nonlinear_arith)
            requires
                0 <= w <= 0xffff_ffff,
                0 <= h <= 0xffff_ffff,
        ;
    }
    let pixels: u128 = (w as u128) * (h as u128);
    let needed: u128 = pixels * 4;
    if needed > usize::MAX as u128 {
        return Err(ClipboardError::TooLarge);
    }
    let expected: usize = needed as usize;
    if bytes.len() != expected {
        return Err(ClipboardError::SizeMismatch { expected, got: bytes.len() });
    }
    let mut rgba: Vec<u8> = vstd::slice::slice_to_vec(bytes);
    let mut transparent = true;
    let mut i: usize = 0;
    while i < rgba.len()
        invariant
            i <= rgba@.len(),
            rgba@ == bytes@,
            transparent <==> forall|k: int| 0 <= k < i && k % 4 == 3 ==> #[trigger] rgba@[k] == 0,
        decreases rgba.len() - i,
    {
        if i % 4 == 3 && rgba[i] != 0 {
            transparent = false;
        }
        i += 1;
    }
    if transparent {
        let ghost want = with_alpha(bytes@);
        let mut j: usize = 0;
        while j < rgba.len()
            invariant
                j <= rgba@.len(),
                all_transparent(bytes@),
                rgba@.len() == bytes@.len(),
                want == with_alpha(bytes@),
                forall|k: int| 0 <= k < j ==> rgba@[k] == want[k],
                forall|k: int| j <= k < rgba@.len() ==> rgba@[k] == bytes@[k],
            decreases rgba.len() - j,
        {
            if j % 4 == 3 {
                rgba.set(j, 255);
            }
            j += 1;
        }
        assert(rgba@ =~= want);
    }
    Ok(rgba)
}

/// The PNG file of an image of four bytes for each of its pixels, or why it cannot be made.
pub fn encode_rgba_as_png(rgba: &[u8], w: u32, h: u32) -> (out: Result<Vec<u8>, String>)
    requires
        rgba@.len() == rgba_len(w, h),
    ensures
        match (out, png_file(rgba@, w, h)) {
            (Ok(o), Ok(v)) => o@ == v,
            (Err(e), Err(v)) => e@ == v,
            _ => false,
        },
{
    png_encode(rgba, w, h)
}

/// A pasted image keeps its colours, and is not left wholly transparent unless it is empty.
pub proof fn law_pasted_image_keeps_colours(bytes: Seq<u8>, w: u32, h: u32)
    requires
        normalized_rgba(bytes, w, h) is Ok,
    ensures
        ({
            let out = normalized_rgba(bytes, w, h)->Ok_0;
            &&& out.len() == bytes.len()
            &&& forall|i: int| 0 <= i < bytes.len() && i % 4 != 3 ==> #[trigger] out[i] == bytes[i]
            &&& bytes.len() > 0 ==> !all_transparent(out)
        }),
{
    let out = normalized_rgba(bytes, w, h)->Ok_0;
    if bytes.len() > 0 && all_transparent(bytes) {
        assert(bytes.len() % 4 == 0) by (nonlinear_arith)
            requires
                bytes.len() == (w as nat) * (h as nat) * 4,
        ;
        assert(out[3] == 255);
    }
}

/// The lines of a text that are not blank, without white space and quotation marks around them.
pub open spec fn pasted_lines(lines: Seq<Seq<char>>) -> Seq<Seq<char>>
    decreases lines.len(),
{
    if lines.len() == 0 {
        Seq::empty()
    } else {
        let rest = pasted_lines(lines.drop_last());
        if trimmed(lines.last()).len() == 0 {
            rest
        } else {
            rest.push(unquoted(trimmed(lines.last())))
        }
    }
}

/// The paths that a pasted text may name, one in each line.
pub fn clipboard_paths(text: &str) -> (paths: Vec<String>)
    ensures
        views(paths@) == pasted_lines(split_on(text@, '\n')),
{
    let lines = split_char(text, '\n');
    let ghost all = views(lines@);
    let mut paths: Vec<String> = Vec::new();
    let mut i: usize = 0;
    assert(all.take(0) =~= Seq::<Seq<char>>::empty());
    assert(views(paths@) =~= Seq::<Seq<char>>::empty());
    while i < lines.len()
        invariant
            i <= lines@.len(),
            all == views(lines@),
            views(paths@) == pasted_lines(all.take(i as int)),
        decreases lines.len() - i,
    {
        let ghost before = paths@;
        let line = trim_ref(lines[i].as_str());
        proof {
            assert(all[i as int] == lines@[i as int]@);
            assert(all.take(i + 1).drop_last() =~= all.take(i as int));
            assert(all.take(i + 1).last() == all[i as int]);
        }
        if line.unicode_len() > 0 {
            let path = strip_optional_quotes(line).to_owned();
            let ghost p = path@;
            paths.push(path);
            assert(views(paths@) =~= views(before).push(p));
        }
        i += 1;
    }
    assert(all.take(all.len() as int) =~= all);
    paths
}

/// Whether a pasted text names files and nothing else: there is a path, and each can be used.
pub open spec fn names_files(usable: Seq<bool>) -> bool {
    usable.len() > 0 && forall|i: int| 0 <= i < usable.len() ==> #[trigger] usable[i]
}

/// The files that a pasted text names, when it names files and nothing else. `usable` says of each
/// path whether it is the absolute path of a file.
pub open spec fn named_files(text: Seq<char>, usable: Seq<bool>) -> Option<Seq<Seq<char>>> {
    if names_files(usable) {
        Some(pasted_lines(split_on(text, '\n')))
    } else {
        None
    }
}

/// Whether paths may be absolute and of files, or not: `files` says which are those of files.
pub open spec fn may_be_usable(
    paths: Seq<Seq<char>>,
    files: Seq<bool>,
    absolute: Seq<bool>,
    usable: Seq<bool>,
) -> bool {
    &&& absolute.len() == paths.len()
    &&& usable.len() == paths.len()
    &&& forall|i: int|
        0 <= i < paths.len() ==> may_be_absolute(paths[i], #[trigger] absolute[i]) && usable[i] == (
        absolute[i] && files[i])
}

/// The files that a pasted text names, when it names files and nothing else. `usable` says of each
/// path whether it is the absolute path of a file.
pub fn files_named(text: &str, usable: &Vec<bool>) -> (out: Option<Vec<String>>)
    requires
        usable@.len() == pasted_lines(split_on(text@, '\n')).len(),
    ensures
        match (out, named_files(text@, usable@)) {
            (Some(o), Some(v)) => views(o@) == v,
            (None, None) => true,
            _ => false,
        },
{
    let paths = clipboard_paths(text);
    assert(views(paths@).len() == paths@.len());
    if paths.len() == 0 {
        return None;
    }
    let mut i: usize = 0;
    while i < usable.len()
        invariant
            i <= usable@.len(),
            forall|k: int| 0 <= k < i ==> #[trigger] usable@[k],
        decreases usable.len() - i,
    {
        if !usable[i] {
            assert(!usable@[i as int]);
            return None;
        }
        i += 1;
    }
    Some(paths)
}

/// Which paths of a pasted text are the absolute paths of files. `files` says which are those of
/// files.
pub fn usable_paths(text: &str, files: &Vec<bool>) -> (usable: Vec<bool>)
    requires
        files@.len() == pasted_lines(split_on(text@, '\n')).len(),
    ensures
        exists|absolute: Seq<bool>|
            #[trigger] may_be_usable(
                pasted_lines(split_on(text@, '\n')),
                files@,
                absolute,
                usable@,
            ),
{
    let paths = clipboard_paths(text);
    let ghost all = views(paths@);
    let ghost mut absolute: Seq<bool> = Seq::empty();
    let mut usable: Vec<bool> = Vec::new();
    let mut i: usize = 0;
    proof {
        lemma_views(paths@);
    }
    while i < paths.len()
        invariant
            i <= paths@.len(),
            all == views(paths@),
            files@.len() == all.len() == paths@.len(),
            absolute.len() == i,
            usable@.len() == i,
            forall|k: int|
                0 <= k < i ==> may_be_absolute(all[k], #[trigger] absolute[k]) && usable@[k] == (
                absolute[k] && files@[k]),
        decreases paths.len() - i,
    {
        let at_root = path_is_absolute(paths[i].as_str());
        let ghost earlier = absolute;
        let ghost found = usable@;
        usable.push(at_root && files[i]);
        proof {
            assert(all[i as int] == paths@[i as int]@);
            absolute = absolute.push(at_root);
            assert forall|k: int| 0 <= k < i + 1 implies may_be_absolute(
                all[k],
                #[trigger] absolute[k],
            ) && usable@[k] == (absolute[k] && files@[k]) by {
                if k < i {
                    assert(absolute[k] == earlier[k] && usable@[k] == found[k]);
                }
            }
        }
        i += 1;
    }
    assert(may_be_usable(all, files@, absolute, usable@));
    usable
}

/// The files that a pasted text names: all its lines must name files by absolute paths, and there
/// must be one. `files` says of each path whether it is that of a file.
pub fn parse_clipboard_file_paths(text: &str, files: &Vec<bool>) -> (out: Option<Vec<String>>)
    requires
        files@.len() == pasted_lines(split_on(text@, '\n')).len(),
    ensures
        exists|absolute: Seq<bool>, usable: Seq<bool>|
            {
                &&& #[trigger] may_be_usable(
                    pasted_lines(split_on(text@, '\n')),
                    files@,
                    absolute,
                    usable,
                )
                &&& match (out, named_files(text@, usable)) {
                    (Some(o), Some(v)) => views(o@) == v,
                    (None, None) => true,
                    _ => false,
                }
            },
{
    let usable = usable_paths(text, files);
    files_named(text, &usable)
}

} // verus!
