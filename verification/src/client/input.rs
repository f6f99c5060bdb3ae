//! What a line of input is: text, or a file to send.
use crate::protocol::attachment::is_attachment_protocol_line;
use crate::util::text::{after_prefix, joined, strip_prefix_ref, trim_ref, trimmed};
use vstd::prelude::*;

verus! {

/// What a line of input sends.
#[derive(Debug)]
pub enum OutgoingPayload {
    Text(String),
    AttachmentPath(String),
}

/// What a line of input sends.
pub ghost enum PayloadView {
    Text(Seq<char>),
    AttachmentPath(Seq<char>),
}

impl View for OutgoingPayload {
    type V = PayloadView;

    open spec fn view(&self) -> PayloadView {
        match self {
            OutgoingPayload::Text(s) => PayloadView::Text(s@),
            OutgoingPayload::AttachmentPath(s) => PayloadView::AttachmentPath(s@),
        }
    }
}

/// Why a line of input was refused.
#[derive(Debug)]
pub enum InputError {
    Usage,
    NotFound(String),
}

/// Why a line of input was refused.
pub ghost enum InputFault {
    Usage,
    NotFound(Seq<char>),
}

impl View for InputError {
    type V = InputFault;

    open spec fn view(&self) -> InputFault {
        match self {
            InputError::Usage => InputFault::Usage,
            InputError::NotFound(path) => InputFault::NotFound(path@),
        }
    }
}

/// The text shown to the user.
pub open spec fn input_fault_text(fault: InputFault) -> Seq<char> {
    match fault {
        InputFault::Usage => "Usage: /send <path>"@,
        InputFault::NotFound(path) => "Attachment not found: "@ + path,
    }
}

impl InputError {
    pub fn message(&self) -> (text: String)
        ensures
            text@ == input_fault_text(self@),
    {
        match self {
            InputError::Usage => "Usage: /send <path>".to_owned(),
            InputError::NotFound(path) => joined("Attachment not found: ", path.as_str()),
        }
    }
}

/// A text without the quotation marks around it.
pub open spec fn unquoted(s: Seq<char>) -> Seq<char> {
    if s.len() >= 2 && s[0] == '"' && s.last() == '"' {
        s.subrange(1, s.len() - 1)
    } else {
        s
    }
}

pub fn strip_optional_quotes<'a>(input: &'a str) -> (out: &'a str)
    ensures
        out@ == unquoted(input@),
{
    let n = input.unicode_len();
    if n >= 2 && input.get_char(0) == '"' && input.get_char(n - 1) == '"' {
        input.substring_char(1, n - 1)
    } else {
        input
    }
}

/// The path that a line of input may name: behind the command to send, or the whole line. A line
/// about an attachment and a command without a path name none.
pub open spec fn named_path(msg: Seq<char>, is_protocol_line: bool) -> Option<Seq<char>> {
    if is_protocol_line {
        None
    } else {
        match after_prefix(msg, "/send "@) {
            Some(rest) => if trimmed(rest).len() == 0 {
                None
            } else {
                Some(unquoted(trimmed(rest)))
            },
            None => Some(trimmed(msg)),
        }
    }
}

/// What a line of input sends, given whether the path that it may name is that of a file.
pub open spec fn classified(msg: Seq<char>, is_protocol_line: bool, is_file: bool) -> Result<
    PayloadView,
    InputFault,
> {
    if is_protocol_line {
        Ok(PayloadView::Text(msg))
    } else {
        match after_prefix(msg, "/send "@) {
            Some(rest) => if trimmed(rest).len() == 0 {
                Err(InputFault::Usage)
            } else if is_file {
                Ok(PayloadView::AttachmentPath(unquoted(trimmed(rest))))
            } else {
                Err(InputFault::NotFound(unquoted(trimmed(rest))))
            },
            None => if is_file {
                Ok(PayloadView::AttachmentPath(trimmed(msg)))
            } else {
                Ok(PayloadView::Text(msg))
            },
        }
    }
}

/// Whether a line is about an attachment.
pub open spec fn about_attachment(line: Seq<char>) -> bool {
    "/FILEMANIFEST2 "@.is_prefix_of(line) || "/FILECHUNK2 "@.is_prefix_of(line)
}

/// The path that a line of input may name.
pub fn candidate_path(msg: &str) -> (path: Option<String>)
    ensures
        match (path, named_path(msg@, about_attachment(msg@))) {
            (Some(o), Some(v)) => o@ == v,
            (None, None) => true,
            _ => false,
        },
{
    candidate_path_unless(msg, is_attachment_protocol_line(msg))
}

/// The path that a line of input may name, given whether it is about an attachment.
pub fn candidate_path_unless(msg: &str, is_protocol_line: bool) -> (path: Option<String>)
    ensures
        match (path, named_path(msg@, is_protocol_line)) {
            (Some(o), Some(v)) => o@ == v,
            (None, None) => true,
            _ => false,
        },
{
    if is_protocol_line {
        return None;
    }
    match strip_prefix_ref(msg, "/send ") {
        Some(rest) => {
            let raw = trim_ref(rest);
            if raw.unicode_len() == 0 {
                None
            } else {
                Some(strip_optional_quotes(raw).to_owned())
            }
        },
        None => Some(trim_ref(msg).to_owned()),
    }
}

/// What a line of input sends, given whether the path that it may name is that of a file.
pub fn classify_outgoing_input(
    msg: &str,
    is_file: bool,
) -> (out: Result<OutgoingPayload, InputError>)
    ensures
        match (out, classified(msg@, about_attachment(msg@), is_file)) {
            (Ok(o), Ok(v)) => o@ == v,
            (Err(e), Err(v)) => e@ == v,
            _ => false,
        },
{
    classify_unless(msg, is_attachment_protocol_line(msg), is_file)
}

/// What a line of input sends, given whether it is about an attachment, and whether the path that
/// it may name is that of a file.
pub fn classify_unless(msg: &str, is_protocol_line: bool, is_file: bool) -> (out: Result<
    OutgoingPayload,
    InputError,
>)
    ensures
        match (out, classified(msg@, is_protocol_line, is_file)) {
            (Ok(o), Ok(v)) => o@ == v,
            (Err(e), Err(v)) => e@ == v,
            _ => false,
        },
{
    if is_protocol_line {
        return Ok(OutgoingPayload::Text(msg.to_owned()));
    }
    match strip_prefix_ref(msg, "/send ") {
        Some(rest) => {
            let raw = trim_ref(rest);
            if raw.unicode_len() == 0 {
                return Err(InputError::Usage);
            }
            let path = strip_optional_quotes(raw).to_owned();
            if is_file {
                Ok(OutgoingPayload::AttachmentPath(path))
            } else {
                Err(InputError::NotFound(path))
            }
        },
        None => {
            if is_file {
                Ok(OutgoingPayload::AttachmentPath(trim_ref(msg).to_owned()))
            } else {
                Ok(OutgoingPayload::Text(msg.to_owned()))
            }
        },
    }
}

} // verus!
