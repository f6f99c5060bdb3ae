//! What a client's user is asked first: a name, and a server.
use crate::attachments::kind::{ascii_lower_text, to_ascii_lower};
use crate::config::{
    client_server_preset, default_client_server, preset_at, CLIENT_DEFAULT_SERVER_INDEX,
    DEFAULT_SERVER_PASSWORD, DEFAULT_SERVER_PORT,
};
use crate::crypto::invite::INVITATION_PREFIX;
use crate::outside::names::random_first_name;
use crate::outside::pattern::{regex_is_match, regex_match};
use crate::util::text::{
    contains_part, decimal, decimal_text, is_word, joined, occurs, parse_unsigned, parse_usize,
    parsed_unsigned, same_text, starts_with, trim, trimmed, views,
};
use vstd::prelude::*;

verus! {

/// What the address of a server looks like.
pub const HOST_PORT_PATTERN: &'static str = r"^[A-Za-z0-9.\-]+:\d+$";

/// What is said of a port that is none.
pub const BAD_PORT: &'static str = "端口必须是 1-65535 的数字";

/// A text without white space around it, or another when nothing is left.
pub open spec fn or_else(input: Seq<char>, other: Seq<char>) -> Seq<char> {
    if trimmed(input).len() == 0 {
        other
    } else {
        trimmed(input)
    }
}

fn text_or(input: &str, other: &str) -> (out: String)
    ensures
        out@ == or_else(input@, other@),
{
    let text = trim(input);
    if text.as_str().unicode_len() == 0 {
        other.to_owned()
    } else {
        text
    }
}

/// The password that was typed, or the default one.
pub fn password_or_default(input: &str) -> (password: String)
    ensures
        password@ == or_else(input@, DEFAULT_SERVER_PASSWORD@),
{
    text_or(input, DEFAULT_SERVER_PASSWORD)
}

/// The name that was typed, or an invented one.
pub fn name_or_invented(input: &str, invented: &str) -> (name: String)
    ensures
        name@ == or_else(input@, invented@),
{
    text_or(input, invented)
}

/// The name that was typed, or else any invented one. An invented name is one word.
pub fn chosen_name(input: &str) -> (name: String)
    ensures
        exists|invented: Seq<char>|
            is_word(invented) && name@ == #[trigger] or_else(input@, invented),
        name@.len() > 0,
{
    let invented = random_first_name();
    name_or_invented(input, invented.as_str())
}

/// The port that was typed, or the default one; none when it is no port.
pub open spec fn typed_port(input: Seq<char>) -> Option<u16> {
    if trimmed(input).len() == 0 {
        Some(DEFAULT_SERVER_PORT)
    } else {
        match parsed_unsigned(trimmed(input), u16::MAX as nat) {
            Some(n) => if n == 0 {
                None
            } else {
                Some(n as u16)
            },
            None => None,
        }
    }
}

/// Reads a port.
pub fn port_or_default(input: &str) -> (port: Result<u16, &'static str>)
    ensures
        match (port, typed_port(input@)) {
            (Ok(p), Some(v)) => p == v,
            (Err(e), None) => e@ == BAD_PORT@,
            _ => false,
        },
{
    let text = trim(input);
    if text.as_str().unicode_len() == 0 {
        return Ok(DEFAULT_SERVER_PORT);
    }
    match parse_unsigned(text.as_str(), u16::MAX as u64) {
        Some(n) => if n == 0 {
            Err(BAD_PORT)
        } else {
            Ok(n as u16)
        },
        None => Err(BAD_PORT),
    }
}

/// The address and the password of a server in one text.
pub fn server_target(addr: &str, password: &str) -> (target: String)
    ensures
        target@ == addr@ + "&"@ + password@,
{
    let mut target = joined(addr, "&");
    target.append(password);
    target
}

/// The address of a server, from its host and port.
pub fn host_and_port(host: &str, port: u16) -> (addr: String)
    ensures
        addr@ == host@ + ":"@ + decimal(port as nat),
{
    let mut addr = joined(host, ":");
    let digits = decimal_text(port as u64);
    addr.append(digits.as_str());
    addr
}

/// How a server of one's own is to be reached.
#[derive(Debug)]
pub enum HostChoice {
    Host(String),
    /// The user is asked for it.
    Manual,
    /// There is no such number.
    Unknown,
}

/// How a server of one's own is to be reached.
pub ghost enum HostView {
    Host(Seq<char>),
    Manual,
    Unknown,
}

impl View for HostChoice {
    type V = HostView;

    open spec fn view(&self) -> HostView {
        match self {
            HostChoice::Host(host) => HostView::Host(host@),
            HostChoice::Manual => HostView::Manual,
            HostChoice::Unknown => HostView::Unknown,
        }
    }
}

/// The entry of a list that a number names, counted from one; zero names the first as well.
pub open spec fn listed(list: Seq<Seq<char>>, n: nat) -> Option<Seq<char>> {
    let at = if n > 0 {
        n - 1
    } else {
        0
    };
    if at < list.len() {
        Some(list[at])
    } else {
        None
    }
}

/// What an answer chooses: the first address by default, one by its number, or any other.
pub open spec fn host_choice(input: Seq<char>, candidates: Seq<Seq<char>>) -> HostView {
    let s = trimmed(input);
    if s.len() == 0 {
        if candidates.len() > 0 {
            HostView::Host(candidates[0])
        } else {
            HostView::Host("127.0.0.1"@)
        }
    } else if ascii_lower_text(s) == "manual"@ {
        HostView::Manual
    } else {
        match parsed_unsigned(s, usize::MAX as nat) {
            Some(n) => match listed(candidates, n) {
                Some(host) => HostView::Host(host),
                None => HostView::Unknown,
            },
            None => HostView::Host(s),
        }
    }
}

/// Reads the answer to the question how a server of one's own is to be reached.
pub fn choose_advertised_host(input: &str, candidates: &Vec<String>) -> (choice: HostChoice)
    ensures
        choice@ == host_choice(input@, views(candidates@)),
{
    let s = trim(input);
    assert(views(candidates@).len() == candidates@.len());
    if s.as_str().unicode_len() == 0 {
        if candidates.len() > 0 {
            assert(views(candidates@)[0] == candidates@[0]@);
            return HostChoice::Host(candidates[0].clone());
        }
        return HostChoice::Host("127.0.0.1".to_owned());
    }
    if same_text(to_ascii_lower(s.as_str()).as_str(), "manual") {
        return HostChoice::Manual;
    }
    match parse_usize(s.as_str()) {
        Some(n) => {
            let at: usize = if n > 0 {
                n - 1
            } else {
                0
            };
            if at < candidates.len() {
                assert(views(candidates@)[at as int] == candidates@[at as int]@);
                HostChoice::Host(candidates[at].clone())
            } else {
                HostChoice::Unknown
            }
        },
        None => HostChoice::Host(s),
    }
}

/// The host that the user typed; none when nothing was typed.
pub fn manual_host(input: &str) -> (host: Option<String>)
    ensures
        match host {
            Some(h) => trimmed(input@).len() > 0 && h@ == trimmed(input@),
            None => trimmed(input@).len() == 0,
        },
{
    let s = trim(input);
    if s.as_str().unicode_len() == 0 {
        None
    } else {
        Some(s)
    }
}

/// What the answer to the question for a server chooses.
#[derive(Debug)]
pub enum ServerChoice {
    /// The default server, under its default password: its address and password.
    Default(String),
    /// A server of one's own is to be started.
    Host,
    /// A server, by its address; its password is still to be asked for.
    Address(String),
    /// An invitation.
    Invitation(String),
    /// Nothing that is known: the user is asked again.
    Unknown,
}

/// What the answer to the question for a server chooses.
pub ghost enum ServerView {
    Default(Seq<char>),
    Host,
    Address(Seq<char>),
    Invitation(Seq<char>),
    Unknown,
}

impl View for ServerChoice {
    type V = ServerView;

    open spec fn view(&self) -> ServerView {
        match self {
            ServerChoice::Default(target) => ServerView::Default(target@),
            ServerChoice::Host => ServerView::Host,
            ServerChoice::Address(addr) => ServerView::Address(addr@),
            ServerChoice::Invitation(text) => ServerView::Invitation(text@),
            ServerChoice::Unknown => ServerView::Unknown,
        }
    }
}

/// The server that a number names, counted from one.
pub open spec fn numbered_server(s: Seq<char>) -> Option<Seq<char>> {
    match parsed_unsigned(s, usize::MAX as nat) {
        Some(n) => match preset_at(n - 1) {
            Some((_, addr)) => Some(addr),
            None => None,
        },
        None => None,
    }
}

/// What an answer chooses, given whether it looks like an address.
pub open spec fn server_choice_if(input: Seq<char>, looks_like_address: bool) -> ServerView {
    let s = trimmed(input);
    if s.len() == 0 {
        ServerView::Default(
            (preset_at(CLIENT_DEFAULT_SERVER_INDEX as int)->0).1 + "&"@ + DEFAULT_SERVER_PASSWORD@,
        )
    } else if ascii_lower_text(s) == "host"@ {
        ServerView::Host
    } else if let Some(addr) = numbered_server(s) {
        ServerView::Address(addr)
    } else if looks_like_address {
        ServerView::Address(s)
    } else if INVITATION_PREFIX@.is_prefix_of(s) {
        ServerView::Invitation(s)
    } else {
        ServerView::Unknown
    }
}

/// What an answer chooses.
pub open spec fn server_choice(input: Seq<char>) -> ServerView {
    server_choice_if(input, regex_match(HOST_PORT_PATTERN@, trimmed(input)) == Some(true))
}

/// Reads the answer to the question for a server, given whether it looks like an address.
pub fn choose_server_if(input: &str, looks_like_address: bool) -> (choice: ServerChoice)
    ensures
        choice@ == server_choice_if(input@, looks_like_address),
{
    let s = trim(input);
    if s.as_str().unicode_len() == 0 {
        let server = default_client_server();
        return ServerChoice::Default(server_target(server.addr, DEFAULT_SERVER_PASSWORD));
    }
    if same_text(to_ascii_lower(s.as_str()).as_str(), "host") {
        return ServerChoice::Host;
    }
    match parse_usize(s.as_str()) {
        Some(n) => {
            if n > 0 {
                match client_server_preset(n - 1) {
                    Some(server) => {
                        return ServerChoice::Address(server.addr.to_owned());
                    },
                    None => {},
                }
            }
        },
        None => {},
    }
    if looks_like_address {
        ServerChoice::Address(s)
    } else if starts_with(s.as_str(), INVITATION_PREFIX) {
        ServerChoice::Invitation(s)
    } else {
        ServerChoice::Unknown
    }
}

/// Reads the answer to the question for a server.
pub fn choose_server(input: &str) -> (choice: ServerChoice)
    ensures
        choice@ == server_choice(input@),
{
    let s = trim(input);
    let looks_like_address = match regex_is_match(HOST_PORT_PATTERN, s.as_str()) {
        Some(found) => found,
        None => false,
    };
    choose_server_if(input, looks_like_address)
}

/// What is printed when the connection to a server could not be made.
pub open spec fn login_failure(reason: Seq<char>) -> Seq<char> {
    if occurs("邀请码无效"@, reason) {
        "❌ 邀请码无效或已过期，请重新选择服务器或输入新的邀请码。\n"@
    } else if occurs("断开服务器"@, reason) {
        "断开服务器... \n"@
    } else {
        "HandShake Error: "@ + reason
    }
}

/// What is printed when the connection to a server could not be made.
pub fn login_failed_text(reason: &str) -> (text: String)
    ensures
        text@ == login_failure(reason@),
{
    if contains_part(reason, "邀请码无效") {
        "❌ 邀请码无效或已过期，请重新选择服务器或输入新的邀请码。\n".to_owned()
    } else if contains_part(reason, "断开服务器") {
        "断开服务器... \n".to_owned()
    } else {
        joined("HandShake Error: ", reason)
    }
}

} // verus!
