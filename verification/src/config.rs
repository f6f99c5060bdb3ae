//! What the programs use when nothing else is given.
use vstd::prelude::*;

verus! {

/// A server that can be chosen by its number.
#[derive(Debug, Clone, Copy)]
pub struct PresetServer {
    pub name: &'static str,
    pub addr: &'static str,
}

pub const DEFAULT_SERVER_PORT: u16 = 6655;

pub const DEFAULT_SERVER_PASSWORD: &'static str = "Vrepol";

/// How many servers can be chosen by their numbers.
pub const CLIENT_SERVER_PRESET_COUNT: usize = 2;

pub const CLIENT_DEFAULT_SERVER_INDEX: usize = 0;

/// The name and the address of a server that can be chosen by its number.
pub open spec fn preset_at(index: int) -> Option<(Seq<char>, Seq<char>)> {
    if index == 0 {
        Some(("Public server"@, "8.153.67.166:6655"@))
    } else if index == 1 {
        Some(("Tailscale server"@, "100.123.171.94:6655"@))
    } else {
        None
    }
}

/// A server that can be chosen by its number.
pub fn client_server_preset(index: usize) -> (server: Option<PresetServer>)
    ensures
        match (server, preset_at(index as int)) {
            (Some(s), Some(v)) => s.name@ == v.0 && s.addr@ == v.1,
            (None, None) => true,
            _ => false,
        },
        server is Some <==> index < CLIENT_SERVER_PRESET_COUNT,
{
    if index == 0 {
        Some(PresetServer { name: "Public server", addr: "8.153.67.166:6655" })
    } else if index == 1 {
        Some(PresetServer { name: "Tailscale server", addr: "100.123.171.94:6655" })
    } else {
        None
    }
}

/// The server that is used when none is chosen.
pub fn default_client_server() -> (server: PresetServer)
    ensures
        preset_at(CLIENT_DEFAULT_SERVER_INDEX as int) == Some((server.name@, server.addr@)),
{
    match client_server_preset(CLIENT_DEFAULT_SERVER_INDEX) {
        Some(server) => server,
        None => {
            assert(false);
            PresetServer { name: "", addr: "" }
        },
    }
}

} // verus!
