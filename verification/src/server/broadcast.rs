//! What the server passes on to the members of a room, and how urgently.
use crate::util::text::{same_text, starts_with};
use vstd::prelude::*;

verus! {

/// A line for the members of a room, and the member it comes from.
#[derive(Debug)]
pub enum ServerEvent {
    Plain { source_member_id: Option<String>, plain: String },
}

/// A line for the members of a room.
pub ghost struct EventView {
    pub source: Option<Seq<char>>,
    pub plain: Seq<char>,
}

impl View for ServerEvent {
    type V = EventView;

    open spec fn view(&self) -> EventView {
        match self {
            ServerEvent::Plain { source_member_id, plain } => EventView {
                source: match source_member_id {
                    Some(id) => Some(id@),
                    None => None,
                },
                plain: plain@,
            },
        }
    }
}

/// Attachments wait behind everything else.
#[derive(Clone, Copy, Debug, PartialEq, Eq, Structural)]
pub enum BroadcastPriority {
    High,
    Low,
}

/// How urgent a packet is.
pub open spec fn priority_of(packet_id: Seq<char>) -> BroadcastPriority {
    if "att-"@.is_prefix_of(packet_id) {
        BroadcastPriority::Low
    } else {
        BroadcastPriority::High
    }
}

pub fn packet_priority(packet_id: &str) -> (priority: BroadcastPriority)
    ensures
        priority == priority_of(packet_id@),
{
    if starts_with(packet_id, "att-") {
        BroadcastPriority::Low
    } else {
        BroadcastPriority::High
    }
}

/// What a member is sent of an event: nothing when the event comes from that member.
pub open spec fn delivered(event: EventView, member_id: Seq<char>) -> Option<Seq<char>> {
    if event.source == Some(member_id) {
        None
    } else {
        Some(event.plain)
    }
}

pub fn delivered_line(event: ServerEvent, member_id: &str) -> (line: Option<String>)
    ensures
        match (line, delivered(event@, member_id@)) {
            (Some(o), Some(v)) => o@ == v,
            (None, None) => true,
            _ => false,
        },
{
    match event {
        ServerEvent::Plain { source_member_id, plain } => {
            match source_member_id {
                Some(id) => {
                    if same_text(id.as_str(), member_id) {
                        return None;
                    }
                },
                None => {},
            }
            Some(plain)
        },
    }
}

} // verus!
