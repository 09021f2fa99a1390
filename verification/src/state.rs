use vstd::prelude::*;

use crate::packets::{info_matches, A3956StateUpdatePacket, EasyChatEvent, ParseError};
use crate::structures::{A3956Info, EasyChatStatus, TlvRecords};

verus! {

/// Everything the library knows about a connected A3956.
#[derive(Debug, Clone, PartialEq, Eq)]
pub struct A3956State {
    pub info: A3956Info,
    pub easy_chat_status: EasyChatStatus,
    pub raw_state: TlvRecords,
}

/// The status after `event`, and whether it differs from `status`.
pub open spec fn after_event(status: EasyChatStatus, event: EasyChatEvent) -> (EasyChatStatus, bool) {
    (EasyChatStatus { is_active: event.is_active }, status.is_active != event.is_active)
}

impl A3956State {
    /// The state that a state update packet describes: its device information, its
    /// records kept as they are, and no Easy Chat session.
    pub fn new(packet: A3956StateUpdatePacket) -> (state: Self)
        ensures
            info_matches(state.info, packet.records@),
            !state.easy_chat_status.is_active,
            state.raw_state@ == packet.records@,
    {
        A3956State {
            info: packet.info(),
            easy_chat_status: EasyChatStatus::default(),
            raw_state: packet.records,
        }
    }

    /// Records an Easy Chat event; tells whether the status changed.
    pub fn apply_easy_chat_event(&mut self, event: EasyChatEvent) -> (modified: bool)
        ensures
            (final(self).easy_chat_status, modified) == after_event(
                old(self).easy_chat_status,
                event,
            ),
            final(self).info == old(self).info,
            final(self).raw_state == old(self).raw_state,
    {
        let modified = self.easy_chat_status.is_active != event.is_active;
        self.easy_chat_status.is_active = event.is_active;
        modified
    }

    /// Handles the body of an Easy Chat event packet: reads the event and records it.
    /// Gives whether the status changed, or the error when the body is too short, in
    /// which case nothing changes.
    pub fn handle_easy_chat_packet(&mut self, body: &[u8]) -> (res: Result<bool, ParseError>)
        ensures
            match res {
                Ok(modified) => {
                    &&& body@.len() >= 2
                    &&& (final(self).easy_chat_status, modified) == after_event(
                        old(self).easy_chat_status,
                        EasyChatEvent { is_active: body@[1] != 0 },
                    )
                    &&& final(self).info == old(self).info
                    &&& final(self).raw_state == old(self).raw_state
                },
                Err(e) => {
                    &&& body@.len() < 2
                    &&& e == ParseError::UnexpectedEndOfInput
                    &&& *final(self) == *old(self)
                },
            },
    {
        match EasyChatEvent::take(body) {
            Ok((_, event)) => Ok(self.apply_easy_chat_event(event)),
            Err(e) => Err(e),
        }
    }
}

/// An event recorded a second time changes nothing and is reported as no change.
pub proof fn lemma_event_idempotent(status: EasyChatStatus, event: EasyChatEvent)
    ensures
        after_event(after_event(status, event).0, event) == (after_event(status, event).0, false),
{
}

/// Only the latest event counts: the status after two events is the status after the
/// second alone.
pub proof fn lemma_latest_event_wins(
    status: EasyChatStatus,
    first: EasyChatEvent,
    second: EasyChatEvent,
)
    ensures
        after_event(after_event(status, first).0, second).0 == after_event(status, second).0,
{
}

} // verus!
