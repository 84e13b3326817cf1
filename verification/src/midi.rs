//! Note events and how they are read from raw MIDI messages.
//!
//! A channel-voice message is three bytes: a status byte, whose high half
//! says what happens and whose low half names the channel, and two data
//! bytes below 128. Only note-on (status `0x9_`) and note-off (status `0x8_`)
//! are read; every other message, and every malformed one, is dropped.

use crate::table::NOTE_COUNT;
use crate::voice::MAX_VELOCITY;
use vstd::prelude::*;

verus! {

/// The length of a channel-voice message.
pub const MESSAGE_LEN: usize = 3;

/// The lowest status byte of a note-off message.
pub const NOTE_OFF_STATUS: u8 = 0x80;

/// The lowest status byte of a note-on message.
pub const NOTE_ON_STATUS: u8 = 0x90;

/// The number of channels: the status bytes of one kind of message.
pub const CHANNELS: u8 = 16;

/// The largest data byte.
pub const DATA_MAX: u8 = 127;

/// Whether a key went down or up.
#[derive(Clone, Copy, Debug, PartialEq, Eq, Structural)]
pub enum NoteKind {
    On,
    Off,
}

/// A key going down or up, with the note number and the key velocity.
#[derive(Clone, Copy, Debug, PartialEq, Eq, Structural)]
pub struct NoteEvent {
    pub kind: NoteKind,
    pub note: u8,
    pub velocity: u8,
}

impl NoteEvent {
    /// Note and velocity are at most 127.
    pub open spec fn wf(self) -> bool {
        self.note < NOTE_COUNT && self.velocity <= MAX_VELOCITY
    }
}

/// The kind of event that a status byte announces, if it announces one.
pub open spec fn status_kind(status: u8) -> Option<NoteKind> {
    if NOTE_ON_STATUS <= status < NOTE_ON_STATUS + CHANNELS {
        Some(NoteKind::On)
    } else if NOTE_OFF_STATUS <= status < NOTE_OFF_STATUS + CHANNELS {
        Some(NoteKind::Off)
    } else {
        None
    }
}

/// The event that a message holds, if it holds one.
pub open spec fn decoded(message: Seq<u8>) -> Option<NoteEvent> {
    if message.len() == MESSAGE_LEN && message[1] <= DATA_MAX && message[2] <= DATA_MAX {
        match status_kind(message[0]) {
            Some(kind) => Some(NoteEvent { kind, note: message[1], velocity: message[2] }),
            None => None,
        }
    } else {
        None
    }
}

/// Reads a note event from a raw message. Returns `None` for every message
/// that is not a well-formed note-on or note-off.
pub fn decode(message: &[u8]) -> (event: Option<NoteEvent>)
    ensures
        event == decoded(message@),
        event matches Some(e) ==> e.wf(),
{
    if message.len() != MESSAGE_LEN {
        return None;
    }
    let status = message[0];
    let note = message[1];
    let velocity = message[2];
    if note > DATA_MAX || velocity > DATA_MAX {
        return None;
    }
    if status >= NOTE_ON_STATUS && status - NOTE_ON_STATUS < CHANNELS {
        Some(NoteEvent { kind: NoteKind::On, note, velocity })
    } else if status >= NOTE_OFF_STATUS && status - NOTE_OFF_STATUS < CHANNELS {
        Some(NoteEvent { kind: NoteKind::Off, note, velocity })
    } else {
        None
    }
}

} // verus!
