//! Reading the three bytes of a MIDI channel message.
use vstd::prelude::*;

verus! {

/// A MIDI channel message: status byte, then two data bytes.
pub type MidiMessage = [u8; 3];

/// Kinds of control change the synthesizer knows.
#[derive(Clone, Copy, PartialEq, Eq, Structural, Debug)]
pub enum CcKind {
    ChannelVolume,
    Unknown,
}

/// The high nibble of the status byte: the message kind.
pub open spec fn status_kind(m: MidiMessage) -> u8 {
    (m[0] / 16) as u8
}

/// A note-on message (kind 9, any channel).
pub open spec fn is_note_on(m: MidiMessage) -> bool {
    status_kind(m) == 9
}

/// A note-off message (kind 8, any channel).
pub open spec fn is_note_off(m: MidiMessage) -> bool {
    status_kind(m) == 8
}

/// The note number a message speaks of.
pub open spec fn number_of(m: MidiMessage) -> u8 {
    m[1]
}

/// What the synthesizer reads of a MIDI message.
pub trait MidiTranslate {
    fn noteon(&self) -> (r: bool);

    fn noteoff(&self) -> (r: bool);

    fn note_number(&self) -> (r: u8);
}

impl MidiTranslate for MidiMessage {
    /// Whether this is a note-on message.
    fn noteon(&self) -> (r: bool)
        ensures
            r == is_note_on(*self),
            r == (0x90 <= self[0] && self[0] < 0xa0),
    {
        let s = self[0];
        assert((s & 0xf0u8 == 0x90u8) == (s / 16 == 9)) by (bit_vector);
        s & 0xf0 == 0x90
    }

    /// Whether this is a note-off message.
    fn noteoff(&self) -> (r: bool)
        ensures
            r == is_note_off(*self),
            r == (0x80 <= self[0] && self[0] < 0x90),
    {
        let s = self[0];
        assert((s & 0xf0u8 == 0x80u8) == (s / 16 == 8)) by (bit_vector);
        s & 0xf0 == 0x80
    }

    /// The note number (second byte).
    fn note_number(&self) -> (r: u8)
        ensures
            r == number_of(*self),
    {
        self[1]
    }
}

/// A message is a note-on exactly when its status byte is one of 0x90 to
/// 0x9f (note-on on one of the 16 channels), and a note-off exactly when it
/// is one of 0x80 to 0x8f; every other status byte (control change,
/// pressure, program change, system messages ...) is neither.
pub proof fn lemma_note_status_bytes(m: MidiMessage)
    ensures
        is_note_on(m) <==> 0x90 <= m[0] < 0xa0,
        is_note_off(m) <==> 0x80 <= m[0] < 0x90,
        is_note_on(m) <==> (m[0] & 0xf0u8) == 0x90u8,
        is_note_off(m) <==> (m[0] & 0xf0u8) == 0x80u8,
{
    let s = m[0];
    assert((s & 0xf0u8 == 0x90u8) == (0x90u8 <= s && s < 0xa0u8)) by (bit_vector);
    assert((s & 0xf0u8 == 0x80u8) == (0x80u8 <= s && s < 0x90u8)) by (bit_vector);
}

/// No message is both a note-on and a note-off.
pub proof fn lemma_note_on_off_exclusive(m: MidiMessage)
    ensures
        !(is_note_on(m) && is_note_off(m)),
{
}

} // verus!
