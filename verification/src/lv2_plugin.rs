//! Which buffer a host port connects to, and the MIDI events of an atom
//! sequence.
//!
//! The body of an LV2 atom sequence is an 8-byte header (time unit and
//! padding) followed by events. Each event is a 64-bit time stamp in frames,
//! the size and type of its body (32 bits each), then the body, padded to a
//! multiple of 8 bytes. All numbers are little-endian.
use vstd::prelude::*;
use crate::midi::MidiMessage;
use vstd::arithmetic::div_mod::{lemma_mod_multiples_vanish, lemma_small_mod};

verus! {

/// Ports 0, 1 and 2 are the MIDI input, the audio output and the time
/// input; the control parameters follow from port 3 on.
#[derive(Clone, Copy, PartialEq, Eq, Structural, Debug)]
pub enum PortTarget {
    InPort,
    Output,
    InPortTime,
    Param(u32),
}

/// Number of ports before the first parameter.
pub const FIRST_PARAM_PORT: u32 = 3;

/// The buffer a port connects to among ports 0..2 and `nparams`
/// parameters, or `None` for a port past the last parameter.
pub fn port_target(port: u32, nparams: u32) -> (r: Option<PortTarget>)
    ensures
        port == 0 ==> r == Some(PortTarget::InPort),
        port == 1 ==> r == Some(PortTarget::Output),
        port == 2 ==> r == Some(PortTarget::InPortTime),
        port >= 3 && port - 3 < nparams ==> r == Some(PortTarget::Param((port - 3) as u32)),
        port >= 3 && port - 3 >= nparams ==> r is None,
{
    match port {
        0 => Some(PortTarget::InPort),
        1 => Some(PortTarget::Output),
        2 => Some(PortTarget::InPortTime),
        _ => {
            let iport = port - FIRST_PARAM_PORT;
            if nparams > 0 && iport <= nparams - 1 {
                Some(PortTarget::Param(iport))
            } else {
                None
            }
        },
    }
}

/// The little-endian 32-bit number at byte `i`.
pub open spec fn le_u32(b: Seq<u8>, i: int) -> int {
    b[i] + 256 * b[i + 1] + 65536 * b[i + 2] + 16777216 * b[i + 3]
}

/// A body size rounded up to a multiple of 8.
pub open spec fn padded(size: int) -> int {
    size + (8 - size % 8) % 8
}

/// Bytes of an event before its body.
pub const EVENT_HEADER: usize = 16;

/// Bytes of the sequence body before its first event.
pub const SEQUENCE_HEADER: usize = 8;

/// The MIDI events of the events starting at byte `off`, in order: the
/// frame (the low 32 bits of the time stamp) and the three bytes that
/// follow the event header, for each event whose type is `midi`. For a body
/// shorter than three bytes these are its bytes and the padding after it;
/// only a last event whose three bytes would lie past the end of the
/// sequence is left out. Reading stops at an event that does not fit.
pub open spec fn events_from(b: Seq<u8>, off: int, midi: u32) -> Seq<(u32, MidiMessage)>
    decreases b.len() - off,
{
    if off < 0 || off + 16 > b.len() || off + 16 + le_u32(b, off + 8) > b.len() {
        Seq::empty()
    } else {
        let size = le_u32(b, off + 8);
        let next = off + 16 + padded(size);
        let rest = if next <= b.len() {
            events_from(b, next, midi)
        } else {
            Seq::empty()
        };
        if le_u32(b, off + 12) == midi && off + 19 <= b.len() {
            seq![(le_u32(b, off) as u32, [b[off + 16], b[off + 17], b[off + 18]])] + rest
        } else {
            rest
        }
    }
}

/// The 64-bit little-endian time stamp, in frames, of the event at byte `off`.
pub open spec fn time_stamp(b: Seq<u8>, off: int) -> int {
    b[off] + 0x100 * b[off + 1] + 0x1_0000 * b[off + 2] + 0x100_0000 * b[off + 3]
        + 0x1_0000_0000 * b[off + 4] + 0x100_0000_0000 * b[off + 5] + 0x1_0000_0000_0000 * b[off
        + 6] + 0x100_0000_0000_0000 * b[off + 7]
}

/// A MIDI event that fits, read at byte `off`, comes first with the low 32
/// bits of its whole 64-bit time stamp as its frame (a stamp of 300 gives
/// frame 300) and the three bytes after its header as its message; an
/// event of another type is passed over.
pub proof fn lemma_event_frame(b: Seq<u8>, off: int, midi: u32)
    requires
        0 <= off,
        off + 16 + (b[off + 8] + 0x100 * b[off + 9] + 0x1_0000 * b[off + 10] + 0x100_0000 * b[off
            + 11]) <= b.len(),
        off + 19 <= b.len(),
    ensures
        (b[off + 12] + 0x100 * b[off + 13] + 0x1_0000 * b[off + 14] + 0x100_0000 * b[off + 15])
            == midi ==> {
            &&& events_from(b, off, midi).len() >= 1
            &&& events_from(b, off, midi)[0].0 == time_stamp(b, off) % 0x1_0000_0000
            &&& events_from(b, off, midi)[0].1 == [b[off + 16], b[off + 17], b[off + 18]]
        },
        (b[off + 12] + 0x100 * b[off + 13] + 0x1_0000 * b[off + 14] + 0x100_0000 * b[off + 15])
            != midi ==> events_from(b, off, midi).len() == 0 || events_from(b, off, midi)
            == events_from(b, off + 16 + padded(le_u32(b, off + 8)), midi),
{
    let m: int = 0x1_0000_0000;
    let lo = le_u32(b, off);
    let hi = le_u32(b, off + 4);
    assert(time_stamp(b, off) == m * hi + lo);
    assert(0 <= lo < m);
    lemma_mod_multiples_vanish(hi, lo, m);
    lemma_small_mod(lo as nat, m as nat);
    assert(lo as u32 == lo);
}

/// The little-endian 32-bit number at byte `i`.
fn read_u32(b: &[u8], i: usize) -> (r: u32)
    requires
        i + 4 <= b@.len(),
    ensures
        r == le_u32(b@, i as int),
{
    b[i] as u32 + (b[i + 1] as u32) * 256 + (b[i + 2] as u32) * 65536 + (b[i + 3] as u32)
        * 16777216
}

/// The MIDI events of an atom sequence body, in order, with their frames.
pub fn midi_events(body: &[u8], midi: u32) -> (r: Vec<(u32, MidiMessage)>)
    ensures
        r@ == events_from(body@, SEQUENCE_HEADER as int, midi),
{
    let len = body.len();
    let mut out: Vec<(u32, MidiMessage)> = Vec::new();
    let mut off: usize = SEQUENCE_HEADER;
    if len < off {
        return out;
    }
    while len - off >= EVENT_HEADER
        invariant
            len == body@.len(),
            off <= len,
            out@ + events_from(body@, off as int, midi) == events_from(
                body@,
                SEQUENCE_HEADER as int,
                midi,
            ),
        decreases len - off,
    {
        let rem = len - off - EVENT_HEADER;
        let size = read_u32(body, off + 8) as usize;
        if size > rem {
            off = len;
            continue;
        }
        let ty = read_u32(body, off + 12);
        let ghost before = out@;
        let ghost next = off + 16 + padded(size as int);
        let ghost rest = if next <= len {
            events_from(body@, next, midi)
        } else {
            Seq::empty()
        };
        if ty == midi && rem >= 3 {
            let time = read_u32(body, off);
            out.push((time, [body[off + 16], body[off + 17], body[off + 18]]));
            proof {
                assert(before + events_from(body@, off as int, midi) =~= out@ + rest);
            }
        }
        let pad = (8 - size % 8) % 8;
        assert(size + pad == padded(size as int));
        if pad > rem - size {
            off = len;
        } else {
            off = off + EVENT_HEADER + size + pad;
        }
    }
    out
}

} // verus!
