//! Decoding of MIDI packets.
use vstd::prelude::*;

verus! {

/// One decoded MIDI message.
#[derive(Debug, Copy, Clone, PartialEq, Eq)]
#[allow(inconsistent_fields)]
pub enum MidiMessage {
    NoteOff { channel: u8, key: u8, velocity: u8 },
    NoteOn { channel: u8, key: u8, velocity: u8 },
    Control { channel: u8, controller: u8, value: u8 },
    /// The bend of the pitch wheel, from -8192 to 8191; 0 is the centre.
    PitchBend { channel: u8, value: i16 },
    /// A packet of another kind, as it came.
    Packet([u8; 3]),
}

/// Both data bytes have their top bit clear. A data byte with the top bit
/// set belongs to a stream in running status, which is not decoded.
pub open spec fn plain_data(packet: [u8; 3]) -> bool {
    packet[1] < 0x80 && packet[2] < 0x80
}

/// What a packet of a status byte and two data bytes means.
///
/// The high four bits of the status byte are the kind of the message, the
/// low four its channel. A note-on with the velocity 0 is a note-off. The
/// pitch bend is a number of 14 bits, the first data byte its low seven,
/// taken from its centre 8192.
pub open spec fn decoded(packet: [u8; 3]) -> MidiMessage {
    let channel = (packet[0] % 16) as u8;
    let kind = packet[0] / 16;
    if kind == 0x8 {
        MidiMessage::NoteOff { channel, key: packet[1], velocity: packet[2] }
    } else if kind == 0x9 {
        if packet[2] == 0 {
            MidiMessage::NoteOff { channel, key: packet[1], velocity: packet[2] }
        } else {
            MidiMessage::NoteOn { channel, key: packet[1], velocity: packet[2] }
        }
    } else if kind == 0xB {
        MidiMessage::Control { channel, controller: packet[1], value: packet[2] }
    } else if kind == 0xE {
        MidiMessage::PitchBend { channel, value: (packet[1] + 128 * packet[2] - 8192) as i16 }
    } else {
        MidiMessage::Packet(packet)
    }
}

/// Whether both data bytes of the packet have their top bit clear.
pub fn is_plain_data(packet: [u8; 3]) -> (ok: bool)
    ensures
        ok == plain_data(packet),
{
    packet[1] < 0x80 && packet[2] < 0x80
}

/// Decodes one packet.
pub fn parse_midi_packet(packet: [u8; 3]) -> (message: MidiMessage)
    requires
        plain_data(packet),
    ensures
        message == decoded(packet),
{
    let status = packet[0];
    let channel = status % 16;
    let kind = status / 16;

    if kind == 0x8 {
        MidiMessage::NoteOff { channel, key: packet[1], velocity: packet[2] }
    } else if kind == 0x9 {
        let key = packet[1];
        let velocity = packet[2];

        if velocity == 0 {
            MidiMessage::NoteOff { channel, key, velocity }
        } else {
            MidiMessage::NoteOn { channel, key, velocity }
        }
    } else if kind == 0xB {
        MidiMessage::Control { channel, controller: packet[1], value: packet[2] }
    } else if kind == 0xE {
        let low: i16 = packet[1] as i16;
        let high: i16 = packet[2] as i16;
        let value: i16 = low + 128 * high - 8192;

        MidiMessage::PitchBend { channel, value }
    } else {
        MidiMessage::Packet(packet)
    }
}

} // verus!
