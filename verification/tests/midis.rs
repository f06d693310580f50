use voi_synth::midi::{is_plain_data, parse_midi_packet, MidiMessage};

#[test]
fn note_on_and_off() {
    assert_eq!(
        parse_midi_packet([0x93, 60, 100]),
        MidiMessage::NoteOn { channel: 3, key: 60, velocity: 100 }
    );
    assert_eq!(
        parse_midi_packet([0x8f, 61, 7]),
        MidiMessage::NoteOff { channel: 15, key: 61, velocity: 7 }
    );
    assert_eq!(
        parse_midi_packet([0x80, 0, 0]),
        MidiMessage::NoteOff { channel: 0, key: 0, velocity: 0 }
    );
}

#[test]
fn note_on_with_velocity_zero_is_a_note_off() {
    assert_eq!(
        parse_midi_packet([0x92, 60, 0]),
        MidiMessage::NoteOff { channel: 2, key: 60, velocity: 0 }
    );
}

#[test]
fn control_change() {
    assert_eq!(
        parse_midi_packet([0xb1, 7, 127]),
        MidiMessage::Control { channel: 1, controller: 7, value: 127 }
    );
}

#[test]
fn pitch_bend_is_taken_from_its_centre() {
    assert_eq!(parse_midi_packet([0xe0, 0, 64]), MidiMessage::PitchBend { channel: 0, value: 0 });
    assert_eq!(
        parse_midi_packet([0xe5, 0, 0]),
        MidiMessage::PitchBend { channel: 5, value: -8192 }
    );
    assert_eq!(
        parse_midi_packet([0xef, 127, 127]),
        MidiMessage::PitchBend { channel: 15, value: 8191 }
    );
    assert_eq!(
        parse_midi_packet([0xe0, 1, 64]),
        MidiMessage::PitchBend { channel: 0, value: 1 }
    );
    for low in 0u8..128 {
        for high in 0u8..128 {
            let u_value = (low & 0x7f) as i16 | ((high as i16 & 0x7f) << 7);
            assert_eq!(
                parse_midi_packet([0xe3, low, high]),
                MidiMessage::PitchBend { channel: 3, value: u_value - (1 << 13) }
            );
        }
    }
}

#[test]
fn other_packets_come_as_they_are() {
    for status in [0x00u8, 0x7f, 0xa0, 0xaf, 0xc3, 0xd0, 0xf0, 0xff] {
        assert_eq!(parse_midi_packet([status, 1, 2]), MidiMessage::Packet([status, 1, 2]));
    }
}

#[test]
fn every_status_goes_by_its_high_four_bits() {
    for status in 0u8..=255 {
        let message = parse_midi_packet([status, 5, 6]);
        let channel = status & 0xf;
        let expected = match status >> 4 {
            0x8 => MidiMessage::NoteOff { channel, key: 5, velocity: 6 },
            0x9 => MidiMessage::NoteOn { channel, key: 5, velocity: 6 },
            0xb => MidiMessage::Control { channel, controller: 5, value: 6 },
            0xe => MidiMessage::PitchBend { channel, value: 5 + 128 * 6 - 8192 },
            _ => MidiMessage::Packet([status, 5, 6]),
        };
        assert_eq!(message, expected);
    }
}

#[test]
fn data_bytes_with_the_top_bit_set_are_not_plain() {
    assert!(is_plain_data([0x90, 0x7f, 0x7f]));
    assert!(is_plain_data([0xff, 0, 0]));
    assert!(!is_plain_data([0x90, 0x80, 0]));
    assert!(!is_plain_data([0x90, 0, 0x80]));
    assert!(!is_plain_data([0x90, 0xff, 0xff]));
}
