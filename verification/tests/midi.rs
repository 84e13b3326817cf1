use polysynth::midi::{decode, NoteEvent, NoteKind};

#[test]
fn a_note_on_message_is_read() {
    assert_eq!(
        decode(&[0x90, 69, 127]),
        Some(NoteEvent { kind: NoteKind::On, note: 69, velocity: 127 })
    );
    assert_eq!(
        decode(&[144, 0, 0]),
        Some(NoteEvent { kind: NoteKind::On, note: 0, velocity: 0 })
    );
}

#[test]
fn a_note_off_message_is_read() {
    assert_eq!(
        decode(&[0x80, 60, 64]),
        Some(NoteEvent { kind: NoteKind::Off, note: 60, velocity: 64 })
    );
    assert_eq!(
        decode(&[128, 127, 0]),
        Some(NoteEvent { kind: NoteKind::Off, note: 127, velocity: 0 })
    );
}

#[test]
fn every_channel_is_read() {
    for channel in 0..16u8 {
        assert_eq!(
            decode(&[0x90 + channel, 10, 20]),
            Some(NoteEvent { kind: NoteKind::On, note: 10, velocity: 20 })
        );
        assert_eq!(
            decode(&[0x80 + channel, 10, 20]),
            Some(NoteEvent { kind: NoteKind::Off, note: 10, velocity: 20 })
        );
    }
}

#[test]
fn other_status_bytes_are_dropped() {
    for status in 0..=255u8 {
        let event = decode(&[status, 10, 20]);
        if (0x80..0xa0).contains(&status) {
            assert!(event.is_some());
        } else {
            assert_eq!(event, None, "status {}", status);
        }
    }
}

#[test]
fn messages_of_another_length_are_dropped() {
    assert_eq!(decode(&[]), None);
    assert_eq!(decode(&[0x90]), None);
    assert_eq!(decode(&[0x90, 69]), None);
    assert_eq!(decode(&[0x90, 69, 127, 0]), None);
}

#[test]
fn data_bytes_above_127_are_dropped() {
    assert_eq!(decode(&[0x90, 128, 10]), None);
    assert_eq!(decode(&[0x90, 10, 128]), None);
    assert_eq!(decode(&[0x80, 255, 255]), None);
    assert_eq!(decode(&[0x80, 200, 0]), None);
}
