use tuner::note::{Note, NoteName};

#[test]
fn parses_note_labels() {
    assert_eq!(Note::from_label("E2").unwrap().midi(), 40);
    assert_eq!(Note::from_label("a#3").unwrap().label(), "A#3");
    assert!(Note::from_label("Hb2").is_none());
}

#[test]
fn maps_midi_to_note_name() {
    assert_eq!(Note::from_midi(40).label(), "E2");
    assert_eq!(Note::from_midi(45).label(), "A2");
    assert_eq!(Note::from_midi(64).label(), "E4");
}

#[test]
fn labels_a4_from_midi_69() {
    let note = Note::from_midi(69);
    assert_eq!(note.midi(), 69);
    assert_eq!(note.note_name(), NoteName::A);
    assert_eq!(note.octave(), 4);
    assert_eq!(note.label(), "A4");
}

#[test]
fn names_every_pitch_class() {
    let expected = [
        (NoteName::C, "C"),
        (NoteName::CSharp, "C#"),
        (NoteName::D, "D"),
        (NoteName::DSharp, "D#"),
        (NoteName::E, "E"),
        (NoteName::F, "F"),
        (NoteName::FSharp, "F#"),
        (NoteName::G, "G"),
        (NoteName::GSharp, "G#"),
        (NoteName::A, "A"),
        (NoteName::ASharp, "A#"),
        (NoteName::B, "B"),
    ];
    for (offset, (name, text)) in expected.iter().enumerate() {
        let note = Note::from_midi(60 + offset as i32);
        assert_eq!(note.note_name(), *name);
        assert_eq!(name.as_str(), *text);
    }
}

#[test]
fn negative_notes_use_euclidean_pitch_class_and_truncated_octave() {
    let note = Note::from_midi(-1);
    assert_eq!(note.note_name(), NoteName::B);
    assert_eq!(note.octave(), -1);
    assert_eq!(note.label(), "B-1");
    // The label of a negative note that is not a C reads back a different note.
    assert_eq!(Note::from_label("B-1").unwrap().midi(), 11);
    assert_eq!(Note::from_midi(-12).label(), "C-2");
    assert_eq!(Note::from_label("C-2").unwrap().midi(), -12);
    assert_eq!(Note::from_midi(0).label(), "C-1");
}

#[test]
fn label_round_trips_for_non_negative_notes() {
    for midi in [0, 1, 11, 12, 40, 69, 127, 1000, 2_147_483_647] {
        let note = Note::from_midi(midi);
        assert_eq!(Note::from_label(&note.label()), Some(note));
    }
}

#[test]
fn label_reading_trims_and_ignores_case() {
    assert_eq!(Note::from_label("  c4\t").unwrap().midi(), 60);
    assert_eq!(Note::from_label("\u{00a0}g#2\u{3000}").unwrap().midi(), 44);
    assert_eq!(Note::from_label("C+4"), None);
    assert_eq!(Note::from_label("C04").unwrap().midi(), 60);
}

#[test]
fn label_reading_rejects_malformed_labels() {
    assert_eq!(Note::from_label(""), None);
    assert_eq!(Note::from_label("E"), None);
    assert_eq!(Note::from_label("4"), None);
    assert_eq!(Note::from_label("E#4"), None);
    assert_eq!(Note::from_label("Eb2"), None);
    assert_eq!(Note::from_label("C4x"), None);
    assert_eq!(Note::from_label("C-"), None);
    assert_eq!(Note::from_label("C9999999999"), None);
    assert_eq!(Note::from_label("é4"), None);
}

#[test]
fn label_range_check_before_reading() {
    assert!(Note::label_in_range("E2"));
    assert!(Note::label_in_range("not a note"));
    assert!(Note::label_in_range("C9999999999"));
    assert!(Note::label_in_range("B178956968"));
    assert!(!Note::label_in_range("B178956969"));
    assert!(!Note::label_in_range("C178956970"));
    assert!(!Note::label_in_range("C2147483647"));
    assert!(!Note::label_in_range("C-178956972"));
    assert!(Note::label_in_range("C-178956971"));
    assert_eq!(Note::from_label("C-178956971").unwrap().midi(), -2147483640);
}
