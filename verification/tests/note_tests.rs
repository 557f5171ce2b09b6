use tabs::{FretNote, Hz, MidiNote, Note, SemiTone, Tunings};

#[test]
fn lib_test_hz() {
    let tuning = Tunings::EADGBE;
    let fret_note: FretNote = FretNote::new(1, 0, 0, None, tuning);

    let note: Note = fret_note.pitch();

    let hz: Hz = note.to_hz();

    println!("note {:?}, freq {:?}", fret_note, hz);
}

#[test]
fn test_from() {
    let tuning = Tunings::EADGBE;
    let n = FretNote::new(0, 3, 0, None, tuning);

    let oct: Note = Note::from_byte(12);
    let one: Note = Note::from_byte(8);
    let n: Note = n.pitch();
    println!("n {:?}", n);
    let m: Note = n.plus(&oct);
    println!("m {:?}", m);
    let s: Note = m.minus(&one);
    println!("s {:?}", s);
    let max: Note = Note::from_byte(255);
    println!("max {:?}", max);
}

#[test]
fn note_test_hz() {
    let note = Note::new(SemiTone::E, 1);
    let hz: Hz = note.to_hz();
    println!("note {:?}, freq {:?}", note, hz);
    let note = note.plus(&Note::from_byte(1));
    let hz: Hz = note.to_hz();
    println!("note {:?}, freq {:?}", note, hz);
}

#[test]
fn octave_doubling_round_trip() {
    // A0 itself, then one and two octaves up: each step doubles exactly.
    let a0 = Note::new(SemiTone::A, 0);
    let a1 = a0.transpose(12);
    let a2 = a0.transpose(24);
    assert_eq!(a0.to_hz(), Hz(27500));
    assert_eq!(a1.to_hz(), Hz(55000));
    assert_eq!(a2.to_hz(), Hz(110000));
}

#[test]
fn known_frequencies() {
    // A4 is 440 Hz on the equal-tempered grid anchored at A0 = 27.5 Hz.
    let a4 = Note::new(SemiTone::A, 4);
    assert_eq!(a4.to_hz(), Hz(440000));
    // The low guitar E sits near 82.41 Hz.
    let e2 = Note::new(SemiTone::E, 2);
    let hz = e2.to_hz();
    assert!(82406 <= hz.0 && hz.0 <= 82408, "E2 was {:?}", hz);
}

#[test]
fn transpose_round_trips() {
    let n = Note::new(SemiTone::G, 3);
    for k in [-48i16, -1, 0, 1, 7, 12, 48, 300, -300] {
        let back = n.transpose(k).transpose(-k);
        assert_eq!(back, n);
    }
    // Round trips survive the byte-encoding wrap as well.
    let high = Note::from_byte(250);
    assert_eq!(high.transpose(100).transpose(-100), high);
}

#[test]
fn transpose_wraps_on_byte_encoding() {
    let high = Note::from_byte(250);
    let wrapped = high.transpose(10);
    assert_eq!(wrapped, Note::from_byte(4));
}

#[test]
fn midi_note_conversion() {
    // MIDI 40 is E2, the low guitar string.
    let n: Note = Note::from_midi(MidiNote(40));
    assert_eq!(n, Note::new(SemiTone::E, 2));
    // MIDI 12 is C0, the bottom of the byte encoding.
    assert_eq!(Note::from_midi(MidiNote(12)), Note::new(SemiTone::C, 0));
}

#[test]
fn identify_tunings() {
    let guitar = vec![
        Note::new(SemiTone::E, 2),
        Note::new(SemiTone::A, 2),
        Note::new(SemiTone::D, 3),
        Note::new(SemiTone::G, 3),
        Note::new(SemiTone::B, 3),
        Note::new(SemiTone::E, 4),
    ];
    assert_eq!(Tunings::identify(&guitar), Some(Tunings::EADGBE));

    let bass = vec![
        Note::new(SemiTone::E, 2),
        Note::new(SemiTone::A, 2),
        Note::new(SemiTone::D, 3),
        Note::new(SemiTone::G, 3),
    ];
    assert_eq!(Tunings::identify(&bass), Some(Tunings::EADG));

    // An unknown string set is fatal to session construction: no tuning.
    let drop_d = vec![
        Note::new(SemiTone::D, 2),
        Note::new(SemiTone::A, 2),
        Note::new(SemiTone::D, 3),
        Note::new(SemiTone::G, 3),
        Note::new(SemiTone::B, 3),
        Note::new(SemiTone::E, 4),
    ];
    assert_eq!(Tunings::identify(&drop_d), None);
    assert_eq!(Tunings::identify(&vec![]), None);
}

#[test]
fn fret_note_pitch() {
    // Third fret on the lowest guitar string: E2 + 3 = G2.
    let n = FretNote::new(0, 3, 0, None, Tunings::EADGBE);
    assert_eq!(n.pitch(), Note::new(SemiTone::G, 2));
    assert!(!n.hit);
}
