use tabs::drums::{Drum, DrumLanes, DrumMapping, DrumMappingWizard, DrumNote, DrumNotes};

#[test]
fn midi_drum_map() {
    // Standard MIDI percussion keys land on their drums.
    assert_eq!(Drum::from_midi(35), Some(Drum::Kick));
    assert_eq!(Drum::from_midi(36), Some(Drum::Kick));
    assert_eq!(Drum::from_midi(38), Some(Drum::Snare));
    assert_eq!(Drum::from_midi(93), Some(Drum::Snare));
    assert_eq!(Drum::from_midi(41), Some(Drum::FloorTom));
    assert_eq!(Drum::from_midi(42), Some(Drum::HihatClosed));
    assert_eq!(Drum::from_midi(46), Some(Drum::HihatOpen));
    assert_eq!(Drum::from_midi(45), Some(Drum::Tom2));
    assert_eq!(Drum::from_midi(48), Some(Drum::Tom1));
    assert_eq!(Drum::from_midi(49), Some(Drum::Crash));
    assert_eq!(Drum::from_midi(57), Some(Drum::Crash));
    assert_eq!(Drum::from_midi(51), Some(Drum::Ride));
    assert_eq!(Drum::from_midi(59), Some(Drum::Ride));
    // Unmapped percussion keys have no drum.
    assert_eq!(Drum::from_midi(30), None);
    assert_eq!(Drum::from_midi(60), None);
    assert_eq!(Drum::from_midi(-1), None);
}

#[test]
fn drum_note_starts_unhit() {
    let n = DrumNote::new(250_000, Drum::Snare);
    assert_eq!(n.start, 250_000);
    assert_eq!(n.drum, Drum::Snare);
    assert!(!n.hit);
}

#[test]
fn schedule_accumulates_reciprocal_durations() {
    // Each event advances time by the reciprocal of its duration divisor:
    // a divisor of four contributes a quarter beat.
    let events = vec![(38i16, 4u32), (42, 8), (36, 4)];
    let chart = DrumNotes::from_events(&events, 120);
    assert_eq!(chart.tempo, 120);
    assert_eq!(chart.notes.len(), 3);
    assert_eq!(chart.notes[0], DrumNote::new(0, Drum::Snare));
    assert_eq!(chart.notes[1], DrumNote::new(250_000, Drum::HihatClosed));
    assert_eq!(chart.notes[2], DrumNote::new(375_000, Drum::Kick));
}

#[test]
fn wizard_learns_first_key_per_drum() {
    let mut wiz = DrumMappingWizard::new(DrumMapping::new());
    wiz.is_opened = true;
    assert_eq!(wiz.state, Drum::Snare);
    for _ in 0..10 {
        wiz.on_key(50);
    }
    // Ten hits bind the key and move to the next drum.
    assert_eq!(wiz.mapping.lookup(50), Some(Drum::Snare));
    assert_eq!(wiz.state, Drum::HihatClosed);
    assert_eq!(wiz.hit_counter, 0);

    // A key someone already owns is not rebound.
    for _ in 0..10 {
        wiz.on_key(50);
    }
    assert_eq!(wiz.mapping.lookup(50), Some(Drum::Snare));
    assert_eq!(wiz.state, Drum::HihatOpen);
}

#[test]
fn wizard_closes_after_kick() {
    let mut wiz = DrumMappingWizard::new(DrumMapping::new());
    wiz.is_opened = true;
    // Nine drums, ten hits each, a distinct key per drum.
    for d in 0..9u8 {
        for _ in 0..10 {
            wiz.on_key(100 + d);
        }
    }
    assert!(!wiz.is_opened);
    assert_eq!(wiz.state, Drum::Snare);
    assert_eq!(wiz.mapping.lookup(100), Some(Drum::Snare));
    assert_eq!(wiz.mapping.lookup(101), Some(Drum::HihatClosed));
    assert_eq!(wiz.mapping.lookup(102), Some(Drum::HihatOpen));
    assert_eq!(wiz.mapping.lookup(103), Some(Drum::Crash));
    assert_eq!(wiz.mapping.lookup(104), Some(Drum::Tom1));
    assert_eq!(wiz.mapping.lookup(105), Some(Drum::Tom2));
    assert_eq!(wiz.mapping.lookup(106), Some(Drum::Ride));
    assert_eq!(wiz.mapping.lookup(107), Some(Drum::FloorTom));
    assert_eq!(wiz.mapping.lookup(108), Some(Drum::Kick));
}

#[test]
fn lanes_flash_and_fade() {
    let mut mapping = DrumMapping::new();
    mapping.0.insert(38, Drum::Snare);
    mapping.0.insert(36, Drum::Kick);

    let mut lanes = DrumLanes::new();
    // Zero velocity is a note-off: nothing lights.
    lanes.on_packet(&mapping, 38, 0);
    assert!(lanes.drums.iter().all(|l| l.1 == 0));

    // A snare hit lights the snare lane for ten frames.
    lanes.on_packet(&mapping, 38, 90);
    assert_eq!(lanes.drums[0], (Drum::Snare, 10));
    assert!(lanes.drums[1..].iter().all(|l| l.1 == 0));
    assert_eq!(lanes.kick, 0);

    // A kick lights the kick bar but no lane.
    lanes.on_packet(&mapping, 36, 90);
    assert_eq!(lanes.kick, 10);

    // An unmapped key changes nothing.
    lanes.on_packet(&mapping, 77, 90);
    assert_eq!(lanes.kick, 10);

    // Each frame fades every lit counter by one.
    lanes.tick();
    assert_eq!(lanes.drums[0], (Drum::Snare, 9));
    assert_eq!(lanes.kick, 9);
    for _ in 0..9 {
        lanes.tick();
    }
    assert_eq!(lanes.drums[0], (Drum::Snare, 0));
    assert_eq!(lanes.kick, 0);
    lanes.tick();
    assert_eq!(lanes.kick, 0);
}
