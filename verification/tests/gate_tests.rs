use tabs::channel::PlaybackChannel;
use tabs::gate::{GateMode, TransportGate};
use tabs::ring::SampleRing;
use tabs::{FretNote, FretNotes, Tunings};

/// One detection window of a pure tone at the note's probed harmonic,
/// captured through the sample ring as the frame loop would.
fn tone_window_for(note: &FretNote, fs: u32, amp: f32) -> Vec<i16> {
    let f_mhz = note.pitch().to_hz().0 * 4;
    let f = f_mhz as f32 / 1000.0;
    let mut ring = SampleRing::new(fs as usize);
    for k in 0..fs {
        let theta = 2.0 * std::f32::consts::PI * f * (k as f32) / (fs as f32);
        ring.push((theta.sin() * amp) as i16);
    }
    let mut w: Vec<i16> = Vec::new();
    ring.drain_into(&mut w);
    w
}

fn silence(fs: u32) -> Vec<i16> {
    vec![0i16; fs as usize]
}

fn three_note_chart() -> FretNotes {
    let tuning = Tunings::EADGBE;
    FretNotes(vec![
        FretNote::new(1, 0, 1_000_000, None, tuning), // A2 at beat one
        FretNote::new(2, 0, 2_000_000, None, tuning), // D3 at beat two
        FretNote::new(3, 0, 3_000_000, None, tuning), // G3 at beat three
    ])
}

#[test]
fn strict_session_reaches_full_accuracy() {
    // Strict mode, 60 bpm: each note pauses the transport, the matching tone
    // releases it, and the session finishes with every note hit.
    let fs = 4096u32;
    let mut gate = TransportGate::new(GateMode::Strict, 60, 1000, fs, three_note_chart());
    let mut chan = PlaybackChannel::new();
    let quiet = silence(fs);
    let dt = 100_000u64;
    let mut frames = 0;
    while !gate.finished && frames < 200 {
        if gate.paused {
            let idx = gate.awaiting[0];
            let w = tone_window_for(&gate.notes[idx], fs, 16384.0);
            gate.step(dt, &w, &mut chan);
        } else {
            gate.step(dt, &quiet, &mut chan);
        }
        frames += 1;
    }
    assert!(gate.finished, "session did not finish in {} frames", frames);
    assert!(gate.notes.iter().all(|n| n.hit));
    assert_eq!(gate.accuracy_percent(), 100);

    // One pause and one resume went out per note, in order.
    let mut cmds = Vec::new();
    while let Some(c) = chan.recv() {
        cmds.push(c);
    }
    assert_eq!(cmds.len(), 6);
    for (i, c) in cmds.iter().enumerate() {
        assert_eq!(c.pause, i % 2 == 0);
        assert_eq!(c.speed_mille, 1000);
    }
}

#[test]
fn strict_session_stalls_on_silence() {
    // With no timeout on the paused state, silence leaves the session paused
    // at the first note forever.
    let fs = 4096u32;
    let mut gate = TransportGate::new(GateMode::Strict, 60, 1000, fs, three_note_chart());
    let mut chan = PlaybackChannel::new();
    let quiet = silence(fs);
    for _ in 0..100 {
        gate.step(100_000, &quiet, &mut chan);
    }
    assert!(gate.paused);
    assert!(!gate.finished);
    assert!(gate.notes.iter().all(|n| !n.hit));
    assert_eq!(gate.awaiting, vec![0usize]);
    assert_eq!(gate.accuracy_percent(), 0);
}

/// Run one lenient session with a note at beat two (60 bpm), injecting the
/// correct tone only in the frame landing at `tone_at_us`; returns whether
/// the note registered as hit.
fn lenient_hit_at(tone_at_us: u64) -> bool {
    let fs = 4096u32;
    let tuning = Tunings::EADGBE;
    let notes = FretNotes(vec![FretNote::new(1, 0, 2_000_000, None, tuning)]);
    let mut gate = TransportGate::new(GateMode::Lenient, 60, 1000, fs, notes);
    let mut chan = PlaybackChannel::new();
    let quiet = silence(fs);
    let dt = 100_000u64;
    for _ in 0..40 {
        if gate.transport_us + dt == tone_at_us {
            let w = tone_window_for(&gate.notes[0], fs, 16384.0);
            gate.step(dt, &w, &mut chan);
        } else {
            gate.step(dt, &quiet, &mut chan);
        }
    }
    gate.notes[0].hit
}

#[test]
fn lenient_window_admits_near_hits() {
    // The hit window is 300 ms: a tone 100 ms off the nominal time still
    // registers.
    assert!(lenient_hit_at(1_900_000));
    assert!(lenient_hit_at(2_100_000));
}

#[test]
fn lenient_window_rejects_far_hits() {
    // A tone 400 ms early or late falls outside the window.
    assert!(!lenient_hit_at(1_600_000));
    assert!(!lenient_hit_at(2_400_000));
}

#[test]
fn lenient_session_finishes_without_pausing() {
    let fs = 4096u32;
    let tuning = Tunings::EADGBE;
    let notes = FretNotes(vec![FretNote::new(0, 3, 1_000_000, None, tuning)]);
    let mut gate = TransportGate::new(GateMode::Lenient, 60, 1000, fs, notes);
    let mut chan = PlaybackChannel::new();
    let quiet = silence(fs);
    for _ in 0..30 {
        assert!(!gate.paused);
        gate.step(100_000, &quiet, &mut chan);
    }
    assert!(gate.finished);
    assert_eq!(gate.accuracy_percent(), 0);
    assert_eq!(chan.len(), 0);
}

#[test]
fn lenient_partial_accuracy() {
    // Hit one of three notes: accuracy floors to 33 percent.
    let fs = 4096u32;
    let mut gate = TransportGate::new(GateMode::Lenient, 60, 1000, fs, three_note_chart());
    let mut chan = PlaybackChannel::new();
    let quiet = silence(fs);
    let dt = 100_000u64;
    for _ in 0..50 {
        if gate.transport_us + dt == 2_000_000 {
            let w = tone_window_for(&gate.notes[1], fs, 16384.0);
            gate.step(dt, &w, &mut chan);
        } else {
            gate.step(dt, &quiet, &mut chan);
        }
    }
    assert!(gate.finished);
    assert!(!gate.notes[0].hit);
    assert!(gate.notes[1].hit);
    assert!(!gate.notes[2].hit);
    assert_eq!(gate.accuracy_percent(), 33);
}

#[test]
fn probe_too_low_for_window_counts_as_miss() {
    // A target whose kernel cannot fit the window is treated as unheard, the
    // defensive clamp for the overrun precondition.
    let fs = 4096u32;
    let w = silence(fs);
    assert!(!tabs::gate::freq_detect(fs, tabs::Hz(1), &w));
    // Too low to fit half the window: 40 periods of 50 Hz need more than
    // 2048 samples at this rate.
    assert!(!tabs::gate::freq_detect(fs, tabs::Hz(50_000), &w));
    // Beyond the sample rate entirely.
    assert!(!tabs::gate::freq_detect(fs, tabs::Hz(5_000_000_000), &w));
}

#[test]
fn stretch_factor_slows_transport() {
    let fs = 4096u32;
    let notes = FretNotes(vec![]);
    let mut gate = TransportGate::new(GateMode::Strict, 120, 500, fs, notes);
    let mut chan = PlaybackChannel::new();
    let quiet = silence(fs);
    gate.step(100_000, &quiet, &mut chan);
    // Half speed: 100 ms of wall time advance the transport by 50 ms.
    assert_eq!(gate.transport_us, 50_000);
}
