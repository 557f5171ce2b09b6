use vstd::prelude::*;

verus! {

use crate::channel::{PlaybackChannel, PlaybackCmd, PLAYBACK_CHANNEL_CAPACITY};
use crate::dsp::{
    detect, detected_s, is_hit, kernel_taps_s, kernel_window_s, lemma_mag_threshold, mag_sq_s,
    MatchedFilterKernel, DETECTION_THRESHOLD, MAX_WINDOW,
};
use crate::note::{hz_millis, Hz};
use crate::{lemma_open_note_bounds, FretNote, FretNotes};
use vstd::arithmetic::div_mod::{lemma_div_by_multiple, lemma_div_is_ordered};
use vstd::arithmetic::mul::{lemma_mul_inequality, lemma_mul_upper_bound};

/// Gating policy: strict halts the song until each note is confirmed,
/// lenient only checks for a hit inside a fixed time window.
#[derive(Debug, Clone, Copy, PartialEq, Eq, Structural)]
pub enum GateMode {
    Strict,
    Lenient,
}

/// Fixed harmonic multiplier probed instead of the fundamental: plucked
/// strings often carry more energy there.
pub const HARMONIC: u64 = 4;

/// Carrier periods per detection kernel.
pub const KERNEL_PERIODS: u8 = 40;

/// Width of the lenient hit window in microseconds, centred on each note.
pub const HIT_WINDOW_US: u64 = 300_000;

/// Half of the lenient hit window.
pub const HALF_HIT_WINDOW_US: u64 = 150_000;

/// Ceiling on the transport position, far beyond any song.
pub const MAX_TRANSPORT_US: u64 = 0x10000000000000;

/// Ceiling on the tempo.
pub const MAX_BPM: u32 = 10000;

/// Ceiling on the sample rate (and so on the window length).
pub const MAX_SAMPLE_RATE: u32 = 0x1000000;

/// Ceiling on the chart length.
pub const MAX_NOTES: usize = 0x1000000;

/// Elapsed micro-beats after `t_us` microseconds of musical time at `bpm`
/// beats per minute.
pub open spec fn beat_of(t_us: int, bpm: int) -> int {
    t_us * bpm / 60
}

/// `a - b`, stopping at zero.
pub open spec fn sat_sub(a: int, b: int) -> int {
    if a >= b {
        a - b
    } else {
        0
    }
}

/// The transport after one frame of `dt` microseconds at the given stretch
/// factor in thousandths.
pub open spec fn advance(t: int, dt: int, stretch: int) -> int {
    t + dt * stretch / 1000
}

/// The frequency probed for a note: the fixed harmonic of its pitch.
pub open spec fn probe_freq_mhz(n: FretNote) -> int {
    (HARMONIC as int) * hz_millis(n.pitch_linear())
}

/// Whether the detector confirms a tone of `f_mhz` in the window: the
/// matched filter for `f_mhz` must be buildable and fit the window ahead of
/// the midpoint anchor, and its correlation must clear the threshold. A
/// kernel that cannot fit counts as no hit: the window-overrun clamp.
pub open spec fn freq_detected(fs: int, f_mhz: int, window: Seq<i16>) -> bool {
    let ws = kernel_window_s(fs, f_mhz, KERNEL_PERIODS as int);
    &&& 1 <= f_mhz
    &&& f_mhz < fs * 1000
    &&& (KERNEL_PERIODS as int) * fs * 1000 / f_mhz <= MAX_WINDOW
    &&& fs / 2 + (ws + 1) < fs
    &&& detected_s(window, kernel_taps_s(fs, f_mhz, KERNEL_PERIODS as int), fs / 2)
}

/// Whether the detector confirms the given note against the window.
pub open spec fn note_detected(fs: int, n: FretNote, window: Seq<i16>) -> bool {
    freq_detected(fs, probe_freq_mhz(n), window)
}

/// Elapsed micro-beats at `t_us` microseconds of musical time.
fn beat_u64(t_us: u64, bpm: u32) -> (r: u64)
    requires
        t_us <= MAX_TRANSPORT_US + HALF_HIT_WINDOW_US,
        1 <= bpm <= MAX_BPM,
    ensures
        r == beat_of(t_us as int, bpm as int),
{
    proof {
        lemma_mul_upper_bound(t_us as int, 0x10000000000000int + 150000, bpm as int, 10000int);
        lemma_div_is_ordered(
            (t_us as int) * (bpm as int),
            (0x10000000000000int + 150000) * 10000,
            60,
        );
    }
    (((t_us as u128) * (bpm as u128)) / 60) as u64
}

/// Probe the window for a tone of `f_target`; the filter is built fresh for
/// the target, correlated at the window midpoint, and thresholded.
pub fn freq_detect(fs: u32, f_target: Hz, window: &Vec<i16>) -> (r: bool)
    requires
        2 <= fs <= MAX_SAMPLE_RATE,
        window@.len() == fs,
    ensures
        r == freq_detected(fs as int, f_target.0 as int, window@),
{
    let f = f_target.0;
    if f == 0 {
        return false;
    }
    if !(f < (fs as u64) * 1000) {
        return false;
    }
    let num: u64 = 40000 * (fs as u64);
    proof {
        assert(num == (KERNEL_PERIODS as int) * (fs as int) * 1000);
    }
    if !(num / f <= MAX_WINDOW) {
        return false;
    }
    let kernel = MatchedFilterKernel::build(fs, f_target, KERNEL_PERIODS);
    let anchor: usize = (fs / 2) as usize;
    let len = kernel.taps.len();
    if !(anchor + len < fs as usize) {
        return false;
    }
    let mag = detect(window, &kernel, anchor);
    proof {
        lemma_mag_threshold(
            mag as int,
            mag_sq_s(window@, kernel.taps@, anchor as int),
            DETECTION_THRESHOLD as int,
        );
    }
    is_hit(mag)
}

/// Note `i` starts inside the just-elapsed beat interval and is still unhit.
pub open spec fn strict_triggered(notes: Seq<FretNote>, i: int, prev_b: int, cur_b: int) -> bool {
    &&& !notes[i].hit
    &&& prev_b <= notes[i].start < cur_b
}

/// Indices among the first `n` notes that enter the awaiting set this frame,
/// in chart order.
pub open spec fn triggered_seq(notes: Seq<FretNote>, prev_b: int, cur_b: int, n: int) -> Seq<usize>
    decreases n,
{
    if n <= 0 {
        Seq::empty()
    } else {
        triggered_seq(notes, prev_b, cur_b, n - 1) + (if strict_triggered(
            notes,
            n - 1,
            prev_b,
            cur_b,
        ) {
            seq![(n - 1) as usize]
        } else {
            Seq::empty()
        })
    }
}

/// Every note of the chart starts before beat `b`.
pub open spec fn all_passed(notes: Seq<FretNote>, b: int) -> bool {
    forall|i: int| 0 <= i < notes.len() ==> (#[trigger] notes[i]).start < b
}

/// The awaiting indices, among the first `n`, whose notes the window does not
/// confirm; they stay awaited.
pub open spec fn undetected_seq(
    awaiting: Seq<usize>,
    notes: Seq<FretNote>,
    fs: int,
    window: Seq<i16>,
    n: int,
) -> Seq<usize>
    decreases n,
{
    if n <= 0 {
        Seq::empty()
    } else {
        undetected_seq(awaiting, notes, fs, window, n - 1) + (if !note_detected(
            fs,
            notes[awaiting[n - 1] as int],
            window,
        ) {
            seq![awaiting[n - 1]]
        } else {
            Seq::empty()
        })
    }
}

/// The awaiting indices, among the first `n`, whose notes the window does
/// confirm.
pub open spec fn detected_seq(
    awaiting: Seq<usize>,
    notes: Seq<FretNote>,
    fs: int,
    window: Seq<i16>,
    n: int,
) -> Seq<usize>
    decreases n,
{
    if n <= 0 {
        Seq::empty()
    } else {
        detected_seq(awaiting, notes, fs, window, n - 1) + (if note_detected(
            fs,
            notes[awaiting[n - 1] as int],
            window,
        ) {
            seq![awaiting[n - 1]]
        } else {
            Seq::empty()
        })
    }
}

/// An index is among the detected ones exactly when it is awaited and its
/// note is confirmed by the window.
proof fn lemma_detected_seq_contains(
    awaiting: Seq<usize>,
    notes: Seq<FretNote>,
    fs: int,
    window: Seq<i16>,
    n: int,
    x: usize,
)
    requires
        0 <= n <= awaiting.len(),
    ensures
        detected_seq(awaiting, notes, fs, window, n).contains(x) <==> ((exists|j: int|
            0 <= j < n && awaiting[j] == x) && note_detected(fs, notes[x as int], window)),
    decreases n,
{
    if n > 0 {
        lemma_detected_seq_contains(awaiting, notes, fs, window, n - 1, x);
        let prev = detected_seq(awaiting, notes, fs, window, n - 1);
        let cur = detected_seq(awaiting, notes, fs, window, n);
        if note_detected(fs, notes[awaiting[n - 1] as int], window) {
            assert(cur == prev + seq![awaiting[n - 1]]);
            assert(cur.contains(x) <==> (prev.contains(x) || awaiting[n - 1] == x)) by {
                if prev.contains(x) {
                    let j = choose|j: int| 0 <= j < prev.len() && prev[j] == x;
                    assert(cur[j] == x);
                }
                if awaiting[n - 1] == x {
                    assert(cur[cur.len() - 1] == x);
                }
                if cur.contains(x) {
                    let j = choose|j: int| 0 <= j < cur.len() && cur[j] == x;
                    if j < prev.len() {
                        assert(prev[j] == x);
                    }
                }
            }
        } else {
            assert(cur =~= prev);
        }
    }
}

/// A note with its hit flag set to `h`.
pub open spec fn with_hit(n: FretNote, h: bool) -> FretNote {
    FretNote { hit: h, ..n }
}

/// The notes after the paused-state probe: each awaited note the window
/// confirms is marked hit.
pub open spec fn paused_marked(
    notes: Seq<FretNote>,
    awaiting: Seq<usize>,
    fs: int,
    window: Seq<i16>,
) -> Seq<FretNote> {
    Seq::new(
        notes.len(),
        |i: int|
            with_hit(
                notes[i],
                notes[i].hit || (awaiting.contains(i as usize) && note_detected(
                    fs,
                    notes[i],
                    window,
                )),
            ),
    )
}

/// The notes after one lenient frame: each unhit note whose start lies in
/// the hit window and whose harmonic the window confirms is marked hit.
pub open spec fn lenient_marked(
    notes: Seq<FretNote>,
    fs: int,
    window: Seq<i16>,
    wstart: int,
    wend: int,
) -> Seq<FretNote> {
    Seq::new(
        notes.len(),
        |i: int|
            with_hit(
                notes[i],
                notes[i].hit || (wstart <= notes[i].start < wend && note_detected(
                    fs,
                    notes[i],
                    window,
                )),
            ),
    )
}

/// A channel after a lossy send: the command is appended when there is room
/// and dropped otherwise.
pub open spec fn sent(cmds: Seq<PlaybackCmd>, cmd: PlaybackCmd) -> Seq<PlaybackCmd> {
    if cmds.len() < PLAYBACK_CHANNEL_CAPACITY {
        cmds.push(cmd)
    } else {
        cmds
    }
}

/// Everything one frame decides, before it is written back into the state.
pub struct GateStep {
    pub transport_us: int,
    pub notes: Seq<FretNote>,
    pub awaiting: Seq<usize>,
    pub paused: bool,
    pub finished: bool,
    pub cmd: Option<PlaybackCmd>,
}

/// The transport/gating state machine: advances musical time, opens
/// detection windows around expected notes, pauses and resumes playback, and
/// tallies accuracy.
pub struct TransportGate {
    /// Gating policy.
    pub mode: GateMode,
    /// Tempo in beats per minute.
    pub bpm: u32,
    /// Playback speed in thousandths of real time.
    pub stretch_mille: u32,
    /// Samples per second of the capture path; also the window length.
    pub sample_rate: u32,
    /// Elapsed musical time in microseconds, scaled by the stretch factor.
    pub transport_us: u64,
    /// Whether playback is halted awaiting confirmations (strict mode only).
    pub paused: bool,
    /// Whether every note's start has passed the transport.
    pub finished: bool,
    /// The chart, with per-note hit flags.
    pub notes: Vec<FretNote>,
    /// Indices of notes awaiting confirmation while paused.
    pub awaiting: Vec<usize>,
}

impl TransportGate {
    /// Bounds and cross-field facts every reachable gate satisfies.
    pub open spec fn wf(self) -> bool {
        &&& 1 <= self.bpm <= MAX_BPM
        &&& self.stretch_mille <= 1000
        &&& 2 <= self.sample_rate <= MAX_SAMPLE_RATE
        &&& self.transport_us <= MAX_TRANSPORT_US
        &&& self.notes.len() <= MAX_NOTES
        &&& forall|i: int| 0 <= i < self.notes.len() ==> (#[trigger] self.notes@[i]).wf()
        &&& forall|j: int|
            0 <= j < self.awaiting.len() ==> (#[trigger] self.awaiting@[j] as int)
                < self.notes.len()
        &&& (self.mode == GateMode::Lenient ==> !self.paused)
        &&& (self.paused <==> self.awaiting.len() > 0)
    }

    /// What one frame of `dt` microseconds does to this gate, given the
    /// drained sample window: the full transition function of the state
    /// machine.
    pub open spec fn step_spec(self, dt: int, window: Seq<i16>) -> GateStep {
        let fs = self.sample_rate as int;
        if self.finished {
            GateStep {
                transport_us: self.transport_us as int,
                notes: self.notes@,
                awaiting: self.awaiting@,
                paused: self.paused,
                finished: true,
                cmd: None,
            }
        } else if self.paused {
            let marked = paused_marked(self.notes@, self.awaiting@, fs, window);
            let still = undetected_seq(
                self.awaiting@,
                self.notes@,
                fs,
                window,
                self.awaiting@.len() as int,
            );
            GateStep {
                transport_us: self.transport_us as int,
                notes: marked,
                awaiting: still,
                paused: still.len() > 0,
                finished: false,
                cmd: if still.len() == 0 {
                    Some(
                        PlaybackCmd {
                            pause: false,
                            position_us: self.transport_us,
                            speed_mille: self.stretch_mille,
                        },
                    )
                } else {
                    None
                },
            }
        } else {
            let t1 = advance(self.transport_us as int, dt, self.stretch_mille as int);
            let cb = beat_of(t1, self.bpm as int);
            if self.mode == GateMode::Strict {
                let pb = beat_of(sat_sub(t1, dt), self.bpm as int);
                let trig = triggered_seq(self.notes@, pb, cb, self.notes@.len() as int);
                if trig.len() > 0 {
                    GateStep {
                        transport_us: t1,
                        notes: self.notes@,
                        awaiting: trig,
                        paused: true,
                        finished: false,
                        cmd: Some(
                            PlaybackCmd {
                                pause: true,
                                position_us: t1 as u64,
                                speed_mille: self.stretch_mille,
                            },
                        ),
                    }
                } else {
                    GateStep {
                        transport_us: t1,
                        notes: self.notes@,
                        awaiting: Seq::empty(),
                        paused: false,
                        finished: all_passed(self.notes@, cb),
                        cmd: None,
                    }
                }
            } else {
                let wstart = beat_of(sat_sub(t1, HALF_HIT_WINDOW_US as int), self.bpm as int);
                let wend = beat_of(t1 + HALF_HIT_WINDOW_US, self.bpm as int);
                GateStep {
                    transport_us: t1,
                    notes: lenient_marked(self.notes@, fs, window, wstart, wend),
                    awaiting: Seq::empty(),
                    paused: false,
                    finished: all_passed(self.notes@, wstart),
                    cmd: None,
                }
            }
        }
    }

    /// A gate at the start of a song: transport at zero, running, nothing
    /// awaited.
    pub fn new(
        mode: GateMode,
        bpm: u32,
        stretch_mille: u32,
        sample_rate: u32,
        notes: FretNotes,
    ) -> (r: TransportGate)
        requires
            1 <= bpm <= MAX_BPM,
            stretch_mille <= 1000,
            2 <= sample_rate <= MAX_SAMPLE_RATE,
            notes.0@.len() <= MAX_NOTES,
            forall|i: int| 0 <= i < notes.0@.len() ==> (#[trigger] notes.0@[i]).wf(),
        ensures
            r.wf(),
            r.mode == mode,
            r.bpm == bpm,
            r.stretch_mille == stretch_mille,
            r.sample_rate == sample_rate,
            r.transport_us == 0,
            !r.paused,
            !r.finished,
            r.notes@ == notes.0@,
            r.awaiting@ == Seq::<usize>::empty(),
    {
        let r = TransportGate {
            mode,
            bpm,
            stretch_mille,
            sample_rate,
            transport_us: 0,
            paused: false,
            finished: false,
            notes: notes.0,
            awaiting: Vec::new(),
        };
        proof {
            assert(r.awaiting@ =~= Seq::<usize>::empty());
        }
        r
    }

    /// Number of hit notes among the first `n`.
    pub open spec fn hit_count(notes: Seq<FretNote>) -> int
        decreases notes.len(),
    {
        if notes.len() == 0 {
            0
        } else {
            Self::hit_count(notes.drop_last()) + if notes.last().hit {
                1int
            } else {
                0int
            }
        }
    }

    /// Advance by one frame: `dt_us` microseconds of wall time have
    /// elapsed and `window` is the freshly drained sample window. Pause and
    /// resume commands for the playback worker go out on `chan`, dropped
    /// silently when the channel is full.
    ///
    /// The whole transition is `step_spec`: while running, the transport
    /// advances by the stretched frame time and notes whose start fell into
    /// the elapsed beat interval become awaited (strict) or are probed inside
    /// their hit window (lenient); while paused, every awaited note is probed
    /// and playback resumes once none is left; once finished, nothing moves.
    pub fn step(&mut self, dt_us: u64, window: &Vec<i16>, chan: &mut PlaybackChannel)
        requires
            old(self).wf(),
            window@.len() == old(self).sample_rate,
            old(self).transport_us + dt_us <= MAX_TRANSPORT_US,
        ensures
            final(self).wf(),
            final(self).mode == old(self).mode,
            final(self).bpm == old(self).bpm,
            final(self).stretch_mille == old(self).stretch_mille,
            final(self).sample_rate == old(self).sample_rate,
            final(self).transport_us == old(self).step_spec(dt_us as int, window@).transport_us,
            final(self).notes@ == old(self).step_spec(dt_us as int, window@).notes,
            final(self).awaiting@ == old(self).step_spec(dt_us as int, window@).awaiting,
            final(self).paused == old(self).step_spec(dt_us as int, window@).paused,
            final(self).finished == old(self).step_spec(dt_us as int, window@).finished,
            final(chan).commands() == (match old(self).step_spec(dt_us as int, window@).cmd {
                Some(c) => sent(old(chan).commands(), c),
                None => old(chan).commands(),
            }),
    {
        let ghost pre = *old(self);
        let ghost w = window@;
        let fs = self.sample_rate;
        if self.finished {
            return ;
        }
        if self.paused {
            let ghost aw = self.awaiting@;
            let ghost notes0 = self.notes@;
            let ghost gfs = fs as int;
            let na = self.awaiting.len();
            let mut still: Vec<usize> = Vec::new();
            let mut confirmed: Vec<usize> = Vec::new();
            let mut j: usize = 0;
            while j < na
                invariant
                    j <= na,
                    na == self.awaiting.len(),
                    self.awaiting@ == aw,
                    self.notes@ == notes0,
                    fs == self.sample_rate,
                    2 <= fs <= MAX_SAMPLE_RATE,
                    w == window@,
                    w.len() == fs,
                    gfs == fs as int,
                    forall|i: int| 0 <= i < notes0.len() ==> (#[trigger] notes0[i]).wf(),
                    forall|k: int| 0 <= k < aw.len() ==> (#[trigger] aw[k] as int) < notes0.len(),
                    still@ == undetected_seq(aw, notes0, gfs, w, j as int),
                    confirmed@ == detected_seq(aw, notes0, gfs, w, j as int),
                    forall|k: int|
                        0 <= k < still@.len() ==> (#[trigger] still@[k] as int) < notes0.len(),
                    forall|k: int|
                        0 <= k < confirmed@.len() ==> (#[trigger] confirmed@[k] as int)
                            < notes0.len(),
                decreases na - j,
            {
                let idx = self.awaiting[j];
                let det = note_detect(fs, &self.notes[idx], window);
                if det {
                    confirmed.push(idx);
                    proof {
                        assert(still@ =~= undetected_seq(aw, notes0, gfs, w, j as int + 1));
                        assert(confirmed@ =~= detected_seq(aw, notes0, gfs, w, j as int + 1));
                    }
                } else {
                    still.push(idx);
                    proof {
                        assert(still@ =~= undetected_seq(aw, notes0, gfs, w, j as int + 1));
                        assert(confirmed@ =~= detected_seq(aw, notes0, gfs, w, j as int + 1));
                    }
                }
                j = j + 1;
            }
            let ghost conf = confirmed@;
            let nc = confirmed.len();
            let mut m: usize = 0;
            while m < nc
                invariant
                    m <= nc,
                    nc == confirmed.len(),
                    confirmed@ == conf,
                    conf == detected_seq(aw, notes0, gfs, w, aw.len() as int),
                    forall|k: int|
                        0 <= k < conf.len() ==> (#[trigger] conf[k] as int) < notes0.len(),
                    self.mode == pre.mode,
                    self.bpm == pre.bpm,
                    self.stretch_mille == pre.stretch_mille,
                    self.sample_rate == pre.sample_rate,
                    self.transport_us == pre.transport_us,
                    self.paused == pre.paused,
                    self.finished == pre.finished,
                    self.awaiting@ == aw,
                    self.notes@.len() == notes0.len(),
                    forall|i: int|
                        0 <= i < notes0.len() ==> #[trigger] self.notes@[i] == (if (exists|jj: int|
                            0 <= jj < m && conf[jj] == i
                        ) {
                            with_hit(notes0[i], true)
                        } else {
                            notes0[i]
                        }),
                decreases nc - m,
            {
                let idx = confirmed[m];
                let mut nn = self.notes[idx];
                nn.hit = true;
                self.notes[idx] = nn;
                proof {
                    assert forall|i: int| 0 <= i < notes0.len() implies #[trigger] self.notes@[i]
                        == (if (exists|jj: int| 0 <= jj < m + 1 && conf[jj] == i) {
                        with_hit(notes0[i], true)
                    } else {
                        notes0[i]
                    }) by {
                        if i == idx as int {
                            assert(conf[m as int] == idx);
                            assert(exists|jj: int| 0 <= jj < m + 1 && conf[jj] == i);
                        } else {
                            if exists|jj: int| 0 <= jj < m + 1 && conf[jj] == i {
                                let jj = choose|jj: int| 0 <= jj < m + 1 && conf[jj] == i;
                                assert(jj < m);
                            }
                        }
                    }
                }
                m = m + 1;
            }
            proof {
                let target = paused_marked(notes0, aw, gfs, w);
                assert forall|i: int| 0 <= i < notes0.len() implies self.notes@[i] == target[i] by {
                    lemma_detected_seq_contains(aw, notes0, gfs, w, aw.len() as int, i as usize);
                    if exists|jj: int| 0 <= jj < conf.len() && conf[jj] == i {
                        assert(conf.contains(i as usize));
                    } else {
                        assert(!conf.contains(i as usize));
                    }
                }
                assert(self.notes@ =~= target);
                assert forall|i: int|
                    0 <= i < self.notes@.len() implies (#[trigger] self.notes@[i]).wf() by {
                    assert(self.notes@[i].tuning == notes0[i].tuning && self.notes@[i].string
                        == notes0[i].string && self.notes@[i].fret == notes0[i].fret);
                }
            }
            self.awaiting = still;
            if self.awaiting.len() == 0 {
                self.paused = false;
                let cmd = PlaybackCmd {
                    pause: false,
                    position_us: self.transport_us,
                    speed_mille: self.stretch_mille,
                };
                let _ = chan.send(cmd);
            }
            return ;
        }
        // Running: advance the transport by the stretched frame time.
        proof {
            lemma_mul_upper_bound(dt_us as int, 0x10000000000000, self.stretch_mille as int, 1000);
            lemma_mul_inequality(self.stretch_mille as int, 1000, dt_us as int);
            lemma_div_is_ordered(
                dt_us as int * self.stretch_mille as int,
                dt_us as int * 1000,
                1000,
            );
            lemma_div_by_multiple(dt_us as int, 1000);
        }
        let inc = dt_us * (self.stretch_mille as u64) / 1000;
        let t1 = self.transport_us + inc;
        self.transport_us = t1;
        let ghost notes0 = self.notes@;
        let ghost gfs = fs as int;
        if self.mode == GateMode::Strict {
            let prev_point = if t1 >= dt_us {
                t1 - dt_us
            } else {
                0
            };
            let pb = beat_u64(prev_point, self.bpm);
            let cb = beat_u64(t1, self.bpm);
            let n = self.notes.len();
            let mut trig: Vec<usize> = Vec::new();
            let mut passed = true;
            let mut i: usize = 0;
            while i < n
                invariant
                    i <= n,
                    n == self.notes.len(),
                    self.notes@ == notes0,
                    trig@ == triggered_seq(notes0, pb as int, cb as int, i as int),
                    passed == (forall|k: int|
                        0 <= k < i ==> (#[trigger] notes0[k]).start < cb),
                    forall|k: int| 0 <= k < trig@.len() ==> (#[trigger] trig@[k] as int) < n,
                decreases n - i,
            {
                let nt = self.notes[i];
                if nt.start >= cb {
                    passed = false;
                }
                if !nt.hit && pb <= nt.start && nt.start < cb {
                    trig.push(i);
                    proof {
                        assert(trig@ =~= triggered_seq(notes0, pb as int, cb as int, i as int + 1));
                    }
                } else {
                    proof {
                        assert(trig@ =~= triggered_seq(notes0, pb as int, cb as int, i as int + 1));
                    }
                }
                i = i + 1;
            }
            if trig.len() > 0 {
                self.awaiting = trig;
                self.paused = true;
                let cmd = PlaybackCmd {
                    pause: true,
                    position_us: t1,
                    speed_mille: self.stretch_mille,
                };
                let _ = chan.send(cmd);
            } else {
                self.finished = passed;
                proof {
                    assert(self.awaiting@ =~= Seq::<usize>::empty());
                }
            }
        } else {
            let half = HALF_HIT_WINDOW_US;
            let wstart_t = if t1 >= half {
                t1 - half
            } else {
                0
            };
            let ws_b = beat_u64(wstart_t, self.bpm);
            let we_b = beat_u64(t1 + half, self.bpm);
            let ghost target = lenient_marked(notes0, gfs, w, ws_b as int, we_b as int);
            let n = self.notes.len();
            let mut passed = true;
            let mut i: usize = 0;
            while i < n
                invariant
                    i <= n,
                    n == self.notes@.len(),
                    notes0.len() == n,
                    n <= MAX_NOTES,
                    self.mode == pre.mode,
                    self.bpm == pre.bpm,
                    self.stretch_mille == pre.stretch_mille,
                    self.sample_rate == pre.sample_rate,
                    self.transport_us == t1,
                    self.paused == pre.paused,
                    self.finished == pre.finished,
                    self.awaiting@ == pre.awaiting@,
                    fs == self.sample_rate,
                    2 <= fs <= MAX_SAMPLE_RATE,
                    w == window@,
                    w.len() == fs,
                    gfs == fs as int,
                    target == lenient_marked(notes0, gfs, w, ws_b as int, we_b as int),
                    forall|k: int| 0 <= k < notes0.len() ==> (#[trigger] notes0[k]).wf(),
                    forall|k: int| 0 <= k < i ==> #[trigger] self.notes@[k] == target[k],
                    forall|k: int| i <= k < n ==> #[trigger] self.notes@[k] == notes0[k],
                    passed == (forall|k: int|
                        0 <= k < i ==> (#[trigger] notes0[k]).start < ws_b),
                decreases n - i,
            {
                let nt = self.notes[i];
                if nt.start >= ws_b {
                    passed = false;
                }
                if !nt.hit && ws_b <= nt.start && nt.start < we_b {
                    let det = note_detect(fs, &self.notes[i], window);
                    if det {
                        let mut nn = self.notes[i];
                        nn.hit = true;
                        self.notes[i] = nn;
                    }
                }
                proof {
                    assert(self.notes@[i as int] == target[i as int]);
                }
                i = i + 1;
            }
            self.finished = passed;
            proof {
                assert(self.notes@ =~= target);
            }
        }
    }

    /// Final accuracy: hit notes over all notes, in whole percent (floored).
    pub fn accuracy_percent(&self) -> (r: u64)
        requires
            self.wf(),
            self.notes.len() >= 1,
        ensures
            r == Self::hit_count(self.notes@) * 100 / (self.notes@.len() as int),
    {
        let n = self.notes.len();
        let mut hits: u64 = 0;
        let mut i: usize = 0;
        while i < n
            invariant
                n == self.notes.len(),
                n <= MAX_NOTES,
                i <= n,
                hits == Self::hit_count(self.notes@.take(i as int)),
                hits <= i,
            decreases n - i,
        {
            proof {
                assert(self.notes@.take(i + 1).drop_last() =~= self.notes@.take(i as int));
                assert(self.notes@.take(i + 1).last() == self.notes@[i as int]);
            }
            if self.notes[i].hit {
                hits = hits + 1;
            }
            i = i + 1;
        }
        proof {
            assert(self.notes@.take(n as int) =~= self.notes@);
        }
        (hits * 100) / (n as u64)
    }
}

/// Probe the window for the note's harmonic.
pub fn note_detect(fs: u32, note: &FretNote, window: &Vec<i16>) -> (r: bool)
    requires
        note.wf(),
        2 <= fs <= MAX_SAMPLE_RATE,
        window@.len() == fs,
    ensures
        r == note_detected(fs as int, *note, window@),
{
    proof {
        lemma_open_note_bounds(note.tuning, note.string as int);
    }
    let pitch = note.pitch();
    let hz = pitch.to_hz();
    let f = Hz(hz.0 * HARMONIC);
    freq_detect(fs, f, window)
}

} // verus!
