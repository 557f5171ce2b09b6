use vstd::prelude::*;

verus! {

use std::collections::HashMap;

broadcast use vstd::std_specs::hash::group_hash_axioms;

/// The drum voices a chart distinguishes.
#[derive(Debug, Clone, Copy, PartialEq, Eq, Structural)]
pub enum Drum {
    Snare,
    HihatClosed,
    HihatOpen,
    Crash,
    Tom1,
    Tom2,
    Ride,
    FloorTom,
    Kick,
}

/// The drum a General MIDI percussion key stands for, where one is mapped;
/// keys outside the supported set have no drum.
pub open spec fn drum_of_midi(value: i16) -> Option<Drum> {
    if value == 35 || value == 36 {
        Some(Drum::Kick)
    } else if value == 37 || value == 38 || value == 39 || value == 40 || value == 93 {
        Some(Drum::Snare)
    } else if value == 41 || value == 43 {
        Some(Drum::FloorTom)
    } else if value == 42 || value == 44 {
        Some(Drum::HihatClosed)
    } else if value == 46 {
        Some(Drum::HihatOpen)
    } else if value == 45 || value == 47 {
        Some(Drum::Tom2)
    } else if value == 48 || value == 50 {
        Some(Drum::Tom1)
    } else if value == 49 || value == 52 || value == 55 || value == 57 {
        Some(Drum::Crash)
    } else if value == 51 || value == 53 || value == 56 || value == 59 {
        Some(Drum::Ride)
    } else {
        None
    }
}

impl Drum {
    /// Decode a General MIDI percussion key, following the standard drum map;
    /// unsupported keys give no drum.
    pub fn from_midi(value: i16) -> (r: Option<Drum>)
        ensures
            r == drum_of_midi(value),
    {
        match value {
            35 | 36 => Some(Drum::Kick),
            37 | 38 | 39 | 40 | 93 => Some(Drum::Snare),
            41 | 43 => Some(Drum::FloorTom),
            42 | 44 => Some(Drum::HihatClosed),
            46 => Some(Drum::HihatOpen),
            45 | 47 => Some(Drum::Tom2),
            48 | 50 => Some(Drum::Tom1),
            49 | 52 | 55 | 57 => Some(Drum::Crash),
            51 | 53 | 56 | 59 => Some(Drum::Ride),
            _ => None,
        }
    }
}

/// A mapping from MIDI percussion keys to drum voices, learned by the wizard
/// or loaded from a saved file.
pub struct DrumMapping(pub HashMap<i16, Drum>);

impl DrumMapping {
    /// An empty mapping.
    pub fn new() -> (r: DrumMapping)
        ensures
            r.0@ == Map::<i16, Drum>::empty(),
    {
        DrumMapping(HashMap::new())
    }

    /// The drum a key is mapped to, if any.
    pub fn lookup(&self, key: i16) -> (r: Option<Drum>)
        ensures
            r == (if self.0@.contains_key(key) {
                Some(self.0@[key])
            } else {
                None::<Drum>
            }),
    {
        match self.0.get(&key) {
            Some(d) => Some(*d),
            None => None,
        }
    }
}

/// A scheduled drum event: when, which drum, and whether it has been hit.
#[derive(Debug, Clone, Copy, PartialEq, Eq, Structural)]
pub struct DrumNote {
    /// Start time in micro-beats.
    pub start: u64,
    /// Which drum to hit.
    pub drum: Drum,
    /// Whether this note has been hit correctly.
    pub hit: bool,
}

impl DrumNote {
    pub fn new(start: u64, drum: Drum) -> (r: DrumNote)
        ensures
            r == (DrumNote { start, drum, hit: false }),
    {
        DrumNote { start, drum, hit: false }
    }
}

/// An immutable drum chart with its tempo.
#[derive(Debug)]
pub struct DrumNotes {
    pub notes: Vec<DrumNote>,
    pub tempo: i16,
}

/// Start time in micro-beats of the `i`-th event: each preceding event
/// advances time by the reciprocal of its duration divisor, in beats.
pub open spec fn beat_offset(events: Seq<(i16, u32)>, i: int) -> int
    decreases i,
{
    if i <= 0 {
        0int
    } else {
        beat_offset(events, i - 1) + 1000000int / (events[i - 1].1 as int)
    }
}

impl DrumNotes {
    /// Build the drum schedule from parsed score events, one `(midi key,
    /// duration divisor)` pair per note in score order. Every key must be a
    /// mapped percussion key and every divisor nonzero, as an unmapped key or
    /// a zero duration leaves the schedule undefined.
    pub fn from_events(events: &Vec<(i16, u32)>, tempo: i16) -> (r: DrumNotes)
        requires
            events@.len() <= 0x100000,
            forall|i: int| 0 <= i < events@.len() ==> 1 <= (#[trigger] events@[i]).1,
            forall|i: int| 0 <= i < events@.len() ==> drum_of_midi((#[trigger] events@[i]).0)
                is Some,
        ensures
            r.tempo == tempo,
            r.notes@.len() == events@.len(),
            forall|i: int|
                0 <= i < events@.len() ==> #[trigger] r.notes@[i] == (DrumNote {
                    start: beat_offset(events@, i) as u64,
                    drum: drum_of_midi(events@[i].0).unwrap(),
                    hit: false,
                }),
    {
        let n = events.len();
        let mut notes: Vec<DrumNote> = Vec::new();
        let mut cur: u64 = 0;
        let mut i: usize = 0;
        while i < n
            invariant
                i <= n,
                n == events@.len(),
                n <= 0x100000,
                forall|k: int| 0 <= k < n ==> 1 <= (#[trigger] events@[k]).1,
                forall|k: int| 0 <= k < n ==> drum_of_midi((#[trigger] events@[k]).0) is Some,
                cur == beat_offset(events@, i as int),
                cur <= i * 1000000,
                notes@.len() == i,
                forall|k: int|
                    0 <= k < i ==> #[trigger] notes@[k] == (DrumNote {
                        start: beat_offset(events@, k) as u64,
                        drum: drum_of_midi(events@[k].0).unwrap(),
                        hit: false,
                    }),
            decreases n - i,
        {
            let ev = events[i];
            let drum = match Drum::from_midi(ev.0) {
                Some(d) => d,
                None => {
                    proof {
                        assert(false);
                    }
                    Drum::Kick
                },
            };
            notes.push(DrumNote { start: cur, drum, hit: false });
            proof {
                vstd::arithmetic::div_mod::lemma_div_is_ordered(
                    1000000,
                    1000000,
                    ev.1 as int,
                );
                vstd::arithmetic::div_mod::lemma_div_is_ordered_by_denominator(
                    1000000,
                    1,
                    ev.1 as int,
                );
                assert((i + 1) * 1000000 == i * 1000000 + 1000000);
            }
            cur = cur + 1000000 / (ev.1 as u64);
            i = i + 1;
        }
        DrumNotes { notes, tempo }
    }
}

/// The order in which the configuration wizard walks the drums.
pub open spec fn next_drum(d: Drum) -> Drum {
    match d {
        Drum::Snare => Drum::HihatClosed,
        Drum::HihatClosed => Drum::HihatOpen,
        Drum::HihatOpen => Drum::Crash,
        Drum::Crash => Drum::Tom1,
        Drum::Tom1 => Drum::Tom2,
        Drum::Tom2 => Drum::Ride,
        Drum::Ride => Drum::FloorTom,
        Drum::FloorTom => Drum::Kick,
        Drum::Kick => Drum::Snare,
    }
}

/// The drum-mapping configuration wizard: it asks for ten hits per drum,
/// learning the first MIDI key heard for each, and closes itself after the
/// kick.
pub struct DrumMappingWizard {
    /// The mapping being learned.
    pub mapping: DrumMapping,
    /// Which drum is currently being configured.
    pub state: Drum,
    /// How many hits have been received for this drum.
    pub hit_counter: u8,
    /// Whether the wizard is showing; the kick's tenth hit closes it.
    pub is_opened: bool,
}

impl DrumMappingWizard {
    /// The counter stays below the per-drum hit goal.
    pub open spec fn wf(self) -> bool {
        self.hit_counter < 10
    }

    pub fn new(mapping: DrumMapping) -> (r: DrumMappingWizard)
        ensures
            r.mapping == mapping,
            r.state == Drum::Snare,
            r.hit_counter == 0,
            !r.is_opened,
            r.wf(),
    {
        DrumMappingWizard { mapping, state: Drum::Snare, hit_counter: 0, is_opened: false }
    }

    /// Feed one MIDI key received while the wizard is open: the key is bound
    /// to the current drum unless some drum already owns it, and after ten
    /// hits the wizard moves to the next drum, closing after the kick.
    pub fn on_key(&mut self, key: u8)
        requires
            old(self).wf(),
        ensures
            final(self).wf(),
            final(self).mapping.0@ == (if old(self).mapping.0@.contains_key(key as i16) {
                old(self).mapping.0@
            } else {
                old(self).mapping.0@.insert(key as i16, old(self).state)
            }),
            old(self).hit_counter < 9 ==> final(self).hit_counter == old(self).hit_counter + 1
                && final(self).state == old(self).state && final(self).is_opened == old(
                self,
            ).is_opened,
            old(self).hit_counter == 9 ==> final(self).hit_counter == 0 && final(self).state
                == next_drum(old(self).state) && final(self).is_opened == (if old(self).state
                == Drum::Kick {
                false
            } else {
                old(self).is_opened
            }),
    {
        self.hit_counter = self.hit_counter + 1;
        let k: i16 = key as i16;
        if !self.mapping.0.contains_key(&k) {
            self.mapping.0.insert(k, self.state);
        }
        if self.hit_counter == 10 {
            self.state = match self.state {
                Drum::Snare => Drum::HihatClosed,
                Drum::HihatClosed => Drum::HihatOpen,
                Drum::HihatOpen => Drum::Crash,
                Drum::Crash => Drum::Tom1,
                Drum::Tom1 => Drum::Tom2,
                Drum::Tom2 => Drum::Ride,
                Drum::Ride => Drum::FloorTom,
                Drum::FloorTom => Drum::Kick,
                Drum::Kick => {
                    self.is_opened = false;
                    Drum::Snare
                },
            };
            self.hit_counter = 0;
        }
    }
}

/// The flash state after a hit on `drum`: the matching lane lights for ten
/// frames, the others keep their counters.
pub open spec fn lanes_flashed(lanes: Seq<(Drum, u8)>, drum: Drum) -> Seq<(Drum, u8)> {
    Seq::new(
        lanes.len(),
        |i: int|
            if lanes[i].0 == drum {
                (lanes[i].0, 10u8)
            } else {
                lanes[i]
            },
    )
}

/// The flash state one frame later: every lit counter decreases by one.
pub open spec fn lanes_ticked(lanes: Seq<(Drum, u8)>) -> Seq<(Drum, u8)> {
    Seq::new(
        lanes.len(),
        |i: int|
            if lanes[i].1 > 0 {
                (lanes[i].0, (lanes[i].1 - 1) as u8)
            } else {
                lanes[i]
            },
    )
}

/// Per-lane hit flashes driven by incoming MIDI packets: a recognised hit
/// lights its lane for ten frames, a kick lights the kick bar.
pub struct DrumLanes {
    /// One flash counter per displayed lane.
    pub drums: Vec<(Drum, u8)>,
    /// Flash counter of the kick bar.
    pub kick: u8,
}

impl DrumLanes {
    pub open spec fn wf(self) -> bool {
        self.drums@.len() == 7
    }

    /// Lanes in display order, all dark.
    pub fn new() -> (r: DrumLanes)
        ensures
            r.wf(),
            r.kick == 0,
            r.drums@ == seq![
                (Drum::Snare, 0u8),
                (Drum::HihatClosed, 0u8),
                (Drum::Crash, 0u8),
                (Drum::Tom1, 0u8),
                (Drum::Tom2, 0u8),
                (Drum::Ride, 0u8),
                (Drum::FloorTom, 0u8),
            ],
    {
        let mut drums: Vec<(Drum, u8)> = Vec::new();
        drums.push((Drum::Snare, 0));
        drums.push((Drum::HihatClosed, 0));
        drums.push((Drum::Crash, 0));
        drums.push((Drum::Tom1, 0));
        drums.push((Drum::Tom2, 0));
        drums.push((Drum::Ride, 0));
        drums.push((Drum::FloorTom, 0));
        let r = DrumLanes { drums, kick: 0 };
        proof {
            assert(r.drums@ =~= seq![
                (Drum::Snare, 0u8),
                (Drum::HihatClosed, 0u8),
                (Drum::Crash, 0u8),
                (Drum::Tom1, 0u8),
                (Drum::Tom2, 0u8),
                (Drum::Ride, 0u8),
                (Drum::FloorTom, 0u8),
            ]);
        }
        r
    }

    /// A MIDI packet arrives outside the wizard: a nonzero velocity on a
    /// mapped key flashes the lane of its drum, and the kick bar for a kick;
    /// anything else changes nothing.
    pub fn on_packet(&mut self, mapping: &DrumMapping, key: u8, velocity: u8)
        requires
            old(self).wf(),
        ensures
            final(self).wf(),
            velocity == 0 || !mapping.0@.contains_key(key as i16) ==> final(self).drums@ == old(
                self,
            ).drums@ && final(self).kick == old(self).kick,
            velocity != 0 && mapping.0@.contains_key(key as i16) ==> {
                &&& final(self).drums@ == lanes_flashed(
                    old(self).drums@,
                    mapping.0@[key as i16],
                )
                &&& final(self).kick == (if mapping.0@[key as i16] == Drum::Kick {
                    10u8
                } else {
                    old(self).kick
                })
            },
    {
        if velocity == 0 {
            return ;
        }
        let k: i16 = key as i16;
        match mapping.lookup(k) {
            None => {
            },
            Some(drum) => {
                let ghost lanes0 = self.drums@;
                let ghost target = lanes_flashed(lanes0, drum);
                let n = self.drums.len();
                let mut i: usize = 0;
                while i < n
                    invariant
                        i <= n,
                        n == self.drums@.len(),
                        lanes0.len() == n,
                        target == lanes_flashed(lanes0, drum),
                        self.kick == old(self).kick,
                        forall|j: int| 0 <= j < i ==> #[trigger] self.drums@[j] == target[j],
                        forall|j: int| i <= j < n ==> #[trigger] self.drums@[j] == lanes0[j],
                    decreases n - i,
                {
                    let lane = self.drums[i];
                    if lane.0 == drum {
                        self.drums[i] = (lane.0, 10);
                    }
                    i = i + 1;
                }
                proof {
                    assert(self.drums@ =~= target);
                }
                if drum == Drum::Kick {
                    self.kick = 10;
                }
            },
        }
    }

    /// One frame passes: every lit lane counter and the kick bar fade by one.
    pub fn tick(&mut self)
        requires
            old(self).wf(),
        ensures
            final(self).wf(),
            final(self).drums@ == lanes_ticked(old(self).drums@),
            final(self).kick == (if old(self).kick > 0 {
                (old(self).kick - 1) as u8
            } else {
                old(self).kick
            }),
    {
        let ghost lanes0 = self.drums@;
        let ghost target = lanes_ticked(lanes0);
        let n = self.drums.len();
        let mut i: usize = 0;
        while i < n
            invariant
                i <= n,
                n == self.drums@.len(),
                lanes0.len() == n,
                target == lanes_ticked(lanes0),
                self.kick == old(self).kick,
                forall|j: int| 0 <= j < i ==> #[trigger] self.drums@[j] == target[j],
                forall|j: int| i <= j < n ==> #[trigger] self.drums@[j] == lanes0[j],
            decreases n - i,
        {
            let lane = self.drums[i];
            if lane.1 > 0 {
                self.drums[i] = (lane.0, lane.1 - 1);
            }
            i = i + 1;
        }
        proof {
            assert(self.drums@ =~= target);
        }
        if self.kick > 0 {
            self.kick = self.kick - 1;
        }
    }
}

} // verus!
