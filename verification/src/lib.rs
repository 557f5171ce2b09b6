pub mod channel;
pub mod drums;
pub mod dsp;
pub mod gate;
mod note;
pub mod ring;

pub use note::{
    hz_millis, lemma_octave_doubles, lemma_transpose_round_trip, semi_value,
    semitone_ratio_millis, Hz, MidiNote, Note, SemiTone,
};

use vstd::prelude::*;

verus! {

/// An instrument tuning: the ordered open-string pitches, lowest string first.
pub trait Tuning {
    /// The open-string pitches this tuning stands for.
    spec fn open_notes(&self) -> Seq<Note>;

    /// The open-string pitches, lowest string first.
    fn tuning(&self) -> (r: Vec<Note>)
        ensures
            r@ == self.open_notes(),
    ;
}

/// Open strings of a six-string guitar in standard tuning.
pub open spec fn eadgbe_notes() -> Seq<Note> {
    seq![
        Note { semi_tone: SemiTone::E, octave: 2 },
        Note { semi_tone: SemiTone::A, octave: 2 },
        Note { semi_tone: SemiTone::D, octave: 3 },
        Note { semi_tone: SemiTone::G, octave: 3 },
        Note { semi_tone: SemiTone::B, octave: 3 },
        Note { semi_tone: SemiTone::E, octave: 4 },
    ]
}

/// Open strings of a four-string bass in standard tuning.
pub open spec fn eadg_notes() -> Seq<Note> {
    seq![
        Note { semi_tone: SemiTone::E, octave: 2 },
        Note { semi_tone: SemiTone::A, octave: 2 },
        Note { semi_tone: SemiTone::D, octave: 3 },
        Note { semi_tone: SemiTone::G, octave: 3 },
    ]
}

/// Standard six-string guitar tuning.
#[derive(Debug, Clone, Copy)]
pub struct EADGBE {}

impl Tuning for EADGBE {
    open spec fn open_notes(&self) -> Seq<Note> {
        eadgbe_notes()
    }

    fn tuning(&self) -> (r: Vec<Note>) {
        let mut v: Vec<Note> = Vec::new();
        v.push(Note::new(SemiTone::E, 2));
        v.push(Note::new(SemiTone::A, 2));
        v.push(Note::new(SemiTone::D, 3));
        v.push(Note::new(SemiTone::G, 3));
        v.push(Note::new(SemiTone::B, 3));
        v.push(Note::new(SemiTone::E, 4));
        proof {
            assert(v@ =~= eadgbe_notes());
        }
        v
    }
}

/// Standard four-string bass tuning.
#[derive(Debug, Clone, Copy)]
pub struct EADG {}

impl Tuning for EADG {
    open spec fn open_notes(&self) -> Seq<Note> {
        eadg_notes()
    }

    fn tuning(&self) -> (r: Vec<Note>) {
        let mut v: Vec<Note> = Vec::new();
        v.push(Note::new(SemiTone::E, 2));
        v.push(Note::new(SemiTone::A, 2));
        v.push(Note::new(SemiTone::D, 3));
        v.push(Note::new(SemiTone::G, 3));
        proof {
            assert(v@ =~= eadg_notes());
        }
        v
    }
}

/// The closed set of tunings the library understands.
#[derive(Debug, Clone, Copy, PartialEq, Eq, Structural)]
pub enum Tunings {
    EADGBE,
    EADG,
}

impl Tunings {
    /// The open-string pitches of this tuning.
    pub open spec fn open_notes_spec(self) -> Seq<Note> {
        match self {
            Tunings::EADGBE => eadgbe_notes(),
            Tunings::EADG => eadg_notes(),
        }
    }

    /// Number of strings.
    pub open spec fn count(self) -> int {
        self.open_notes_spec().len() as int
    }

    /// Number of strings.
    pub fn string_count(&self) -> (r: usize)
        ensures
            r == self.count(),
    {
        match self {
            Tunings::EADGBE => 6,
            Tunings::EADG => 4,
        }
    }

    /// The open-string pitch of the given string, `0` being the lowest.
    pub fn open_note(&self, string: u8) -> (r: Note)
        requires
            (string as int) < self.count(),
        ensures
            r == self.open_notes_spec()[string as int],
    {
        let v = self.tuning();
        v[string as usize]
    }

    /// Recognise a tuning from its open-string pitches; unknown string sets
    /// are rejected, since they would leave the pitch mapping undefined.
    pub fn identify(strings: &Vec<Note>) -> (r: Option<Tunings>)
        ensures
            r == (if strings@ == eadgbe_notes() {
                Some(Tunings::EADGBE)
            } else if strings@ == eadg_notes() {
                Some(Tunings::EADG)
            } else {
                None::<Tunings>
            }),
    {
        let guitar = Tunings::EADGBE.tuning();
        let bass = Tunings::EADG.tuning();
        if notes_equal(strings, &guitar) {
            Some(Tunings::EADGBE)
        } else if notes_equal(strings, &bass) {
            Some(Tunings::EADG)
        } else {
            None
        }
    }
}

impl Tuning for Tunings {
    open spec fn open_notes(&self) -> Seq<Note> {
        self.open_notes_spec()
    }

    fn tuning(&self) -> (r: Vec<Note>) {
        match self {
            Tunings::EADGBE => (EADGBE {}).tuning(),
            Tunings::EADG => (EADG {}).tuning(),
        }
    }
}

/// Two pitch lists name the same notes in the same order.
fn notes_equal(a: &Vec<Note>, b: &Vec<Note>) -> (r: bool)
    ensures
        r <==> a@ == b@,
{
    if a.len() != b.len() {
        proof {
            assert(a@.len() != b@.len());
        }
        return false;
    }
    let mut i: usize = 0;
    while i < a.len()
        invariant
            i <= a.len(),
            a@.len() == b@.len(),
            forall|j: int| 0 <= j < i ==> a@[j] == b@[j],
        decreases a.len() - i,
    {
        if a[i] != b[i] {
            proof {
                assert(a@[i as int] != b@[i as int]);
            }
            return false;
        }
        i = i + 1;
    }
    proof {
        assert(a@ =~= b@);
    }
    true
}

/// Every open-string pitch of every tuning lies between E2 and E4 in the
/// linear encoding.
pub proof fn lemma_open_note_bounds(t: Tunings, i: int)
    requires
        0 <= i < t.count(),
    ensures
        28 <= t.open_notes_spec()[i].linear() <= 52,
        t.open_notes_spec()[i].wf(),
{
    if i == 0 {
        assert(t.open_notes_spec()[0].linear() == 28);
    } else if i == 1 {
        assert(t.open_notes_spec()[1].linear() == 33);
    } else if i == 2 {
        assert(t.open_notes_spec()[2].linear() == 38);
    } else if i == 3 {
        assert(t.open_notes_spec()[3].linear() == 43);
    } else if i == 4 {
        assert(t.open_notes_spec()[4].linear() == 47);
    } else {
        assert(t.open_notes_spec()[5].linear() == 52);
    }
}

/// A scheduled note on a fretted instrument: which string, which fret, and
/// when it starts, in micro-beats. `hit` records whether the detector has
/// confirmed the note.
#[derive(Debug, Clone, Copy)]
pub struct FretNote {
    /// String index, `0` being the lowest string.
    pub string: u8,
    /// Fret index of the note, `0` for the open string.
    pub fret: u8,
    /// Start time in micro-beats; `3_000_000` denotes a note at beat three.
    pub start: u64,
    /// Sustain end in micro-beats, if the note is held.
    pub ext: Option<u64>,
    /// The tuning the string index refers to.
    pub tuning: Tunings,
    /// Whether the detector has confirmed this note.
    pub hit: bool,
}

impl FretNote {
    /// The string exists in the tuning and the derived pitch fits the byte
    /// encoding.
    pub open spec fn wf(self) -> bool {
        &&& (self.string as int) < self.tuning.count()
        &&& self.tuning.open_notes_spec()[self.string as int].linear() + self.fret <= 255
    }

    /// Linear encoding of the pitch this note sounds at: the open string
    /// shifted up by the fret count.
    pub open spec fn pitch_linear(self) -> int {
        self.tuning.open_notes_spec()[self.string as int].linear() + self.fret
    }

    pub fn new(string: u8, fret: u8, start: u64, ext: Option<u64>, tuning: Tunings) -> (r: FretNote)
        requires
            (string as int) < tuning.count(),
            tuning.open_notes_spec()[string as int].linear() + fret <= 255,
        ensures
            r == (FretNote { string, fret, start, ext, tuning, hit: false }),
            r.wf(),
    {
        FretNote { string, fret, start, ext, tuning, hit: false }
    }

    /// The pitch this note sounds at.
    pub fn pitch(&self) -> (r: Note)
        requires
            self.wf(),
        ensures
            r.wf(),
            r.linear() == self.pitch_linear(),
    {
        let open = self.tuning.open_note(self.string);
        Note::from_byte(open.to_byte() + self.fret)
    }
}

/// An immutable chart of scheduled fret notes.
#[derive(Debug)]
pub struct FretNotes(pub Vec<FretNote>);

} // verus!
