use vstd::prelude::*;

verus! {

use vstd::arithmetic::div_mod::{
    lemma_add_mod_noop_right, lemma_fundamental_div_mod_converse, lemma_mod_multiples_vanish,
    lemma_small_mod,
};
use vstd::arithmetic::mul::{
    lemma_mul_is_associative, lemma_mul_is_commutative, lemma_mul_upper_bound,
};
use vstd::arithmetic::power2::{lemma2_to64, lemma_pow2_adds, lemma_pow2_strictly_increases, pow2};

/// The twelve pitch classes of the equal-tempered scale.
#[derive(Debug, Eq, PartialEq, Copy, Clone, Structural)]
pub enum SemiTone {
    C,
    CSharpDFlat,
    D,
    DSharpEFlat,
    E,
    F,
    FSharpGFlat,
    G,
    GSharpAFlat,
    A,
    ASharpBFlat,
    B,
}

/// Index of a pitch class within the octave, `0` for C up to `11` for B.
pub open spec fn semi_value(s: SemiTone) -> int {
    match s {
        SemiTone::C => 0,
        SemiTone::CSharpDFlat => 1,
        SemiTone::D => 2,
        SemiTone::DSharpEFlat => 3,
        SemiTone::E => 4,
        SemiTone::F => 5,
        SemiTone::FSharpGFlat => 6,
        SemiTone::G => 7,
        SemiTone::GSharpAFlat => 8,
        SemiTone::A => 9,
        SemiTone::ASharpBFlat => 10,
        SemiTone::B => 11,
    }
}

impl SemiTone {
    /// Pitch-class index of this semitone.
    pub fn index(&self) -> (r: u8)
        ensures
            r == semi_value(*self),
    {
        match self {
            SemiTone::C => 0,
            SemiTone::CSharpDFlat => 1,
            SemiTone::D => 2,
            SemiTone::DSharpEFlat => 3,
            SemiTone::E => 4,
            SemiTone::F => 5,
            SemiTone::FSharpGFlat => 6,
            SemiTone::G => 7,
            SemiTone::GSharpAFlat => 8,
            SemiTone::A => 9,
            SemiTone::ASharpBFlat => 10,
            SemiTone::B => 11,
        }
    }

    /// Pitch class with the given index within the octave.
    pub fn from_index(i: u8) -> (r: SemiTone)
        requires
            i < 12,
        ensures
            semi_value(r) == i,
    {
        match i {
            0 => SemiTone::C,
            1 => SemiTone::CSharpDFlat,
            2 => SemiTone::D,
            3 => SemiTone::DSharpEFlat,
            4 => SemiTone::E,
            5 => SemiTone::F,
            6 => SemiTone::FSharpGFlat,
            7 => SemiTone::G,
            8 => SemiTone::GSharpAFlat,
            9 => SemiTone::A,
            10 => SemiTone::ASharpBFlat,
            _ => SemiTone::B,
        }
    }
}

/// A concrete musical pitch: a pitch class in a given octave.
///
/// The linear encoding `semitone index + 12 * octave` must fit in a byte,
/// so that transposition can work on the byte encoding.
#[derive(Debug, Clone, Copy, PartialEq, Eq, Structural)]
pub struct Note {
    pub semi_tone: SemiTone,
    pub octave: u8,
}

impl Note {
    /// Linear byte encoding of this pitch: pitch-class index plus twelve per octave.
    pub open spec fn linear(self) -> int {
        semi_value(self.semi_tone) + 12 * self.octave
    }

    /// The linear encoding fits in a byte.
    pub open spec fn wf(self) -> bool {
        self.linear() <= 255
    }

    pub fn new(semi_tone: SemiTone, octave: u8) -> (r: Note)
        requires
            semi_value(semi_tone) + 12 * octave <= 255,
        ensures
            r == (Note { semi_tone, octave }),
            r.wf(),
    {
        Note { semi_tone, octave }
    }

    /// Decode a byte back into pitch class and octave.
    pub fn from_byte(v: u8) -> (r: Note)
        ensures
            r.wf(),
            r.linear() == v,
    {
        let s = SemiTone::from_index(v % 12);
        Note { semi_tone: s, octave: v / 12 }
    }

    /// The linear byte encoding of this pitch.
    pub fn to_byte(&self) -> (r: u8)
        requires
            self.wf(),
        ensures
            r == self.linear(),
    {
        self.semi_tone.index() + 12 * self.octave
    }

    /// Shift this pitch by a number of semitones, wrapping on the byte
    /// encoding rather than failing; a negative count shifts downwards.
    pub fn transpose(&self, semitones: i16) -> (r: Note)
        requires
            self.wf(),
        ensures
            r.wf(),
            r.linear() == (self.linear() + semitones) % 256,
    {
        let base: u32 = self.to_byte() as u32;
        let offset: u32 = (semitones as i32 + 32768) as u32;
        let m: u32 = (base + offset) % 256;
        proof {
            lemma_transpose_offset_vanishes(self.linear(), semitones as int);
        }
        Note::from_byte(m as u8)
    }

    /// Transpose upwards by the linear encoding of another note.
    pub fn plus(&self, other: &Note) -> (r: Note)
        requires
            self.wf(),
            other.wf(),
            self.linear() + other.linear() <= 255,
        ensures
            r.wf(),
            r.linear() == self.linear() + other.linear(),
    {
        Note::from_byte(self.to_byte() + other.to_byte())
    }

    /// Transpose downwards by the linear encoding of another note.
    pub fn minus(&self, other: &Note) -> (r: Note)
        requires
            self.wf(),
            other.wf(),
            self.linear() >= other.linear(),
        ensures
            r.wf(),
            r.linear() == self.linear() - other.linear(),
    {
        Note::from_byte(self.to_byte() - other.to_byte())
    }

    /// The pitch named by a MIDI note number: MIDI 12 is C0, the bottom of
    /// the byte encoding.
    pub fn from_midi(m: MidiNote) -> (r: Note)
        requires
            12 <= m.0 <= 267,
        ensures
            r.wf(),
            r.linear() == m.0 - 12,
    {
        Note::from_byte((m.0 - 12) as u8)
    }

    /// Equal-tempered frequency of this pitch, in milli-hertz.
    ///
    /// Implements `Hz = 27.5 * 2^((linear - linear(A0)) / 12)` exactly on the
    /// milli-hertz grid: one table of the twelve ratios within an octave,
    /// doubled once per octave above A0. Pitches below A0 have no frequency
    /// here, as in the byte arithmetic this table mirrors.
    pub fn to_hz(&self) -> (r: Hz)
        requires
            self.wf(),
            self.linear() >= 9,
        ensures
            r.0 == hz_millis(self.linear()),
            r.0 <= 54434725888,
    {
        let d: u8 = self.to_byte() - 9;
        let base: u64 = semitone_ratio(d % 12);
        let e: u8 = d / 12;
        let mut r: u64 = base;
        let mut i: u8 = 0;
        proof {
            lemma2_to64();
            assert(r == base * pow2(0));
        }
        while i < e
            invariant
                i <= e,
                e <= 20,
                27500 <= base <= 51913,
                r == base * pow2(i as nat),
            decreases e - i,
        {
            proof {
                lemma2_to64();
                if ((i + 1) as nat) < 20 {
                    lemma_pow2_strictly_increases((i + 1) as nat, 20);
                }
                lemma_mul_upper_bound(base as int, 51913, pow2((i + 1) as nat) as int, pow2(20) as int);
                lemma_pow2_adds(i as nat, 1);
                lemma_mul_is_associative(base as int, pow2(i as nat) as int, pow2(1) as int);
            }
            r = r * 2;
            i = i + 1;
        }
        proof {
            lemma2_to64();
            if (i as nat) < 20 {
                lemma_pow2_strictly_increases(i as nat, 20);
            }
            lemma_mul_upper_bound(base as int, 51913, pow2(i as nat) as int, pow2(20) as int);
        }
        Hz(r)
    }
}

/// Frequency in milli-hertz of the twelve pitches of the lowest octave above
/// A0, indexed from A0 itself: `27500 * 2^(j / 12)` rounded to the nearest
/// milli-hertz.
pub open spec fn semitone_ratio_millis(j: int) -> int {
    if j == 0 {
        27500
    } else if j == 1 {
        29135
    } else if j == 2 {
        30868
    } else if j == 3 {
        32703
    } else if j == 4 {
        34648
    } else if j == 5 {
        36708
    } else if j == 6 {
        38891
    } else if j == 7 {
        41203
    } else if j == 8 {
        43654
    } else if j == 9 {
        46249
    } else if j == 10 {
        48999
    } else {
        51913
    }
}

/// Frequency in milli-hertz of the pitch with linear encoding `l`,
/// counted in semitones `d = l - 9` above A0.
pub open spec fn hz_millis(l: int) -> int {
    semitone_ratio_millis((l - 9) % 12) * pow2((((l - 9) / 12)) as nat)
}

fn semitone_ratio(j: u8) -> (r: u64)
    requires
        j < 12,
    ensures
        r == semitone_ratio_millis(j as int),
        27500 <= r <= 51913,
{
    match j {
        0 => 27500,
        1 => 29135,
        2 => 30868,
        3 => 32703,
        4 => 34648,
        5 => 36708,
        6 => 38891,
        7 => 41203,
        8 => 43654,
        9 => 46249,
        10 => 48999,
        _ => 51913,
    }
}

/// Shifting the added offset by a whole multiple of 256 does not change the
/// transposed byte encoding.
proof fn lemma_transpose_offset_vanishes(l: int, k: int)
    requires
        0 <= l < 256,
    ensures
        (l + (k + 32768)) % 256 == (l + k) % 256,
{
    lemma_add_mod_noop_right(l + k, 32768, 256);
    lemma_mod_multiples_vanish(128, 0, 256);
    assert(32768int % 256 == 0);
}

/// Octave-doubling law: transposing a pitch up by twelve semitones exactly
/// doubles its frequency on the milli-hertz grid.
pub proof fn lemma_octave_doubles(l: int)
    requires
        9 <= l,
        l + 12 <= 255,
    ensures
        hz_millis(l + 12) == 2 * hz_millis(l),
{
    let d = l - 9;
    let q = d / 12;
    let m = d % 12;
    vstd::arithmetic::div_mod::lemma_fundamental_div_mod(d, 12);
    lemma_fundamental_div_mod_converse(d + 12, 12, q + 1, m);
    assert((d + 12) % 12 == m);
    assert((d + 12) / 12 == q + 1);
    lemma_pow2_adds(q as nat, 1);
    lemma2_to64();
    assert(pow2((q + 1) as nat) == pow2(q as nat) * 2);
    let s = semitone_ratio_millis(m);
    assert(s * (pow2(q as nat) * 2) == 2 * (s * pow2(q as nat))) by {
        lemma_mul_is_associative(s, pow2(q as nat) as int, 2);
        lemma_mul_is_commutative(s * pow2(q as nat), 2);
    }
}

/// Round-trip law for transposition: shifting by `k` semitones and then by
/// `-k` returns every valid pitch to itself, the byte encoding wrapping and
/// unwrapping in step.
pub proof fn lemma_transpose_round_trip(l: int, k: int)
    requires
        0 <= l < 256,
    ensures
        ((l + k) % 256 + (-k)) % 256 == l,
{
    lemma_add_mod_noop_right(-k, l + k, 256);
    assert((-k + (l + k) % 256) % 256 == (-k + (l + k)) % 256);
    lemma_small_mod(l as nat, 256);
}

/// A frequency in milli-hertz.
#[derive(Debug, Clone, Copy, PartialEq, Eq, Structural)]
pub struct Hz(pub u64);

/// A MIDI note number.
#[derive(Debug, Clone, Copy, PartialEq, Eq, Structural)]
pub struct MidiNote(pub u32);

} // verus!
