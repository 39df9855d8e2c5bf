use vstd::prelude::*;

verus! {

/// The shape of the wave a sound starts from.
#[derive(Copy, Clone, PartialEq, Eq, Debug, Structural)]
pub enum Waveform {
    Sine,
    Square,
    Triangle,
    Sawtooth,
    WhiteNoise,
    PinkNoise,
    BrownNoise,
    PitchedWhite,
    PitchedPink,
    Experimental,
}

impl Default for Waveform {
    fn default() -> (r: Waveform)
        ensures
            r == Waveform::Sine,
    {
        Waveform::Sine
    }
}

/// Every waveform with its display name, in the order they are offered.
pub open spec fn waveforms_spec() -> Seq<(Waveform, Seq<char>)> {
    seq![
        (Waveform::Sine, "Sine"@),
        (Waveform::Square, "Square"@),
        (Waveform::Triangle, "Triangle"@),
        (Waveform::Sawtooth, "Sawtooth"@),
        (Waveform::WhiteNoise, "White noise"@),
        (Waveform::PinkNoise, "Pink noise"@),
        (Waveform::BrownNoise, "Brown noise"@),
        (Waveform::PitchedWhite, "Pitched white"@),
        (Waveform::PitchedPink, "Pitched pink"@),
        (Waveform::Experimental, "Experimental"@),
    ]
}

/// Every waveform with its display name.
pub fn waveforms_list() -> (r: Vec<(Waveform, &'static str)>)
    ensures
        r@.len() == waveforms_spec().len(),
        forall|i: int|
            0 <= i < r@.len() ==> (#[trigger] r@[i]).0 == waveforms_spec()[i].0 && r@[i].1@
                == waveforms_spec()[i].1,
{
    let r = vec![
        (Waveform::Sine, "Sine"),
        (Waveform::Square, "Square"),
        (Waveform::Triangle, "Triangle"),
        (Waveform::Sawtooth, "Sawtooth"),
        (Waveform::WhiteNoise, "White noise"),
        (Waveform::PinkNoise, "Pink noise"),
        (Waveform::BrownNoise, "Brown noise"),
        (Waveform::PitchedWhite, "Pitched white"),
        (Waveform::PitchedPink, "Pitched pink"),
        (Waveform::Experimental, "Experimental"),
    ];
    r
}

/// Every waveform is listed exactly once.
pub proof fn law_each_waveform_listed_once(w: Waveform)
    ensures
        exists|i: int| 0 <= i < waveforms_spec().len() && (#[trigger] waveforms_spec()[i]).0 == w,
        forall|i: int, j: int|
            0 <= i < j < waveforms_spec().len() ==> (#[trigger] waveforms_spec()[i]).0
                != (#[trigger] waveforms_spec()[j]).0,
{
    let s = waveforms_spec();
    let i = match w {
        Waveform::Sine => 0int,
        Waveform::Square => 1,
        Waveform::Triangle => 2,
        Waveform::Sawtooth => 3,
        Waveform::WhiteNoise => 4,
        Waveform::PinkNoise => 5,
        Waveform::BrownNoise => 6,
        Waveform::PitchedWhite => 7,
        Waveform::PitchedPink => 8,
        Waveform::Experimental => 9,
    };
    assert(s[i].0 == w);
}

/// A number that tells apart the things it was handed to.
#[derive(Copy, Clone, PartialEq, Eq, Debug, Structural)]
pub struct SerialNumber(pub u64);

/// Hands out serial numbers in increasing order, starting from 0.
pub struct SerialNumbers {
    next: u64,
}

impl View for SerialNumbers {
    /// The next number to hand out.
    type V = int;

    closed spec fn view(&self) -> int {
        self.next as int
    }
}

impl SerialNumbers {
    /// A source that hands out 0 first.
    pub fn new() -> (r: SerialNumbers)
        ensures
            r@ == 0,
    {
        SerialNumbers { next: 0 }
    }

    /// The next serial number; the source moves on by one.
    pub fn next_serial_number(&mut self) -> (r: SerialNumber)
        requires
            old(self)@ < u64::MAX,
        ensures
            r.0 == old(self)@,
            final(self)@ == old(self)@ + 1,
    {
        let this = self.next;
        self.next = this + 1;
        SerialNumber(this)
    }
}

/// A number handed out by a source is smaller than every number the source hands out later, so
/// no number is handed out twice.
pub proof fn law_serial_numbers_increase(earlier: SerialNumber, source_after: int, later: SerialNumber)
    requires
        source_after == earlier.0 + 1,
        later.0 >= source_after,
    ensures
        earlier.0 < later.0,
        earlier != later,
{
}

} // verus!
