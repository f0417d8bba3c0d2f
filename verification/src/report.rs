//! What an analysis reports.

use vstd::prelude::*;

verus! {

/// How the pulses of a transmitter carry their bits.
#[derive(Clone, Copy, Debug, PartialEq, Eq)]
pub enum Modulation {
    /// Pulse width modulation: a long mark is a 1.
    PulseWidth,
    /// Pulse distance modulation: a long space is a 1.
    PulseDistance,
}

/// Average durations in microseconds, each rounded down.
#[derive(Clone, Copy, Debug, PartialEq, Eq)]
pub struct Timings {
    pub preamble_mark: u32,
    pub preamble_space: u32,
    pub bit0_mark: u32,
    pub bit0_space: u32,
    pub bit1_mark: u32,
    pub bit1_space: u32,
}

/// [`Timings`] over the natural numbers.
pub struct TimingsView {
    pub preamble_mark: nat,
    pub preamble_space: nat,
    pub bit0_mark: nat,
    pub bit0_space: nat,
    pub bit1_mark: nat,
    pub bit1_space: nat,
}

impl View for Timings {
    type V = TimingsView;

    open spec fn view(&self) -> TimingsView {
        TimingsView {
            preamble_mark: self.preamble_mark as nat,
            preamble_space: self.preamble_space as nat,
            bit0_mark: self.bit0_mark as nat,
            bit0_space: self.bit0_space as nat,
            bit1_mark: self.bit1_mark as nat,
            bit1_space: self.bit1_space as nat,
        }
    }
}

/// Where the bits end: the position of the first very long space among the
/// spaces that follow the preambles, and half of the longest space up to
/// and including it.
#[derive(Clone, Copy, Debug, PartialEq, Eq)]
pub struct RepeatMarker {
    pub index: usize,
    pub long_space: u32,
}

/// A [`RepeatMarker`] over the natural numbers.
pub struct RepeatMarkerView {
    pub index: nat,
    pub long_space: nat,
}

impl View for RepeatMarker {
    type V = RepeatMarkerView;

    open spec fn view(&self) -> RepeatMarkerView {
        RepeatMarkerView { index: self.index as nat, long_space: self.long_space as nat }
    }
}

/// The view of an optional marker.
pub open spec fn marker_view(marker: Option<RepeatMarker>) -> Option<RepeatMarkerView> {
    match marker {
        Some(m) => Some(m@),
        None => None,
    }
}

/// The thresholds by which one pulse is read as a bit.
#[derive(Clone, Copy, Debug, PartialEq, Eq)]
pub struct Decoder {
    pub modulation: Modulation,
    pub mark_divider: u32,
    pub space_divider: u32,
    pub repeat_marker: Option<RepeatMarker>,
}

/// A [`Decoder`] over the natural numbers.
pub struct DecoderView {
    pub modulation: Modulation,
    pub mark_divider: nat,
    pub space_divider: nat,
    pub repeat_marker: Option<RepeatMarkerView>,
}

impl View for Decoder {
    type V = DecoderView;

    open spec fn view(&self) -> DecoderView {
        DecoderView {
            modulation: self.modulation,
            mark_divider: self.mark_divider as nat,
            space_divider: self.space_divider as nat,
            repeat_marker: marker_view(self.repeat_marker),
        }
    }
}

/// A raw button read as bits.
#[derive(Clone, Debug, PartialEq, Eq)]
pub struct Decoded {
    /// One bit for each pulse pair of the bit region, in order.
    pub bits: Vec<bool>,
    /// The durations that were not read as bits: mark and space of each
    /// later pulse pair, then the trailing mark if there is one.
    pub extra: Vec<u32>,
}

/// A [`Decoded`] as plain sequences.
pub struct DecodedView {
    pub bits: Seq<bool>,
    pub extra: Seq<u32>,
}

impl View for Decoded {
    type V = DecodedView;

    open spec fn view(&self) -> DecodedView {
        DecodedView { bits: self.bits@, extra: self.extra@ }
    }
}

/// What is reported of one button: its name and, for a raw button, what it
/// decodes to.
#[derive(Clone, Debug, PartialEq, Eq)]
pub struct ButtonReport {
    pub name: Vec<u8>,
    pub decoded: Option<Decoded>,
}

/// A [`ButtonReport`] as plain sequences.
pub struct ButtonReportView {
    pub name: Seq<u8>,
    pub decoded: Option<DecodedView>,
}

impl View for ButtonReport {
    type V = ButtonReportView;

    open spec fn view(&self) -> ButtonReportView {
        ButtonReportView {
            name: self.name@,
            decoded: match self.decoded {
                Some(d) => Some(d@),
                None => None,
            },
        }
    }
}

impl DeepView for ButtonReport {
    type V = ButtonReportView;

    open spec fn deep_view(&self) -> ButtonReportView {
        self@
    }
}

/// The analysis of one capture file.
#[derive(Clone, Debug, PartialEq, Eq)]
pub struct Report {
    pub timings: Timings,
    pub decoder: Decoder,
    /// One entry for each button of the file, in the file's order.
    pub buttons: Vec<ButtonReport>,
}

/// A [`Report`] as plain sequences.
pub struct ReportView {
    pub timings: TimingsView,
    pub decoder: DecoderView,
    pub buttons: Seq<ButtonReportView>,
}

impl View for Report {
    type V = ReportView;

    open spec fn view(&self) -> ReportView {
        ReportView {
            timings: self.timings@,
            decoder: self.decoder@,
            buttons: self.buttons.deep_view(),
        }
    }
}

impl Modulation {
    /// The name of the modulation in words.
    pub fn label(&self) -> (r: &'static str)
        ensures
            r@ == match *self {
                Modulation::PulseWidth => "Pulse Width Modulation"@,
                Modulation::PulseDistance => "Pulse Distance Modulation"@,
            },
    {
        match self {
            Modulation::PulseWidth => "Pulse Width Modulation",
            Modulation::PulseDistance => "Pulse Distance Modulation",
        }
    }
}

/// The space that stands before each group of bits.
pub const SPACE: u8 = 0x20;

/// The digit that writes a bit.
pub open spec fn bit_digit(bit: bool) -> u8 {
    if bit {
        0x31
    } else {
        0x30
    }
}

/// Bits written as the digits `0` and `1` in groups of eight, with a space
/// before each group; the last group may be shorter.
pub open spec fn bit_text(bits: Seq<bool>) -> Seq<u8>
    decreases bits.len(),
{
    if bits.len() == 0 {
        Seq::empty()
    } else if (bits.len() - 1) % 8 == 0 {
        bit_text(bits.drop_last()).push(SPACE).push(bit_digit(bits.last()))
    } else {
        bit_text(bits.drop_last()).push(bit_digit(bits.last()))
    }
}

/// Writes bits in groups of eight, with a space before each group.
pub fn group_bits(bits: &[bool]) -> (r: Vec<u8>)
    ensures
        r@ == bit_text(bits@),
{
    let mut text: Vec<u8> = Vec::new();
    let mut i: usize = 0;
    while i < bits.len()
        invariant
            i <= bits.len(),
            text@ == bit_text(bits@.take(i as int)),
        decreases bits.len() - i,
    {
        proof {
            assert(bits@.take(i + 1).drop_last() =~= bits@.take(i as int));
        }
        if i % 8 == 0 {
            text.push(SPACE);
        }
        text.push(if bits[i] { 0x31 } else { 0x30 });
        i += 1;
    }
    proof {
        assert(bits@.take(i as int) =~= bits@);
    }
    text
}

} // verus!
