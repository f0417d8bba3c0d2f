//! Telling the modulation of a transmitter from the raw pulses of its
//! buttons, and reading those pulses as bits.
//!
//! All raw buttons of a file are measured together, since the buttons of one
//! transmitter share one encoding. The first pulse pair of a button is its
//! preamble; the pairs after it are candidates for bits.
//!
//! The candidates of all buttons, one button after the other, make one
//! train. Its spaces are searched for a repeat marker: the first space that
//! is more than ten times the mean of the spaces before it. The thresholds
//! are taken from the part of the train before the marker, or from all of it
//! where there is no marker. The marker's position then bounds the bits of
//! every button alike: of each button, the candidates before that position
//! are read as bits, and those from it on are handed on as they are.
//!
//! Marks and spaces are each parted at the midpoint between their smallest
//! and their largest value. Where one side of a midpoint is empty, there is
//! no average to take of it, and the analysis fails.

use crate::button::{Button, ButtonKind, ButtonKindView, ButtonView, RawButton};
use crate::error::{AnalyzeError, AnalyzeFailure};
use crate::metrics::{
    avg, largest, lemma_of_bounds, lemma_of_push, mean, measure, smallest, Metrics, MetricsView,
};
use crate::report::{
    marker_view, ButtonReport, ButtonReportView, Decoded, DecodedView, Decoder, DecoderView,
    Modulation, RepeatMarker, RepeatMarkerView, Report, ReportView, Timings, TimingsView,
};
use vstd::prelude::*;
use vstd::slice::slice_to_vec;

verus! {

/// The preambles of all buttons that have one, in the buttons' order.
pub open spec fn preambles(buttons: Seq<ButtonView>) -> Seq<(u32, u32)>
    decreases buttons.len(),
{
    if buttons.len() == 0 {
        Seq::empty()
    } else {
        preambles(buttons.drop_last()) + buttons.last().preamble()
    }
}

/// The pulse pairs after the preambles, of all buttons one after the other.
pub open spec fn pulse_train(buttons: Seq<ButtonView>) -> Seq<(u32, u32)>
    decreases buttons.len(),
{
    if buttons.len() == 0 {
        Seq::empty()
    } else {
        pulse_train(buttons.drop_last()) + buttons.last().pulses()
    }
}

/// The marks of a sequence of pulse pairs.
pub open spec fn marks(pulses: Seq<(u32, u32)>) -> Seq<u32> {
    Seq::new(pulses.len(), |i: int| pulses[i].0)
}

/// The spaces of a sequence of pulse pairs.
pub open spec fn spaces(pulses: Seq<(u32, u32)>) -> Seq<u32> {
    Seq::new(pulses.len(), |i: int| pulses[i].1)
}

/// Whether the space at `i` is very long: some space comes before it, and it
/// is more than ten times the mean of all that do.
pub open spec fn is_long_space(spaces: Seq<u32>, i: int) -> bool {
    0 < i < spaces.len() && spaces[i] > 10 * mean(spaces.take(i))
}

/// The first position from `from` on that holds a very long space.
pub open spec fn first_long_space(spaces: Seq<u32>, from: int) -> Option<int>
    decreases spaces.len() - from,
{
    if from >= spaces.len() {
        None
    } else if is_long_space(spaces, from) {
        Some(from)
    } else {
        first_long_space(spaces, from + 1)
    }
}

/// The repeat marker of a sequence of spaces: the position of its first very
/// long space, with half of the longest space up to and including that one.
pub open spec fn repeat_marker(spaces: Seq<u32>) -> Option<RepeatMarkerView> {
    match first_long_space(spaces, 0) {
        Some(i) => Some(
            RepeatMarkerView { index: i as nat, long_space: largest(spaces.take(i + 1)) / 2 },
        ),
        None => None,
    }
}

/// What `first_long_space` finds is a very long space that no other precedes;
/// where it finds nothing, there is none.
pub proof fn lemma_first_long_space(spaces: Seq<u32>, from: int)
    requires
        0 <= from,
    ensures
        match first_long_space(spaces, from) {
            Some(i) => from <= i && is_long_space(spaces, i) && forall|j: int|
                from <= j < i ==> !is_long_space(spaces, j),
            None => forall|j: int| from <= j ==> !is_long_space(spaces, j),
        },
    decreases spaces.len() - from,
{
    if from < spaces.len() && !is_long_space(spaces, from) {
        lemma_first_long_space(spaces, from + 1);
    }
}

/// Finds the repeat marker among the spaces that follow the preambles.
pub fn find_repeat_marker(spaces: &[u32]) -> (r: Option<RepeatMarker>)
    ensures
        marker_view(r) == repeat_marker(spaces@),
        r matches Some(m) ==> 0 < m.index < spaces@.len(),
{
    let mut metrics = Metrics::new();
    let mut i: usize = 0;
    while i < spaces.len()
        invariant
            i <= spaces.len(),
            metrics@ == MetricsView::of(spaces@.take(i as int)),
            first_long_space(spaces@, 0) == first_long_space(spaces@, i as int),
        decreases spaces.len() - i,
    {
        let value = spaces[i];
        let with_value = metrics.accumulate(value);
        proof {
            lemma_of_push(spaces@.take(i as int), value);
            assert(spaces@.take(i as int).push(value) =~= spaces@.take(i + 1));
            lemma_of_bounds(spaces@.take(i + 1));
        }
        if metrics.count() > 0 && value as u64 > 10 * (metrics.average() as u64) {
            return Some(RepeatMarker { index: i, long_space: with_value.max() / 2 });
        }
        metrics = with_value;
        i += 1;
    }
    None
}

/// Copies out the preambles and the pulse pairs after them.
pub fn collect_pulses(buttons: &[Button]) -> (r: (Vec<(u32, u32)>, Vec<(u32, u32)>))
    ensures
        r.0@ == preambles(buttons.deep_view()),
        r.1@ == pulse_train(buttons.deep_view()),
{
    let ghost views = buttons.deep_view();
    let mut first: Vec<(u32, u32)> = Vec::new();
    let mut rest: Vec<(u32, u32)> = Vec::new();
    let mut i: usize = 0;
    while i < buttons.len()
        invariant
            i <= buttons.len(),
            views == buttons.deep_view(),
            first@ == preambles(views.take(i as int)),
            rest@ == pulse_train(views.take(i as int)),
        decreases buttons.len() - i,
    {
        proof {
            assert(views.take(i + 1).drop_last() =~= views.take(i as int));
            assert(views.take(i + 1).last() == buttons[i as int]@);
        }
        match &buttons[i].kind {
            ButtonKind::Raw(raw) => {
                if raw.data.len() > 0 {
                    first.push(raw.data[0]);
                    let ghost before = rest@;
                    let mut j: usize = 1;
                    while j < raw.data.len()
                        invariant
                            1 <= j <= raw.data.len(),
                            rest@ == before + raw.data@.subrange(1, j as int),
                        decreases raw.data.len() - j,
                    {
                        rest.push(raw.data[j]);
                        j += 1;
                        proof {
                            assert(rest@ =~= before + raw.data@.subrange(1, j as int));
                        }
                    }
                    proof {
                        assert(raw.data@.subrange(1, j as int) =~= raw.data@.skip(1));
                    }
                }
            },
            ButtonKind::Parsed(_) => {},
        }
        proof {
            assert(first@ =~= preambles(views.take(i + 1)));
            assert(rest@ =~= pulse_train(views.take(i + 1)));
        }
        i += 1;
    }
    proof {
        assert(views.take(i as int) =~= views);
    }
    (first, rest)
}

/// Copies out the marks and the spaces of `pulses`, each in order.
pub fn split_pulses(pulses: &[(u32, u32)]) -> (r: (Vec<u32>, Vec<u32>))
    ensures
        r.0@ == marks(pulses@),
        r.1@ == spaces(pulses@),
{
    let mut on: Vec<u32> = Vec::new();
    let mut off: Vec<u32> = Vec::new();
    let mut i: usize = 0;
    while i < pulses.len()
        invariant
            i <= pulses.len(),
            on@ == marks(pulses@.take(i as int)),
            off@ == spaces(pulses@.take(i as int)),
        decreases pulses.len() - i,
    {
        on.push(pulses[i].0);
        off.push(pulses[i].1);
        i += 1;
        proof {
            assert(on@ =~= marks(pulses@.take(i as int)));
            assert(off@ =~= spaces(pulses@.take(i as int)));
        }
    }
    proof {
        assert(pulses@.take(i as int) =~= pulses@);
    }
    (on, off)
}

/// The pulse pairs from which the thresholds are taken: those of the train
/// that come before the repeat marker, or all of them where there is none.
pub open spec fn sample(train: Seq<(u32, u32)>, marker: Option<RepeatMarkerView>) -> Seq<
    (u32, u32),
> {
    match marker {
        Some(m) => train.take(m.index as int),
        None => train,
    }
}

/// Halfway between the smallest and the largest value, rounded down.
pub open spec fn divider(values: Seq<u32>) -> nat {
    (smallest(values) + largest(values)) / 2
}

/// Whether `value` is on the long side of `divider` (`long`) or not (`!long`).
pub open spec fn falls(value: u32, divider: nat, long: bool) -> bool {
    (value > divider) == long
}

/// The values on one side of `divider`, in order: those above it where `long`
/// holds, those up to it where not.
pub open spec fn bucket(values: Seq<u32>, divider: nat, long: bool) -> Seq<u32>
    decreases values.len(),
{
    if values.len() == 0 {
        Seq::empty()
    } else if falls(values.last(), divider, long) {
        bucket(values.drop_last(), divider, long).push(values.last())
    } else {
        bucket(values.drop_last(), divider, long)
    }
}

/// Whether the sampled marks or the sampled spaces leave one side of their
/// divider empty, so that no average can be taken there.
pub open spec fn is_degenerate(pulses: Seq<(u32, u32)>) -> bool {
    let on = marks(pulses);
    let off = spaces(pulses);
    ||| bucket(on, divider(on), false).len() == 0
    ||| bucket(on, divider(on), true).len() == 0
    ||| bucket(off, divider(off), false).len() == 0
    ||| bucket(off, divider(off), true).len() == 0
}

/// The six averages: of the preambles' marks and spaces, and of the sampled
/// marks and spaces on either side of their divider.
pub open spec fn timings(first: Seq<(u32, u32)>, pulses: Seq<(u32, u32)>) -> TimingsView {
    let on = marks(pulses);
    let off = spaces(pulses);
    TimingsView {
        preamble_mark: mean(marks(first)),
        preamble_space: mean(spaces(first)),
        bit0_mark: mean(bucket(on, divider(on), false)),
        bit0_space: mean(bucket(off, divider(off), false)),
        bit1_mark: mean(bucket(on, divider(on), true)),
        bit1_space: mean(bucket(off, divider(off), true)),
    }
}

/// `a - b`, or 0 where `b` is the larger.
pub open spec fn gap(a: nat, b: nat) -> nat {
    if a > b {
        (a - b) as nat
    } else {
        0
    }
}

/// Pulse width modulation where the marks of the two bits differ by more
/// than their spaces do; pulse distance modulation otherwise.
pub open spec fn modulation_of(t: TimingsView) -> Modulation {
    if gap(t.bit1_mark, t.bit0_mark) > gap(t.bit1_space, t.bit0_space) {
        Modulation::PulseWidth
    } else {
        Modulation::PulseDistance
    }
}

/// The bit that one pulse pair carries: whether its mark is above the mark
/// divider (pulse width) or its space above the space divider (pulse
/// distance).
pub open spec fn bit_of(pulse: (u32, u32), decoder: DecoderView) -> bool {
    match decoder.modulation {
        Modulation::PulseWidth => pulse.0 > decoder.mark_divider,
        Modulation::PulseDistance => pulse.1 > decoder.space_divider,
    }
}

/// How many of a button's `available` pulse pairs are bits: those before the
/// repeat marker's position, or all where there is no marker.
pub open spec fn bit_count(marker: Option<RepeatMarkerView>, available: nat) -> nat {
    match marker {
        Some(m) => if m.index < available {
            m.index
        } else {
            available
        },
        None => available,
    }
}

/// Mark and space of each pulse pair, one after the other.
pub open spec fn durations(pulses: Seq<(u32, u32)>) -> Seq<u32> {
    Seq::new(
        2 * pulses.len(),
        |k: int|
            if k % 2 == 0 {
                pulses[k / 2].0
            } else {
                pulses[k / 2].1
            },
    )
}

/// An optional value as a sequence of at most one element.
pub open spec fn optional(value: Option<u32>) -> Seq<u32> {
    match value {
        Some(v) => seq![v],
        None => Seq::empty(),
    }
}

/// What the pulse pairs after a preamble decode to: a bit for each pair of
/// the bit region, and the durations of the pairs after it followed by the
/// trailing mark.
pub open spec fn decoding(pulses: Seq<(u32, u32)>, final_on: Option<u32>, decoder: DecoderView)
    -> DecodedView {
    let n = bit_count(decoder.repeat_marker, pulses.len());
    DecodedView {
        bits: Seq::new(n, |j: int| bit_of(pulses[j], decoder)),
        extra: durations(pulses.skip(n as int)) + optional(final_on),
    }
}

/// What is reported of one button.
pub open spec fn button_report(button: ButtonView, decoder: DecoderView) -> ButtonReportView {
    ButtonReportView {
        name: button.name,
        decoded: match button.kind {
            ButtonKindView::Raw(raw) => Some(decoding(raw.pulses(), raw.final_on, decoder)),
            ButtonKindView::Parsed(_) => None,
        },
    }
}

/// The thresholds that a list of buttons gives.
pub open spec fn decoder_of(buttons: Seq<ButtonView>) -> DecoderView {
    let train = pulse_train(buttons);
    let marker = repeat_marker(spaces(train));
    let pulses = sample(train, marker);
    DecoderView {
        modulation: modulation_of(timings(preambles(buttons), pulses)),
        mark_divider: divider(marks(pulses)),
        space_divider: divider(spaces(pulses)),
        repeat_marker: marker,
    }
}

/// The analysis of a list of buttons. It fails on an empty list, on a list
/// without any pulse pair, and where the sampled pulses are degenerate, in
/// this order.
pub open spec fn analysis(buttons: Seq<ButtonView>) -> Result<ReportView, AnalyzeFailure> {
    let train = pulse_train(buttons);
    let pulses = sample(train, repeat_marker(spaces(train)));
    if buttons.len() == 0 {
        Err(AnalyzeFailure::EmptyFile)
    } else if preambles(buttons).len() == 0 {
        Err(AnalyzeFailure::NoRawData)
    } else if is_degenerate(pulses) {
        Err(AnalyzeFailure::DegenerateBucket)
    } else {
        Ok(
            ReportView {
                timings: timings(preambles(buttons), pulses),
                decoder: decoder_of(buttons),
                buttons: Seq::new(
                    buttons.len(),
                    |i: int| button_report(buttons[i], decoder_of(buttons)),
                ),
            },
        )
    }
}

/// Whether a result `r` is what the specification `expected` asks for: a
/// report with the same contents, or the same failure.
pub open spec fn yields_report(
    r: Result<Report, AnalyzeError>,
    expected: Result<ReportView, AnalyzeFailure>,
) -> bool {
    match (r, expected) {
        (Ok(report), Ok(view)) => report@ == view,
        (Err(e), Err(failure)) => e@ == failure,
        _ => false,
    }
}

/// Analysing the same buttons twice gives the same: reports that agree in
/// the modulation, the thresholds, the averages and every decoded button, or
/// the same failure.
pub proof fn lemma_analysis_repeats(
    buttons: Seq<ButtonView>,
    first: Result<Report, AnalyzeError>,
    second: Result<Report, AnalyzeError>,
)
    requires
        yields_report(first, analysis(buttons)),
        yields_report(second, analysis(buttons)),
    ensures
        match (first, second) {
            (Ok(a), Ok(b)) => a@ == b@,
            (Err(a), Err(b)) => a == b,
            _ => false,
        },
{
}

/// Every pulse pair after the preamble is read as a bit or handed on with
/// both its durations; without a repeat marker every pair is a bit.
pub proof fn lemma_decoding_keeps_all(
    pulses: Seq<(u32, u32)>,
    final_on: Option<u32>,
    decoder: DecoderView,
)
    ensures
        decoding(pulses, final_on, decoder).bits.len() <= pulses.len(),
        decoding(pulses, final_on, decoder).extra.len() == 2 * (pulses.len() - decoding(
            pulses,
            final_on,
            decoder,
        ).bits.len()) + optional(final_on).len(),
        decoder.repeat_marker is None ==> decoding(pulses, final_on, decoder).bits.len()
            == pulses.len(),
{
}

/// One side of a divider is empty where no value falls on it, and only
/// there.
pub proof fn lemma_bucket_empty(values: Seq<u32>, divider: nat, long: bool)
    ensures
        bucket(values, divider, long).len() == 0 <==> forall|i: int|
            0 <= i < values.len() ==> !falls(#[trigger] values[i], divider, long),
    decreases values.len(),
{
    if values.len() > 0 {
        let front = values.drop_last();
        lemma_bucket_empty(front, divider, long);
        if bucket(values, divider, long).len() == 0 {
            assert forall|i: int| 0 <= i < values.len() implies !falls(
                #[trigger] values[i],
                divider,
                long,
            ) by {
                if i < front.len() {
                    assert(front[i] == values[i]);
                }
            }
        } else if !falls(values.last(), divider, long) {
            let i = choose|i: int| 0 <= i < front.len() && falls(#[trigger] front[i], divider, long);
            assert(values[i] == front[i]);
        }
    }
}

/// The sampled pulses are degenerate where there are none, where all their
/// marks are equal, and where all their spaces are equal; nowhere else.
pub proof fn lemma_degenerate(pulses: Seq<(u32, u32)>)
    ensures
        is_degenerate(pulses) <==> {
            ||| pulses.len() == 0
            ||| smallest(marks(pulses)) == largest(marks(pulses))
            ||| smallest(spaces(pulses)) == largest(spaces(pulses))
        },
{
    lemma_sides(marks(pulses));
    lemma_sides(spaces(pulses));
}

/// The short side of the divider of `values` is empty only where `values`
/// is; the long side also where all values are equal.
pub proof fn lemma_sides(values: Seq<u32>)
    ensures
        bucket(values, divider(values), false).len() == 0 <==> values.len() == 0,
        bucket(values, divider(values), true).len() == 0 <==> values.len() == 0 || smallest(values)
            == largest(values),
{
    lemma_of_bounds(values);
    lemma_bucket_empty(values, divider(values), false);
    lemma_bucket_empty(values, divider(values), true);
    if values.len() > 0 {
        let lo = choose|i: int| 0 <= i < values.len() && #[trigger] values[i] == smallest(values);
        let hi = choose|i: int| 0 <= i < values.len() && #[trigger] values[i] == largest(values);
        assert(!falls(values[lo], divider(values), true));
        assert(falls(values[hi], divider(values), true) <==> smallest(values) < largest(values));
    }
}

/// Halfway between the smallest and the largest of `values`, rounded down.
pub fn midpoint(values: &[u32]) -> (r: u32)
    ensures
        r == divider(values@),
{
    let metrics = measure(values);
    proof {
        lemma_of_bounds(values@);
    }
    ((metrics.min() as u64 + metrics.max() as u64) / 2) as u32
}

/// The values of one side of `divider`, in order.
pub fn select(values: &[u32], divider: u32, long: bool) -> (r: Vec<u32>)
    ensures
        r@ == bucket(values@, divider as nat, long),
{
    let mut chosen: Vec<u32> = Vec::new();
    let mut i: usize = 0;
    while i < values.len()
        invariant
            i <= values.len(),
            chosen@ == bucket(values@.take(i as int), divider as nat, long),
        decreases values.len() - i,
    {
        proof {
            assert(values@.take(i + 1).drop_last() =~= values@.take(i as int));
        }
        if (values[i] > divider) == long {
            chosen.push(values[i]);
        }
        i += 1;
    }
    proof {
        assert(values@.take(i as int) =~= values@);
    }
    chosen
}

/// Tells the modulation from the averages of the two bits.
pub fn classify(timings: &Timings) -> (r: Modulation)
    ensures
        r == modulation_of(timings@),
{
    let mark_gap = timings.bit1_mark.saturating_sub(timings.bit0_mark);
    let space_gap = timings.bit1_space.saturating_sub(timings.bit0_space);
    if mark_gap > space_gap {
        Modulation::PulseWidth
    } else {
        Modulation::PulseDistance
    }
}

/// Reads one pulse pair as a bit.
pub fn read_bit(pulse: (u32, u32), decoder: &Decoder) -> (r: bool)
    ensures
        r == bit_of(pulse, decoder@),
{
    match decoder.modulation {
        Modulation::PulseWidth => pulse.0 > decoder.mark_divider,
        Modulation::PulseDistance => pulse.1 > decoder.space_divider,
    }
}

/// Decodes one raw button: the pulse pairs after its preamble and before the
/// repeat marker's position become bits, the later ones and the trailing
/// mark are handed on as they are.
pub fn decode(raw: &RawButton, decoder: &Decoder) -> (r: Decoded)
    ensures
        r@ == decoding(raw@.pulses(), raw.final_on, decoder@),
{
    let ghost pulses = raw@.pulses();
    let available: usize = if raw.data.len() > 0 {
        raw.data.len() - 1
    } else {
        0
    };
    let n: usize = match decoder.repeat_marker {
        Some(m) => if m.index < available {
            m.index
        } else {
            available
        },
        None => available,
    };
    assert(n == bit_count(decoder@.repeat_marker, pulses.len()));
    let mut bits: Vec<bool> = Vec::new();
    let mut j: usize = 0;
    while j < n
        invariant
            j <= n <= available,
            available == pulses.len(),
            available > 0 ==> available + 1 == raw.data.len(),
            forall|k: int| 0 <= k < available ==> pulses[k] == raw.data@[k + 1],
            bits@ == Seq::new(j as nat, |k: int| bit_of(pulses[k], decoder@)),
        decreases n - j,
    {
        bits.push(read_bit(raw.data[j + 1], decoder));
        j += 1;
        proof {
            assert(bits@ =~= Seq::new(j as nat, |k: int| bit_of(pulses[k], decoder@)));
        }
    }
    let mut extra: Vec<u32> = Vec::new();
    while j < available
        invariant
            n <= j <= available,
            available == pulses.len(),
            available > 0 ==> available + 1 == raw.data.len(),
            forall|k: int| 0 <= k < available ==> pulses[k] == raw.data@[k + 1],
            extra@ == durations(pulses.subrange(n as int, j as int)),
        decreases available - j,
    {
        let pulse = raw.data[j + 1];
        extra.push(pulse.0);
        extra.push(pulse.1);
        j += 1;
        proof {
            assert(extra@ =~= durations(pulses.subrange(n as int, j as int)));
        }
    }
    proof {
        assert(pulses.subrange(n as int, j as int) =~= pulses.skip(n as int));
    }
    match raw.final_on {
        Some(last) => {
            extra.push(last);
        },
        None => {},
    }
    proof {
        assert(extra@ =~= durations(pulses.skip(n as int)) + optional(raw.final_on));
    }
    Decoded { bits, extra }
}

/// Reports one button: its name and, for a raw button, its decoding.
pub fn report_button(button: &Button, decoder: &Decoder) -> (r: ButtonReport)
    ensures
        r@ == button_report(button@, decoder@),
{
    let name = slice_to_vec(button.name.as_slice());
    match &button.kind {
        ButtonKind::Raw(raw) => ButtonReport { name, decoded: Some(decode(raw, decoder)) },
        ButtonKind::Parsed(_) => ButtonReport { name, decoded: None },
    }
}

/// Analyses the buttons of one capture file: takes the thresholds from all
/// raw buttons together, tells the modulation, and decodes each button.
pub fn analyze(buttons: &[Button]) -> (r: Result<Report, AnalyzeError>)
    ensures
        yields_report(r, analysis(buttons.deep_view())),
{
    let ghost views = buttons.deep_view();
    if buttons.len() == 0 {
        return Err(AnalyzeError::EmptyFile);
    }
    let (first, train) = collect_pulses(buttons);
    if first.len() == 0 {
        return Err(AnalyzeError::NoRawData);
    }
    let (_, train_spaces) = split_pulses(train.as_slice());
    let marker = find_repeat_marker(train_spaces.as_slice());
    let sampled: usize = match marker {
        Some(m) => m.index,
        None => train.len(),
    };
    let pulses = vstd::slice::slice_subrange(train.as_slice(), 0, sampled);
    assert(pulses@ =~= sample(train@, marker_view(marker)));
    let (on, off) = split_pulses(pulses);
    let (first_on, first_off) = split_pulses(first.as_slice());
    let mark_divider = midpoint(on.as_slice());
    let space_divider = midpoint(off.as_slice());
    let bit0_mark = avg(select(on.as_slice(), mark_divider, false).as_slice());
    let bit0_space = avg(select(off.as_slice(), space_divider, false).as_slice());
    let bit1_mark = avg(select(on.as_slice(), mark_divider, true).as_slice());
    let bit1_space = avg(select(off.as_slice(), space_divider, true).as_slice());
    let preamble_mark = avg(first_on.as_slice());
    let preamble_space = avg(first_off.as_slice());
    match (preamble_mark, preamble_space, bit0_mark, bit0_space, bit1_mark, bit1_space) {
        (Some(pm), Some(ps), Some(m0), Some(s0), Some(m1), Some(s1)) => {
            let timings = Timings {
                preamble_mark: pm,
                preamble_space: ps,
                bit0_mark: m0,
                bit0_space: s0,
                bit1_mark: m1,
                bit1_space: s1,
            };
            let decoder = Decoder {
                modulation: classify(&timings),
                mark_divider,
                space_divider,
                repeat_marker: marker,
            };
            assert(decoder@ == decoder_of(views));
            let mut reports: Vec<ButtonReport> = Vec::new();
            let mut i: usize = 0;
            while i < buttons.len()
                invariant
                    i <= buttons.len(),
                    views == buttons.deep_view(),
                    reports.len() == i,
                    reports.deep_view() == Seq::new(
                        i as nat,
                        |k: int| button_report(views[k], decoder@),
                    ),
                decreases buttons.len() - i,
            {
                let ghost before = reports;
                reports.push(report_button(&buttons[i], &decoder));
                i += 1;
                proof {
                    assert forall|k: int| 0 <= k < i implies #[trigger] reports.deep_view()[k]
                        == button_report(views[k], decoder@) by {
                        if k < i - 1 {
                            assert(reports@[k] == before@[k]);
                            assert(before.deep_view()[k] == button_report(views[k], decoder@));
                        }
                    }
                    assert(reports.deep_view() =~= Seq::new(
                        i as nat,
                        |k: int| button_report(views[k], decoder@),
                    ));
                }
            }
            Ok(Report { timings, decoder, buttons: reports })
        },
        _ => Err(AnalyzeError::DegenerateBucket),
    }
}

} // verus!
