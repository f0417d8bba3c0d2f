//! From the text of a capture file to its report.

use crate::analyze::{analysis, analyze, preambles, yields_report};
use crate::error::{AnalyzeError, AnalyzeFailure};
use crate::button::ButtonView;
use crate::parse::{lemma_file_is_written, parse_capture, spec_capture};
use crate::report::{Report, ReportView};
use vstd::prelude::*;

verus! {

/// The report of the capture file that `s` holds: a format failure where `s`
/// is no capture file from its first byte to its last, the analysis of its
/// buttons otherwise.
pub open spec fn capture_analysis(s: Seq<u8>) -> Result<ReportView, AnalyzeFailure> {
    match spec_capture(s) {
        Err(e) => Err(AnalyzeFailure::Format(e)),
        Ok(buttons) => analysis(buttons),
    }
}

/// Reads the whole text of a capture file and analyses its buttons.
pub fn analyze_capture(input: &[u8]) -> (r: Result<Report, AnalyzeError>)
    ensures
        yields_report(r, capture_analysis(input@)),
{
    match parse_capture(input) {
        Err(e) => Err(AnalyzeError::Format(e)),
        Ok(buttons) => analyze(buttons.as_slice()),
    }
}

/// A text never gives an empty file: what the grammar reads holds a button.
/// And where a text gives no raw data, all its buttons are parsed buttons.
pub proof fn lemma_no_raw_data(s: Seq<u8>)
    ensures
        capture_analysis(s) != Err::<ReportView, AnalyzeFailure>(AnalyzeFailure::EmptyFile),
        capture_analysis(s) == Err::<ReportView, AnalyzeFailure>(AnalyzeFailure::NoRawData) ==> {
            &&& spec_capture(s) is Ok
            &&& forall|i: int|
                0 <= i < spec_capture(s)->Ok_0.len() ==> (#[trigger] spec_capture(
                    s,
                )->Ok_0[i]).kind is Parsed
        },
{
    lemma_file_is_written(s);
    if let Ok(buttons) = spec_capture(s) {
        lemma_no_preambles(buttons);
    }
}

/// Where a list of buttons has no preamble, none of its buttons holds a
/// pulse pair.
pub proof fn lemma_no_preambles(buttons: Seq<ButtonView>)
    ensures
        preambles(buttons).len() == 0 <==> forall|i: int|
            0 <= i < buttons.len() ==> (#[trigger] buttons[i]).data().len() == 0,
    decreases buttons.len(),
{
    if buttons.len() > 0 {
        let front = buttons.drop_last();
        lemma_no_preambles(front);
        if preambles(buttons).len() == 0 {
            assert forall|i: int| 0 <= i < buttons.len() implies (#[trigger] buttons[i]).data().len()
                == 0 by {
                if i < front.len() {
                    assert(front[i] == buttons[i]);
                }
            }
        } else if preambles(front).len() > 0 {
            let i = choose|i: int| 0 <= i < front.len() && (#[trigger] front[i]).data().len() != 0;
            assert(buttons[i] == front[i]);
        }
    }
}

} // verus!
