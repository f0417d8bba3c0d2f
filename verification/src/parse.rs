//! The grammar of capture files.
//!
//! ```text
//! file        := header comment button (comment button)*
//! header      := "Filetype: " TEXT "\n" "Version: " VERSION "\n"
//! comment     := "#" TEXT "\n"
//! button      := "name: " TEXT "\n" (parsed-body | raw-body)
//! parsed-body := "type: parsed\n" "protocol: " TEXT "\n"
//!                "address: " TEXT "\n" "command: " TEXT "\n"
//! raw-body    := "type: raw\n" "frequency: " UINT "\n"
//!                "duty_cycle: " DECIMAL "\n"
//!                "data: " UINT " " UINT (" " UINT " " UINT)* (" " UINT)? "\n"
//! ```
//!
//! `TEXT` is everything up to the next newline. `UINT` is a run of digits
//! that fits in 32 bits; `VERSION` is the same with an optional `+` before it;
//! `DECIMAL` is a run of digits with at most one full stop.

use crate::button::{
    Button, ButtonKind, ButtonKindView, ButtonView, ParsedButton, ParsedButtonView, RawButton,
    RawButtonView,
};
use crate::error::{ParseError, ParseErrorKind, ParseFailure};
use crate::number::{
    f32_str, is_decimal, lemma_number_rest, spec_f32_str, spec_u32_str, u32_str,
};
use crate::text::{
    follows_line, is_rest_of, leaves_rest, lemma_line_after, lemma_line_of_rest,
    lemma_newline_rest, lemma_rest_of_rest, mismatch, newline, reads_lines, rest_of_line, skip,
    spec_newline, spec_rest_of_line, spec_tag, tag, yields, ParseResult, Parsed, NEWLINE,
};
use vstd::prelude::*;
use vstd::slice::slice_to_vec;
use vstd::string::StringSliceAdditionalSpecFns;

verus! {

/// The sign that may stand before a version number.
pub const PLUS: u8 = 0x2b;

/// A comment line: `#`, any text, a newline.
pub open spec fn spec_comment(s: Seq<u8>) -> Parsed<Seq<u8>> {
    match spec_tag("#".spec_bytes(), s) {
        Err(e) => Err(e),
        Ok((s1, _)) => spec_rest_of_line(s1),
    }
}

/// Reads a comment line and gives the text between `#` and the newline.
/// Fails with a mismatch, all of `input` left, where `input` does not begin
/// with `#`, and as unterminated where no newline follows.
pub fn comment(input: &[u8]) -> (r: ParseResult<'_, &[u8]>)
    ensures
        yields(r, spec_comment(input@)),
{
    let (rest, _) = tag("#".as_bytes(), input)?;
    rest_of_line(rest)
}

/// A line `key: text`: the key, a colon and a space, any text, a newline.
pub open spec fn spec_line(key: Seq<u8>, s: Seq<u8>) -> Parsed<Seq<u8>> {
    match spec_tag(key, s) {
        Err(e) => Err(e),
        Ok((s1, _)) => match spec_tag(": ".spec_bytes(), s1) {
            Err(e) => Err(e),
            Ok((s2, _)) => spec_rest_of_line(s2),
        },
    }
}

/// Reads a line `key: text` and gives the text. Fails with a mismatch where
/// the key or the colon and space after it are not there, with what is left
/// at that place, and as unterminated where no newline follows.
pub fn line<'a>(key: &str, input: &'a [u8]) -> (r: ParseResult<'a, &'a [u8]>)
    ensures
        yields(r, spec_line(key.spec_bytes(), input@)),
{
    let (rest, _) = tag(key.as_bytes(), input)?;
    let (rest, _) = tag(": ".as_bytes(), rest)?;
    rest_of_line(rest)
}

/// The number that the text of a version line writes: digits, with an
/// optional `+` before them, and nothing else.
pub open spec fn spec_version(text: Seq<u8>) -> Option<u32> {
    let digits = if text.len() > 0 && text[0] == PLUS {
        text.skip(1)
    } else {
        text
    };
    match spec_u32_str(digits) {
        Ok((rest, value)) => if rest.len() == 0 {
            Some(value)
        } else {
            None
        },
        Err(_) => None,
    }
}

/// Reads the text of a version line as a number.
pub fn version(text: &[u8]) -> (r: Option<u32>)
    ensures
        r == spec_version(text@),
{
    let digits = if text.len() > 0 && text[0] == PLUS {
        skip(text, 1)
    } else {
        text
    };
    match u32_str(digits) {
        Ok((rest, value)) => if rest.len() == 0 {
            Some(value)
        } else {
            None
        },
        Err(_) => None,
    }
}

/// The header: a `Filetype` line and a `Version` line whose text is a number.
pub open spec fn spec_header(s: Seq<u8>) -> Parsed<(Seq<u8>, u32)> {
    match spec_line("Filetype".spec_bytes(), s) {
        Err(e) => Err(e),
        Ok((s1, filetype)) => match spec_line("Version".spec_bytes(), s1) {
            Err(e) => Err(e),
            Ok((s2, text)) => match spec_version(text) {
                Some(number) => Ok((s2, (filetype, number))),
                None => Err(ParseFailure::mismatch(s1.len())),
            },
        },
    }
}

/// Reads the header and gives the file type and the version. Fails as
/// [`line`] does on either line, and with a mismatch at the start of the
/// version line where its text is no number.
pub fn header(input: &[u8]) -> (r: ParseResult<'_, (&[u8], u32)>)
    ensures
        yields(r, spec_header(input@)),
{
    let (after_filetype, filetype) = line("Filetype", input)?;
    let (rest, text) = line("Version", after_filetype)?;
    match version(text) {
        Some(number) => Ok((rest, (filetype, number))),
        None => mismatch(after_filetype),
    }
}

/// The line that opens the body of a button: `type: ` and the kind.
pub open spec fn spec_kind(tagged: Seq<u8>, s: Seq<u8>) -> Parsed<()> {
    match spec_tag(tagged, s) {
        Err(e) => Err(e),
        Ok((s1, _)) => spec_newline(s1),
    }
}

/// Reads the line `tagged`, which is `type: ` and a kind, with its newline.
pub fn kind<'a>(tagged: &str, input: &'a [u8]) -> (r: ParseResult<'a, ()>)
    ensures
        yields(r, spec_kind(tagged.spec_bytes(), input@)),
{
    let (rest, _) = tag(tagged.as_bytes(), input)?;
    newline(rest)
}

/// The body of a parsed button: its type line, then protocol, address and
/// command, a line each.
pub open spec fn spec_parsed_button(s: Seq<u8>) -> Parsed<ParsedButtonView> {
    match spec_kind("type: parsed".spec_bytes(), s) {
        Err(e) => Err(e),
        Ok((s1, _)) => match spec_line("protocol".spec_bytes(), s1) {
            Err(e) => Err(e),
            Ok((s2, protocol)) => match spec_line("address".spec_bytes(), s2) {
                Err(e) => Err(e),
                Ok((s3, address)) => match spec_line("command".spec_bytes(), s3) {
                    Err(e) => Err(e),
                    Ok((s4, command)) => Ok((s4, ParsedButtonView { protocol, address, command })),
                },
            },
        },
    }
}

/// Reads the body of a parsed button. Fails where one of its four lines
/// fails, as that line does.
pub fn parsed_button(input: &[u8]) -> (r: ParseResult<'_, ParsedButton>)
    ensures
        yields(r, spec_parsed_button(input@)),
{
    let (rest, _) = kind("type: parsed", input)?;
    let (rest, protocol) = line("protocol", rest)?;
    let (rest, address) = line("address", rest)?;
    let (rest, command) = line("command", rest)?;
    Ok(
        (
            rest,
            ParsedButton {
                protocol: slice_to_vec(protocol),
                address: slice_to_vec(address),
                command: slice_to_vec(command),
            },
        ),
    )
}

/// One pulse pair: a mark, a space character, a space.
pub open spec fn spec_on_off(s: Seq<u8>) -> Parsed<(u32, u32)> {
    match spec_u32_str(s) {
        Err(e) => Err(e),
        Ok((s1, on)) => match spec_tag(" ".spec_bytes(), s1) {
            Err(e) => Err(e),
            Ok((s2, _)) => match spec_u32_str(s2) {
                Err(e) => Err(e),
                Ok((s3, off)) => Ok((s3, (on, off))),
            },
        },
    }
}

/// Reads one pulse pair: two unsigned integers with one space between them.
/// Fails with a mismatch at the first of the three that is not there.
pub fn on_off(input: &[u8]) -> (r: ParseResult<'_, (u32, u32)>)
    ensures
        yields(r, spec_on_off(input@)),
{
    let (rest, on) = u32_str(input)?;
    let (rest, _) = tag(" ".as_bytes(), rest)?;
    let (rest, off) = u32_str(rest)?;
    Ok((rest, (on, off)))
}

/// The pulse pairs that follow the first: each after one space character, as
/// many as there are. Where a space character is followed by no pulse pair,
/// it is left unread.
pub open spec fn spec_more_pairs(s: Seq<u8>) -> (Seq<u8>, Seq<(u32, u32)>)
    decreases s.len(),
{
    match spec_tag(" ".spec_bytes(), s) {
        Err(_) => (s, Seq::empty()),
        Ok((s1, _)) => match spec_on_off(s1) {
            Err(_) => (s, Seq::empty()),
            Ok((s2, pair)) => {
                proof {
                    lemma_on_off_rest(s1);
                }
                (spec_more_pairs(s2).0, seq![pair] + spec_more_pairs(s2).1)
            },
        },
    }
}

/// One or more pulse pairs with one space character between them.
pub open spec fn spec_pulse_pairs(s: Seq<u8>) -> Parsed<Seq<(u32, u32)>> {
    match spec_on_off(s) {
        Err(e) => Err(e),
        Ok((s1, first)) => Ok((spec_more_pairs(s1).0, seq![first] + spec_more_pairs(s1).1)),
    }
}

/// Reads one or more pulse pairs. Fails where the first one does.
pub fn pulse_pairs(input: &[u8]) -> (r: ParseResult<'_, Vec<(u32, u32)>>)
    ensures
        yields(r, spec_pulse_pairs(input@)),
{
    let (after_first, first) = on_off(input)?;
    let mut pairs: Vec<(u32, u32)> = Vec::new();
    pairs.push(first);
    let mut rest = after_first;
    loop
        invariant
            spec_pulse_pairs(input@) == Ok::<(Seq<u8>, Seq<(u32, u32)>), ParseFailure>(
                (spec_more_pairs(rest@).0, pairs@ + spec_more_pairs(rest@).1),
            ),
        decreases rest@.len(),
    {
        let next = match tag(" ".as_bytes(), rest) {
            Ok((after_space, _)) => on_off(after_space),
            Err(e) => Err(e),
        };
        match next {
            Ok((after_pair, pair)) => {
                proof {
                    let (s1, _) = spec_tag(" ".spec_bytes(), rest@)->Ok_0;
                    lemma_on_off_rest(s1);
                    assert(pairs@.push(pair) + spec_more_pairs(after_pair@).1 =~= pairs@ + (
                    seq![pair] + spec_more_pairs(after_pair@).1));
                }
                pairs.push(pair);
                rest = after_pair;
            },
            Err(_) => {
                proof {
                    assert(pairs@ + Seq::<(u32, u32)>::empty() =~= pairs@);
                }
                return Ok((rest, pairs));
            },
        }
    }
}

/// The trailing mark: a space character and an unsigned integer, or nothing.
pub open spec fn spec_final_on(s: Seq<u8>) -> (Seq<u8>, Option<u32>) {
    match spec_tag(" ".spec_bytes(), s) {
        Err(_) => (s, None),
        Ok((s1, _)) => match spec_u32_str(s1) {
            Err(_) => (s, None),
            Ok((s2, last)) => (s2, Some(last)),
        },
    }
}

/// Reads the trailing mark if there is one; reads nothing if not.
pub fn final_on(input: &[u8]) -> (r: (&[u8], Option<u32>))
    ensures
        r.0@ == spec_final_on(input@).0,
        r.1 == spec_final_on(input@).1,
{
    match tag(" ".as_bytes(), input) {
        Err(_) => (input, None),
        Ok((rest, _)) => match u32_str(rest) {
            Err(_) => (input, None),
            Ok((rest, last)) => (rest, Some(last)),
        },
    }
}

/// The frequency line of a raw button.
pub open spec fn spec_frequency(s: Seq<u8>) -> Parsed<u32> {
    match spec_tag("frequency: ".spec_bytes(), s) {
        Err(e) => Err(e),
        Ok((s1, _)) => match spec_u32_str(s1) {
            Err(e) => Err(e),
            Ok((s2, hertz)) => match spec_newline(s2) {
                Err(e) => Err(e),
                Ok((s3, _)) => Ok((s3, hertz)),
            },
        },
    }
}

/// Reads the frequency line. Fails with a mismatch at the first of its tag,
/// its number and its newline that is not there.
pub fn frequency(input: &[u8]) -> (r: ParseResult<'_, u32>)
    ensures
        yields(r, spec_frequency(input@)),
{
    let (rest, _) = tag("frequency: ".as_bytes(), input)?;
    let (rest, hertz) = u32_str(rest)?;
    let (rest, _) = newline(rest)?;
    Ok((rest, hertz))
}

/// The duty cycle line of a raw button.
pub open spec fn spec_duty_cycle(s: Seq<u8>) -> Parsed<Seq<u8>> {
    match spec_tag("duty_cycle: ".spec_bytes(), s) {
        Err(e) => Err(e),
        Ok((s1, _)) => match spec_f32_str(s1) {
            Err(e) => Err(e),
            Ok((s2, literal)) => match spec_newline(s2) {
                Err(e) => Err(e),
                Ok((s3, _)) => Ok((s3, literal)),
            },
        },
    }
}

/// Reads the duty cycle line. Fails with a mismatch at the first of its tag,
/// its decimal literal and its newline that is not there.
pub fn duty_cycle(input: &[u8]) -> (r: ParseResult<'_, &[u8]>)
    ensures
        yields(r, spec_duty_cycle(input@)),
{
    let (rest, _) = tag("duty_cycle: ".as_bytes(), input)?;
    let (rest, literal) = f32_str(rest)?;
    let (rest, _) = newline(rest)?;
    Ok((rest, literal))
}

/// The data line of a raw button: one or more pulse pairs and an optional
/// trailing mark.
pub open spec fn spec_data(s: Seq<u8>) -> Parsed<(Seq<(u32, u32)>, Option<u32>)> {
    match spec_tag("data: ".spec_bytes(), s) {
        Err(e) => Err(e),
        Ok((s1, _)) => match spec_pulse_pairs(s1) {
            Err(e) => Err(e),
            Ok((s2, pairs)) => match spec_newline(spec_final_on(s2).0) {
                Err(e) => Err(e),
                Ok((s3, _)) => Ok((s3, (pairs, spec_final_on(s2).1))),
            },
        },
    }
}

/// Reads the data line. Fails with a mismatch where its tag or its first
/// pulse pair is not there, and where the numbers are not followed by a
/// newline.
pub fn data(input: &[u8]) -> (r: ParseResult<'_, (Vec<(u32, u32)>, Option<u32>)>)
    ensures
        yields(r, spec_data(input@)),
{
    let (rest, _) = tag("data: ".as_bytes(), input)?;
    let (rest, pairs) = pulse_pairs(rest)?;
    let (rest, last) = final_on(rest);
    let (rest, _) = newline(rest)?;
    Ok((rest, (pairs, last)))
}

/// The body of a raw button: its type line, then frequency, duty cycle and
/// data, a line each.
pub open spec fn spec_raw_button(s: Seq<u8>) -> Parsed<RawButtonView> {
    match spec_kind("type: raw".spec_bytes(), s) {
        Err(e) => Err(e),
        Ok((s1, _)) => match spec_frequency(s1) {
            Err(e) => Err(e),
            Ok((s2, frequency)) => match spec_duty_cycle(s2) {
                Err(e) => Err(e),
                Ok((s3, duty_cycle)) => match spec_data(s3) {
                    Err(e) => Err(e),
                    Ok((s4, (data, final_on))) => Ok(
                        (s4, RawButtonView { frequency, duty_cycle, data, final_on }),
                    ),
                },
            },
        },
    }
}

/// Reads the body of a raw button. Fails with a mismatch where one of its
/// four lines fails, as that line does.
pub fn raw_button(input: &[u8]) -> (r: ParseResult<'_, RawButton>)
    ensures
        yields(r, spec_raw_button(input@)),
{
    let (rest, _) = kind("type: raw", input)?;
    let (rest, hertz) = frequency(rest)?;
    let (rest, literal) = duty_cycle(rest)?;
    let (rest, (pairs, last)) = data(rest)?;
    Ok(
        (
            rest,
            RawButton {
                frequency: hertz,
                duty_cycle: slice_to_vec(literal),
                data: pairs,
                final_on: last,
            },
        ),
    )
}

/// The body of a button: that of a parsed button or, where that is a
/// mismatch, that of a raw button.
pub open spec fn spec_body(s: Seq<u8>) -> Parsed<ButtonKindView> {
    match spec_parsed_button(s) {
        Ok((rest, parsed)) => Ok((rest, ButtonKindView::Parsed(parsed))),
        Err(e) => if e.kind == ParseErrorKind::Mismatch {
            match spec_raw_button(s) {
                Ok((rest, raw)) => Ok((rest, ButtonKindView::Raw(raw))),
                Err(e) => Err(e),
            }
        } else {
            Err(e)
        },
    }
}

/// Reads the body of a button. A body that is a mismatch as a parsed button
/// is read as a raw button, and fails as that does; an unterminated line of
/// a parsed button fails at once.
pub fn body(input: &[u8]) -> (r: ParseResult<'_, ButtonKind>)
    ensures
        yields(r, spec_body(input@)),
{
    match parsed_button(input) {
        Ok((rest, parsed)) => Ok((rest, ButtonKind::Parsed(parsed))),
        Err(e) => match e.kind {
            ParseErrorKind::Mismatch => {
                let (rest, raw) = raw_button(input)?;
                Ok((rest, ButtonKind::Raw(raw)))
            },
            ParseErrorKind::Unterminated => Err(e),
        },
    }
}

/// A button: its name line and its body.
pub open spec fn spec_button(s: Seq<u8>) -> Parsed<ButtonView> {
    match spec_line("name".spec_bytes(), s) {
        Err(e) => Err(e),
        Ok((s1, name)) => match spec_body(s1) {
            Err(e) => Err(e),
            Ok((s2, kind)) => Ok((s2, ButtonView { name, kind })),
        },
    }
}

/// Reads a button. Fails where its name line or its body fails, as they do.
pub fn button(input: &[u8]) -> (r: ParseResult<'_, Button>)
    ensures
        yields(r, spec_button(input@)),
{
    let (rest, name) = line("name", input)?;
    let (rest, kind) = body(rest)?;
    Ok((rest, Button { name: slice_to_vec(name), kind }))
}

/// A parse of buttons with `front` put before the buttons it gives.
pub open spec fn after(front: Seq<ButtonView>, r: Parsed<Seq<ButtonView>>) -> Parsed<
    Seq<ButtonView>,
> {
    match r {
        Ok((rest, buttons)) => Ok((rest, front + buttons)),
        Err(e) => Err(e),
    }
}

/// The buttons that follow the first: each after a comment line, as many as
/// there are. The list ends before a comment that is a mismatch, and before
/// a comment that is followed by a mismatch of a button: that comment is
/// left unread. An unterminated line fails the whole list.
pub open spec fn spec_more_buttons(s: Seq<u8>) -> Parsed<Seq<ButtonView>>
    decreases s.len(),
{
    match spec_comment(s) {
        Err(e) => if e.kind == ParseErrorKind::Mismatch {
            Ok((s, Seq::empty()))
        } else {
            Err(e)
        },
        Ok((s1, _)) => match spec_button(s1) {
            Err(e) => if e.kind == ParseErrorKind::Mismatch {
                Ok((s, Seq::empty()))
            } else {
                Err(e)
            },
            Ok((s2, button)) => {
                proof {
                    lemma_comment_lines(s);
                    lemma_button_lines(s1);
                }
                after(seq![button], spec_more_buttons(s2))
            },
        },
    }
}

/// A capture file: the header, a comment line and a button, then further
/// comment lines and buttons in turn.
pub open spec fn spec_ir_file(s: Seq<u8>) -> Parsed<Seq<ButtonView>> {
    match spec_header(s) {
        Err(e) => Err(e),
        Ok((s1, _)) => match spec_comment(s1) {
            Err(e) => Err(e),
            Ok((s2, _)) => match spec_button(s2) {
                Err(e) => Err(e),
                Ok((s3, first)) => after(seq![first], spec_more_buttons(s3)),
            },
        },
    }
}

/// Whether `r` is what `expected` asks for: the same rest and buttons with
/// the same contents, or the same failure.
pub open spec fn yields_buttons(r: ParseResult<'_, Vec<Button>>, expected: Parsed<Seq<ButtonView>>)
    -> bool {
    match (r, expected) {
        (Ok((rest, buttons)), Ok((rest_expected, buttons_expected))) => {
            &&& rest@ =~= rest_expected
            &&& buttons.deep_view() =~= buttons_expected
        },
        (Err(e), Err(failure)) => e@ == failure,
        _ => false,
    }
}

/// Reads a capture file: its header, then buttons, each after a comment
/// line, as far as they go. Gives the buttons in the file's order, and what
/// is left of the input after the last of them.
///
/// Fails where the header, the first comment or the first button fails, as
/// they do, and where a later line is unterminated. A later mismatch ends
/// the list instead, and leaves the input from the comment before it unread.
pub fn ir_file(input: &[u8]) -> (r: ParseResult<'_, Vec<Button>>)
    ensures
        yields_buttons(r, spec_ir_file(input@)),
{
    let (rest, _) = header(input)?;
    let (rest, _) = comment(rest)?;
    let (after_first, first) = button(rest)?;
    let mut buttons: Vec<Button> = Vec::new();
    buttons.push(first);
    let mut rest = after_first;
    proof {
        assert(buttons.deep_view() =~= seq![first@]);
    }
    loop
        invariant
            spec_ir_file(input@) == after(buttons.deep_view(), spec_more_buttons(rest@)),
        decreases rest@.len(),
    {
        let next = match comment(rest) {
            Ok((after_comment, _)) => button(after_comment),
            Err(e) => Err(e),
        };
        match next {
            Ok((after_button, button)) => {
                let ghost before = buttons;
                proof {
                    let (s1, _) = spec_comment(rest@)->Ok_0;
                    lemma_comment_lines(rest@);
                    lemma_button_lines(s1);
                }
                buttons.push(button);
                proof {
                    assert(buttons.deep_view() =~= before.deep_view() + seq![button@]) by {
                        assert forall|k: int| 0 <= k < before.len() implies buttons.deep_view()[k]
                            == before.deep_view()[k] by {
                            assert(buttons@[k] == before@[k]);
                        }
                    }
                    lemma_after_after(
                        before.deep_view(),
                        seq![button@],
                        spec_more_buttons(after_button@),
                    );
                }
                rest = after_button;
            },
            Err(e) => {
                match e.kind {
                    ParseErrorKind::Mismatch => {
                        proof {
                            assert(buttons.deep_view() + Seq::<ButtonView>::empty()
                                =~= buttons.deep_view());
                        }
                        return Ok((rest, buttons));
                    },
                    ParseErrorKind::Unterminated => {
                        return Err(e);
                    },
                }
            },
        }
    }
}

/// Putting `a` before a parse that has `b` before it puts `a + b` before it.
proof fn lemma_after_after(a: Seq<ButtonView>, b: Seq<ButtonView>, r: Parsed<Seq<ButtonView>>)
    ensures
        after(a, after(b, r)) == after(a + b, r),
{
    if let Ok((_, buttons)) = r {
        assert(a + (b + buttons) =~= (a + b) + buttons);
    }
}

/// A capture file that is read to its end: the buttons of `spec_ir_file`
/// where nothing is left after them, a mismatch at what is left otherwise.
pub open spec fn spec_capture(s: Seq<u8>) -> Result<Seq<ButtonView>, ParseFailure> {
    match spec_ir_file(s) {
        Err(e) => Err(e),
        Ok((rest, buttons)) => if rest.len() == 0 {
            Ok(buttons)
        } else {
            Err(ParseFailure::mismatch(rest.len()))
        },
    }
}

/// Whether `r` is what `expected` asks for: buttons with the same contents,
/// or the same failure.
pub open spec fn yields_capture(
    r: Result<Vec<Button>, ParseError>,
    expected: Result<Seq<ButtonView>, ParseFailure>,
) -> bool {
    match (r, expected) {
        (Ok(buttons), Ok(buttons_expected)) => buttons.deep_view() =~= buttons_expected,
        (Err(e), Err(failure)) => e@ == failure,
        _ => false,
    }
}

/// Reading the same text twice gives the same: buttons with the same
/// contents and the same rest, or the same failure.
pub proof fn lemma_parse_repeats(
    s: Seq<u8>,
    first: ParseResult<'_, Vec<Button>>,
    second: ParseResult<'_, Vec<Button>>,
)
    requires
        yields_buttons(first, spec_ir_file(s)),
        yields_buttons(second, spec_ir_file(s)),
    ensures
        match (first, second) {
            (Ok((rest_a, a)), Ok((rest_b, b))) => rest_a@ == rest_b@ && a.deep_view()
                == b.deep_view(),
            (Err(a), Err(b)) => a == b,
            _ => false,
        },
{
}

/// Reading the same text to its end twice gives the same: buttons with the
/// same contents, or the same failure.
pub proof fn lemma_capture_repeats(
    s: Seq<u8>,
    first: Result<Vec<Button>, ParseError>,
    second: Result<Vec<Button>, ParseError>,
)
    requires
        yields_capture(first, spec_capture(s)),
        yields_capture(second, spec_capture(s)),
    ensures
        match (first, second) {
            (Ok(a), Ok(b)) => a.deep_view() == b.deep_view(),
            (Err(a), Err(b)) => a == b,
            _ => false,
        },
{
}

/// Reads a whole capture file. Fails where [`ir_file`] fails, and with a
/// mismatch where it leaves any input unread, with what it leaves.
pub fn parse_capture(input: &[u8]) -> (r: Result<Vec<Button>, ParseError>)
    ensures
        yields_capture(r, spec_capture(input@)),
{
    let (rest, buttons) = ir_file(input)?;
    if rest.len() == 0 {
        Ok(buttons)
    } else {
        mismatch(rest)
    }
}

/// A comment line is a whole line.
pub proof fn lemma_comment_lines(s: Seq<u8>)
    ensures
        reads_lines(spec_comment(s), s),
{
    if let Ok((s1, _)) = spec_tag("#".spec_bytes(), s) {
        lemma_newline_rest(s1);
        if let Ok((s2, _)) = spec_rest_of_line(s1) {
            lemma_line_of_rest(s2, s1, s);
        }
    }
}

/// A line `key: text` is a whole line.
pub proof fn lemma_line_lines(key: Seq<u8>, s: Seq<u8>)
    ensures
        reads_lines(spec_line(key, s), s),
{
    if let Ok((s1, _)) = spec_tag(key, s) {
        if let Ok((s2, _)) = spec_tag(": ".spec_bytes(), s1) {
            lemma_rest_of_rest(s2, s1, s);
            lemma_newline_rest(s2);
            if let Ok((s3, _)) = spec_rest_of_line(s2) {
                lemma_line_of_rest(s3, s2, s);
            }
        }
    }
}

/// A type line is a whole line.
pub proof fn lemma_kind_lines(tagged: Seq<u8>, s: Seq<u8>)
    ensures
        reads_lines(spec_kind(tagged, s), s),
{
    if let Ok((s1, _)) = spec_tag(tagged, s) {
        lemma_newline_rest(s1);
        if let Ok((s2, _)) = spec_newline(s1) {
            lemma_line_of_rest(s2, s1, s);
        }
    }
}

/// The header is made of whole lines.
pub proof fn lemma_header_lines(s: Seq<u8>)
    ensures
        reads_lines(spec_header(s), s),
{
    lemma_line_lines("Filetype".spec_bytes(), s);
    if let Ok((s1, _)) = spec_line("Filetype".spec_bytes(), s) {
        lemma_line_lines("Version".spec_bytes(), s1);
        if let Ok((s2, _)) = spec_line("Version".spec_bytes(), s1) {
            lemma_line_after(s2, s1, s);
        }
    }
}

/// The body of a parsed button is made of whole lines.
pub proof fn lemma_parsed_button_lines(s: Seq<u8>)
    ensures
        reads_lines(spec_parsed_button(s), s),
{
    lemma_kind_lines("type: parsed".spec_bytes(), s);
    if let Ok((s1, _)) = spec_kind("type: parsed".spec_bytes(), s) {
        lemma_line_lines("protocol".spec_bytes(), s1);
        if let Ok((s2, _)) = spec_line("protocol".spec_bytes(), s1) {
            lemma_line_after(s2, s1, s);
            lemma_line_lines("address".spec_bytes(), s2);
            if let Ok((s3, _)) = spec_line("address".spec_bytes(), s2) {
                lemma_line_after(s3, s2, s);
                lemma_line_lines("command".spec_bytes(), s3);
                if let Ok((s4, _)) = spec_line("command".spec_bytes(), s3) {
                    lemma_line_after(s4, s3, s);
                }
            }
        }
    }
}

/// A pulse pair leaves a rest of its input, and less than its input.
pub proof fn lemma_on_off_rest(s: Seq<u8>)
    ensures
        leaves_rest(spec_on_off(s), s),
        spec_on_off(s) matches Ok((rest, _)) ==> rest.len() < s.len(),
{
    lemma_number_rest(s);
    if let Ok((s1, _)) = spec_u32_str(s) {
        if let Ok((s2, _)) = spec_tag(" ".spec_bytes(), s1) {
            lemma_rest_of_rest(s2, s1, s);
            lemma_number_rest(s2);
            if let Ok((s3, _)) = spec_u32_str(s2) {
                lemma_rest_of_rest(s3, s2, s);
            }
        }
    }
}

/// Further pulse pairs leave a rest of their input.
pub proof fn lemma_more_pairs_rest(s: Seq<u8>)
    ensures
        is_rest_of(spec_more_pairs(s).0, s),
    decreases s.len(),
{
    if let Ok((s1, _)) = spec_tag(" ".spec_bytes(), s) {
        lemma_on_off_rest(s1);
        if let Ok((s2, _)) = spec_on_off(s1) {
            lemma_rest_of_rest(s2, s1, s);
            lemma_more_pairs_rest(s2);
            lemma_rest_of_rest(spec_more_pairs(s2).0, s2, s);
        }
    }
}

/// The pulse pairs and the trailing mark of a data line leave a rest of
/// their input.
pub proof fn lemma_pulses_rest(s: Seq<u8>)
    ensures
        leaves_rest(spec_pulse_pairs(s), s),
        is_rest_of(spec_final_on(s).0, s),
{
    lemma_on_off_rest(s);
    if let Ok((s1, _)) = spec_on_off(s) {
        lemma_more_pairs_rest(s1);
        lemma_rest_of_rest(spec_more_pairs(s1).0, s1, s);
    }
    if let Ok((s1, _)) = spec_tag(" ".spec_bytes(), s) {
        lemma_number_rest(s1);
        if let Ok((s2, _)) = spec_u32_str(s1) {
            lemma_rest_of_rest(s2, s1, s);
        }
    }
}

/// The frequency line and the duty cycle line are whole lines.
pub proof fn lemma_number_lines(s: Seq<u8>)
    ensures
        reads_lines(spec_frequency(s), s),
        reads_lines(spec_duty_cycle(s), s),
{
    if let Ok((s1, _)) = spec_tag("frequency: ".spec_bytes(), s) {
        lemma_number_rest(s1);
        if let Ok((s2, _)) = spec_u32_str(s1) {
            lemma_rest_of_rest(s2, s1, s);
            lemma_newline_rest(s2);
            if let Ok((s3, _)) = spec_newline(s2) {
                lemma_line_of_rest(s3, s2, s);
            }
        }
    }
    if let Ok((s1, _)) = spec_tag("duty_cycle: ".spec_bytes(), s) {
        lemma_number_rest(s1);
        if let Ok((s2, _)) = spec_f32_str(s1) {
            lemma_rest_of_rest(s2, s1, s);
            lemma_newline_rest(s2);
            if let Ok((s3, _)) = spec_newline(s2) {
                lemma_line_of_rest(s3, s2, s);
            }
        }
    }
}

/// The data line is a whole line.
pub proof fn lemma_data_lines(s: Seq<u8>)
    ensures
        reads_lines(spec_data(s), s),
{
    if let Ok((s1, _)) = spec_tag("data: ".spec_bytes(), s) {
        lemma_pulses_rest(s1);
        if let Ok((s2, _)) = spec_pulse_pairs(s1) {
            lemma_rest_of_rest(s2, s1, s);
            lemma_pulses_rest(s2);
            let s3 = spec_final_on(s2).0;
            lemma_rest_of_rest(s3, s2, s);
            lemma_newline_rest(s3);
            if let Ok((s4, _)) = spec_newline(s3) {
                lemma_line_of_rest(s4, s3, s);
            }
        }
    }
}

/// The body of a raw button is made of whole lines.
pub proof fn lemma_raw_button_lines(s: Seq<u8>)
    ensures
        reads_lines(spec_raw_button(s), s),
{
    lemma_kind_lines("type: raw".spec_bytes(), s);
    if let Ok((s1, _)) = spec_kind("type: raw".spec_bytes(), s) {
        lemma_number_lines(s1);
        if let Ok((s2, _)) = spec_frequency(s1) {
            lemma_line_after(s2, s1, s);
            lemma_number_lines(s2);
            if let Ok((s3, _)) = spec_duty_cycle(s2) {
                lemma_line_after(s3, s2, s);
                lemma_data_lines(s3);
                if let Ok((s4, _)) = spec_data(s3) {
                    lemma_line_after(s4, s3, s);
                }
            }
        }
    }
}

/// A button is made of whole lines.
pub proof fn lemma_button_lines(s: Seq<u8>)
    ensures
        reads_lines(spec_body(s), s),
        reads_lines(spec_button(s), s),
{
    lemma_parsed_button_lines(s);
    lemma_raw_button_lines(s);
    lemma_line_lines("name".spec_bytes(), s);
    if let Ok((s1, _)) = spec_line("name".spec_bytes(), s) {
        lemma_parsed_button_lines(s1);
        lemma_raw_button_lines(s1);
        if let Ok((s2, _)) = spec_body(s1) {
            lemma_line_after(s2, s1, s);
        }
    }
}

/// Further buttons are made of whole lines, where there are any.
pub proof fn lemma_more_buttons_lines(s: Seq<u8>)
    ensures
        spec_more_buttons(s) matches Ok((rest, _)) ==> rest == s || follows_line(rest, s),
    decreases s.len(),
{
    lemma_comment_lines(s);
    if let Ok((s1, _)) = spec_comment(s) {
        lemma_button_lines(s1);
        if let Ok((s2, _)) = spec_button(s1) {
            lemma_line_after(s2, s1, s);
            lemma_more_buttons_lines(s2);
            if let Ok((s3, _)) = spec_more_buttons(s2) {
                if s3 != s2 {
                    lemma_line_after(s3, s2, s);
                }
            }
        }
    }
}

/// A capture file is made of whole lines: what `spec_ir_file` reads of a
/// text is not empty and ends in a newline.
pub proof fn lemma_ir_file_lines(s: Seq<u8>)
    ensures
        reads_lines(spec_ir_file(s), s),
{
    lemma_header_lines(s);
    if let Ok((s1, _)) = spec_header(s) {
        lemma_comment_lines(s1);
        if let Ok((s2, _)) = spec_comment(s1) {
            lemma_line_after(s2, s1, s);
            lemma_button_lines(s2);
            if let Ok((s3, _)) = spec_button(s2) {
                lemma_line_after(s3, s2, s);
                lemma_more_buttons_lines(s3);
                if let Ok((s4, _)) = spec_more_buttons(s3) {
                    if s4 != s3 {
                        lemma_line_after(s4, s3, s);
                    }
                }
            }
        }
    }
}

/// A text whose last line is not closed by a newline is no capture file: a
/// text that is read to its end as one ends in a newline.
pub proof fn lemma_capture_ends_in_newline(s: Seq<u8>)
    ensures
        spec_capture(s) is Ok ==> s.len() > 0 && s.last() == NEWLINE,
{
    lemma_ir_file_lines(s);
}

/// A button whose type line is neither `type: parsed` nor `type: raw` is a
/// mismatch. Where the line does not even begin with `type: raw`, all of the
/// input after the name line is left.
pub proof fn lemma_unknown_type(s: Seq<u8>)
    requires
        spec_line("name".spec_bytes(), s) is Ok,
        !("type: parsed".spec_bytes() + seq![NEWLINE]).is_prefix_of(
            spec_line("name".spec_bytes(), s)->Ok_0.0,
        ),
        !("type: raw".spec_bytes() + seq![NEWLINE]).is_prefix_of(
            spec_line("name".spec_bytes(), s)->Ok_0.0,
        ),
    ensures
        spec_button(s) matches Err(e) && e.kind == ParseErrorKind::Mismatch,
        !"type: raw".spec_bytes().is_prefix_of(spec_line("name".spec_bytes(), s)->Ok_0.0)
            ==> spec_button(s) == Err::<(Seq<u8>, ButtonView), ParseFailure>(
            ParseFailure::mismatch(spec_line("name".spec_bytes(), s)->Ok_0.0.len()),
        ),
{
    let rest = spec_line("name".spec_bytes(), s)->Ok_0.0;
    lemma_tagged_line("type: parsed".spec_bytes(), rest);
    lemma_tagged_line("type: raw".spec_bytes(), rest);
}

/// A type line is read where the input begins with the tag and a newline,
/// and is a mismatch where it does not.
proof fn lemma_tagged_line(tagged: Seq<u8>, s: Seq<u8>)
    ensures
        spec_kind(tagged, s) is Ok <==> (tagged + seq![NEWLINE]).is_prefix_of(s),
        spec_kind(tagged, s) matches Err(e) ==> e.kind == ParseErrorKind::Mismatch,
{
    let whole = tagged + seq![NEWLINE];
    if whole.is_prefix_of(s) {
        assert(tagged =~= s.subrange(0, tagged.len() as int)) by {
            assert forall|i: int| 0 <= i < tagged.len() implies tagged[i] == s[i] by {
                assert(whole[i] == s.subrange(0, whole.len() as int)[i]);
            }
        }
        assert(whole[tagged.len() as int] == s.subrange(0, whole.len() as int)[tagged.len() as int]);
    } else if let Ok((s1, _)) = spec_tag(tagged, s) {
        if let Ok(_) = spec_newline(s1) {
            assert(whole =~= s.subrange(0, whole.len() as int)) by {
                assert forall|i: int| 0 <= i < whole.len() implies whole[i] == s[i] by {
                    if i < tagged.len() {
                        assert(tagged[i] == s.subrange(0, tagged.len() as int)[i]);
                    }
                }
            }
        }
    }
}

/// Whether a button is as the grammar writes buttons: a raw button holds a
/// pulse pair at least, and its duty cycle is a decimal literal.
pub open spec fn is_written(button: ButtonView) -> bool {
    button.kind matches ButtonKindView::Raw(raw) ==> raw.data.len() > 0 && is_decimal(
        raw.duty_cycle,
    )
}

/// A button that was read is as the grammar writes buttons.
pub proof fn lemma_button_is_written(s: Seq<u8>)
    ensures
        spec_button(s) matches Ok((_, button)) ==> is_written(button),
{
}

/// The buttons of a capture file are as the grammar writes buttons, and
/// there is one at least.
pub proof fn lemma_file_is_written(s: Seq<u8>)
    ensures
        spec_ir_file(s) matches Ok((_, buttons)) ==> buttons.len() > 0 && forall|i: int|
            0 <= i < buttons.len() ==> is_written(#[trigger] buttons[i]),
{
    if let Ok((s1, _)) = spec_header(s) {
        if let Ok((s2, _)) = spec_comment(s1) {
            lemma_button_is_written(s2);
            if let Ok((s3, _)) = spec_button(s2) {
                lemma_more_are_written(s3);
            }
        }
    }
}

/// Further buttons are as the grammar writes buttons.
proof fn lemma_more_are_written(s: Seq<u8>)
    ensures
        spec_more_buttons(s) matches Ok((_, buttons)) ==> forall|i: int|
            0 <= i < buttons.len() ==> is_written(#[trigger] buttons[i]),
    decreases s.len(),
{
    if let Ok((s1, _)) = spec_comment(s) {
        lemma_comment_lines(s);
        lemma_button_lines(s1);
        lemma_button_is_written(s1);
        if let Ok((s2, _)) = spec_button(s1) {
            lemma_more_are_written(s2);
        }
    }
}

} // verus!
