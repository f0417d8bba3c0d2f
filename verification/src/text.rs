//! The smallest pieces of the grammar: literal tags, newlines, runs of bytes
//! of one class, and the text of a line.
//!
//! Every parser takes the input that is left and gives back, on success, the
//! rest of the input and what it has read. On failure it tells how many bytes
//! were left where it failed.

use crate::error::{ParseError, ParseErrorKind, ParseFailure};
use vstd::prelude::*;
use vstd::slice::slice_subrange;

verus! {

/// The byte that ends every line.
pub const NEWLINE: u8 = 0x0a;

/// What a parser gives in specifications: the rest of the input with the
/// value read, or the failure.
pub type Parsed<T> = Result<(Seq<u8>, T), ParseFailure>;

/// What a parser gives at run time.
pub type ParseResult<'a, T> = Result<(&'a [u8], T), ParseError>;

/// Whether a result `r` is what the specification `expected` asks for.
pub open spec fn yields<T: View>(r: ParseResult<'_, T>, expected: Parsed<T::V>) -> bool {
    match (r, expected) {
        (Ok((rest, value)), Ok((rest_expected, value_expected))) => {
            &&& rest@ =~= rest_expected
            &&& value@ =~~= value_expected
        },
        (Err(e), Err(failure)) => e@ == failure,
        _ => false,
    }
}

/// The classes of bytes that the grammar takes runs of.
#[derive(Clone, Copy, Debug, PartialEq, Eq)]
pub enum ByteClass {
    /// The ASCII digits `0` to `9`.
    Digit,
    /// The ASCII digits and the full stop.
    Decimal,
    /// Every byte but the newline.
    Text,
}

/// Whether `b` is an ASCII digit.
pub open spec fn is_digit(b: u8) -> bool {
    0x30 <= b <= 0x39
}

impl ByteClass {
    /// Whether `b` belongs to the class.
    pub open spec fn holds(self, b: u8) -> bool {
        match self {
            ByteClass::Digit => is_digit(b),
            ByteClass::Decimal => is_digit(b) || b == 0x2e,
            ByteClass::Text => b != NEWLINE,
        }
    }

    /// Whether `b` belongs to the class.
    pub fn contains(self, b: u8) -> (r: bool)
        ensures
            r == self.holds(b),
    {
        match self {
            ByteClass::Digit => 0x30 <= b && b <= 0x39,
            ByteClass::Decimal => (0x30 <= b && b <= 0x39) || b == 0x2e,
            ByteClass::Text => b != NEWLINE,
        }
    }
}

/// The length of the longest prefix of `s` made of bytes of `class`.
pub open spec fn run_length(s: Seq<u8>, class: ByteClass) -> nat
    decreases s.len(),
{
    if s.len() > 0 && class.holds(s[0]) {
        1 + run_length(s.skip(1), class)
    } else {
        0
    }
}

/// A run ends at the first byte that is not of its class, or with the input.
pub proof fn lemma_run_length(s: Seq<u8>, class: ByteClass)
    ensures
        run_length(s, class) <= s.len(),
        forall|i: int| 0 <= i < run_length(s, class) ==> class.holds(#[trigger] s[i]),
        run_length(s, class) < s.len() ==> !class.holds(s[run_length(s, class) as int]),
    decreases s.len(),
{
    if s.len() > 0 && class.holds(s[0]) {
        let tail = s.skip(1);
        lemma_run_length(tail, class);
        assert forall|i: int| 0 <= i < run_length(s, class) implies class.holds(
            #[trigger] s[i],
        ) by {
            if i > 0 {
                assert(s[i] == tail[i - 1]);
            }
        }
        if run_length(s, class) < s.len() {
            assert(s[run_length(s, class) as int] == tail[run_length(tail, class) as int]);
        }
    }
}

/// A prefix of bytes of one class that cannot be made longer is the run.
pub proof fn lemma_run_is(s: Seq<u8>, class: ByteClass, n: int)
    requires
        0 <= n <= s.len(),
        forall|i: int| 0 <= i < n ==> class.holds(#[trigger] s[i]),
        n < s.len() ==> !class.holds(s[n]),
    ensures
        run_length(s, class) == n,
    decreases n,
{
    if n > 0 {
        let tail = s.skip(1);
        assert forall|i: int| 0 <= i < n - 1 implies class.holds(#[trigger] tail[i]) by {
            assert(tail[i] == s[i + 1]);
        }
        if n < s.len() {
            assert(tail[n - 1] == s[n]);
        }
        lemma_run_is(tail, class, n - 1);
    }
}

/// The length of the run of `class` that `input` begins with.
pub fn run(input: &[u8], class: ByteClass) -> (n: usize)
    ensures
        n == run_length(input@, class),
{
    let mut i: usize = 0;
    while i < input.len() && class.contains(input[i])
        invariant
            i <= input.len(),
            forall|k: int| 0 <= k < i ==> class.holds(#[trigger] input@[k]),
        decreases input.len() - i,
    {
        i += 1;
    }
    proof {
        lemma_run_is(input@, class, i as int);
    }
    i
}

/// The rest of `input` from position `at` on.
pub fn skip(input: &[u8], at: usize) -> (rest: &[u8])
    requires
        at <= input@.len(),
    ensures
        rest@ == input@.skip(at as int),
{
    slice_subrange(input, at, input.len())
}

/// A mismatch where `input` is what is left.
pub fn mismatch<T>(input: &[u8]) -> (r: Result<T, ParseError>)
    ensures
        r == Err::<T, ParseError>(
            ParseError { kind: ParseErrorKind::Mismatch, remaining: input.len() },
        ),
{
    Err(ParseError { kind: ParseErrorKind::Mismatch, remaining: input.len() })
}

/// The literal `expected` at the start of `s`.
pub open spec fn spec_tag(expected: Seq<u8>, s: Seq<u8>) -> Parsed<()> {
    if expected.is_prefix_of(s) {
        Ok((s.skip(expected.len() as int), ()))
    } else {
        Err(ParseFailure::mismatch(s.len()))
    }
}

/// Reads the literal `expected`. Fails, with all of `input` left, where
/// `input` does not begin with it.
pub fn tag<'a>(expected: &[u8], input: &'a [u8]) -> (r: ParseResult<'a, ()>)
    ensures
        yields(r, spec_tag(expected@, input@)),
{
    if expected.len() > input.len() {
        return mismatch(input);
    }
    let mut i: usize = 0;
    while i < expected.len()
        invariant
            i <= expected.len() <= input.len(),
            forall|k: int| 0 <= k < i ==> expected@[k] == input@[k],
        decreases expected.len() - i,
    {
        if expected[i] != input[i] {
            proof {
                assert(input@.subrange(0, expected@.len() as int)[i as int] == input@[i as int]);
            }
            return mismatch(input);
        }
        i += 1;
    }
    proof {
        assert(expected@ =~= input@.subrange(0, expected@.len() as int));
    }
    Ok((skip(input, expected.len()), ()))
}

/// One newline at the start of `s`.
pub open spec fn spec_newline(s: Seq<u8>) -> Parsed<()> {
    if s.len() > 0 && s[0] == NEWLINE {
        Ok((s.skip(1), ()))
    } else {
        Err(ParseFailure::mismatch(s.len()))
    }
}

/// Reads one newline. Fails, with all of `input` left, on anything else and
/// at the end of the input.
pub fn newline(input: &[u8]) -> (r: ParseResult<'_, ()>)
    ensures
        yields(r, spec_newline(input@)),
{
    if input.len() > 0 && input[0] == NEWLINE {
        Ok((skip(input, 1), ()))
    } else {
        mismatch(input)
    }
}

/// The text up to the first newline of `s`, and what follows that newline.
pub open spec fn spec_rest_of_line(s: Seq<u8>) -> Parsed<Seq<u8>> {
    let n = run_length(s, ByteClass::Text);
    if n < s.len() {
        Ok((s.skip(n as int + 1), s.take(n as int)))
    } else {
        Err(ParseFailure::unterminated(s.len()))
    }
}

/// Reads the text up to the next newline, and that newline. The text may be
/// empty. Fails as unterminated, with all of `input` left, where `input`
/// holds no newline.
pub fn rest_of_line(input: &[u8]) -> (r: ParseResult<'_, &[u8]>)
    ensures
        yields(r, spec_rest_of_line(input@)),
{
    let n = run(input, ByteClass::Text);
    proof {
        lemma_run_length(input@, ByteClass::Text);
    }
    if n < input.len() {
        Ok((skip(input, n + 1), slice_subrange(input, 0, n)))
    } else {
        Err(ParseError { kind: ParseErrorKind::Unterminated, remaining: input.len() })
    }
}

/// Whether `rest` is what is left of `s` after some of its first bytes.
pub open spec fn is_rest_of(rest: Seq<u8>, s: Seq<u8>) -> bool {
    rest.len() <= s.len() && rest =~= s.skip(s.len() - rest.len())
}

/// Whether `rest` is what is left of `s` after a first part that is not
/// empty and ends in a newline.
pub open spec fn follows_line(rest: Seq<u8>, s: Seq<u8>) -> bool {
    &&& is_rest_of(rest, s)
    &&& rest.len() < s.len()
    &&& s[s.len() - rest.len() - 1] == NEWLINE
}

/// Whether a parse of `s`, where it succeeds, leaves a rest of `s`.
pub open spec fn leaves_rest<T>(r: Parsed<T>, s: Seq<u8>) -> bool {
    r matches Ok((rest, _)) ==> is_rest_of(rest, s)
}

/// Whether a parse of `s`, where it succeeds, has read whole lines: one at
/// least, and the last of them to its newline.
pub open spec fn reads_lines<T>(r: Parsed<T>, s: Seq<u8>) -> bool {
    r matches Ok((rest, _)) ==> follows_line(rest, s)
}

/// What is left of what is left of `s` is left of `s`.
pub proof fn lemma_rest_of_rest(a: Seq<u8>, b: Seq<u8>, s: Seq<u8>)
    requires
        is_rest_of(a, b),
        is_rest_of(b, s),
    ensures
        is_rest_of(a, s),
{
    assert(a =~= s.skip(s.len() - a.len()));
}

/// Whole lines read from what is left of `s` end at a newline of `s`.
pub proof fn lemma_line_of_rest(a: Seq<u8>, b: Seq<u8>, s: Seq<u8>)
    requires
        follows_line(a, b),
        is_rest_of(b, s),
    ensures
        follows_line(a, s),
{
    lemma_rest_of_rest(a, b, s);
    assert(b[b.len() - a.len() - 1] == s[s.len() - a.len() - 1]);
}

/// Anything read after whole lines, and ending in a newline itself, ends at
/// a newline.
pub proof fn lemma_line_after(a: Seq<u8>, b: Seq<u8>, s: Seq<u8>)
    requires
        follows_line(a, b),
        follows_line(b, s),
    ensures
        follows_line(a, s),
{
    lemma_line_of_rest(a, b, s);
}

/// A newline, and the text of a line with its newline, are whole lines.
pub proof fn lemma_newline_rest(s: Seq<u8>)
    ensures
        reads_lines(spec_newline(s), s),
        reads_lines(spec_rest_of_line(s), s),
{
    lemma_run_length(s, ByteClass::Text);
}

/// The text of a line holds no newline, and the input is that text, one
/// newline, and the rest.
pub proof fn lemma_rest_of_line_splits(s: Seq<u8>)
    ensures
        spec_rest_of_line(s) matches Ok((rest, text)) ==> {
            &&& forall|i: int| 0 <= i < text.len() ==> #[trigger] text[i] != NEWLINE
            &&& s =~= text + seq![NEWLINE] + rest
        },
{
    lemma_run_length(s, ByteClass::Text);
}

} // verus!
