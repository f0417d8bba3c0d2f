//! Holds the library against the same grammar written with nom's combinators
//! on `&str`: on a sample file and on every small change to it.

use ir_capture::button::{Button, ButtonKind};
use ir_capture::error::ParseErrorKind;
use ir_capture::parse::ir_file;
use nom::branch::alt;
use nom::bytes::complete::{tag, take_while1};
use nom::bytes::streaming::take_till;
use nom::character::complete::{digit1, newline};
use nom::combinator::{map_res, opt};
use nom::multi::separated_list1;
use nom::sequence::{delimited, pair, preceded, separated_pair, tuple};
use nom::{IResult, Parser};

#[derive(Debug, PartialEq)]
enum Kind {
    Parsed(String, String, String),
    Raw(u32, f32, Vec<(u32, u32)>, Option<u32>),
}

fn comment_line(input: &str) -> IResult<&str, &str> {
    delimited(tag("#"), take_till(|c| c == '\n'), newline)(input)
}

fn keyed<'a>(key: &'static str) -> impl FnMut(&'a str) -> IResult<&'a str, &'a str> {
    move |input| delimited(pair(tag(key), tag(": ")), take_till(|c| c == '\n'), newline)(input)
}

fn head(input: &str) -> IResult<&str, (&str, u32)> {
    pair(keyed("Filetype"), map_res(keyed("Version"), str::parse))(input)
}

fn number(input: &str) -> IResult<&str, u32> {
    map_res(digit1, str::parse)(input)
}

fn decimal(input: &str) -> IResult<&str, f32> {
    map_res(take_while1(|c: char| c.is_ascii_digit() || c == '.'), str::parse)(input)
}

fn pulse(input: &str) -> IResult<&str, (u32, u32)> {
    separated_pair(number, tag(" "), number)(input)
}

fn parsed_kind(input: &str) -> IResult<&str, Kind> {
    preceded(
        pair(tag("type: parsed"), newline),
        tuple((keyed("protocol"), keyed("address"), keyed("command"))),
    )
    .map(|(p, a, c): (&str, &str, &str)| Kind::Parsed(p.to_owned(), a.to_owned(), c.to_owned()))
    .parse(input)
}

fn raw_kind(input: &str) -> IResult<&str, Kind> {
    preceded(
        pair(tag("type: raw"), newline),
        tuple((
            delimited(tag("frequency: "), number, newline),
            delimited(tag("duty_cycle: "), decimal, newline),
            delimited(
                tag("data: "),
                pair(separated_list1(tag(" "), pulse), opt(preceded(tag(" "), number))),
                newline,
            ),
        )),
    )
    .map(|(frequency, duty, (data, last))| Kind::Raw(frequency, duty, data, last))
    .parse(input)
}

fn one_button(input: &str) -> IResult<&str, (String, Kind)> {
    pair(keyed("name"), alt((parsed_kind, raw_kind)))
        .map(|(name, kind): (&str, Kind)| (name.to_owned(), kind))
        .parse(input)
}

fn whole(input: &str) -> IResult<&str, Vec<(String, Kind)>> {
    preceded(pair(head, comment_line), separated_list1(comment_line, one_button))(input)
}

fn same_button(ours: &Button, theirs: &(String, Kind)) -> bool {
    if ours.name != theirs.0.as_bytes() {
        return false;
    }
    match (&ours.kind, &theirs.1) {
        (ButtonKind::Parsed(p), Kind::Parsed(protocol, address, command)) => {
            p.protocol == protocol.as_bytes()
                && p.address == address.as_bytes()
                && p.command == command.as_bytes()
        }
        (ButtonKind::Raw(r), Kind::Raw(frequency, duty, data, last)) => {
            let literal = String::from_utf8(r.duty_cycle.clone()).unwrap();
            r.frequency == *frequency
                && literal.parse::<f32>() == Ok(*duty)
                && r.data == *data
                && r.final_on == *last
        }
        _ => false,
    }
}

/// Whether the library and the combinators read `text` alike.
fn agree(text: &str) -> bool {
    match (ir_file(text.as_bytes()), whole(text)) {
        (Ok((rest, ours)), Ok((their_rest, theirs))) => {
            rest == their_rest.as_bytes()
                && ours.len() == theirs.len()
                && ours.iter().zip(theirs.iter()).all(|(a, b)| same_button(a, b))
        }
        (Err(e), Err(nom::Err::Error(their))) => {
            e.kind == ParseErrorKind::Mismatch && e.remaining == their.input.len()
        }
        (Err(e), Err(nom::Err::Incomplete(_))) => e.kind == ParseErrorKind::Unterminated,
        _ => false,
    }
}

const SAMPLE: &str = "Filetype: IR signals file\nVersion: 1\n# \nname: Power\ntype: parsed\nprotocol: NECext\naddress: EE 87 00 00\ncommand: 5D A0 00 00\n# second\nname: Mute\ntype: raw\nfrequency: 38000\nduty_cycle: 0.330000\ndata: 9024 4512 579 552 579 1683 579\n#\nname: Up\ntype: raw\nfrequency: 36000\nduty_cycle: .5\ndata: 1 2 3 4\n";

#[test]
fn agrees_on_the_sample() {
    assert!(whole(SAMPLE).is_ok());
    assert_eq!(whole(SAMPLE).unwrap().1.len(), 3);
    assert!(agree(SAMPLE));
}

#[test]
fn agrees_on_every_prefix() {
    for end in 0..=SAMPLE.len() {
        assert!(agree(&SAMPLE[..end]), "prefix of {end} bytes");
    }
}

#[test]
fn agrees_on_every_suffix() {
    for start in 0..=SAMPLE.len() {
        assert!(agree(&SAMPLE[start..]), "suffix from {start}");
    }
}

#[test]
fn agrees_with_one_byte_removed() {
    for at in 0..SAMPLE.len() {
        let text = format!("{}{}", &SAMPLE[..at], &SAMPLE[at + 1..]);
        assert!(agree(&text), "byte {at} removed");
    }
}

#[test]
fn agrees_with_one_byte_replaced() {
    for at in 0..SAMPLE.len() {
        for c in ["x", " ", "\n", "9", "0", ".", "#", "+", ":", "\r"] {
            let text = format!("{}{}{}", &SAMPLE[..at], c, &SAMPLE[at + 1..]);
            assert!(agree(&text), "byte {at} replaced by {c:?}");
        }
    }
}

#[test]
fn agrees_with_one_byte_added() {
    for at in 0..=SAMPLE.len() {
        for c in ["x", " ", "\n", "9", ".", "#", "+"] {
            let text = format!("{}{}{}", &SAMPLE[..at], c, &SAMPLE[at..]);
            assert!(agree(&text), "{c:?} added at {at}");
        }
    }
}

#[test]
fn agrees_on_numbers_at_the_bounds() {
    for number in ["4294967295", "4294967296", "0", "00", "99999999999999999999", "+1", "-1", ""] {
        for text in [
            format!("Filetype: x\nVersion: {number}\n#\nname: a\ntype: raw\nfrequency: 1\nduty_cycle: 1\ndata: 1 2\n"),
            format!("Filetype: x\nVersion: 1\n#\nname: a\ntype: raw\nfrequency: {number}\nduty_cycle: 1\ndata: 1 2\n"),
            format!("Filetype: x\nVersion: 1\n#\nname: a\ntype: raw\nfrequency: 1\nduty_cycle: 1\ndata: {number} 2\n"),
            format!("Filetype: x\nVersion: 1\n#\nname: a\ntype: raw\nfrequency: 1\nduty_cycle: 1\ndata: 1 {number}\n"),
            format!("Filetype: x\nVersion: 1\n#\nname: a\ntype: raw\nfrequency: 1\nduty_cycle: 1\ndata: 1 2 {number}\n"),
            format!("Filetype: x\nVersion: 1\n#\nname: a\ntype: raw\nfrequency: 1\nduty_cycle: 1\ndata: 1 2 3 {number}\n"),
            format!("Filetype: x\nVersion: 1\n#\nname: a\ntype: raw\nfrequency: 1\nduty_cycle: {number}\ndata: 1 2\n"),
        ] {
            assert!(agree(&text), "{text:?}");
        }
    }
}

#[test]
fn agrees_on_decimal_literals() {
    for literal in ["0.33", "33", "5.", ".5", ".", "..", "1.2.3", "", "0.", "1e5", "1.5x", "inf", "nan"] {
        let text = format!("Filetype: x\nVersion: 1\n#\nname: a\ntype: raw\nfrequency: 1\nduty_cycle: {literal}\ndata: 1 2\n");
        assert!(agree(&text), "{text:?}");
    }
}
