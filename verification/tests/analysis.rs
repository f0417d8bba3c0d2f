use ir_capture::analyze::{
    analyze, classify, collect_pulses, decode, find_repeat_marker, midpoint, read_bit,
    report_button, select, split_pulses,
};
use ir_capture::button::{Button, ButtonKind, ParsedButton, RawButton};
use ir_capture::capture::analyze_capture;
use ir_capture::error::{AnalyzeError, ParseError, ParseErrorKind};
use ir_capture::report::{
    group_bits, ButtonReport, Decoded, Decoder, Modulation, RepeatMarker, Timings,
};

fn raw(name: &str, data: Vec<(u32, u32)>, final_on: Option<u32>) -> Button {
    Button {
        name: name.as_bytes().to_vec(),
        kind: ButtonKind::Raw(RawButton {
            frequency: 38000,
            duty_cycle: b"0.33".to_vec(),
            data,
            final_on,
        }),
    }
}

fn parsed(name: &str) -> Button {
    Button {
        name: name.as_bytes().to_vec(),
        kind: ButtonKind::Parsed(ParsedButton {
            protocol: b"NEC".to_vec(),
            address: b"04 00 00 00".to_vec(),
            command: b"08 00 00 00".to_vec(),
        }),
    }
}

fn bits(text: &str) -> Vec<bool> {
    text.bytes().map(|b| b == b'1').collect()
}

#[test]
fn no_button_is_an_empty_file() {
    assert_eq!(analyze(&[]), Err(AnalyzeError::EmptyFile));
}

#[test]
fn parsed_buttons_alone_hold_no_raw_data() {
    assert_eq!(analyze(&[parsed("Power")]), Err(AnalyzeError::NoRawData));
    assert_eq!(analyze(&[parsed("Power"), parsed("Mute")]), Err(AnalyzeError::NoRawData));
}

#[test]
fn a_raw_button_without_pulses_holds_no_raw_data() {
    assert_eq!(analyze(&[raw("Power", vec![], None)]), Err(AnalyzeError::NoRawData));
    assert_eq!(analyze(&[raw("Power", vec![], Some(500))]), Err(AnalyzeError::NoRawData));
    assert_eq!(
        analyze(&[parsed("Mute"), raw("Power", vec![], None), raw("Up", vec![], None)]),
        Err(AnalyzeError::NoRawData)
    );
}

#[test]
fn preambles_alone_are_degenerate() {
    assert_eq!(
        analyze(&[raw("Power", vec![(9000, 4500)], None)]),
        Err(AnalyzeError::DegenerateBucket)
    );
    assert_eq!(
        analyze(&[raw("Power", vec![(9000, 4500)], Some(560)), raw("Up", vec![(9000, 4500)], None)]),
        Err(AnalyzeError::DegenerateBucket)
    );
}

#[test]
fn equal_marks_are_degenerate() {
    let data = vec![(9000, 4500), (560, 560), (560, 1680), (560, 560)];
    assert_eq!(analyze(&[raw("Power", data, None)]), Err(AnalyzeError::DegenerateBucket));
}

#[test]
fn equal_spaces_are_degenerate() {
    let data = vec![(9000, 4500), (560, 560), (1680, 560), (561, 560)];
    assert_eq!(analyze(&[raw("Power", data, None)]), Err(AnalyzeError::DegenerateBucket));
}

#[test]
fn a_single_pulse_is_degenerate() {
    let data = vec![(9000, 4500), (560, 1680)];
    assert_eq!(analyze(&[raw("Power", data, None)]), Err(AnalyzeError::DegenerateBucket));
}

#[test]
fn the_empty_check_comes_before_the_raw_data_check() {
    assert_eq!(analyze(&[]), Err(AnalyzeError::EmptyFile));
    assert_eq!(analyze(&[raw("Power", vec![], None)]), Err(AnalyzeError::NoRawData));
    assert_eq!(
        analyze(&[raw("Power", vec![(1, 1)], None)]),
        Err(AnalyzeError::DegenerateBucket)
    );
}

#[test]
fn marks_that_differ_more_than_spaces_are_pulse_width() {
    let data = vec![(100, 100), (500, 200), (500, 200), (100, 500), (100, 500)];
    let report = analyze(&[raw("Power", data, None)]).unwrap();
    assert_eq!(report.decoder.modulation, Modulation::PulseWidth);
    assert_eq!(report.decoder.mark_divider, 300);
    assert_eq!(report.decoder.space_divider, 350);
    assert_eq!(report.decoder.repeat_marker, None);
    assert_eq!(
        report.timings,
        Timings {
            preamble_mark: 100,
            preamble_space: 100,
            bit0_mark: 100,
            bit0_space: 200,
            bit1_mark: 500,
            bit1_space: 500,
        }
    );
    assert_eq!(
        report.buttons,
        vec![ButtonReport {
            name: b"Power".to_vec(),
            decoded: Some(Decoded { bits: bits("1100"), extra: vec![] }),
        }]
    );
}

#[test]
fn equal_gaps_are_pulse_distance() {
    let data = vec![(100, 100), (500, 200), (500, 200), (100, 600), (100, 600)];
    let report = analyze(&[raw("Power", data, None)]).unwrap();
    assert_eq!(report.decoder.mark_divider, 300);
    assert_eq!(report.decoder.space_divider, 400);
    assert_eq!(report.decoder.repeat_marker, None);
    assert_eq!(
        report.timings,
        Timings {
            preamble_mark: 100,
            preamble_space: 100,
            bit0_mark: 100,
            bit0_space: 200,
            bit1_mark: 500,
            bit1_space: 600,
        }
    );
    assert_eq!(report.decoder.modulation, Modulation::PulseDistance);
    assert_eq!(report.buttons[0].decoded, Some(Decoded { bits: bits("0011"), extra: vec![] }));
}

#[test]
fn spaces_that_differ_more_than_marks_are_pulse_distance() {
    let data = vec![(9000, 4500), (560, 560), (570, 1680), (550, 1690), (560, 550)];
    let report = analyze(&[raw("Power", data, Some(560))]).unwrap();
    assert_eq!(report.decoder.modulation, Modulation::PulseDistance);
    assert_eq!(report.decoder.mark_divider, 560);
    assert_eq!(report.decoder.space_divider, 1120);
    assert_eq!(
        report.timings,
        Timings {
            preamble_mark: 9000,
            preamble_space: 4500,
            bit0_mark: 556,
            bit0_space: 555,
            bit1_mark: 570,
            bit1_space: 1685,
        }
    );
    assert_eq!(
        report.buttons[0].decoded,
        Some(Decoded { bits: bits("0110"), extra: vec![560] })
    );
}

#[test]
fn repeat_marker_is_the_first_very_long_space() {
    assert_eq!(
        find_repeat_marker(&[200, 210, 195, 205, 5000, 300]),
        Some(RepeatMarker { index: 4, long_space: 2500 })
    );
}

#[test]
fn repeat_marker_compares_with_the_spaces_before() {
    assert_eq!(find_repeat_marker(&[]), None);
    assert_eq!(find_repeat_marker(&[5000]), None);
    assert_eq!(find_repeat_marker(&[5000, 100, 100]), None);
    assert_eq!(find_repeat_marker(&[100, 1000]), None);
    assert_eq!(find_repeat_marker(&[100, 1001]), Some(RepeatMarker { index: 1, long_space: 500 }));
    assert_eq!(find_repeat_marker(&[0, 0, 0]), None);
    assert_eq!(find_repeat_marker(&[0, 1]), Some(RepeatMarker { index: 1, long_space: 0 }));
    assert_eq!(
        find_repeat_marker(&[200, 200, 200, 200, 200, 2000, 2001]),
        None
    );
    assert_eq!(
        find_repeat_marker(&[200, 200, 200, 2001, 9000]),
        Some(RepeatMarker { index: 3, long_space: 1000 })
    );
}

#[test]
fn repeat_marker_rounds_the_mean_down() {
    assert_eq!(find_repeat_marker(&[200, 201, 2001]), Some(RepeatMarker { index: 2, long_space: 1000 }));
    assert_eq!(find_repeat_marker(&[200, 201, 2000]), None);
    assert_eq!(find_repeat_marker(&[200, 210, 195, 205, 2020]), None);
    assert_eq!(
        find_repeat_marker(&[200, 210, 195, 205, 2021]),
        Some(RepeatMarker { index: 4, long_space: 1010 })
    );
}

#[test]
fn repeat_marker_halves_the_longest_space_so_far() {
    let mut spaces = vec![2000];
    spaces.extend([0; 19]);
    spaces.push(1500);
    assert_eq!(find_repeat_marker(&spaces), Some(RepeatMarker { index: 20, long_space: 1000 }));
}

#[test]
fn repeat_marker_does_not_overflow() {
    assert_eq!(find_repeat_marker(&[u32::MAX, u32::MAX, u32::MAX]), None);
    assert_eq!(
        find_repeat_marker(&[429496729, u32::MAX]),
        Some(RepeatMarker { index: 1, long_space: u32::MAX / 2 })
    );
    assert_eq!(find_repeat_marker(&[429496730, u32::MAX]), None);
}

#[test]
fn pulses_from_the_repeat_marker_on_are_extra() {
    let data = vec![
        (9000, 4500),
        (560, 200),
        (1680, 210),
        (560, 195),
        (1680, 205),
        (560, 5000),
        (570, 300),
    ];
    let report = analyze(&[raw("Power", data, Some(580))]).unwrap();
    assert_eq!(
        report.decoder,
        Decoder {
            modulation: Modulation::PulseWidth,
            mark_divider: 1120,
            space_divider: 202,
            repeat_marker: Some(RepeatMarker { index: 4, long_space: 2500 }),
        }
    );
    assert_eq!(
        report.timings,
        Timings {
            preamble_mark: 9000,
            preamble_space: 4500,
            bit0_mark: 560,
            bit0_space: 197,
            bit1_mark: 1680,
            bit1_space: 207,
        }
    );
    assert_eq!(
        report.buttons[0].decoded,
        Some(Decoded { bits: bits("0101"), extra: vec![560, 5000, 570, 300, 580] })
    );
}

#[test]
fn all_buttons_share_one_repeat_marker() {
    let a = raw(
        "A",
        vec![(9000, 4500), (500, 500), (1500, 500), (500, 520), (500, 9000), (510, 500)],
        None,
    );
    let b = raw(
        "B",
        vec![(9100, 4400), (1500, 480), (1500, 500), (500, 500), (520, 30000)],
        Some(530),
    );
    let report = analyze(&[a, parsed("P"), b, raw("C", vec![], Some(7))]).unwrap();
    assert_eq!(
        report.decoder,
        Decoder {
            modulation: Modulation::PulseWidth,
            mark_divider: 1000,
            space_divider: 510,
            repeat_marker: Some(RepeatMarker { index: 3, long_space: 4500 }),
        }
    );
    assert_eq!(
        report.timings,
        Timings {
            preamble_mark: 9050,
            preamble_space: 4450,
            bit0_mark: 500,
            bit0_space: 500,
            bit1_mark: 1500,
            bit1_space: 520,
        }
    );
    assert_eq!(
        report.buttons,
        vec![
            ButtonReport {
                name: b"A".to_vec(),
                decoded: Some(Decoded { bits: bits("010"), extra: vec![500, 9000, 510, 500] }),
            },
            ButtonReport { name: b"P".to_vec(), decoded: None },
            ButtonReport {
                name: b"B".to_vec(),
                decoded: Some(Decoded { bits: bits("110"), extra: vec![520, 30000, 530] }),
            },
            ButtonReport {
                name: b"C".to_vec(),
                decoded: Some(Decoded { bits: vec![], extra: vec![7] }),
            },
        ]
    );
}

#[test]
fn thresholds_come_from_all_buttons_without_a_marker() {
    let a = raw("A", vec![(9000, 4500), (500, 500), (500, 500)], None);
    let b = raw("B", vec![(9000, 4500), (1500, 510), (1500, 510)], None);
    let report = analyze(&[a, b]).unwrap();
    assert_eq!(report.decoder.mark_divider, 1000);
    assert_eq!(report.decoder.space_divider, 505);
    assert_eq!(report.decoder.modulation, Modulation::PulseWidth);
    assert_eq!(report.buttons[0].decoded.as_ref().unwrap().bits, bits("00"));
    assert_eq!(report.buttons[1].decoded.as_ref().unwrap().bits, bits("11"));
}

#[test]
fn a_marker_in_a_later_button_leaves_shorter_buttons_whole() {
    let a = raw("A", vec![(9000, 4500), (500, 500), (1500, 510)], None);
    let b = raw("B", vec![(9000, 4500), (1500, 500), (500, 510), (500, 40000), (1, 2)], None);
    let report = analyze(&[a, b]).unwrap();
    assert_eq!(
        report.decoder.repeat_marker,
        Some(RepeatMarker { index: 4, long_space: 20000 })
    );
    assert_eq!(
        report.buttons[0].decoded,
        Some(Decoded { bits: bits("01"), extra: vec![] })
    );
    assert_eq!(
        report.buttons[1].decoded,
        Some(Decoded { bits: bits("1000"), extra: vec![] })
    );
}

#[test]
fn midpoint_is_halfway_between_the_extremes() {
    assert_eq!(midpoint(&[100, 500, 500, 100]), 300);
    assert_eq!(midpoint(&[200, 210, 195, 205]), 202);
    assert_eq!(midpoint(&[1, 2]), 1);
    assert_eq!(midpoint(&[7]), 7);
    assert_eq!(midpoint(&[u32::MAX, u32::MAX - 1]), u32::MAX - 1);
    assert_eq!(midpoint(&[]), u32::MAX / 2);
}

#[test]
fn select_keeps_one_side_in_order() {
    let values = [100, 500, 300, 301, 0, 300];
    assert_eq!(select(&values, 300, false), vec![100, 300, 0, 300]);
    assert_eq!(select(&values, 300, true), vec![500, 301]);
    assert_eq!(select(&values, 500, true), Vec::<u32>::new());
    assert_eq!(select(&[], 300, false), Vec::<u32>::new());
}

#[test]
fn classify_compares_the_gaps() {
    let mut timings = Timings {
        preamble_mark: 9000,
        preamble_space: 0,
        bit0_mark: 100,
        bit0_space: 200,
        bit1_mark: 500,
        bit1_space: 599,
    };
    assert_eq!(classify(&timings), Modulation::PulseWidth);
    timings.bit1_space = 600;
    assert_eq!(classify(&timings), Modulation::PulseDistance);
    timings.bit1_space = 601;
    assert_eq!(classify(&timings), Modulation::PulseDistance);
}

#[test]
fn classify_takes_a_negative_gap_as_none() {
    let timings = Timings {
        preamble_mark: 0,
        preamble_space: 0,
        bit0_mark: 500,
        bit0_space: 600,
        bit1_mark: 100,
        bit1_space: 601,
    };
    assert_eq!(classify(&timings), Modulation::PulseDistance);
    let timings = Timings { bit0_mark: 500, bit1_mark: 501, bit0_space: 600, bit1_space: 0, ..timings };
    assert_eq!(classify(&timings), Modulation::PulseWidth);
    let timings = Timings { bit0_mark: 500, bit1_mark: 1, bit0_space: 600, bit1_space: 0, ..timings };
    assert_eq!(classify(&timings), Modulation::PulseDistance);
}

#[test]
fn read_bit_looks_at_the_side_that_carries_bits() {
    let width = Decoder {
        modulation: Modulation::PulseWidth,
        mark_divider: 300,
        space_divider: 400,
        repeat_marker: None,
    };
    assert!(!read_bit((300, 9999), &width));
    assert!(read_bit((301, 0), &width));
    let distance = Decoder { modulation: Modulation::PulseDistance, ..width };
    assert!(!read_bit((9999, 400), &distance));
    assert!(read_bit((0, 401), &distance));
}

#[test]
fn decode_splits_at_the_marker() {
    let button = RawButton {
        frequency: 38000,
        duty_cycle: b"0.33".to_vec(),
        data: vec![(9000, 4500), (100, 1), (500, 2), (100, 3), (500, 4)],
        final_on: Some(5),
    };
    let mut decoder = Decoder {
        modulation: Modulation::PulseWidth,
        mark_divider: 300,
        space_divider: 2,
        repeat_marker: None,
    };
    assert_eq!(decode(&button, &decoder), Decoded { bits: bits("0101"), extra: vec![5] });
    decoder.repeat_marker = Some(RepeatMarker { index: 3, long_space: 0 });
    assert_eq!(decode(&button, &decoder), Decoded { bits: bits("010"), extra: vec![500, 4, 5] });
    decoder.repeat_marker = Some(RepeatMarker { index: 0, long_space: 0 });
    assert_eq!(
        decode(&button, &decoder),
        Decoded { bits: vec![], extra: vec![100, 1, 500, 2, 100, 3, 500, 4, 5] }
    );
    decoder.repeat_marker = Some(RepeatMarker { index: 4, long_space: 0 });
    assert_eq!(decode(&button, &decoder), Decoded { bits: bits("0101"), extra: vec![5] });
    decoder.repeat_marker = Some(RepeatMarker { index: 400, long_space: 0 });
    assert_eq!(decode(&button, &decoder), Decoded { bits: bits("0101"), extra: vec![5] });
    decoder.modulation = Modulation::PulseDistance;
    assert_eq!(decode(&button, &decoder), Decoded { bits: bits("0011"), extra: vec![5] });
}

#[test]
fn decode_of_no_pulses() {
    let decoder = Decoder {
        modulation: Modulation::PulseWidth,
        mark_divider: 300,
        space_divider: 2,
        repeat_marker: None,
    };
    let mut button =
        RawButton { frequency: 1, duty_cycle: b"1".to_vec(), data: vec![], final_on: None };
    assert_eq!(decode(&button, &decoder), Decoded { bits: vec![], extra: vec![] });
    button.data = vec![(9000, 4500)];
    button.final_on = Some(9);
    assert_eq!(decode(&button, &decoder), Decoded { bits: vec![], extra: vec![9] });
}

#[test]
fn report_button_keeps_the_name() {
    let decoder = Decoder {
        modulation: Modulation::PulseWidth,
        mark_divider: 300,
        space_divider: 2,
        repeat_marker: None,
    };
    assert_eq!(
        report_button(&parsed("Vol +"), &decoder),
        ButtonReport { name: b"Vol +".to_vec(), decoded: None }
    );
    assert_eq!(
        report_button(&raw("Vol -", vec![(1, 1), (400, 0)], None), &decoder),
        ButtonReport {
            name: b"Vol -".to_vec(),
            decoded: Some(Decoded { bits: bits("1"), extra: vec![] }),
        }
    );
}

#[test]
fn collect_pulses_parts_preambles_from_the_rest() {
    let buttons = [
        raw("A", vec![(1, 2), (3, 4), (5, 6)], Some(7)),
        parsed("P"),
        raw("B", vec![], None),
        raw("C", vec![(8, 9)], None),
        raw("D", vec![(10, 11), (12, 13)], None),
    ];
    assert_eq!(
        collect_pulses(&buttons),
        (vec![(1, 2), (8, 9), (10, 11)], vec![(3, 4), (5, 6), (12, 13)])
    );
    assert_eq!(collect_pulses(&[]), (vec![], vec![]));
}

#[test]
fn split_pulses_parts_marks_from_spaces() {
    assert_eq!(split_pulses(&[(1, 2), (3, 4), (5, 6)]), (vec![1, 3, 5], vec![2, 4, 6]));
    assert_eq!(split_pulses(&[]), (vec![], vec![]));
}

#[test]
fn group_bits_writes_groups_of_eight() {
    assert_eq!(group_bits(&[]), b"".to_vec());
    assert_eq!(group_bits(&bits("1")), b" 1".to_vec());
    assert_eq!(group_bits(&bits("10100101")), b" 10100101".to_vec());
    assert_eq!(group_bits(&bits("101001011")), b" 10100101 1".to_vec());
    assert_eq!(
        group_bits(&bits("00000000111111110101")),
        b" 00000000 11111111 0101".to_vec()
    );
}

#[test]
fn modulation_labels() {
    assert_eq!(Modulation::PulseWidth.label(), "Pulse Width Modulation");
    assert_eq!(Modulation::PulseDistance.label(), "Pulse Distance Modulation");
}

const HEADER: &str = "Filetype: IR signals file\nVersion: 1\n";

#[test]
fn analyze_capture_reads_and_analyses() {
    let text = format!(
        "{HEADER}# \nname: Power\ntype: parsed\nprotocol: NEC\naddress: 04 00 00 00\ncommand: 08 00 00 00\n# \nname: Mute\ntype: raw\nfrequency: 38000\nduty_cycle: 0.330000\ndata: 9000 4500 560 200 1680 210 560 195 1680 205 560 5000 570 300 580\n"
    );
    let report = analyze_capture(text.as_bytes()).unwrap();
    assert_eq!(report.decoder.modulation, Modulation::PulseWidth);
    assert_eq!(report.decoder.repeat_marker, Some(RepeatMarker { index: 4, long_space: 2500 }));
    assert_eq!(
        report.buttons,
        vec![
            ButtonReport { name: b"Power".to_vec(), decoded: None },
            ButtonReport {
                name: b"Mute".to_vec(),
                decoded: Some(Decoded { bits: bits("0101"), extra: vec![560, 5000, 570, 300, 580] }),
            },
        ]
    );
}

#[test]
fn analyze_capture_failures() {
    let format = |remaining| {
        Err(AnalyzeError::Format(ParseError { kind: ParseErrorKind::Mismatch, remaining }))
    };
    assert_eq!(analyze_capture(b""), format(0));
    assert_eq!(analyze_capture(HEADER.as_bytes()), format(0));
    let text = format!("{HEADER}# \nname: Power\ntype: unknown\n");
    assert_eq!(analyze_capture(text.as_bytes()), format(14));
    let text = format!(
        "{HEADER}# \nname: Mute\ntype: raw\nfrequency: 38000\nduty_cycle: 0.33\ndata: \n"
    );
    assert_eq!(analyze_capture(text.as_bytes()), format(1));
    let text = format!(
        "{HEADER}# \nname: Mute\ntype: raw\nfrequency: 38000\nduty_cycle: 0.33\ndata: 1 2 3 4 5 6"
    );
    assert_eq!(analyze_capture(text.as_bytes()), format(0));
    let text = format!("{HEADER}# \nname: Power");
    assert_eq!(
        analyze_capture(text.as_bytes()),
        Err(AnalyzeError::Format(ParseError { kind: ParseErrorKind::Unterminated, remaining: 5 }))
    );
    let text = format!(
        "{HEADER}# \nname: Power\ntype: parsed\nprotocol: NEC\naddress: 04 00 00 00\ncommand: 08 00 00 00\n"
    );
    assert_eq!(analyze_capture(text.as_bytes()), Err(AnalyzeError::NoRawData));
    let text = format!(
        "{HEADER}# \nname: Mute\ntype: raw\nfrequency: 38000\nduty_cycle: 0.33\ndata: 9000 4500 560 560 560 1680\n"
    );
    assert_eq!(analyze_capture(text.as_bytes()), Err(AnalyzeError::DegenerateBucket));
}

#[test]
fn analysing_twice_gives_the_same() {
    let buttons = [
        raw("A", vec![(9000, 4500), (500, 500), (1500, 500), (500, 520), (500, 9000)], None),
        parsed("P"),
        raw("B", vec![(9100, 4400), (1500, 480), (1500, 500), (500, 500)], Some(530)),
    ];
    let first = analyze(&buttons);
    let second = analyze(&buttons);
    assert!(first.is_ok());
    assert_eq!(first, second);
    let first = first.unwrap();
    let second = second.unwrap();
    assert_eq!(first.decoder.modulation, second.decoder.modulation);
    for (a, b) in first.buttons.iter().zip(second.buttons.iter()) {
        assert_eq!(a.decoded, b.decoded);
    }
    assert_eq!(analyze(&[parsed("P")]), analyze(&[parsed("P")]));
}
