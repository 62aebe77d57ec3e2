use panel_protocol::{
    ArrayString, ArrayVec, Command, CommandReader, Error, Report, ReportReader,
    MAX_SERIAL_MESSAGE_LEN,
};

#[test]
fn command_roundtrips_arrayvec() {
    let commands = [
        Command::PowerCycler { slot: 1, state: true },
        Command::PowerCycler { slot: 20, state: false },
        Command::Temperature { target: 2, value: 100 },
        Command::Brightness { target: 10, value: 100 },
    ];

    for command in commands.iter() {
        let (deserialized, _len) = Command::try_from(&command.as_arrayvec()[..]).unwrap().unwrap();
        assert_eq!(command, &deserialized);
    }
}

#[test]
fn report_roundtrips_arrayvec() {
    let reports = [
        Report::Press,
        Report::LongPress,
        Report::DialValue { diff: 100 },
        Report::EmergencyOff,
        Report::Error { code: 80 },
        Report::Debug { message: ArrayString::from("the frequency is 1000000000Hz").unwrap() },
    ];

    for report in reports.iter() {
        let (deserialized, _len) = Report::try_from(&report.as_arrayvec()[..]).unwrap().unwrap();
        assert_eq!(report, &deserialized);
    }
}

#[test]
fn report_protocol_parse() {
    let reports = [
        Report::Heartbeat,
        Report::Press,
        Report::LongPress,
        Report::DialValue { diff: 100 },
        Report::EmergencyOff,
        Report::Error { code: 80 },
    ];

    let mut bytes: ArrayVec<u8, MAX_SERIAL_MESSAGE_LEN> = ArrayVec::new();
    for report in reports.iter() {
        bytes.try_extend_from_slice(&report.as_arrayvec()[..]).unwrap();
    }

    let mut protocol = ReportReader::new();
    let report_output = protocol.process_bytes(&bytes).unwrap();

    assert_eq!(&report_output[..], &reports[..]);
}

#[test]
fn command_protocol_parse() {
    let commands = [
        Command::PowerCycler { slot: 1, state: true },
        Command::PowerCycler { slot: 20, state: false },
        Command::Temperature { target: 2, value: 100 },
        Command::Brightness { target: 10, value: 100 },
    ];

    let mut bytes: ArrayVec<u8, MAX_SERIAL_MESSAGE_LEN> = ArrayVec::new();
    for command in commands.iter() {
        bytes.try_extend_from_slice(&command.as_arrayvec()[..]).unwrap();
    }

    let mut protocol = CommandReader::new();
    let command_output = protocol.process_bytes(&bytes).unwrap();

    assert_eq!(&command_output[..], &commands[..]);
}

#[test]
fn command_encodings_are_exact() {
    assert_eq!(&Command::PowerCycler { slot: 7, state: true }.as_arrayvec()[..], &[0x41, 7, 1]);
    assert_eq!(&Command::PowerCycler { slot: 7, state: false }.as_arrayvec()[..], &[0x41, 7, 0]);
    assert_eq!(
        &Command::Brightness { target: 1, value: 0x1234 }.as_arrayvec()[..],
        &[0x42, 1, 0x12, 0x34]
    );
    assert_eq!(
        &Command::Temperature { target: 0, value: 0xfffe }.as_arrayvec()[..],
        &[0x43, 0, 0xff, 0xfe]
    );
    assert_eq!(
        &Command::Led { r: 1, g: 2, b: 3, pulse: true }.as_arrayvec()[..],
        &[0x44, 1, 2, 3, 1]
    );
}

#[test]
fn command_decodes_flags_and_numbers() {
    assert_eq!(
        Command::try_from(&[0x41, 3, 9]),
        Ok(Some((Command::PowerCycler { slot: 3, state: true }, 3)))
    );
    assert_eq!(
        Command::try_from(&[0x42, 2, 0x01, 0x02, 0x41]),
        Ok(Some((Command::Brightness { target: 2, value: 0x0102 }, 4)))
    );
    assert_eq!(
        Command::try_from(&[0x44, 10, 20, 30, 0]),
        Ok(Some((Command::Led { r: 10, g: 20, b: 30, pulse: false }, 5)))
    );
}

#[test]
fn command_incomplete_and_malformed() {
    assert_eq!(Command::try_from(&[]), Ok(None));
    assert_eq!(Command::try_from(&[0x43, 1, 2]), Ok(None));
    assert_eq!(Command::try_from(&[0x44, 1, 2, 3]), Ok(None));
    assert_eq!(Command::try_from(&[0x5a, 1, 2, 3]), Err(()));
}

#[test]
fn report_encodings_are_exact() {
    assert_eq!(&Report::Heartbeat.as_arrayvec()[..], &[0x48]);
    assert_eq!(&Report::DialValue { diff: -5 }.as_arrayvec()[..], &[0x56, 0xfb]);
    assert_eq!(&Report::Press.as_arrayvec()[..], &[0x50]);
    assert_eq!(&Report::LongPress.as_arrayvec()[..], &[0x4c]);
    assert_eq!(&Report::EmergencyOff.as_arrayvec()[..], &[0x58]);
    assert_eq!(&Report::Error { code: 0xbeef }.as_arrayvec()[..], &[0x45, 0xbe, 0xef]);
}

#[test]
fn debug_message_exact_length() {
    let report = Report::Debug { message: ArrayString::from("hi").unwrap() };
    assert_eq!(&report.as_arrayvec()[..], &[0x44, 0x02, b'h', b'i']);
    assert_eq!(Report::try_from(&[0x44, 0x02, b'h', b'i']), Ok(Some((report, 4))));
}

#[test]
fn debug_message_followed_by_more_bytes() {
    let (report, len) = Report::try_from(&[0x44, 0x02, b'o', b'k', 0x50]).unwrap().unwrap();
    assert_eq!(report, Report::Debug { message: ArrayString::from("ok").unwrap() });
    assert_eq!(len, 4);
}

#[test]
fn debug_message_multibyte_text() {
    let report = Report::Debug { message: ArrayString::from("温度 ok").unwrap() };
    let bytes = report.as_arrayvec();
    assert_eq!(bytes[1] as usize, "温度 ok".len());
    assert_eq!(Report::try_from(&bytes[..]), Ok(Some((report, 2 + "温度 ok".len()))));
}

#[test]
fn debug_message_invalid_utf8_is_malformed() {
    assert_eq!(Report::try_from(&[0x44, 0x02, 0xff, 0xfe]), Err(()));
}

#[test]
fn debug_message_too_long_is_malformed() {
    assert_eq!(Report::try_from(&[0x44, 0xff]), Err(()));
}

#[test]
fn report_incomplete_and_malformed() {
    assert_eq!(Report::try_from(&[]), Ok(None));
    assert_eq!(Report::try_from(&[0x56]), Ok(None));
    assert_eq!(Report::try_from(&[0x45, 0x01]), Ok(None));
    assert_eq!(Report::try_from(&[0x44]), Ok(None));
    assert_eq!(Report::try_from(&[0x44, 0x03, b'a', b'b']), Ok(None));
    assert_eq!(Report::try_from(&[0x41]), Err(()));
}

#[test]
fn dial_value_and_press_fed_byte_by_byte() {
    let mut reader = ReportReader::new();
    assert_eq!(reader.process_bytes(&[0x56]).unwrap().len(), 0);
    assert_eq!(&reader.process_bytes(&[0xfb]).unwrap()[..], &[Report::DialValue { diff: -5 }]);
    assert_eq!(&reader.process_bytes(&[0x50]).unwrap()[..], &[Report::Press]);
    assert_eq!(reader.buf.len(), 0);
}

#[test]
fn dial_value_and_press_fed_at_once() {
    let mut reader = ReportReader::new();
    assert_eq!(
        &reader.process_bytes(&[0x56, 0xfb, 0x50]).unwrap()[..],
        &[Report::DialValue { diff: -5 }, Report::Press]
    );
}

#[test]
fn fragmentation_does_not_change_commands() {
    let commands = [
        Command::Led { r: 0, g: 30, b: 255, pulse: true },
        Command::Brightness { target: 1, value: 513 },
        Command::PowerCycler { slot: 2, state: false },
        Command::Temperature { target: 0, value: 65535 },
    ];
    let mut stream: Vec<u8> = Vec::new();
    for command in commands.iter() {
        stream.extend_from_slice(&command.as_arrayvec());
    }
    for cut in 0..=stream.len() {
        let mut reader = CommandReader::new();
        let mut out: Vec<Command> = Vec::new();
        out.extend(reader.process_bytes(&stream[..cut]).unwrap());
        out.extend(reader.process_bytes(&stream[cut..]).unwrap());
        assert_eq!(&out[..], &commands[..]);
    }
    let mut reader = CommandReader::new();
    let mut out: Vec<Command> = Vec::new();
    for byte in stream.iter() {
        out.extend(reader.process_bytes(&[*byte]).unwrap());
    }
    assert_eq!(&out[..], &commands[..]);
}

#[test]
fn fragmentation_does_not_change_reports() {
    let reports = [
        Report::Debug { message: ArrayString::from("fan at 40%").unwrap() },
        Report::DialValue { diff: -128 },
        Report::Error { code: 513 },
        Report::Heartbeat,
        Report::Debug { message: ArrayString::from("").unwrap() },
    ];
    let mut stream: Vec<u8> = Vec::new();
    for report in reports.iter() {
        stream.extend_from_slice(&report.as_arrayvec());
    }
    for first in 0..=stream.len() {
        for second in first..=stream.len() {
            let mut reader = ReportReader::new();
            let mut out: Vec<Report> = Vec::new();
            out.extend(reader.process_bytes(&stream[..first]).unwrap());
            out.extend(reader.process_bytes(&stream[first..second]).unwrap());
            out.extend(reader.process_bytes(&stream[second..]).unwrap());
            assert_eq!(&out[..], &reports[..]);
            assert_eq!(reader.buf.len(), 0);
        }
    }
}

#[test]
fn debug_message_waits_for_last_byte() {
    let report = Report::Debug { message: ArrayString::from("tail").unwrap() };
    let bytes = report.as_arrayvec();
    let mut reader = ReportReader::new();
    assert_eq!(reader.process_bytes(&bytes[..bytes.len() - 1]).unwrap().len(), 0);
    assert_eq!(&reader.process_bytes(&bytes[bytes.len() - 1..]).unwrap()[..], &[report]);
}

#[test]
fn command_waits_for_last_byte() {
    let command = Command::Temperature { target: 1, value: 4000 };
    let bytes = command.as_arrayvec();
    let mut reader = CommandReader::new();
    assert_eq!(reader.process_bytes(&bytes[..3]).unwrap().len(), 0);
    assert_eq!(&reader.process_bytes(&bytes[3..]).unwrap()[..], &[command]);
}

#[test]
fn unknown_report_tag_is_malformed() {
    let mut reader = ReportReader::new();
    assert_eq!(reader.process_bytes(&[b'Z', 0x50]), Err(Error::MalformedMessage));
    assert_eq!(&reader.buf[..], &[b'Z', 0x50]);
}

#[test]
fn unknown_command_tag_is_malformed() {
    let mut reader = CommandReader::new();
    assert_eq!(reader.process_bytes(&[0x00]), Err(Error::MalformedMessage));
}

#[test]
fn malformed_after_complete_message() {
    let mut reader = ReportReader::new();
    assert_eq!(reader.process_bytes(&[0x50, 0x01]), Err(Error::MalformedMessage));
    assert_eq!(&reader.buf[..], &[0x01]);
}

#[test]
fn buffer_full_leaves_buffer_unchanged() {
    let mut head = vec![0x44, 254];
    head.extend(std::iter::repeat(b'x').take(253));
    let mut reader = ReportReader::new();
    assert_eq!(reader.process_bytes(&head).unwrap().len(), 0);
    assert_eq!(reader.process_bytes(&[b'x', b'x']), Err(Error::BufferFull));
    assert_eq!(reader.buf.len(), 255);
    let out = reader.process_bytes(&[b'x']).unwrap();
    assert_eq!(out.len(), 1);
    match &out[0] {
        Report::Debug { message } => assert_eq!(message.len(), 254),
        other => panic!("unexpected report {:?}", other),
    }
}

#[test]
fn more_bytes_than_capacity_is_buffer_full() {
    let mut reader = CommandReader::new();
    let bytes = [0x42u8; MAX_SERIAL_MESSAGE_LEN + 1];
    assert_eq!(reader.process_bytes(&bytes), Err(Error::BufferFull));
}

#[test]
fn answer_holds_at_most_six_messages() {
    let mut reader = ReportReader::new();
    let first = reader.process_bytes(&[0x50; 8]).unwrap();
    assert_eq!(first.len(), 6);
    assert_eq!(reader.buf.len(), 2);
    let second = reader.process_bytes(&[]).unwrap();
    assert_eq!(&second[..], &[Report::Press, Report::Press]);
}

#[test]
fn default_readers_start_empty() {
    let mut commands = CommandReader::default();
    assert_eq!(commands.process_bytes(&[0x41, 1]).unwrap().len(), 0);
    let reports = ReportReader::default();
    assert_eq!(reports.buf.len(), 0);
}

#[test]
fn unknown_report_tag_after_full_answer_is_malformed() {
    let mut reader = ReportReader::new();
    let mut bytes = vec![0x50u8; 6];
    bytes.push(b'Z');
    assert_eq!(reader.process_bytes(&bytes), Err(Error::MalformedMessage));
    assert_eq!(&reader.buf[..], &[b'Z']);
}

#[test]
fn unknown_command_tag_after_full_answer_is_malformed() {
    let mut bytes: Vec<u8> = Vec::new();
    for slot in 0..6u8 {
        bytes.extend_from_slice(&Command::PowerCycler { slot, state: true }.as_arrayvec());
    }
    bytes.push(0x00);
    let mut reader = CommandReader::new();
    assert_eq!(reader.process_bytes(&bytes), Err(Error::MalformedMessage));
}

#[test]
fn full_answer_leaves_incomplete_rest_buffered() {
    let mut bytes = vec![0x50u8; 6];
    bytes.push(0x45);
    let mut reader = ReportReader::new();
    assert_eq!(reader.process_bytes(&bytes).unwrap().len(), 6);
    assert_eq!(&reader.process_bytes(&[0x00, 0x07]).unwrap()[..], &[Report::Error { code: 7 }]);
}
