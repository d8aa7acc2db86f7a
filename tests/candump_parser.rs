use canrainbow::candump_parser::{dump_entry, CanFrame, DumpEntry, ParseError, Timestamp};

#[test]
fn it_works() {
    let exp = DumpEntry {
        timestamp: Timestamp { seconds: 1547046014, nanos: 597158 },
        can_interface: "vcan0".to_string(),
        can_frame: CanFrame {
            frame_id: 123,
            frame_body: 455,
        },
    };
    assert_eq!(dump_entry("(1547046014.597158) vcan0 7B#1C7"), Ok(("", exp)));
}

#[test]
fn dump_entry_keeps_the_rest_of_the_line() {
    let (rest, entry) = dump_entry("(1.2)can1 1f#Ab trailing").unwrap();
    assert_eq!(rest, " trailing");
    assert_eq!(entry.timestamp(), &Timestamp { seconds: 1, nanos: 2 });
    assert_eq!(entry.can_interface(), "can1");
    assert_eq!(entry.can_frame(), &CanFrame { frame_id: 0x1f, frame_body: 0xab });
}

#[test]
fn dump_entry_refuses_malformed_lines() {
    assert_eq!(dump_entry("").unwrap_err(), ParseError::Malformed);
    assert_eq!(dump_entry("1547046014.597158) vcan0 7B#1C7").unwrap_err(), ParseError::Malformed);
    assert_eq!(dump_entry("(.597158) vcan0 7B#1C7").unwrap_err(), ParseError::Malformed);
    assert_eq!(dump_entry("(1547046014.597158) 7B#1C7").unwrap_err(), ParseError::Malformed);
    assert_eq!(dump_entry("(1547046014.597158) vcan0 7B1C7").unwrap_err(), ParseError::Malformed);
    assert_eq!(dump_entry("(1547046014.597158) vcan0 7B#").unwrap_err(), ParseError::Malformed);
}

#[test]
fn dump_entry_refuses_numbers_that_do_not_fit() {
    // one past u32::MAX as identifier
    assert_eq!(dump_entry("(1.2) vcan0 100000000#1").unwrap_err(), ParseError::Malformed);
    assert!(dump_entry("(1.2) vcan0 FFFFFFFF#1").is_ok());
    // one past u64::MAX as seconds
    assert_eq!(dump_entry("(18446744073709551616.2) vcan0 1#1").unwrap_err(), ParseError::Malformed);
    assert_eq!(dump_entry("(18446744073709551615.2) vcan0 1#1").unwrap().1.timestamp().seconds, u64::MAX);
    assert_eq!(dump_entry("(1.2) vcan0 1#10000000000000000").unwrap_err(), ParseError::Malformed);
}
