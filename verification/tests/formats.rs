//! Format names, framing, and error constructors.

use rgb_node::codec::{read_varint, write_varint};
use rgb_node::error::{RuntimeError, ServiceSocketType};
use rgb_node::rpc::{frame_message, unframe_message};
use rgb_node::{DataFormat, FileFormatParseError};

#[test]
fn format_names_parse_case_insensitively_with_aliases() {
    assert_eq!(DataFormat::from_str("yaml"), Ok(DataFormat::Yaml));
    assert_eq!(DataFormat::from_str("YAML"), Ok(DataFormat::Yaml));
    assert_eq!(DataFormat::from_str("yml"), Ok(DataFormat::Yaml));
    assert_eq!(DataFormat::from_str("json"), Ok(DataFormat::Json));
    assert_eq!(DataFormat::from_str("Toml"), Ok(DataFormat::Toml));
    assert_eq!(DataFormat::from_str("se"), Ok(DataFormat::StrictEncode));
    assert_eq!(DataFormat::from_str("dat"), Ok(DataFormat::StrictEncode));
    assert_eq!(
        DataFormat::from_str("strictencode"),
        Ok(DataFormat::StrictEncode)
    );
    assert_eq!(
        DataFormat::from_str("strict-encode"),
        Ok(DataFormat::StrictEncode)
    );
    assert_eq!(
        DataFormat::from_str("strict_encode"),
        Ok(DataFormat::StrictEncode)
    );
    assert_eq!(
        DataFormat::from_str("bincode"),
        Err(FileFormatParseError::UnknownFormat)
    );
}

#[test]
fn extensions_match_the_formats() {
    assert_eq!(DataFormat::Yaml.extension(), "yaml");
    assert_eq!(DataFormat::Json.extension(), "json");
    assert_eq!(DataFormat::Toml.extension(), "toml");
    assert_eq!(DataFormat::StrictEncode.extension(), "se");
}

#[test]
fn varints_round_trip_at_width_boundaries() {
    for n in [0u64, 1, 252, 253, 254, 65535, 65536, 4294967295, 4294967296, u64::MAX] {
        let mut out = Vec::new();
        write_varint(&mut out, n);
        let (m, used) = read_varint(&out, 0).unwrap();
        assert_eq!(m, n);
        assert_eq!(used, out.len());
    }
}

#[test]
fn framing_round_trips_a_message() {
    let msg = b"\x01\x02framed payload".to_vec();
    let frame = frame_message(&msg);
    let (back, used) = unframe_message(&frame, 0).unwrap();
    assert_eq!(back, msg);
    assert_eq!(used, frame.len());
}

#[test]
fn zmq_error_constructors_name_their_roles() {
    let e = RuntimeError::zmq_reply("inproc://rpc".to_string(), "timeout".to_string());
    match e {
        RuntimeError::Zmq(role, _, _) => assert!(matches!(role, ServiceSocketType::Reply)),
        _ => panic!("expected a zmq error"),
    }
    let e = RuntimeError::zmq_publish("inproc://pub".to_string(), "closed".to_string());
    match e {
        RuntimeError::Zmq(role, _, _) => assert!(matches!(role, ServiceSocketType::Publish)),
        _ => panic!("expected a zmq error"),
    }
}
