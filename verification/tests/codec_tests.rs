use capellix::codec::SocketCommandCodec;
use capellix::error::Error;
use capellix::fan::Fan;
use capellix::hid::LED_COUNT_TOTAL;
use capellix::socket_command::{
    socket_command_bytes, socket_command_str, Rgb, SocketCommand,
};
use capellix::socket_response::{socket_response_bytes, SocketResponse};

const MARKER: [u8; 4] = [b'C', b'P', b'L', b'X'];

fn frame(command: &SocketCommand) -> Vec<u8> {
    let mut out = MARKER.to_vec();
    out.extend(command.to_bytes());
    out
}

fn sample_colors(seed: u8) -> Vec<Rgb> {
    (0..LED_COUNT_TOTAL)
        .map(|i| Rgb {
            r: (i as u8).wrapping_add(seed),
            g: (i as u8).wrapping_mul(3),
            b: 9,
        })
        .collect()
}

fn drain(codec: &mut SocketCommandCodec, bytes: &[u8]) -> Vec<SocketCommand> {
    let mut src = bytes.to_vec();
    let mut out = Vec::new();
    while let Some(command) = codec.decode(&mut src) {
        out.push(command);
        src = Vec::new();
    }
    out
}

fn command_eq(a: &SocketCommand, b: &SocketCommand) -> bool {
    match (a, b) {
        (SocketCommand::GetCoolantTemp, SocketCommand::GetCoolantTemp) => true,
        (SocketCommand::GetPumpSpeed, SocketCommand::GetPumpSpeed) => true,
        (SocketCommand::SetFanTarget(f1, s1), SocketCommand::SetFanTarget(f2, s2)) => {
            f1 == f2 && s1 == s2
        }
        (SocketCommand::SetColors(c1), SocketCommand::SetColors(c2)) => c1 == c2,
        _ => false,
    }
}

#[test]
fn binary_roundtrip_every_variant() {
    let commands = vec![
        SocketCommand::GetCoolantTemp,
        SocketCommand::GetPumpSpeed,
        SocketCommand::SetFanTarget(Fan::Pump, 0),
        SocketCommand::SetFanTarget(Fan::Fan(5), 100),
        SocketCommand::SetFanTarget(Fan::Fan(6), 65535),
        SocketCommand::SetColors(sample_colors(1)),
    ];
    for command in &commands {
        let bytes = command.to_bytes();
        let (decoded, used) = socket_command_bytes(&bytes).expect("roundtrip");
        assert_eq!(used, bytes.len());
        assert!(command_eq(command, &decoded));
    }
}

#[test]
fn binary_roundtrip_maximum_set_colors() {
    let colors: Vec<Rgb> =
        (0..LED_COUNT_TOTAL).map(|_| Rgb { r: 255, g: 255, b: 255 }).collect();
    let command = SocketCommand::SetColors(colors.clone());
    let bytes = command.to_bytes();
    assert_eq!(bytes.len(), 1 + 3 * LED_COUNT_TOTAL);
    let (decoded, used) = socket_command_bytes(&bytes).expect("roundtrip");
    assert_eq!(used, bytes.len());
    match decoded {
        SocketCommand::SetColors(c) => assert_eq!(c, colors),
        _ => panic!("wrong variant"),
    }
}

#[test]
fn binary_rejects_unknown_tag_and_truncation() {
    assert!(socket_command_bytes(&[]).is_err());
    assert!(socket_command_bytes(&[4]).is_err());
    assert!(socket_command_bytes(&[255]).is_err());
    assert!(socket_command_bytes(&[2, 0]).is_err());
    assert!(socket_command_bytes(&[2, 8, 0, 0]).is_err());
    assert!(socket_command_bytes(&[3, 1, 2]).is_err());
}

#[test]
fn response_roundtrip_every_variant() {
    let responses = [
        SocketResponse::GetCoolantTemp(312),
        SocketResponse::GetPumpSpeed(2268),
        SocketResponse::SetPumpSpeed(true),
        SocketResponse::SetPumpSpeed(false),
        SocketResponse::SetColors(true),
        SocketResponse::SetColors(false),
    ];
    for response in responses {
        let bytes = response.to_bytes();
        let (decoded, used) = socket_response_bytes(&bytes).expect("roundtrip");
        assert_eq!(used, bytes.len());
        assert_eq!(decoded, response);
    }
    assert_eq!(
        SocketResponse::GetCoolantTemp(312).to_bytes(),
        vec![0x00, 0x38, 0x01]
    );
    assert!(socket_response_bytes(&[9]).is_err());
    assert!(socket_response_bytes(&[0, 1]).is_err());
}

#[test]
fn two_framed_commands_decode_in_order() {
    let mut stream = frame(&SocketCommand::GetCoolantTemp);
    stream.extend(frame(&SocketCommand::GetPumpSpeed));
    let mut codec = SocketCommandCodec::default();
    let decoded = drain(&mut codec, &stream);
    assert_eq!(decoded.len(), 2);
    assert!(command_eq(&decoded[0], &SocketCommand::GetCoolantTemp));
    assert!(command_eq(&decoded[1], &SocketCommand::GetPumpSpeed));
}

#[test]
fn chunked_decoding_matches_feeding_at_once() {
    let mut stream = frame(&SocketCommand::SetFanTarget(Fan::Pump, 70));
    stream.extend(frame(&SocketCommand::GetCoolantTemp));
    stream.extend(frame(&SocketCommand::SetFanTarget(Fan::Fan(2), 31)));

    let mut whole_codec = SocketCommandCodec::default();
    let whole = drain(&mut whole_codec, &stream);

    for chunk_size in 1..=stream.len() {
        let mut codec = SocketCommandCodec::default();
        let mut chunked = Vec::new();
        for chunk in stream.chunks(chunk_size) {
            chunked.extend(drain(&mut codec, chunk));
        }
        assert_eq!(chunked.len(), whole.len(), "chunk size {}", chunk_size);
        for (a, b) in chunked.iter().zip(whole.iter()) {
            assert!(command_eq(a, b), "chunk size {}", chunk_size);
        }
    }
}

#[test]
fn incomplete_payload_waits_for_more_bytes() {
    let mut codec = SocketCommandCodec::default();
    // Marker plus the tag and fan byte of a four-byte payload.
    let mut first = vec![b'C', b'P', b'L', b'X', 2, 0];
    assert!(codec.decode(&mut first).is_none());
    // The little-endian speed arrives and completes the command.
    let mut second = vec![70, 0];
    let decoded = codec.decode(&mut second).expect("complete now");
    assert!(command_eq(&decoded, &SocketCommand::SetFanTarget(Fan::Pump, 70)));
    assert!(codec.decode(&mut Vec::new()).is_none());
}

#[test]
fn no_marker_yields_nothing() {
    let mut codec = SocketCommandCodec::default();
    let mut src = b"no marker here".to_vec();
    assert!(codec.decode(&mut src).is_none());
}

#[test]
fn bytes_before_the_marker_are_skipped_on_success() {
    let mut stream = b"junk".to_vec();
    stream.extend(frame(&SocketCommand::GetPumpSpeed));
    let mut codec = SocketCommandCodec::default();
    let decoded = drain(&mut codec, &stream);
    assert_eq!(decoded.len(), 1);
    assert!(command_eq(&decoded[0], &SocketCommand::GetPumpSpeed));
}

#[test]
fn eof_with_empty_buffer_is_clean() {
    let mut codec = SocketCommandCodec::default();
    let result = codec.decode_eof(&mut Vec::new());
    assert!(matches!(result, Ok(None)));
}

#[test]
fn eof_with_leftover_bytes_is_an_error() {
    let mut codec = SocketCommandCodec::default();
    let mut src = vec![b'C', b'P', b'L', b'X', 2];
    assert!(codec.decode(&mut src).is_none());
    let result = codec.decode_eof(&mut Vec::new());
    assert_eq!(result.unwrap_err(), Error::TrailingBytes);
}

#[test]
fn eof_still_decodes_a_complete_frame() {
    let mut codec = SocketCommandCodec::default();
    let mut src = frame(&SocketCommand::GetCoolantTemp);
    let first = codec.decode_eof(&mut src).expect("decodes").expect("one command");
    assert!(command_eq(&first, &SocketCommand::GetCoolantTemp));
    assert!(matches!(codec.decode_eof(&mut Vec::new()), Ok(None)));
}

#[test]
fn text_accepts_the_reads() {
    let decoded = socket_command_str("get-coolant-temp").expect("read command");
    assert!(command_eq(&decoded, &SocketCommand::GetCoolantTemp));
    let decoded = socket_command_str("get-pump-speed").expect("read command");
    assert!(command_eq(&decoded, &SocketCommand::GetPumpSpeed));
}

#[test]
fn text_accepts_set_fan_target() {
    let decoded = socket_command_str("set-fan-target fan3 55").expect("set command");
    assert!(command_eq(&decoded, &SocketCommand::SetFanTarget(Fan::Fan(2), 55)));
    let decoded = socket_command_str("set-fan-target  pump  0").expect("extra spaces");
    assert!(command_eq(&decoded, &SocketCommand::SetFanTarget(Fan::Pump, 0)));
}

#[test]
fn text_accepts_full_set_colors() {
    let mut line = String::from("set-colors");
    for i in 0..LED_COUNT_TOTAL {
        line.push_str(&format!(" {} {} {}", i % 256, 7, 255));
    }
    let decoded = socket_command_str(&line).expect("full buffer");
    match decoded {
        SocketCommand::SetColors(colors) => {
            assert_eq!(colors.len(), LED_COUNT_TOTAL);
            assert_eq!(colors[0], Rgb { r: 0, g: 7, b: 255 });
            assert_eq!(colors[232], Rgb { r: 232, g: 7, b: 255 });
        }
        _ => panic!("wrong variant"),
    }
}

#[test]
fn text_rejects_malformed_lines() {
    for bad in [
        "",
        "   ",
        "get-coolant-tempx",
        "get-coolant-temp extra",
        "set-fan-target",
        "set-fan-target pump",
        "set-fan-target dog 5",
        "set-fan-target pump 70000",
        "set-fan-target pump five",
        "set-colors 1 2 3",
        "set-colors",
    ] {
        assert_eq!(
            socket_command_str(bad).unwrap_err(),
            Error::InvalidCommand,
            "line {:?}",
            bad
        );
    }
}

#[test]
fn text_rejects_color_component_over_255() {
    let mut line = String::from("set-colors");
    for _ in 0..LED_COUNT_TOTAL {
        line.push_str(" 0 0 0");
    }
    let line = line.replacen(" 0", " 256", 1);
    assert_eq!(socket_command_str(&line).unwrap_err(), Error::InvalidCommand);
}
