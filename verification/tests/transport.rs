use birb_monitor::transport::{
    check_hello, encode_frame, remote_command, FrameError, FrameProgress, FrameReader,
    HandshakeError, Hello, RemoteCommandError, MAX_FRAME, VERSION, is_valid_ssh_destination,
};

#[test]
fn remote_executable_path_is_shell_safe() {
    assert_eq!(
        remote_command("birb-monitor").unwrap(),
        "exec 'birb-monitor' backend --stdio"
    );
    assert_eq!(
        remote_command("~/bin/birb-monitor").unwrap(),
        "exec \"$HOME\"/'bin/birb-monitor' backend --stdio"
    );
    assert_eq!(
        remote_command("/opt/birb monitor/bin").unwrap(),
        "exec '/opt/birb monitor/bin' backend --stdio"
    );
    let command = remote_command("$(bad); echo nope").unwrap();
    assert_eq!(command, "exec '$(bad); echo nope' backend --stdio");
    assert!(remote_command("\n").is_err());
}

#[test]
fn remote_command_quotes_embedded_single_quotes() {
    assert_eq!(
        remote_command("it's").unwrap(),
        "exec 'it'\"'\"'s' backend --stdio"
    );
}

#[test]
fn remote_command_error_variants() {
    assert_eq!(remote_command(""), Err(RemoteCommandError::EmptyOrLineBreak));
    assert_eq!(remote_command("a\rb"), Err(RemoteCommandError::EmptyOrLineBreak));
    assert_eq!(remote_command("a\0b"), Err(RemoteCommandError::EmptyOrLineBreak));
    assert_eq!(remote_command("~/"), Err(RemoteCommandError::EmptyHomePath));
    assert_eq!(
        RemoteCommandError::EmptyHomePath.message(),
        "Remote executable path after ~/ must not be empty"
    );
    assert_eq!(
        RemoteCommandError::EmptyOrLineBreak.message(),
        "Remote executable path must not be empty or contain a line break"
    );
}

#[test]
fn hello_accepts_only_this_protocol_and_version() {
    let ours = Hello::ours();
    assert_eq!(ours.protocol, "birb-monitor");
    assert_eq!(ours.version, VERSION);
    assert_eq!(check_hello(&ours), Ok(()));
    let other_version = Hello { protocol: "birb-monitor".to_string(), version: 999 };
    assert_eq!(check_hello(&other_version), Err(HandshakeError::Incompatible));
    let other_protocol = Hello { protocol: "protocol".to_string(), version: VERSION };
    assert_eq!(check_hello(&other_protocol), Err(HandshakeError::Incompatible));
}

#[test]
fn frames_round_trip_through_the_reader() {
    let payload = b"{\"CommandError\":\"line one\\nline two\"}".to_vec();
    let frame = encode_frame(payload.clone()).unwrap();
    assert_eq!(frame.iter().filter(|&&b| b == b'\n').count(), 1);
    assert_eq!(frame.last(), Some(&b'\n'));
    let mut input = frame.clone();
    input.extend_from_slice(b"next");
    let mut reader = FrameReader::new();
    let progress = reader.feed(&input).unwrap();
    assert_eq!(progress, FrameProgress { consumed: frame.len(), complete: true });
    assert_eq!(reader.take_frame(), frame);
    assert_eq!(reader.finish(), Ok(()));
}

#[test]
fn frames_accumulate_across_chunks_and_detect_truncation() {
    let mut reader = FrameReader::new();
    let first = reader.feed(b"abc").unwrap();
    assert_eq!(first, FrameProgress { consumed: 3, complete: false });
    assert_eq!(reader.finish(), Err(FrameError::Truncated));
    let second = reader.feed(b"de\nfg").unwrap();
    assert_eq!(second, FrameProgress { consumed: 3, complete: true });
    assert_eq!(reader.take_frame(), b"abcde\n".to_vec());
    assert_eq!(reader.finish(), Ok(()));
    assert_eq!(FrameError::Truncated.message(), "Truncated protocol frame");
}

#[test]
fn oversized_frames_are_refused() {
    let bytes = vec![b'x'; MAX_FRAME + 1];
    let mut reader = FrameReader::new();
    assert_eq!(reader.feed(&bytes), Err(FrameError::Oversized));
    assert_eq!(reader.finish(), Ok(()));
    assert!(FrameError::Oversized.message().contains("exceeds"));
    assert_eq!(encode_frame(vec![b'x'; MAX_FRAME]), Err(FrameError::Oversized));
    assert_eq!(encode_frame(vec![b'x'; MAX_FRAME - 1]).unwrap().len(), MAX_FRAME);
}

#[test]
fn ssh_destinations_must_not_look_like_options() {
    assert!(is_valid_ssh_destination("user@example.org"));
    assert!(!is_valid_ssh_destination(""));
    assert!(!is_valid_ssh_destination("-oProxyCommand=x"));
}
