use flvproxy::protect_recon::{
    capture_step, format_frame_block, format_raw_block, parse_args, ArgStop, CaptureStep, Config,
};
use flvproxy::ws::{read_frame, write_frame, Frame, FrameRead, OPCODE_CLOSE, OPCODE_PING, OPCODE_PONG, OPCODE_TEXT};

fn args(words: &[&str]) -> Vec<String> {
    words.iter().map(|w| w.to_string()).collect()
}

#[test]
fn options_are_read_in_order() {
    let config = parse_args(&args(&["--cert", "a.pfx", "--password", "p", "--enable-7550", "--cert", "b.pfx"]));
    assert_eq!(
        config,
        Ok(Config { cert_path: Some("b.pfx".to_string()), password: "p".to_string(), enable_7550: true })
    );
    assert_eq!(parse_args(&args(&[])), Ok(Config { cert_path: None, password: String::new(), enable_7550: false }));
}

#[test]
fn wrong_options_stop_the_reading() {
    assert_eq!(parse_args(&args(&["-h", "--bogus"])), Err(ArgStop::Help));
    assert_eq!(parse_args(&args(&["--cert"])), Err(ArgStop::CertWithoutPath));
    assert_eq!(parse_args(&args(&["--password"])), Err(ArgStop::PasswordWithoutValue));
    assert_eq!(parse_args(&args(&["x"])), Err(ArgStop::Unknown("x".to_string())));
    assert_eq!(ArgStop::Help.exit_code(), 0);
    assert_eq!(ArgStop::CertWithoutPath.exit_code(), 1);
}

#[test]
fn bytes_are_dumped_in_rows() {
    let bytes: Vec<u8> = (0x3F..=0x50).collect();
    assert_eq!(
        format_raw_block(7550, 3, &bytes),
        "[7550] raw chunk 3: 18 byte(s)\n  3F 40 41 42 43 44 45 46 47 48 49 4A 4B 4C 4D 4E  |?@ABCDEFGHIJKLMN|\n  4F 50                                            |OP|\n"
    );
    assert_eq!(format_raw_block(1, 0, b""), "[1] raw chunk 0: 0 byte(s)\n");
}

#[test]
fn frames_are_dumped_with_their_head() {
    let frame = Frame { fin: true, opcode: OPCODE_TEXT, payload: vec![0x00, 0x7F, b'a'] };
    assert_eq!(
        format_frame_block(7442, 2, &frame),
        format!("[7442] frame 2: opcode=0x01 fin=true len=3\n  00 7F 61 {} |..a|\n", " ".repeat(39))
    );
}

#[test]
fn captures_answer_control_frames() {
    let ping = capture_step(&Frame { fin: true, opcode: OPCODE_PING, payload: b"x".to_vec() });
    let FrameRead::Whole(pong, _) = read_frame(&ping.reply.expect("a reply")) else {
        panic!("a whole frame");
    };
    assert_eq!(pong.opcode, OPCODE_PONG);
    assert_eq!(pong.payload, b"x");
    assert!(!ping.done);
    let close = capture_step(&Frame { fin: true, opcode: OPCODE_CLOSE, payload: vec![] });
    assert!(close.done);
    let text = capture_step(&Frame { fin: true, opcode: OPCODE_TEXT, payload: vec![] });
    assert_eq!(text, CaptureStep { reply: None, done: false });
    let reserved = capture_step(&Frame { fin: true, opcode: 3, payload: vec![] });
    assert_eq!(reserved, CaptureStep { reply: None, done: false });
    assert_eq!(write_frame(OPCODE_PONG, true, b"x"), [0x8A, 1, b'x']);
}
