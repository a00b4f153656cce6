use flvproxy::tls_schannel::{
    call_failure, handshake_expired, record_buffer, record_len, sent_len, shutdown_failure, DecryptOutcome, Handshake,
    HandshakeError, HandshakeStep, ReadEnd, TlsBuffers, TlsReadStep, HANDSHAKE_DEADLINE_SECS, SEC_E_INCOMPLETE_MESSAGE,
    SEC_E_OK, SEC_I_CONTEXT_EXPIRED, SEC_I_CONTINUE_NEEDED,
};

#[test]
fn a_handshake_reads_calls_and_ends() {
    let mut handshake = Handshake::new();
    assert_eq!(handshake.on_bytes(b"hello"), HandshakeStep::Call { first_call: true });
    assert_eq!(handshake.on_status(SEC_E_INCOMPLETE_MESSAGE, 0), HandshakeStep::Read);
    assert_eq!(handshake.input(), b"hello");
    assert!(matches!(handshake.on_bytes(b"!"), HandshakeStep::Call { .. }));
    assert!(matches!(handshake.on_status(SEC_I_CONTINUE_NEEDED, 0), HandshakeStep::Read));
    assert_eq!(handshake.input(), b"");
    assert_eq!(handshake.on_bytes(b"finish+data"), HandshakeStep::Call { first_call: false });
    assert_eq!(handshake.on_status(SEC_E_OK, 4), HandshakeStep::Done { leftover: b"data".to_vec() });
}

#[test]
fn a_handshake_fails_by_name() {
    let mut handshake = Handshake::new();
    assert_eq!(handshake.on_read_end(ReadEnd::Closed), HandshakeError::PeerClosedBeforeData);
    assert!(handshake.on_read_end(ReadEnd::Closed).is_benign());
    handshake.on_bytes(b"x");
    assert!(!handshake.on_read_end(ReadEnd::Closed).is_benign());
    assert!(!handshake.on_read_end(ReadEnd::TimedOut).is_benign());
    assert!(handshake.on_read_end(ReadEnd::Failed("why".to_string())).message().contains("why"));
    let failed = handshake.on_status(0x8009_0326, 0);
    assert!(matches!(failed, HandshakeStep::Fail(HandshakeError::Failed(_))), "{failed:?}");
    assert!(handshake_expired(HANDSHAKE_DEADLINE_SECS));
    assert!(!handshake_expired(HANDSHAKE_DEADLINE_SECS - 1));
}

#[test]
fn plain_text_is_given_in_portions() {
    let mut buffers = TlsBuffers::new(b"c1".to_vec());
    assert_eq!(buffers.next_step(3), TlsReadStep::Decrypt);
    assert_eq!(buffers.cipher(), b"c1");
    assert_eq!(buffers.on_decrypted(SEC_E_OK, b"abcde", 1), DecryptOutcome::Decrypted);
    assert_eq!(buffers.next_step(3), TlsReadStep::Give(b"abc".to_vec()));
    assert_eq!(buffers.next_step(3), TlsReadStep::Give(b"de".to_vec()));
    assert_eq!(buffers.next_step(3), TlsReadStep::Decrypt);
    assert_eq!(buffers.cipher(), b"1");
    assert_eq!(buffers.on_decrypted(SEC_E_INCOMPLETE_MESSAGE, b"", 0), DecryptOutcome::NeedMore);
    assert_eq!(buffers.next_step(3), TlsReadStep::Read);
    buffers.on_bytes(b"2");
    assert_eq!(buffers.next_step(3), TlsReadStep::Decrypt);
    assert_eq!(buffers.cipher(), b"12");
    assert_eq!(buffers.on_decrypted(SEC_I_CONTEXT_EXPIRED, b"", 0), DecryptOutcome::Eof);
    assert!(matches!(TlsBuffers::new(vec![1]).on_decrypted(5, b"", 0), DecryptOutcome::Failed(_)));
}

#[test]
fn records_are_laid_out() {
    assert_eq!(record_len(10, 4), 4);
    assert_eq!(record_len(3, 4), 3);
    assert_eq!(record_buffer(2, b"ab", 1), [0, 0, b'a', b'b', 0]);
    assert_eq!(sent_len(9, 2, 4, 3), Some(9));
    assert_eq!(sent_len(8, 2, 4, 3), None);
    assert_eq!(call_failure("X", 0x8009_0318), "X failed: 0x80090318");
    assert_eq!(shutdown_failure(SEC_E_OK, SEC_E_OK), None);
    assert!(shutdown_failure(1, SEC_E_OK).is_some());
}
