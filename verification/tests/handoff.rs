use uffd_pager::handoff::{
    capture_message, done_body_len, encode_header, handoff_message, rest_of_body, Capture,
    CaptureOutcome, CaptureRange, Handoff, HandoffError, HandoffErrorKind, HandoffRegion,
    RegistrationMode, HEADER_LEN, MAX_DONE_LEN, MSG_CAPTURE, MSG_CAPTURE_DONE, MSG_HANDOFF,
};

fn header(message_type: u32, body_len: usize) -> [u8; 8] {
    encode_header(message_type, body_len).unwrap()
}

#[test]
fn headers_are_little_endian() {
    assert_eq!(header(1, 0), [1, 0, 0, 0, 0, 0, 0, 0]);
    assert_eq!(header(0x0403_0201, 0x0807_0605), [1, 2, 3, 4, 5, 6, 7, 8]);
    for (kind, len) in [(0, 0), (3, 1_048_576), (u32::MAX, u32::MAX)] {
        let mut expected = kind.to_le_bytes().to_vec();
        expected.extend_from_slice(&len.to_le_bytes());
        assert_eq!(header(kind, len as usize).to_vec(), expected);
    }
}

#[test]
fn a_length_over_the_field_is_an_error() {
    for len in [0x1_0000_0000, 0x1_0000_0003, usize::MAX] {
        let error = encode_header(MSG_CAPTURE, len).unwrap_err();
        assert_eq!(error, HandoffError::BodyOverflow { body_len: len as u64 });
        assert_eq!(error.kind(), HandoffErrorKind::InvalidInput);
    }
    assert_eq!(
        encode_header(MSG_HANDOFF, 0x1_0000_0000).unwrap_err().message(),
        "message body of 4294967296 bytes exceeds the length field"
    );
}

#[test]
fn capture_done_headers_round_trip() {
    assert_eq!(done_body_len(&header(MSG_CAPTURE_DONE, 0)), Ok(0));
    assert_eq!(done_body_len(&header(MSG_CAPTURE_DONE, 9)), Ok(9));
    assert_eq!(done_body_len(&header(MSG_CAPTURE_DONE, 1024 * 1024)), Ok(1024 * 1024));
}

#[test]
fn other_types_are_rejected_whatever_their_length() {
    let error = done_body_len(&header(MSG_CAPTURE, u32::MAX as usize)).unwrap_err();
    assert_eq!(error, HandoffError::UnexpectedMessage { message_type: 2 });
    assert_eq!(error.message(), "unexpected message type 2 from the fault handler");
    assert_eq!(error.kind(), HandoffErrorKind::InvalidData);
}

#[test]
fn bodies_over_the_bound_are_rejected() {
    let len = MAX_DONE_LEN as usize + 1;
    let error = done_body_len(&header(MSG_CAPTURE_DONE, len)).unwrap_err();
    assert_eq!(error, HandoffError::BodyTooLong { body_len: 1_048_577 });
    assert_eq!(error.message(), "capture-done body of 1048577 bytes exceeds the bound");
    assert_eq!(error.kind(), HandoffErrorKind::InvalidData);
}

#[test]
fn outcomes_become_results() {
    assert_eq!(CaptureOutcome::Success.into_result(), Ok(()));
    let error = String::from("disk full");
    assert_eq!(CaptureOutcome::Failure { error }.into_result(), Err(String::from("disk full")));
}

#[test]
fn a_handoff_attaches_the_userfaultfd_and_then_the_memfds() {
    let message = handoff_message(&[7; 300], 5, &[11, 12]).unwrap();
    assert_eq!(message.header, header(MSG_HANDOFF, 300));
    assert_eq!(message.header, [1, 0, 0, 0, 44, 1, 0, 0]);
    assert_eq!(message.fds, vec![5, 11, 12]);
    let region = HandoffRegion {
        vmm_addr: 0x1000,
        length: 0x2000,
        source_offset: 0,
        page_size: 4096,
        memfd: 1,
        memfd_offset: 0,
    };
    let layout =
        Handoff { mode: RegistrationMode::MissingAndWriteProtect, regions: vec![region] };
    assert_eq!(message.fds[1 + layout.regions[0].memfd as usize], 12);
    assert_ne!(layout.mode, RegistrationMode::WriteProtectOnly);
}

#[test]
fn a_capture_attaches_its_output() {
    let range = CaptureRange { vmm_addr: 1, length: 2, out_offset: 3, page_size: 4096 };
    let capture = Capture { ranges: vec![range] };
    let message = capture_message(&[0; 2], 9).unwrap();
    assert_eq!(message.header, [2, 0, 0, 0, 2, 0, 0, 0]);
    assert_eq!(message.fds, vec![9]);
    assert_eq!(capture.ranges[0], range);
}

#[test]
fn a_partial_send_resumes() {
    let body: Vec<u8> = (0..100).collect();
    let mut frame = header(MSG_CAPTURE, body.len()).to_vec();
    frame.extend_from_slice(&body);
    for sent in HEADER_LEN..frame.len() + 1 {
        let mut wire = frame[..sent].to_vec();
        wire.extend_from_slice(rest_of_body(&body, sent).unwrap());
        assert_eq!(wire, frame);
    }
    assert!(rest_of_body(&body, frame.len()).unwrap().is_empty());
}

#[test]
fn a_short_header_is_an_error() {
    for sent in 0..HEADER_LEN {
        let error = rest_of_body(&[1, 2, 3], sent).unwrap_err();
        assert_eq!(error, HandoffError::ShortHeader);
        assert_eq!(error.message(), "short header write on the fault-handler connection");
        assert_eq!(error.kind(), HandoffErrorKind::WriteZero);
    }
}
