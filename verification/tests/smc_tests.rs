use mac_led_tray::smc::{
    error_text, key_code_of, payload_of, KeyWriteStage, SmcConn, SmcError, SmcKeyData, SmcStep,
    SMC_CMD_READ_KEYINFO, SMC_CMD_WRITE_KEY,
};

fn conn() -> SmcConn {
    match SmcConn::from_open_result(0, 7) {
        Ok(c) => c,
        Err(e) => panic!("{:?}", e),
    }
}

#[test]
fn key_code_is_big_endian() {
    assert_eq!(key_code_of("LS0C"), u32::from_be_bytes(*b"LS0C"));
    assert_eq!(key_code_of("LS0C"), 0x4c53_3043);
}

#[test]
fn short_key_is_zero_padded() {
    assert_eq!(key_code_of("AB"), 0x4142_0000);
    assert_eq!(key_code_of(""), 0);
}

#[test]
fn long_key_is_cut_to_four_bytes() {
    assert_eq!(key_code_of("ABCDE"), 0x4142_4344);
}

#[test]
fn key_code_reads_utf8_bytes() {
    // U+00E9 is C3 A9 in UTF-8
    assert_eq!(key_code_of("\u{e9}x"), 0xc3a9_7800);
}

#[test]
fn payload_is_padded_and_truncated() {
    let p = payload_of(&[1, 2, 3]);
    assert_eq!(p.len(), 32);
    assert_eq!(&p[..3], &[1, 2, 3]);
    assert!(p[3..].iter().all(|b| *b == 0));
    let long: Vec<u8> = (0..40).collect();
    assert_eq!(payload_of(&long), (0..32).collect::<Vec<u8>>());
}

#[test]
fn open_result_decides_success() {
    assert_eq!(conn().connection, 7);
    match SmcConn::from_open_result(-536870201, 7) {
        Err(e) => assert_eq!(e, SmcError::OpenFailed(-536870201)),
        Ok(_) => panic!("open should fail"),
    }
}

#[test]
fn write_key_asks_for_info_first() {
    let (w, req) = conn().write_key("LS0C", &[0xff, 0xff]);
    assert_eq!(w.stage, KeyWriteStage::AwaitingInfo);
    assert_eq!(req, SmcKeyData { key: 0x4c53_3043, data8: SMC_CMD_READ_KEYINFO, data_size: 0, bytes: vec![0; 32] });
}

#[test]
fn write_key_full_exchange() {
    let (mut w, _) = conn().write_key("LS0C", &[0xab, 0xcd]);
    let mut expected = vec![0u8; 32];
    expected[0] = 0xab;
    expected[1] = 0xcd;
    match w.on_reply(0, 2) {
        SmcStep::Call(req) => assert_eq!(
            req,
            SmcKeyData { key: 0x4c53_3043, data8: SMC_CMD_WRITE_KEY, data_size: 2, bytes: expected }
        ),
        other => panic!("{:?}", other),
    }
    assert!(!w.is_finished());
    match w.on_reply(0, 0) {
        SmcStep::Finished(r) => assert_eq!(r, Ok(())),
        other => panic!("{:?}", other),
    }
    assert!(w.is_finished());
    match w.on_reply(5, 0) {
        SmcStep::Finished(r) => assert_eq!(r, Ok(())),
        other => panic!("{:?}", other),
    }
}

#[test]
fn failed_info_call_ends_the_write() {
    let (mut w, _) = conn().write_key("LS0C", &[1]);
    match w.on_reply(-536870206, 0) {
        SmcStep::Finished(r) => assert_eq!(r, Err(SmcError::CallFailed(-536870206))),
        other => panic!("{:?}", other),
    }
    assert_eq!(w.stage, KeyWriteStage::Finished(Err(SmcError::CallFailed(-536870206))));
}

#[test]
fn failed_write_call_is_reported() {
    let (mut w, _) = conn().write_key("LS0C", &[1]);
    let _ = w.on_reply(0, 2);
    match w.on_reply(3, 0) {
        SmcStep::Finished(r) => assert_eq!(r, Err(SmcError::CallFailed(3))),
        other => panic!("{:?}", other),
    }
}

#[test]
fn error_texts() {
    assert_eq!(error_text(SmcError::NoAppleSmc), "no AppleSMC");
    assert_eq!(error_text(SmcError::NoService), "no service");
    assert_eq!(error_text(SmcError::OpenFailed(-5)), "open failed: -5");
    assert_eq!(error_text(SmcError::CallFailed(12)), "call failed: 12");
}
