use dsp_test::firmware::{codec_init_writes, FaultAction, CODEC_ADDRESS};

#[test]
fn codec_bring_up_sequence() {
    assert_eq!(CODEC_ADDRESS, 0x1a);
    let writes = codec_init_writes();
    assert_eq!(writes.len(), 15);
    assert_eq!(writes[0], (0x23, 0x80));
    assert_eq!(writes[2], (0x29, 0xe8));
    assert_eq!(writes[14], (0x68, 0xa0));
}

#[test]
fn codec_ends_unmuted() {
    let writes = codec_init_writes();
    let last = |reg: u8| writes.iter().rev().find(|w| w.0 == reg).map(|w| w.1);
    assert_eq!(last(0x60), Some(0x84));
    assert_eq!(last(0x61), Some(0x84));
    assert_eq!(last(0x67), Some(0xa0));
    assert_eq!(last(0x68), Some(0xa0));
    assert_eq!(last(0x65), Some(0xa8));
    assert_eq!(last(0x66), Some(0xa8));
}

#[test]
fn fatal_error_is_reported_then_halts() {
    let actions = dsp_test::firmware::panic("index out of bounds".to_string());
    assert_eq!(actions.len(), 2);
    match &actions[0] {
        FaultAction::ReportError(r) => assert_eq!(r, "index out of bounds"),
        FaultAction::Halt => panic!("report must come first"),
    }
    assert!(matches!(actions[1], FaultAction::Halt));
}
