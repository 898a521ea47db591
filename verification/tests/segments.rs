use dsp_test::segments::{digit_segments, segment_control, segment_number, segment_pins, segment_sequence};
use dsp_test::segments::{DriveStep, PinCommand};

#[test]
fn digits_light_standard_segments() {
    assert_eq!(digit_segments(0), vec![1, 2, 3, 5, 6, 7]);
    assert_eq!(digit_segments(1), vec![3, 6]);
    assert_eq!(digit_segments(4), vec![2, 3, 4, 6]);
    assert_eq!(digit_segments(7), vec![1, 3, 6]);
    assert_eq!(digit_segments(8), vec![1, 2, 3, 4, 5, 6, 7]);
    assert_eq!(digit_segments(9), vec![1, 2, 3, 4, 6, 7]);
}

#[test]
fn non_digits_light_nothing() {
    assert!(digit_segments(10).is_empty());
    assert!(digit_segments(255).is_empty());
    assert!(segment_number(12, true).is_empty());
}

#[test]
fn digits_are_distinguishable() {
    for a in 0..10u8 {
        for b in 0..10u8 {
            if a != b {
                assert_ne!(digit_segments(a), digit_segments(b));
            }
        }
    }
}

#[test]
fn right_digit_is_offset_by_seven() {
    assert_eq!(segment_sequence(1, true), vec![3, 6]);
    assert_eq!(segment_sequence(1, false), vec![10, 13]);
    assert_eq!(segment_sequence(7, false), vec![8, 10, 13]);
}

#[test]
fn segment_pin_pairs_are_distinct() {
    let mut seen = Vec::new();
    for s in 1..=14u8 {
        let (on, off) = segment_pins(s);
        assert_ne!(on, off);
        assert!(on < 5 && off < 5);
        assert!(!seen.contains(&(on, off)));
        seen.push((on, off));
    }
    assert_eq!(segment_pins(1), (1, 2));
    assert_eq!(segment_pins(14), (1, 0));
    assert_eq!(segment_pins(0), (0, 0));
    assert_eq!(segment_pins(15), (0, 0));
}

#[test]
fn segment_control_drives_then_releases() {
    assert_eq!(
        segment_control(6, true),
        vec![
            PinCommand::SetHigh(4),
            PinCommand::SetLow(2),
            PinCommand::OutputEnable(4, true),
            PinCommand::OutputEnable(2, true),
        ]
    );
    assert_eq!(
        segment_control(6, false),
        vec![PinCommand::OutputEnable(4, false), PinCommand::OutputEnable(2, false)]
    );
}

#[test]
fn segment_number_flashes_each_segment() {
    let steps = segment_number(1, true);
    let mut expected: Vec<DriveStep> = Vec::new();
    for seg in [3u8, 6] {
        for c in segment_control(seg, true) {
            expected.push(DriveStep::Pin(c));
        }
        expected.push(DriveStep::Wait);
        for c in segment_control(seg, false) {
            expected.push(DriveStep::Pin(c));
        }
    }
    assert_eq!(steps, expected);
    assert_eq!(steps.len(), 14);
}

#[test]
fn display_is_dark_after_a_digit() {
    for n in 0..10u8 {
        for left in [true, false] {
            let mut enabled = [false; 5];
            for step in segment_number(n, left) {
                if let DriveStep::Pin(PinCommand::OutputEnable(p, b)) = step {
                    enabled[p] = b;
                }
            }
            assert_eq!(enabled, [false; 5]);
        }
    }
}

#[test]
fn digit_segments_ascend_within_one_digit() {
    for n in 0..10u8 {
        let segs = digit_segments(n);
        assert!(!segs.is_empty());
        for w in segs.windows(2) {
            assert!(w[0] < w[1]);
        }
        assert!(segs.iter().all(|&s| (1..=7).contains(&s)));
        let right = segment_sequence(n, false);
        assert!(right.iter().all(|&s| (8..=14).contains(&s)));
    }
}

#[test]
fn at_most_one_segment_lit_at_a_time() {
    for n in 0..10u8 {
        for left in [true, false] {
            let segs = segment_sequence(n, left);
            let mut enabled = [false; 5];
            for step in segment_number(n, left) {
                if let DriveStep::Pin(PinCommand::OutputEnable(p, b)) = step {
                    enabled[p] = b;
                }
                let on: Vec<usize> = (0..5).filter(|&p| enabled[p]).collect();
                assert!(on.len() <= 2);
                if !on.is_empty() {
                    assert!(segs.iter().any(|&s| {
                        let (a, b) = segment_pins(s);
                        on.iter().all(|&p| p == a || p == b)
                    }));
                }
            }
        }
    }
}
