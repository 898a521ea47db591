use dsp_test::delay_line::DelayLine;

#[test]
fn new_line_is_silent_until_delay_samples() {
    let mut line: DelayLine<i32> = DelayLine::new(3);
    assert_eq!(line.delay(), 3);
    assert_eq!(line.limit(), 6);
    assert_eq!(line.tap(), None);
    line.push(1);
    assert_eq!(line.tap(), None);
    line.push(2);
    assert_eq!(line.tap(), None);
    line.push(3);
    assert_eq!(line.tap(), Some(1));
    line.push(4);
    assert_eq!(line.tap(), Some(2));
}

#[test]
fn line_echoes_after_delay_steps() {
    let mut line: DelayLine<u32> = DelayLine::new(4);
    for x in 0..100u32 {
        line.push(x);
        if x >= 3 {
            assert_eq!(line.tap(), Some(x - 3));
        }
        assert!(line.len() <= line.limit());
    }
    assert_eq!(line.len(), 8);
}

#[test]
fn zero_delay_reads_previous_sample() {
    let mut line: DelayLine<f32> = DelayLine::new(0);
    assert_eq!(line.limit(), 1);
    assert_eq!(line.tap(), None);
    line.push(0.5);
    assert_eq!(line.tap(), Some(0.5));
    line.push(-0.25);
    assert_eq!(line.tap(), Some(-0.25));
    assert_eq!(line.len(), 1);
}

#[test]
fn one_sample_delay_matches_zero_delay() {
    let mut a: DelayLine<i8> = DelayLine::new(0);
    let mut b: DelayLine<i8> = DelayLine::new(1);
    for x in [3i8, -4, 7, 9] {
        a.push(x);
        b.push(x);
        assert_eq!(a.tap(), b.tap());
    }
}

#[test]
fn raising_delay_grows_room_and_keeps_samples() {
    let mut line: DelayLine<u8> = DelayLine::new(2);
    for x in 1..=6u8 {
        line.push(x);
    }
    assert_eq!(line.len(), 4);
    assert_eq!(line.tap(), Some(5));
    line.set_delay(4);
    assert_eq!(line.delay(), 4);
    assert_eq!(line.limit(), 12);
    assert_eq!(line.len(), 4);
    assert_eq!(line.tap(), Some(3));
    line.set_delay(5);
    assert_eq!(line.limit(), 12);
    assert_eq!(line.tap(), None);
}

#[test]
fn lowering_delay_keeps_room() {
    let mut line: DelayLine<u8> = DelayLine::new(5);
    for x in 1..=20u8 {
        line.push(x);
    }
    line.set_delay(1);
    assert_eq!(line.limit(), 10);
    assert_eq!(line.tap(), Some(20));
}

#[test]
fn pairs_of_samples_travel_together() {
    let mut line: DelayLine<(f32, f32)> = DelayLine::new(2);
    line.push((0.1, 0.2));
    line.push((0.3, 0.4));
    assert_eq!(line.tap(), Some((0.1, 0.2)));
}
