//! Seven-segment digits driven through five charlieplexed pins.
//!
//! A display has two digits of seven segments each. Segments are numbered
//! `1..=7` on the left digit (top, upper left, upper right, middle, lower left,
//! lower right, bottom) and `8..=14` on the right digit. Each segment is lit by
//! driving one pin high and another low.
use vstd::prelude::*;

verus! {

/// Segments lit, in drawing order, for the decimal digit `n`; nothing for
/// any other value.
pub open spec fn spec_digit_segments(n: u8) -> Seq<u8> {
    if n == 0 {
        seq![1u8, 2, 3, 5, 6, 7]
    } else if n == 1 {
        seq![3u8, 6]
    } else if n == 2 {
        seq![1u8, 3, 4, 5, 7]
    } else if n == 3 {
        seq![1u8, 3, 4, 6, 7]
    } else if n == 4 {
        seq![2u8, 3, 4, 6]
    } else if n == 5 {
        seq![1u8, 2, 4, 6, 7]
    } else if n == 6 {
        seq![1u8, 2, 4, 5, 6, 7]
    } else if n == 7 {
        seq![1u8, 3, 6]
    } else if n == 8 {
        seq![1u8, 2, 3, 4, 5, 6, 7]
    } else if n == 9 {
        seq![1u8, 2, 3, 4, 6, 7]
    } else {
        seq![]
    }
}

/// Segment numbers are offset by seven on the right digit.
pub open spec fn spec_side_offset(left: bool) -> u8 {
    if left { 0 } else { 7 }
}

/// The segments flashed, in order, to show digit `n` on one side.
pub open spec fn spec_segment_sequence(n: u8, left: bool) -> Seq<u8> {
    spec_digit_segments(n).map_values(|s: u8| (s + spec_side_offset(left)) as u8)
}

/// The pin driven high and the pin driven low to light segment `seg`;
/// `(0, 0)` for a number that names no segment.
pub open spec fn spec_segment_pins(seg: u8) -> (usize, usize) {
    if seg == 1 { (1, 2) }
    else if seg == 2 { (0, 4) }
    else if seg == 3 { (1, 4) }
    else if seg == 4 { (2, 4) }
    else if seg == 5 { (0, 2) }
    else if seg == 6 { (4, 2) }
    else if seg == 7 { (3, 1) }
    else if seg == 8 { (3, 0) }
    else if seg == 9 { (2, 0) }
    else if seg == 10 { (0, 1) }
    else if seg == 11 { (2, 1) }
    else if seg == 12 { (4, 0) }
    else if seg == 13 { (4, 1) }
    else if seg == 14 { (1, 0) }
    else { (0, 0) }
}

/// Builds a vector from a short list of segment numbers.
fn segments_of(list: &[u8]) -> (v: Vec<u8>)
    ensures
        v@ == list@,
{
    let mut v: Vec<u8> = Vec::new();
    let mut i: usize = 0;
    while i < list.len()
        invariant
            i <= list@.len(),
            v@ == list@.subrange(0, i as int),
        decreases list@.len() - i,
    {
        v.push(list[i]);
        i = i + 1;
    }
    v
}

/// The segments lit, in drawing order, for the decimal digit `n`.
pub fn digit_segments(n: u8) -> (v: Vec<u8>)
    ensures
        v@ == spec_digit_segments(n),
{
    let v = if n == 0 {
        segments_of(&[1, 2, 3, 5, 6, 7])
    } else if n == 1 {
        segments_of(&[3, 6])
    } else if n == 2 {
        segments_of(&[1, 3, 4, 5, 7])
    } else if n == 3 {
        segments_of(&[1, 3, 4, 6, 7])
    } else if n == 4 {
        segments_of(&[2, 3, 4, 6])
    } else if n == 5 {
        segments_of(&[1, 2, 4, 6, 7])
    } else if n == 6 {
        segments_of(&[1, 2, 4, 5, 6, 7])
    } else if n == 7 {
        segments_of(&[1, 3, 6])
    } else if n == 8 {
        segments_of(&[1, 2, 3, 4, 5, 6, 7])
    } else if n == 9 {
        segments_of(&[1, 2, 3, 4, 6, 7])
    } else {
        Vec::new()
    };
    assert(v@ =~= spec_digit_segments(n));
    v
}


/// One operation on the five display pins.
#[derive(Clone, Copy, Debug, PartialEq, Eq, Structural)]
pub enum PinCommand {
    /// Drive the pin high.
    SetHigh(usize),
    /// Drive the pin low.
    SetLow(usize),
    /// Turn the pin's output driver on or off.
    OutputEnable(usize, bool),
}

/// One step of showing a digit: a pin operation, or a pause while a
/// segment is lit.
#[derive(Clone, Copy, Debug, PartialEq, Eq, Structural)]
pub enum DriveStep {
    Pin(PinCommand),
    Wait,
}

/// The pin operations that switch segment `seg` on (`enable`) or off.
pub open spec fn spec_segment_control(seg: u8, enable: bool) -> Seq<PinCommand> {
    let (on, off) = spec_segment_pins(seg);
    if enable {
        seq![
            PinCommand::SetHigh(on),
            PinCommand::SetLow(off),
            PinCommand::OutputEnable(on, true),
            PinCommand::OutputEnable(off, true),
        ]
    } else {
        seq![PinCommand::OutputEnable(on, false), PinCommand::OutputEnable(off, false)]
    }
}

/// Lighting one segment: switch it on, wait, switch it off.
pub open spec fn spec_flash(seg: u8) -> Seq<DriveStep> {
    spec_segment_control(seg, true).map_values(|c: PinCommand| DriveStep::Pin(c))
        + seq![DriveStep::Wait]
        + spec_segment_control(seg, false).map_values(|c: PinCommand| DriveStep::Pin(c))
}

/// Lighting each of `segs` in turn.
pub open spec fn spec_flash_all(segs: Seq<u8>) -> Seq<DriveStep>
    decreases segs.len(),
{
    if segs.len() == 0 {
        seq![]
    } else {
        spec_flash_all(segs.drop_last()) + spec_flash(segs.last())
    }
}

/// The pins that light segment `seg`: `(high, low)`.
pub fn segment_pins(seg: u8) -> (pins: (usize, usize))
    ensures
        pins == spec_segment_pins(seg),
{
    match seg {
        1 => (1, 2),
        2 => (0, 4),
        3 => (1, 4),
        4 => (2, 4),
        5 => (0, 2),
        6 => (4, 2),
        7 => (3, 1),
        8 => (3, 0),
        9 => (2, 0),
        10 => (0, 1),
        11 => (2, 1),
        12 => (4, 0),
        13 => (4, 1),
        14 => (1, 0),
        _ => (0, 0),
    }
}

/// The pin operations that switch segment `seg` on or off. Every pin they
/// name is one of the five display pins.
pub fn segment_control(seg: u8, enable: bool) -> (cmds: Vec<PinCommand>)
    ensures
        cmds@ == spec_segment_control(seg, enable),
        forall|i: int| 0 <= i < cmds@.len() ==> pin_of(#[trigger] cmds@[i]) < 5,
{
    let (on, off) = segment_pins(seg);
    let mut cmds: Vec<PinCommand> = Vec::new();
    if enable {
        cmds.push(PinCommand::SetHigh(on));
        cmds.push(PinCommand::SetLow(off));
        cmds.push(PinCommand::OutputEnable(on, true));
        cmds.push(PinCommand::OutputEnable(off, true));
    } else {
        cmds.push(PinCommand::OutputEnable(on, false));
        cmds.push(PinCommand::OutputEnable(off, false));
    }
    assert(cmds@ =~= spec_segment_control(seg, enable));
    cmds
}

/// The pin a command acts on.
pub open spec fn pin_of(c: PinCommand) -> usize {
    match c {
        PinCommand::SetHigh(p) => p,
        PinCommand::SetLow(p) => p,
        PinCommand::OutputEnable(p, _) => p,
    }
}

/// The segments flashed, in order, to show digit `n` on the left or right
/// digit.
pub fn segment_sequence(n: u8, left: bool) -> (v: Vec<u8>)
    ensures
        v@ == spec_segment_sequence(n, left),
{
    let offset: u8 = if left { 0 } else { 7 };
    let segs = digit_segments(n);
    let mut v: Vec<u8> = Vec::new();
    let mut i: usize = 0;
    while i < segs.len()
        invariant
            i <= segs@.len(),
            segs@ == spec_digit_segments(n),
            offset == spec_side_offset(left),
            forall|k: int| 0 <= k < segs@.len() ==> 1 <= #[trigger] segs@[k] <= 7,
            v@ == spec_digit_segments(n).subrange(0, i as int).map_values(
                |s: u8| (s + spec_side_offset(left)) as u8,
            ),
        decreases segs@.len() - i,
    {
        v.push(segs[i] + offset);
        i = i + 1;
        assert(v@ =~= spec_digit_segments(n).subrange(0, i as int).map_values(
            |s: u8| (s + spec_side_offset(left)) as u8,
        ));
    }
    assert(spec_digit_segments(n).subrange(0, i as int) =~= spec_digit_segments(n));
    v
}

/// The full drive plan that shows digit `n` on one side of the display:
/// each of its segments is switched on, held for one pause, and switched
/// off again, in drawing order.
pub fn segment_number(n: u8, left: bool) -> (steps: Vec<DriveStep>)
    ensures
        steps@ == spec_flash_all(spec_segment_sequence(n, left)),
{
    let segs = segment_sequence(n, left);
    let mut steps: Vec<DriveStep> = Vec::new();
    let mut i: usize = 0;
    while i < segs.len()
        invariant
            i <= segs@.len(),
            segs@ == spec_segment_sequence(n, left),
            steps@ == spec_flash_all(segs@.subrange(0, i as int)),
        decreases segs@.len() - i,
    {
        let seg = segs[i];
        let on = segment_control(seg, true);
        let off = segment_control(seg, false);
        let ghost before = steps@;
        let mut j: usize = 0;
        while j < on.len()
            invariant
                j <= on@.len(),
                on@ == spec_segment_control(seg, true),
                steps@ == before + on@.subrange(0, j as int).map_values(|c: PinCommand| DriveStep::Pin(c)),
            decreases on@.len() - j,
        {
            steps.push(DriveStep::Pin(on[j]));
            j = j + 1;
            assert(steps@ =~= before + on@.subrange(0, j as int).map_values(|c: PinCommand| DriveStep::Pin(c)));
        }
        steps.push(DriveStep::Wait);
        let ghost middle = steps@;
        let mut k: usize = 0;
        while k < off.len()
            invariant
                k <= off@.len(),
                off@ == spec_segment_control(seg, false),
                steps@ == middle + off@.subrange(0, k as int).map_values(|c: PinCommand| DriveStep::Pin(c)),
            decreases off@.len() - k,
        {
            steps.push(DriveStep::Pin(off[k]));
            k = k + 1;
            assert(steps@ =~= middle + off@.subrange(0, k as int).map_values(|c: PinCommand| DriveStep::Pin(c)));
        }
        assert(on@.subrange(0, on@.len() as int) =~= on@);
        assert(off@.subrange(0, off@.len() as int) =~= off@);
        assert(segs@.subrange(0, i + 1).drop_last() =~= segs@.subrange(0, i as int));
        assert(steps@ =~= spec_flash_all(segs@.subrange(0, i + 1)));
        i = i + 1;
    }
    assert(segs@.subrange(0, i as int) =~= segs@);
    steps
}


/// Whether `pin`'s output driver is on after running `steps` on a display
/// whose drivers all start off: the last `OutputEnable` on that pin decides.
pub open spec fn output_enabled_after(steps: Seq<DriveStep>, pin: usize) -> bool
    decreases steps.len(),
{
    if steps.len() == 0 {
        false
    } else {
        match steps.last() {
            DriveStep::Pin(PinCommand::OutputEnable(p, b)) => if p == pin {
                b
            } else {
                output_enabled_after(steps.drop_last(), pin)
            },
            _ => output_enabled_after(steps.drop_last(), pin),
        }
    }
}

/// A decimal digit lights segments of one digit only (`1..=7`), each at
/// most once and in increasing order; any other value lights nothing.
pub proof fn lemma_digit_segments_ordered(n: u8)
    ensures
        n <= 9 ==> forall|i: int| 0 <= i < spec_digit_segments(n).len() ==> 1 <= #[trigger] spec_digit_segments(n)[i] <= 7,
        n <= 9 ==> forall|i: int, j: int| 0 <= i < j < spec_digit_segments(n).len()
            ==> #[trigger] spec_digit_segments(n)[i] < #[trigger] spec_digit_segments(n)[j],
        n > 9 ==> spec_digit_segments(n).len() == 0,
{
}

/// Two different decimal digits light different sets of segments, so every
/// digit can be read back from the display.
pub proof fn lemma_digits_distinguishable(a: u8, b: u8)
    requires
        a <= 9,
        b <= 9,
        a != b,
    ensures
        spec_digit_segments(a).to_set() != spec_digit_segments(b).to_set(),
{
    assert(exists|s: u8| #[trigger] spec_digit_segments(a).contains(s) != spec_digit_segments(b).contains(s)) by {
        assert(spec_digit_segments(a).contains(1u8) != spec_digit_segments(b).contains(1u8)
            || spec_digit_segments(a).contains(2u8) != spec_digit_segments(b).contains(2u8)
            || spec_digit_segments(a).contains(3u8) != spec_digit_segments(b).contains(3u8)
            || spec_digit_segments(a).contains(4u8) != spec_digit_segments(b).contains(4u8)
            || spec_digit_segments(a).contains(5u8) != spec_digit_segments(b).contains(5u8)
            || spec_digit_segments(a).contains(6u8) != spec_digit_segments(b).contains(6u8)
            || spec_digit_segments(a).contains(7u8) != spec_digit_segments(b).contains(7u8));
    }
    let s = choose|s: u8| #[trigger] spec_digit_segments(a).contains(s) != spec_digit_segments(b).contains(s);
    assert(spec_digit_segments(a).to_set().contains(s) != spec_digit_segments(b).to_set().contains(s));
}

/// Every segment of the display is lit by its own ordered pair of two
/// different display pins, so lighting one segment never lights another.
pub proof fn lemma_segment_pins_charlieplexed(s: u8, t: u8)
    requires
        1 <= s <= 14,
        1 <= t <= 14,
    ensures
        spec_segment_pins(s).0 != spec_segment_pins(s).1,
        spec_segment_pins(s).0 < 5 && spec_segment_pins(s).1 < 5,
        s != t ==> spec_segment_pins(s) != spec_segment_pins(t),
{
}

/// The segments flashed for a decimal digit belong to the chosen side:
/// `1..=7` on the left digit, `8..=14` on the right one.
pub proof fn lemma_segment_sequence_side(n: u8, left: bool)
    requires
        n <= 9,
    ensures
        spec_segment_sequence(n, left).len() == spec_digit_segments(n).len(),
        forall|i: int| 0 <= i < spec_segment_sequence(n, left).len() ==> {
            &&& left ==> #[trigger] spec_segment_sequence(n, left)[i] == spec_digit_segments(n)[i]
            &&& !left ==> spec_segment_sequence(n, left)[i] == spec_digit_segments(n)[i] + 7
        },
        forall|i: int| 0 <= i < spec_segment_sequence(n, left).len() ==> {
            &&& left ==> 1 <= #[trigger] spec_segment_sequence(n, left)[i] <= 7
            &&& !left ==> 8 <= spec_segment_sequence(n, left)[i] <= 14
        },
{
    lemma_digit_segments_ordered(n);
}

proof fn lemma_enabled_after_concat(a: Seq<DriveStep>, b: Seq<DriveStep>, pin: usize)
    requires
        forall|i: int| 0 <= i < b.len() ==> !(#[trigger] b[i] matches DriveStep::Pin(PinCommand::OutputEnable(p, _)) && p == pin),
    ensures
        output_enabled_after(a + b, pin) == output_enabled_after(a, pin),
    decreases b.len(),
{
    if b.len() > 0 {
        assert((a + b).drop_last() =~= a + b.drop_last());
        lemma_enabled_after_concat(a, b.drop_last(), pin);
    } else {
        assert(a + b =~= a);
    }
}

/// Showing a digit leaves every pin's output driver off again: between two
/// digits the display draws no current and shows nothing.
pub proof fn lemma_display_dark_after(segs: Seq<u8>, pin: usize)
    ensures
        !output_enabled_after(spec_flash_all(segs), pin),
    decreases segs.len(),
{
    if segs.len() > 0 {
        let seg = segs.last();
        let (on, off) = spec_segment_pins(seg);
        let rest = spec_flash_all(segs.drop_last());
        lemma_display_dark_after(segs.drop_last(), pin);
        let f = spec_flash(seg);
        assert(f.len() == 7);
        assert(f[6] == DriveStep::Pin(PinCommand::OutputEnable(off, false)));
        assert(f[5] == DriveStep::Pin(PinCommand::OutputEnable(on, false)));
        let all = rest + f;
        assert(spec_flash_all(segs) == all);
        assert(all.last() == f[6]);
        assert(all.drop_last() =~= rest + f.drop_last());
        assert(all.drop_last().last() == f[5]);
        assert(all.drop_last().drop_last() =~= rest + f.drop_last().drop_last());
        if pin == off {
            assert(!output_enabled_after(all, pin));
        } else if pin == on {
            assert(output_enabled_after(all, pin) == output_enabled_after(all.drop_last(), pin));
            assert(!output_enabled_after(all.drop_last(), pin));
        } else {
            assert(output_enabled_after(all, pin) == output_enabled_after(all.drop_last(), pin));
            assert(output_enabled_after(all.drop_last(), pin) == output_enabled_after(all.drop_last().drop_last(), pin));
            let g = f.drop_last().drop_last();
            assert forall|i: int| 0 <= i < g.len() implies !(#[trigger] g[i] matches DriveStep::Pin(PinCommand::OutputEnable(p, _)) && p == pin) by {
                assert(g[i] == f[i]);
            }
            lemma_enabled_after_concat(rest, g, pin);
        }
    }
}


/// Every pin whose output driver is on after `steps` is one of the two pins
/// of segment `seg`.
pub open spec fn drivers_within(steps: Seq<DriveStep>, seg: u8) -> bool {
    forall|pin: usize| #[trigger] output_enabled_after(steps, pin) ==> pin == spec_segment_pins(seg).0
        || pin == spec_segment_pins(seg).1
}

/// No pin's output driver is on after `steps`.
pub open spec fn all_drivers_off(steps: Seq<DriveStep>) -> bool {
    forall|pin: usize| !#[trigger] output_enabled_after(steps, pin)
}

/// While segments are flashed one after another, at most one of them is lit
/// at any moment: at every point of the plan either no pin drives, or only
/// the two pins of one of the segments do.
pub proof fn lemma_one_segment_at_a_time(segs: Seq<u8>, k: int)
    requires
        0 <= k <= spec_flash_all(segs).len(),
    ensures
        all_drivers_off(spec_flash_all(segs).take(k)) || exists|i: int|
            0 <= i < segs.len() && drivers_within(spec_flash_all(segs).take(k), #[trigger] segs[i]),
    decreases segs.len(),
{
    if segs.len() == 0 {
        assert(spec_flash_all(segs).take(k) =~= Seq::<DriveStep>::empty());
        assert forall|pin: usize| !#[trigger] output_enabled_after(spec_flash_all(segs).take(k), pin) by {}
    } else {
        let init = segs.drop_last();
        let seg = segs.last();
        let a = spec_flash_all(init);
        let f = spec_flash(seg);
        assert(spec_flash_all(segs) == a + f);
        if k <= a.len() {
            assert((a + f).take(k) =~= a.take(k));
            lemma_one_segment_at_a_time(init, k);
            if !all_drivers_off(a.take(k)) {
                let i = choose|i: int| 0 <= i < init.len() && drivers_within(a.take(k), #[trigger] init[i]);
                assert(segs[i] == init[i]);
            }
        } else {
            let j = k - a.len();
            let g = f.take(j);
            assert((a + f).take(k) =~= a + g);
            let (on, off) = spec_segment_pins(seg);
            assert(f.len() == 7);
            assert forall|pin: usize| #[trigger] output_enabled_after(a + g, pin) implies pin == on || pin == off by {
                if pin != on && pin != off {
                    assert forall|m: int| 0 <= m < g.len() implies !(#[trigger] g[m] matches DriveStep::Pin(PinCommand::OutputEnable(p, _)) && p == pin) by {
                        assert(g[m] == f[m]);
                    }
                    lemma_enabled_after_concat(a, g, pin);
                    lemma_display_dark_after(init, pin);
                }
            }
            assert(drivers_within(spec_flash_all(segs).take(k), segs[segs.len() - 1]));
        }
    }
}

/// Showing a digit never lights two segments at once.
pub proof fn lemma_digit_one_segment_at_a_time(n: u8, left: bool, k: int)
    requires
        0 <= k <= spec_flash_all(spec_segment_sequence(n, left)).len(),
    ensures
        all_drivers_off(spec_flash_all(spec_segment_sequence(n, left)).take(k)) || exists|i: int|
            0 <= i < spec_segment_sequence(n, left).len() && drivers_within(
                spec_flash_all(spec_segment_sequence(n, left)).take(k),
                #[trigger] spec_segment_sequence(n, left)[i],
            ),
{
    lemma_one_segment_at_a_time(spec_segment_sequence(n, left), k);
}


/// The standard seven-segment glyph of every decimal digit, with segments
/// numbered top (1), upper left (2), upper right (3), middle (4), lower
/// left (5), lower right (6), bottom (7).
pub proof fn lemma_standard_glyphs()
    ensures
        spec_digit_segments(0) == seq![1u8, 2, 3, 5, 6, 7],
        spec_digit_segments(1) == seq![3u8, 6],
        spec_digit_segments(2) == seq![1u8, 3, 4, 5, 7],
        spec_digit_segments(3) == seq![1u8, 3, 4, 6, 7],
        spec_digit_segments(4) == seq![2u8, 3, 4, 6],
        spec_digit_segments(5) == seq![1u8, 2, 4, 6, 7],
        spec_digit_segments(6) == seq![1u8, 2, 4, 5, 6, 7],
        spec_digit_segments(7) == seq![1u8, 3, 6],
        spec_digit_segments(8) == seq![1u8, 2, 3, 4, 5, 6, 7],
        spec_digit_segments(9) == seq![1u8, 2, 3, 4, 6, 7],
{
}

/// Which segments a digit lights, stated by the shape of the digit: the
/// middle bar is dark exactly for 0, 1 and 7; the lower left bar is lit
/// exactly for 0, 2, 6 and 8; the lower right bar is dark only for 2; the
/// upper left bar is lit exactly for 0, 4, 5, 6, 8 and 9; the upper right
/// bar is dark exactly for 5 and 6; the top bar is dark exactly for 1 and 4;
/// the bottom bar is dark exactly for 1, 4 and 7.
pub proof fn lemma_glyph_bars(n: u8)
    requires
        n <= 9,
    ensures
        spec_digit_segments(n).contains(4) <==> !(n == 0 || n == 1 || n == 7),
        spec_digit_segments(n).contains(5) <==> (n == 0 || n == 2 || n == 6 || n == 8),
        spec_digit_segments(n).contains(6) <==> n != 2,
        spec_digit_segments(n).contains(2) <==> (n == 0 || n == 4 || n == 5 || n == 6 || n == 8 || n == 9),
        spec_digit_segments(n).contains(3) <==> !(n == 5 || n == 6),
        spec_digit_segments(n).contains(1) <==> !(n == 1 || n == 4),
        spec_digit_segments(n).contains(7) <==> !(n == 1 || n == 4 || n == 7),
{
    lemma_standard_glyphs();
    let s = spec_digit_segments(n);
    assert(s.contains(1u8) == (exists|i: int| 0 <= i < s.len() && s[i] == 1u8));
    if n == 0 { assert(s[0] == 1 && s[1] == 2 && s[2] == 3 && s[3] == 5 && s[4] == 6 && s[5] == 7); }
    if n == 1 { assert(s[0] == 3 && s[1] == 6); }
    if n == 2 { assert(s[0] == 1 && s[1] == 3 && s[2] == 4 && s[3] == 5 && s[4] == 7); }
    if n == 3 { assert(s[0] == 1 && s[1] == 3 && s[2] == 4 && s[3] == 6 && s[4] == 7); }
    if n == 4 { assert(s[0] == 2 && s[1] == 3 && s[2] == 4 && s[3] == 6); }
    if n == 5 { assert(s[0] == 1 && s[1] == 2 && s[2] == 4 && s[3] == 6 && s[4] == 7); }
    if n == 6 { assert(s[0] == 1 && s[1] == 2 && s[2] == 4 && s[3] == 5 && s[4] == 6 && s[5] == 7); }
    if n == 7 { assert(s[0] == 1 && s[1] == 3 && s[2] == 6); }
    if n == 8 { assert(s[0] == 1 && s[1] == 2 && s[2] == 3 && s[3] == 4 && s[4] == 5 && s[5] == 6 && s[6] == 7); }
    if n == 9 { assert(s[0] == 1 && s[1] == 2 && s[2] == 3 && s[3] == 4 && s[4] == 6 && s[5] == 7); }
}

/// The board's wiring: the pin driven high and the pin driven low for each
/// of the fourteen segments.
pub proof fn lemma_board_wiring()
    ensures
        spec_segment_pins(1) == (1usize, 2usize),
        spec_segment_pins(2) == (0usize, 4usize),
        spec_segment_pins(3) == (1usize, 4usize),
        spec_segment_pins(4) == (2usize, 4usize),
        spec_segment_pins(5) == (0usize, 2usize),
        spec_segment_pins(6) == (4usize, 2usize),
        spec_segment_pins(7) == (3usize, 1usize),
        spec_segment_pins(8) == (3usize, 0usize),
        spec_segment_pins(9) == (2usize, 0usize),
        spec_segment_pins(10) == (0usize, 1usize),
        spec_segment_pins(11) == (2usize, 1usize),
        spec_segment_pins(12) == (4usize, 0usize),
        spec_segment_pins(13) == (4usize, 1usize),
        spec_segment_pins(14) == (1usize, 0usize),
        forall|seg: u8| (seg == 0 || seg > 14) ==> #[trigger] spec_segment_pins(seg) == (0usize, 0usize),
{
}

/// Switching a segment on drives its wired high pin high and its wired low
/// pin low before enabling both outputs; switching it off disables both
/// outputs and drives nothing.
pub proof fn lemma_segment_control_drives_wired_pins(seg: u8)
    ensures
        spec_segment_control(seg, true) == seq![
            PinCommand::SetHigh(spec_segment_pins(seg).0),
            PinCommand::SetLow(spec_segment_pins(seg).1),
            PinCommand::OutputEnable(spec_segment_pins(seg).0, true),
            PinCommand::OutputEnable(spec_segment_pins(seg).1, true),
        ],
        spec_segment_control(seg, false) == seq![
            PinCommand::OutputEnable(spec_segment_pins(seg).0, false),
            PinCommand::OutputEnable(spec_segment_pins(seg).1, false),
        ],
{
}


proof fn lemma_flash_all_prefix(segs: Seq<u8>, i: int)
    requires
        0 <= i <= segs.len(),
    ensures
        spec_flash_all(segs).len() == 7 * segs.len(),
        spec_flash_all(segs).take(7 * i) == spec_flash_all(segs.take(i)),
    decreases segs.len(),
{
    if segs.len() == 0 {
        assert(segs.take(i) =~= segs);
        assert(spec_flash_all(segs).take(0) =~= spec_flash_all(segs));
    } else {
        let init = segs.drop_last();
        let f = spec_flash(segs.last());
        assert(f.len() == 7);
        if i == segs.len() {
            lemma_flash_all_prefix(init, 0);
            assert(segs.take(i) =~= segs);
            assert(spec_flash_all(segs).take(7 * i) =~= spec_flash_all(segs));
        } else {
            lemma_flash_all_prefix(init, i);
            assert(init.take(i) =~= segs.take(i));
            assert((spec_flash_all(init) + f).take(7 * i) =~= spec_flash_all(init).take(7 * i));
        }
    }
}

/// A digit is shown one segment per pause, in drawing order: the plan has
/// one pause per segment, and during the `i`-th pause exactly the two pins
/// of the `i`-th segment drive.
pub proof fn lemma_pause_shows_segment(segs: Seq<u8>, i: int, pin: usize)
    requires
        0 <= i < segs.len(),
    ensures
        spec_flash_all(segs).len() == 7 * segs.len(),
        spec_flash_all(segs)[7 * i + 4] == DriveStep::Wait,
        output_enabled_after(spec_flash_all(segs).take(7 * i + 4), pin) <==> (pin == spec_segment_pins(segs[i]).0
            || pin == spec_segment_pins(segs[i]).1),
{
    lemma_flash_all_prefix(segs, i + 1);
    lemma_flash_all_prefix(segs, i);
    let pre = segs.take(i);
    let seg = segs[i];
    let f = spec_flash(seg);
    assert(segs.take(i + 1).drop_last() =~= pre);
    assert(spec_flash_all(segs.take(i + 1)) == spec_flash_all(pre) + f);
    let a = spec_flash_all(pre);
    assert(a.len() == 7 * i) by { lemma_flash_all_prefix(pre, 0); }
    assert(spec_flash_all(segs)[7 * i + 4] == spec_flash_all(segs.take(i + 1))[7 * i + 4]);
    assert(spec_flash_all(segs).take(7 * i + 4) =~= a + f.take(4));
    let g = f.take(4);
    let all = a + g;
    let (on, off) = spec_segment_pins(seg);
    assert(all.last() == g[3]);
    assert(all.drop_last() =~= a + g.drop_last());
    assert(all.drop_last().last() == g[2]);
    if pin == off {
    } else if pin == on {
        assert(output_enabled_after(all, pin) == output_enabled_after(all.drop_last(), pin));
    } else {
        assert(output_enabled_after(all, pin) == output_enabled_after(all.drop_last(), pin));
        assert(output_enabled_after(all.drop_last(), pin) == output_enabled_after(all.drop_last().drop_last(), pin));
        assert(all.drop_last().drop_last() =~= a + g.drop_last().drop_last());
        let h = g.drop_last().drop_last();
        assert forall|m: int| 0 <= m < h.len() implies !(#[trigger] h[m] matches DriveStep::Pin(PinCommand::OutputEnable(p, _)) && p == pin) by {
            assert(h[m] == f[m]);
        }
        lemma_enabled_after_concat(a, h, pin);
        lemma_display_dark_after(pre, pin);
    }
}

} // verus!
