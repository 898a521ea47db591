//! Decisions of the effect pedal's controller firmware: how the audio codec
//! is brought up, and how the firmware answers a fatal error.
use vstd::prelude::*;

verus! {

/// The I2C address of the audio codec.
pub const CODEC_ADDRESS: u8 = 0x1a;

/// The register writes, in order, that bring up the audio codec: clocking
/// and the stereo I2S interface first, then the analogue path with every
/// input and converter muted while it is routed, and the mutes lifted last.
pub open spec fn spec_codec_init_writes() -> Seq<(u8, u8)> {
    seq![
        (0x23u8, 0x80u8),
        (0x22u8, 0x0bu8),
        (0x29u8, 0xe8u8),
        (0x60u8, 0xc4u8),
        (0x61u8, 0xc4u8),
        (0x33u8, 0x01u8),
        (0x34u8, 0x01u8),
        (0x65u8, 0xa8u8),
        (0x66u8, 0xa8u8),
        (0x67u8, 0xf0u8),
        (0x68u8, 0xf0u8),
        (0x60u8, 0x84u8),
        (0x61u8, 0x84u8),
        (0x67u8, 0xa0u8),
        (0x68u8, 0xa0u8),
    ]
}

/// The register writes that bring up the audio codec, each as
/// `(register, value)`.
pub fn codec_init_writes() -> (writes: Vec<(u8, u8)>)
    ensures
        writes@ == spec_codec_init_writes(),
{
    let writes: Vec<(u8, u8)> = vec![
        (0x23, 0x80),
        (0x22, 0x0b),
        (0x29, 0xe8),
        (0x60, 0xc4),
        (0x61, 0xc4),
        (0x33, 0x01),
        (0x34, 0x01),
        (0x65, 0xa8),
        (0x66, 0xa8),
        (0x67, 0xf0),
        (0x68, 0xf0),
        (0x60, 0x84),
        (0x61, 0x84),
        (0x67, 0xa0),
        (0x68, 0xa0),
    ];
    assert(writes@ =~= spec_codec_init_writes());
    writes
}

/// The value a run of register writes leaves in register `reg`, if it
/// writes that register at all.
pub open spec fn last_written(writes: Seq<(u8, u8)>, reg: u8) -> Option<u8>
    decreases writes.len(),
{
    if writes.len() == 0 {
        None
    } else if writes.last().0 == reg {
        Some(writes.last().1)
    } else {
        last_written(writes.drop_last(), reg)
    }
}

/// After bring-up the auxiliary inputs and both converters are unmuted,
/// and both input mixers are enabled.
pub proof fn lemma_codec_ends_unmuted()
    ensures
        last_written(spec_codec_init_writes(), 0x60) == Some(0x84u8),
        last_written(spec_codec_init_writes(), 0x61) == Some(0x84u8),
        last_written(spec_codec_init_writes(), 0x67) == Some(0xa0u8),
        last_written(spec_codec_init_writes(), 0x68) == Some(0xa0u8),
        last_written(spec_codec_init_writes(), 0x65) == Some(0xa8u8),
        last_written(spec_codec_init_writes(), 0x66) == Some(0xa8u8),
{
    let w = spec_codec_init_writes();
    assert(w.take(15) =~= w);
    lemma_last_written_step(w, 15);
    lemma_last_written_step(w, 14);
    lemma_last_written_step(w, 13);
    lemma_last_written_step(w, 12);
    lemma_last_written_step(w, 11);
    lemma_last_written_step(w, 10);
    lemma_last_written_step(w, 9);
    lemma_last_written_step(w, 8);
    assert(last_written(w.take(12), 0x60) == Some(0x84u8));
    assert(last_written(w.take(13), 0x61) == Some(0x84u8));
    assert(last_written(w.take(14), 0x67) == Some(0xa0u8));
    assert(last_written(w.take(15), 0x68) == Some(0xa0u8));
    assert(last_written(w.take(8), 0x65) == Some(0xa8u8));
    assert(last_written(w.take(9), 0x66) == Some(0xa8u8));
}

proof fn lemma_last_written_step(w: Seq<(u8, u8)>, k: int)
    requires
        1 <= k <= w.len(),
    ensures
        forall|reg: u8| #[trigger] last_written(w.take(k), reg) == if w[k - 1].0 == reg {
            Some(w[k - 1].1)
        } else {
            last_written(w.take(k - 1), reg)
        },
{
    assert(w.take(k).drop_last() =~= w.take(k - 1));
}

proof fn lemma_all_steps(w: Seq<(u8, u8)>)
    requires
        w == spec_codec_init_writes(),
    ensures
        forall|k: int, reg: u8| 1 <= k <= 15 ==> #[trigger] last_written(w.take(k), reg) == if w[k - 1].0 == reg {
            Some(w[k - 1].1)
        } else {
            last_written(w.take(k - 1), reg)
        },
        forall|reg: u8| #[trigger] last_written(w.take(0), reg) == None::<u8>,
        w.take(15) == w,
{
    assert forall|k: int| 1 <= k <= 15 implies #[trigger] w.take(k).drop_last() == w.take(k - 1) by {
        assert(w.take(k).drop_last() =~= w.take(k - 1));
    }
    assert(w.take(15) =~= w);
}

/// After bring-up every register written holds its working value: the
/// master clock on (0x23 = 0x80), 48 kHz sampling (0x22 = 0x0b), the stereo
/// I2S interface on (0x29 = 0xe8), both auxiliary inputs routed to their
/// input mixers (0x33 = 0x34 = 0x01), both input mixers on (0x65 = 0x66 =
/// 0xa8), both auxiliary inputs unmuted (0x60 = 0x61 = 0x84) and both
/// converters unmuted (0x67 = 0x68 = 0xa0). No other register is written.
pub proof fn lemma_codec_final_registers()
    ensures
        spec_codec_init_writes().len() == 15,
        last_written(spec_codec_init_writes(), 0x23) == Some(0x80u8),
        last_written(spec_codec_init_writes(), 0x22) == Some(0x0bu8),
        last_written(spec_codec_init_writes(), 0x29) == Some(0xe8u8),
        last_written(spec_codec_init_writes(), 0x33) == Some(0x01u8),
        last_written(spec_codec_init_writes(), 0x34) == Some(0x01u8),
        last_written(spec_codec_init_writes(), 0x65) == Some(0xa8u8),
        last_written(spec_codec_init_writes(), 0x66) == Some(0xa8u8),
        last_written(spec_codec_init_writes(), 0x60) == Some(0x84u8),
        last_written(spec_codec_init_writes(), 0x61) == Some(0x84u8),
        last_written(spec_codec_init_writes(), 0x67) == Some(0xa0u8),
        last_written(spec_codec_init_writes(), 0x68) == Some(0xa0u8),
        forall|i: int| 0 <= i < spec_codec_init_writes().len() ==> {
            let r = #[trigger] spec_codec_init_writes()[i].0;
            r == 0x23 || r == 0x22 || r == 0x29 || r == 0x33 || r == 0x34 || r == 0x65
                || r == 0x66 || r == 0x60 || r == 0x61 || r == 0x67 || r == 0x68
        },
{
    let w = spec_codec_init_writes();
    lemma_all_steps(w);
    assert(last_written(w.take(1), 0x23) == Some(0x80u8));
    assert(last_written(w.take(2), 0x22) == Some(0x0bu8));
    assert(last_written(w.take(3), 0x29) == Some(0xe8u8));
    assert(last_written(w.take(6), 0x33) == Some(0x01u8));
    assert(last_written(w.take(7), 0x34) == Some(0x01u8));
    assert(last_written(w.take(8), 0x65) == Some(0xa8u8));
    assert(last_written(w.take(9), 0x66) == Some(0xa8u8));
    assert(last_written(w.take(12), 0x60) == Some(0x84u8));
    assert(last_written(w.take(13), 0x61) == Some(0x84u8));
    assert(last_written(w.take(14), 0x67) == Some(0xa0u8));
    assert(last_written(w.take(15), 0x68) == Some(0xa0u8));
    assert(last_written(w.take(15), 0x23) == Some(0x80u8));
    assert(last_written(w.take(15), 0x22) == Some(0x0bu8));
    assert(last_written(w.take(15), 0x29) == Some(0xe8u8));
    assert(last_written(w.take(15), 0x33) == Some(0x01u8));
    assert(last_written(w.take(15), 0x34) == Some(0x01u8));
}

/// The analogue path is routed while it is silent: at each write that
/// routes an auxiliary input or enables an input mixer, both auxiliary
/// inputs have been muted (0xc4) and neither has been unmuted yet.
pub proof fn lemma_codec_routed_while_muted()
    ensures
        forall|i: int| 0 <= i < spec_codec_init_writes().len() && {
            let r = #[trigger] spec_codec_init_writes()[i].0;
            r == 0x33 || r == 0x34 || r == 0x65 || r == 0x66
        } ==> last_written(spec_codec_init_writes().take(i), 0x60) == Some(0xc4u8) && last_written(
            spec_codec_init_writes().take(i),
            0x61,
        ) == Some(0xc4u8),
{
    let w = spec_codec_init_writes();
    lemma_all_steps(w);
    assert(last_written(w.take(5), 0x60) == Some(0xc4u8));
    assert(last_written(w.take(5), 0x61) == Some(0xc4u8));
    assert(last_written(w.take(6), 0x60) == Some(0xc4u8));
    assert(last_written(w.take(6), 0x61) == Some(0xc4u8));
    assert(last_written(w.take(7), 0x60) == Some(0xc4u8));
    assert(last_written(w.take(7), 0x61) == Some(0xc4u8));
    assert(last_written(w.take(8), 0x60) == Some(0xc4u8));
    assert(last_written(w.take(8), 0x61) == Some(0xc4u8));
}

/// What the firmware does on a fatal error.
pub enum FaultAction {
    /// Log the rendered error report at error level.
    ReportError(String),
    /// Stop for good.
    Halt,
}

/// The firmware's answer to a fatal error with the rendered report
/// `report`: report it at error level, then halt forever.
pub fn panic(report: String) -> (actions: Vec<FaultAction>)
    ensures
        actions@.len() == 2,
        actions@[0] == FaultAction::ReportError(report),
        actions@[1] == FaultAction::Halt,
{
    let mut actions: Vec<FaultAction> = Vec::new();
    actions.push(FaultAction::ReportError(report));
    actions.push(FaultAction::Halt);
    actions
}

} // verus!
