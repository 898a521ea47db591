use dsp_test::effects::{band_offsets, band_slot, check_effect, ConfigError, EffectKind};

#[test]
fn names_select_effects() {
    assert_eq!(EffectKind::from_name("DCOffset"), Some(EffectKind::DCOffset));
    assert_eq!(EffectKind::from_name("ClippingGain"), Some(EffectKind::ClippingGain));
    assert_eq!(EffectKind::from_name("ArctanWaveShape"), Some(EffectKind::ArctanWaveShape));
    assert_eq!(EffectKind::from_name("Delay"), Some(EffectKind::Delay));
    assert_eq!(EffectKind::from_name("SineModulatedDelay"), Some(EffectKind::SineModulatedDelay));
    assert_eq!(EffectKind::from_name("Gate"), Some(EffectKind::Gate));
    assert_eq!(EffectKind::from_name("EQ"), Some(EffectKind::EQ));
    assert_eq!(EffectKind::from_name("eq"), None);
    assert_eq!(EffectKind::from_name(""), None);
    assert_eq!(EffectKind::from_name("Dynamics"), None);
}

#[test]
fn arities() {
    assert_eq!(EffectKind::DCOffset.arity(), 1);
    assert_eq!(EffectKind::Delay.arity(), 3);
    assert_eq!(EffectKind::SineModulatedDelay.arity(), 5);
    assert_eq!(EffectKind::Gate.arity(), 3);
    assert_eq!(EffectKind::EQ.arity(), 1);
}

#[test]
fn check_effect_outcomes() {
    assert_eq!(check_effect("Delay", 3), Ok(EffectKind::Delay));
    assert_eq!(check_effect("EQ", 11), Ok(EffectKind::EQ));
    assert_eq!(
        check_effect("Delay", 2),
        Err(ConfigError::MissingArguments { kind: EffectKind::Delay, needed: 3, given: 2 })
    );
    assert_eq!(check_effect("Chorus", 0), Err(ConfigError::UnknownType));
    assert_eq!(check_effect("Chorus", 10), Err(ConfigError::UnknownType));
    assert_eq!(
        check_effect("ClippingGain", 0),
        Err(ConfigError::MissingArguments { kind: EffectKind::ClippingGain, needed: 1, given: 0 })
    );
}

#[test]
fn band_offsets_are_centred() {
    assert_eq!(band_offsets(5), vec![-2, -1, 0, 1, 2]);
    assert_eq!(band_offsets(4), vec![-2, -1, 0, 1]);
    assert_eq!(band_offsets(1), vec![0]);
    assert!(band_offsets(0).is_empty());
    assert!(band_offsets(usize::MAX).is_empty());
}

#[test]
fn band_slots() {
    assert_eq!(band_slot(1, 10), Some(0));
    assert_eq!(band_slot(10, 10), Some(9));
    assert_eq!(band_slot(11, 10), None);
    assert_eq!(band_slot(0, 10), None);
    assert_eq!(band_slot(1, 0), None);
}
