//! The effect-chain configuration: which effect a configuration entry names,
//! how many arguments it needs, and how an equaliser lays out its bands.
use vstd::prelude::*;

verus! {

/// The effects a configuration entry can name.
#[derive(Clone, Copy, Debug, PartialEq, Eq, Structural)]
pub enum EffectKind {
    DCOffset,
    ClippingGain,
    ArctanWaveShape,
    Delay,
    SineModulatedDelay,
    Gate,
    EQ,
}

/// Why a configuration entry cannot be built.
#[derive(Clone, Copy, Debug, PartialEq, Eq, Structural)]
pub enum ConfigError {
    /// The entry names no known effect.
    UnknownType,
    /// The entry gives fewer arguments than its effect reads.
    MissingArguments { kind: EffectKind, needed: usize, given: usize },
}

/// The name under which a configuration entry selects an effect.
pub open spec fn spec_kind_name(kind: EffectKind) -> Seq<char> {
    match kind {
        EffectKind::DCOffset => "DCOffset"@,
        EffectKind::ClippingGain => "ClippingGain"@,
        EffectKind::ArctanWaveShape => "ArctanWaveShape"@,
        EffectKind::Delay => "Delay"@,
        EffectKind::SineModulatedDelay => "SineModulatedDelay"@,
        EffectKind::Gate => "Gate"@,
        EffectKind::EQ => "EQ"@,
    }
}

/// The number of arguments an effect reads: a delay reads its time, mix and
/// feedback; a modulated delay also its depth and period; a gate its attack,
/// release and threshold; an equaliser its band count (its band gains
/// follow, as many as given); the others one value each.
pub open spec fn spec_arity(kind: EffectKind) -> nat {
    match kind {
        EffectKind::DCOffset => 1,
        EffectKind::ClippingGain => 1,
        EffectKind::ArctanWaveShape => 1,
        EffectKind::Delay => 3,
        EffectKind::SineModulatedDelay => 5,
        EffectKind::Gate => 3,
        EffectKind::EQ => 1,
    }
}

/// The outcome of checking an entry that names `name` and gives `given`
/// arguments.
pub open spec fn spec_check_effect(name: Seq<char>, given: nat) -> Result<EffectKind, ConfigError> {
    if exists|k: EffectKind| spec_kind_name(k) == name {
        let k = choose|k: EffectKind| spec_kind_name(k) == name;
        if given < spec_arity(k) {
            Err(ConfigError::MissingArguments { kind: k, needed: spec_arity(k) as usize, given: given as usize })
        } else {
            Ok(k)
        }
    } else {
        Err(ConfigError::UnknownType)
    }
}

/// Compares two strings.
fn same_text(a: &str, b: &str) -> (r: bool)
    ensures
        r == (a@ == b@),
{
    let a_owned = a.to_owned();
    let b_owned = b.to_owned();
    a_owned == b_owned
}

impl EffectKind {
    /// The effect that `name` selects, if any.
    pub fn from_name(name: &str) -> (r: Option<EffectKind>)
        ensures
            match r {
                Some(k) => spec_kind_name(k) == name@,
                None => forall|k: EffectKind| spec_kind_name(k) != name@,
            },
    {
        if same_text(name, "DCOffset") {
            Some(EffectKind::DCOffset)
        } else if same_text(name, "ClippingGain") {
            Some(EffectKind::ClippingGain)
        } else if same_text(name, "ArctanWaveShape") {
            Some(EffectKind::ArctanWaveShape)
        } else if same_text(name, "Delay") {
            Some(EffectKind::Delay)
        } else if same_text(name, "SineModulatedDelay") {
            Some(EffectKind::SineModulatedDelay)
        } else if same_text(name, "Gate") {
            Some(EffectKind::Gate)
        } else if same_text(name, "EQ") {
            Some(EffectKind::EQ)
        } else {
            assert forall|k: EffectKind| spec_kind_name(k) != name@ by {
                match k {
                    EffectKind::DCOffset => {},
                    EffectKind::ClippingGain => {},
                    EffectKind::ArctanWaveShape => {},
                    EffectKind::Delay => {},
                    EffectKind::SineModulatedDelay => {},
                    EffectKind::Gate => {},
                    EffectKind::EQ => {},
                }
            }
            None
        }
    }

    /// The number of arguments the effect reads.
    pub fn arity(&self) -> (n: usize)
        ensures
            n == spec_arity(*self),
    {
        match self {
            EffectKind::DCOffset => 1,
            EffectKind::ClippingGain => 1,
            EffectKind::ArctanWaveShape => 1,
            EffectKind::Delay => 3,
            EffectKind::SineModulatedDelay => 5,
            EffectKind::Gate => 3,
            EffectKind::EQ => 1,
        }
    }
}


/// Different effects are selected by different names, so a name selects at
/// most one effect.
pub proof fn lemma_kind_names_distinct(a: EffectKind, b: EffectKind)
    requires
        a != b,
    ensures
        spec_kind_name(a) != spec_kind_name(b),
{
    reveal_strlit("DCOffset");
    reveal_strlit("ClippingGain");
    reveal_strlit("ArctanWaveShape");
    reveal_strlit("Delay");
    reveal_strlit("SineModulatedDelay");
    reveal_strlit("Gate");
    reveal_strlit("EQ");
    assert(spec_kind_name(a).len() != spec_kind_name(b).len()
        || spec_kind_name(a)[0] != spec_kind_name(b)[0]
        || spec_kind_name(a)[1] != spec_kind_name(b)[1]);
}

/// Checks a configuration entry that names `name` and gives `given`
/// arguments: the effect it selects when that effect has all the
/// arguments it reads, else why it cannot be built. An unknown name is
/// reported before a short argument list.
pub fn check_effect(name: &str, given: usize) -> (r: Result<EffectKind, ConfigError>)
    ensures
        r == spec_check_effect(name@, given as nat),
{
    match EffectKind::from_name(name) {
        None => Err(ConfigError::UnknownType),
        Some(kind) => {
            proof {
                let k = choose|k: EffectKind| spec_kind_name(k) == name@;
                if k != kind {
                    lemma_kind_names_distinct(k, kind);
                }
            }
            let needed = kind.arity();
            if given < needed {
                Err(ConfigError::MissingArguments { kind, needed, given })
            } else {
                Ok(kind)
            }
        },
    }
}


/// The position of each band of an `n`-band equaliser relative to the
/// centre band, which sits at 1 kHz; band `i` is tuned `offset / n` of ten
/// octaves away from it. A band count beyond `isize::MAX` gives no bands.
pub open spec fn spec_band_offsets(n: nat) -> Seq<int> {
    if n <= isize::MAX {
        Seq::new(n, |i: int| i - n as int / 2)
    } else {
        Seq::empty()
    }
}

/// The offsets of the bands of an `n`-band equaliser from its centre band.
pub fn band_offsets(n: usize) -> (v: Vec<isize>)
    ensures
        v@.len() == spec_band_offsets(n as nat).len(),
        forall|i: int| 0 <= i < v@.len() ==> #[trigger] v@[i] as int == spec_band_offsets(n as nat)[i],
{
    let mut v: Vec<isize> = Vec::new();
    if n > isize::MAX as usize {
        return v;
    }
    let count: isize = n as isize;
    let half: isize = count / 2;
    let mut i: isize = 0;
    while i < count
        invariant
            0 <= i <= count,
            count == n,
            half == n as int / 2,
            n <= isize::MAX,
            v@.len() == i,
            forall|j: int| 0 <= j < i ==> #[trigger] v@[j] as int == j - n as int / 2,
        decreases count - i,
    {
        v.push(i - half);
        i = i + 1;
    }
    v
}

/// Where the gain of equaliser band `band` is kept among `bands` bands:
/// bands are numbered from one, so band `band` sits at `band - 1`; there is
/// no band zero and none beyond the last.
pub open spec fn spec_band_slot(band: nat, bands: nat) -> Option<nat> {
    if 1 <= band <= bands { Some((band - 1) as nat) } else { None }
}

/// The slot of equaliser band `band` among `bands` bands, if it exists.
pub fn band_slot(band: usize, bands: usize) -> (r: Option<usize>)
    ensures
        match r {
            Some(s) => spec_band_slot(band as nat, bands as nat) == Some(s as nat),
            None => spec_band_slot(band as nat, bands as nat) is None,
        },
{
    if 1 <= band && band <= bands {
        Some(band - 1)
    } else {
        None
    }
}

/// The bands of an equaliser are one step apart and centred on the middle
/// band: the first lies `n / 2` steps below it, the middle one (band
/// `n / 2`, counted from zero) is the centre itself.
pub proof fn lemma_band_offsets_centred(n: nat)
    requires
        1 <= n <= isize::MAX,
    ensures
        spec_band_offsets(n).len() == n,
        spec_band_offsets(n)[0] == -(n as int / 2),
        spec_band_offsets(n)[n as int / 2] == 0,
        forall|i: int| 0 <= i < n - 1 ==> #[trigger] spec_band_offsets(n)[i + 1] == spec_band_offsets(n)[i] + 1,
{
}


/// Bands are numbered from one: band `s + 1` is kept in slot `s` for every
/// slot of the equaliser, and neither band zero nor a band past the last
/// exists.
pub proof fn lemma_band_slots(bands: nat)
    ensures
        forall|s: nat| s < bands ==> #[trigger] spec_band_slot(s + 1, bands) == Some(s),
        spec_band_slot(0, bands) is None,
        forall|b: nat| b > bands ==> #[trigger] spec_band_slot(b, bands) is None,
{
}

/// How many arguments each effect reads from its entry: one value for the
/// offset, the clipping gain, the wave-shaper's drive and the equaliser's
/// band count; time, mix and feedback for a delay; attack, release and
/// threshold for a gate; time, depth, mix, feedback and period for a
/// modulated delay.
pub proof fn lemma_arities()
    ensures
        spec_arity(EffectKind::DCOffset) == 1,
        spec_arity(EffectKind::ClippingGain) == 1,
        spec_arity(EffectKind::ArctanWaveShape) == 1,
        spec_arity(EffectKind::EQ) == 1,
        spec_arity(EffectKind::Delay) == 3,
        spec_arity(EffectKind::Gate) == 3,
        spec_arity(EffectKind::SineModulatedDelay) == 5,
{
}

proof fn lemma_check_named(k: EffectKind, given: nat)
    ensures
        spec_check_effect(spec_kind_name(k), given) == if given < spec_arity(k) {
            Err::<EffectKind, ConfigError>(ConfigError::MissingArguments {
                kind: k,
                needed: spec_arity(k) as usize,
                given: given as usize,
            })
        } else {
            Ok::<EffectKind, ConfigError>(k)
        },
{
    let c = choose|c: EffectKind| spec_kind_name(c) == spec_kind_name(k);
    if c != k {
        lemma_kind_names_distinct(c, k);
    }
}

/// An entry is accepted exactly when it names an effect and gives at least
/// as many arguments as that effect reads, stated name by name; a shorter
/// list is refused with the effect, the count it needs and the count given.
pub proof fn lemma_check_effect_by_name(given: nat)
    ensures
        spec_check_effect("DCOffset"@, given) == if given < 1 {
            Err::<EffectKind, ConfigError>(ConfigError::MissingArguments { kind: EffectKind::DCOffset, needed: 1, given: given as usize })
        } else { Ok::<EffectKind, ConfigError>(EffectKind::DCOffset) },
        spec_check_effect("ClippingGain"@, given) == if given < 1 {
            Err::<EffectKind, ConfigError>(ConfigError::MissingArguments { kind: EffectKind::ClippingGain, needed: 1, given: given as usize })
        } else { Ok::<EffectKind, ConfigError>(EffectKind::ClippingGain) },
        spec_check_effect("ArctanWaveShape"@, given) == if given < 1 {
            Err::<EffectKind, ConfigError>(ConfigError::MissingArguments { kind: EffectKind::ArctanWaveShape, needed: 1, given: given as usize })
        } else { Ok::<EffectKind, ConfigError>(EffectKind::ArctanWaveShape) },
        spec_check_effect("EQ"@, given) == if given < 1 {
            Err::<EffectKind, ConfigError>(ConfigError::MissingArguments { kind: EffectKind::EQ, needed: 1, given: given as usize })
        } else { Ok::<EffectKind, ConfigError>(EffectKind::EQ) },
        spec_check_effect("Delay"@, given) == if given < 3 {
            Err::<EffectKind, ConfigError>(ConfigError::MissingArguments { kind: EffectKind::Delay, needed: 3, given: given as usize })
        } else { Ok::<EffectKind, ConfigError>(EffectKind::Delay) },
        spec_check_effect("Gate"@, given) == if given < 3 {
            Err::<EffectKind, ConfigError>(ConfigError::MissingArguments { kind: EffectKind::Gate, needed: 3, given: given as usize })
        } else { Ok::<EffectKind, ConfigError>(EffectKind::Gate) },
        spec_check_effect("SineModulatedDelay"@, given) == if given < 5 {
            Err::<EffectKind, ConfigError>(ConfigError::MissingArguments { kind: EffectKind::SineModulatedDelay, needed: 5, given: given as usize })
        } else { Ok::<EffectKind, ConfigError>(EffectKind::SineModulatedDelay) },
{
    lemma_check_named(EffectKind::DCOffset, given);
    lemma_check_named(EffectKind::ClippingGain, given);
    lemma_check_named(EffectKind::ArctanWaveShape, given);
    lemma_check_named(EffectKind::EQ, given);
    lemma_check_named(EffectKind::Delay, given);
    lemma_check_named(EffectKind::Gate, given);
    lemma_check_named(EffectKind::SineModulatedDelay, given);
}

/// A name that selects no effect is refused as unknown, whatever follows.
pub proof fn lemma_unknown_name(name: Seq<char>, given: nat)
    requires
        name != "DCOffset"@,
        name != "ClippingGain"@,
        name != "ArctanWaveShape"@,
        name != "Delay"@,
        name != "SineModulatedDelay"@,
        name != "Gate"@,
        name != "EQ"@,
    ensures
        spec_check_effect(name, given) == Err::<EffectKind, ConfigError>(ConfigError::UnknownType),
{
    assert forall|k: EffectKind| spec_kind_name(k) != name by {
        match k {
            EffectKind::DCOffset => {},
            EffectKind::ClippingGain => {},
            EffectKind::ArctanWaveShape => {},
            EffectKind::Delay => {},
            EffectKind::SineModulatedDelay => {},
            EffectKind::Gate => {},
            EffectKind::EQ => {},
        }
    }
}

} // verus!
