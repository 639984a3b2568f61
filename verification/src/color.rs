//! Color correction: the settings, the curve they describe, and the lookup
//! tables that hold the curve for the 256 levels of each channel.
//!
//! The curve is evaluated in exact fractions. An input level is first
//! mirrored when the picture is inverted, then shifted by the brightness,
//! stretched around the middle by the contrast, cut to the range from black
//! to white, raised to the power `1 / gamma`, and turned into the largest
//! of the 256 output levels that it reaches.

use vstd::prelude::*;
use crate::arith::clamp_int;
use crate::rotate::Rotate;

verus! {

/// Denominator of the thresholds of a [`Gamma`]: white is `GAMMA_SCALE`.
pub const GAMMA_SCALE: u32 = 4_278_190_080;

/// Distance between two thresholds of the gamma-one response:
/// `GAMMA_SCALE / 255`.
pub const GAMMA_UNIT: u32 = 16_777_216;

/// The power law of the curve, held as the response it produces.
///
/// `steps[k] / GAMMA_SCALE` is the smallest brightness, between black (0)
/// and white (1), that output level `k` needs: `(k / 255)` raised to the
/// power `gamma`. `milli` is the exponent in thousandths, kept for display
/// and storage; the curve is computed from `steps` alone.
#[derive(Clone, Copy, Debug)]
pub struct Gamma {
    pub milli: u32,
    pub steps: [u32; 256],
}

/// What the user can change about the colors and the orientation.
#[derive(Clone, Copy, Debug)]
pub struct ColorSettings {
    pub gamma: Gamma,
    /// Contrast in thousandths; values beyond -1000 and 1000 count as these.
    pub contrast: i32,
    /// Brightness in thousandths, added to the level.
    pub brightness: i32,
    pub show_r: bool,
    pub show_g: bool,
    pub show_b: bool,
    pub invert: bool,
    pub rotate: Rotate,
}

/// Three tables of 256 levels, for red, green and blue.
#[derive(Clone, Copy, Debug)]
pub struct Lut4ColorSettings {
    pub lut: [[u8; 256]; 3],
}

/// The contrast that the curve uses: the setting cut to `-1000..=1000`.
pub open spec fn effective_contrast(contrast: int) -> int {
    clamp_int(contrast, -1000, 1000)
}

/// Denominator of the stretched level. It is positive for every contrast.
pub open spec fn tone_den(contrast: int) -> int {
    255_000_000 * (1015 - effective_contrast(contrast))
}

/// Numerator of the stretched level, over [`tone_den`]: with `v` the level
/// as a fraction of 255, `b` the brightness and `c` the contrast, this is
/// `1.015 * (c + 1) / (1.015 - c) * (v + b - 0.5) + 0.5`.
pub open spec fn tone_num(level: int, brightness: int, contrast: int) -> int {
    let c = effective_contrast(contrast);
    1015 * (1000 + c) * (1000 * level + 255 * brightness - 127_500) + 127_500_000 * (1015 - c)
}

/// The stretched level cut to the range from black to white, as a numerator
/// over [`tone_den`].
pub open spec fn toned(level: int, brightness: int, contrast: int) -> int {
    clamp_int(tone_num(level, brightness, contrast), 0, tone_den(contrast))
}

/// Whether the brightness `n / d` reaches the threshold of output level `k`.
pub open spec fn reaches(steps: Seq<u32>, k: int, n: int, d: int) -> bool {
    steps[k] * d <= n * GAMMA_SCALE
}

/// The largest output level in `1..=k` that `n / d` reaches, or 0.
pub open spec fn level_upto(steps: Seq<u32>, n: int, d: int, k: int) -> int
    decreases k,
{
    if k <= 0 {
        0
    } else if reaches(steps, k, n, d) {
        k
    } else {
        level_upto(steps, n, d, k - 1)
    }
}

/// The output level of the brightness `n / d` under the response `steps`.
pub open spec fn gamma_level(steps: Seq<u32>, n: int, d: int) -> int {
    level_upto(steps, n, d, 255)
}

/// The thresholds of the power one: level `k` needs `k / 255`.
pub open spec fn identity_steps() -> Seq<u32> {
    Seq::new(256, |k: int| (k * GAMMA_UNIT) as u32)
}

/// Whether the thresholds are those of a response: they rise from level
/// to level, from zero for black to `GAMMA_SCALE` for white.
pub open spec fn is_rising(steps: Seq<u32>) -> bool {
    &&& steps.len() == 256
    &&& steps[0] == 0
    &&& steps[255] == GAMMA_SCALE
    &&& forall|k: int| 0 <= k < 255 ==> (#[trigger] steps[k]) < steps[k + 1]
}

impl Gamma {
    /// Whether the response is that of the power one.
    pub open spec fn is_identity(self) -> bool {
        self.steps@ == identity_steps()
    }

    /// Whether the thresholds rise from zero to `GAMMA_SCALE`, as those of
    /// every power do. Such a response keeps black black and white white.
    pub open spec fn is_response(self) -> bool {
        is_rising(self.steps@)
    }

    /// The power one, under which the curve is a straight line.
    pub fn identity() -> (g: Gamma)
        ensures
            g.milli == 1000,
            g.is_identity(),
            g.is_response(),
    {
        let mut steps: [u32; 256] = [0u32; 256];
        let mut k: usize = 0;
        while k < 256
            invariant
                k <= 256,
                forall|j: int| 0 <= j < k ==> steps@[j] == j * GAMMA_UNIT,
            decreases 256 - k,
        {
            steps[k] = (k as u32) * GAMMA_UNIT;
            k += 1;
        }
        assert(steps@ =~= identity_steps());
        Gamma { milli: 1000, steps }
    }

    /// The response that the caller measured for the exponent
    /// `milli / 1000`, or nothing where the thresholds do not rise from
    /// zero to `GAMMA_SCALE`.
    pub fn from_steps(milli: u32, steps: [u32; 256]) -> (r: Option<Gamma>)
        ensures
            r is Some <==> is_rising(steps@),
            r matches Some(g) ==> g.milli == milli && g.steps == steps && g.is_response(),
    {
        if steps[0] != 0 || steps[255] != GAMMA_SCALE {
            return None;
        }
        let mut k: usize = 0;
        while k < 255
            invariant
                k <= 255,
                forall|j: int| 0 <= j < k ==> (#[trigger] steps@[j]) < steps@[j + 1],
            decreases 255 - k,
        {
            if steps[k] >= steps[k + 1] {
                return None;
            }
            k += 1;
        }
        Some(Gamma { milli, steps })
    }
}

impl ColorSettings {
    /// The settings that change nothing: power one, no contrast or
    /// brightness change, all channels shown, not inverted, not rotated.
    pub open spec fn is_neutral(self) -> bool {
        &&& self.gamma.is_identity()
        &&& self.gamma.milli == 1000
        &&& self.contrast == 0
        &&& self.brightness == 0
        &&& self.show_r
        &&& self.show_g
        &&& self.show_b
        &&& !self.invert
        &&& self.rotate == Rotate::Rotate0
    }

    /// Whether the channel (0 red, 1 green, 2 blue) is shown.
    pub open spec fn shows(self, channel: int) -> bool {
        if channel == 0 {
            self.show_r
        } else if channel == 1 {
            self.show_g
        } else {
            self.show_b
        }
    }

    /// The level that goes into the curve for input level `i`.
    pub open spec fn source_level(self, i: int) -> int {
        if self.invert {
            255 - i
        } else {
            i
        }
    }

    /// The output level of the curve for input level `i`, the same for the
    /// three channels.
    pub open spec fn curve(self, i: int) -> int {
        gamma_level(
            self.gamma.steps@,
            toned(self.source_level(i), self.brightness as int, self.contrast as int),
            tone_den(self.contrast as int),
        )
    }

    /// The table entry of a channel for input level `i`: the curve, or zero
    /// where the channel is hidden.
    pub open spec fn table_entry(self, channel: int, i: int) -> int {
        if self.shows(channel) {
            self.curve(i)
        } else {
            0
        }
    }

    pub fn default() -> (s: ColorSettings)
        ensures
            s.is_neutral(),
            s.gamma.is_response(),
    {
        ColorSettings {
            gamma: Gamma::identity(),
            contrast: 0,
            brightness: 0,
            show_r: true,
            show_g: true,
            show_b: true,
            invert: false,
            rotate: Rotate::Rotate0,
        }
    }
}


/// A product of two bounded factors stays within the product of the bounds.
proof fn lemma_product_bound(a: int, b: int, max_a: int, max_b: int)
    requires
        -max_a <= a <= max_a,
        0 <= b <= max_b,
    ensures
        -(max_a * max_b) <= a * b <= max_a * max_b,
{
    assert(-(max_a * max_b) <= a * b <= max_a * max_b) by (nonlinear_arith)
        requires
            -max_a <= a <= max_a,
            0 <= b <= max_b,
    ;
}

/// The stretched level of `level`, cut to the range from black to white,
/// as a fraction: numerator and denominator.
pub fn tone_fraction(level: u8, brightness: i32, contrast: i32) -> (r: (u64, u64))
    ensures
        r.0 == toned(level as int, brightness as int, contrast as int),
        r.1 == tone_den(contrast as int),
        r.0 <= r.1,
        0 < r.1,
{
    let c: i64 = if contrast < -1000 {
        -1000
    } else if contrast > 1000 {
        1000
    } else {
        contrast as i64
    };
    let slope: i64 = 1015 * (1000 + c);
    let shifted: i64 = 1000 * (level as i64) + 255 * (brightness as i64) - 127_500;
    let den: i64 = 255_000_000 * (1015 - c);
    let half: i64 = 127_500_000 * (1015 - c);
    proof {
        lemma_product_bound(shifted as int, slope as int, 547_608_600_000, 2_030_000);
    }
    let num: i64 = slope * shifted + half;
    let cut: i64 = if num < 0 {
        0
    } else if num > den {
        den
    } else {
        num
    };
    (cut as u64, den as u64)
}

impl Gamma {
    /// The output level of the brightness `n / d`: the largest level whose
    /// threshold the brightness reaches, or 0 where it reaches none.
    pub fn level(&self, n: u64, d: u64) -> (k: u8)
        ensures
            k as int == gamma_level(self.steps@, n as int, d as int),
    {
        let reached: u128 = (n as u128) * (GAMMA_SCALE as u128);
        let mut k: u8 = 255;
        while k > 0
            invariant
                reached == n * GAMMA_SCALE,
                level_upto(self.steps@, n as int, d as int, k as int) == gamma_level(
                    self.steps@,
                    n as int,
                    d as int,
                ),
            decreases k,
        {
            let step: u32 = self.steps[k as usize];
            assert(step * d <= u128::MAX) by (nonlinear_arith)
                requires
                    0 <= step <= u32::MAX,
                    0 <= d <= u64::MAX,
            ;
            if (step as u128) * (d as u128) <= reached {
                return k;
            }
            k -= 1;
        }
        0
    }
}

impl ColorSettings {
    /// The output level of the curve for input level `i`.
    pub fn level(&self, i: u8) -> (v: u8)
        ensures
            v as int == self.curve(i as int),
    {
        let source: u8 = if self.invert {
            255 - i
        } else {
            i
        };
        let (n, d) = tone_fraction(source, self.brightness, self.contrast);
        self.gamma.level(n, d)
    }
}

impl Lut4ColorSettings {
    /// Whether the tables hold the curve of `settings`, masked by its
    /// channel switches.
    pub open spec fn is_table_of(self, settings: ColorSettings) -> bool {
        forall|channel: int, i: int|
            0 <= channel < 3 && 0 <= i < 256 ==> (#[trigger] self.lut[channel][i]) as int
                == settings.table_entry(channel, i)
    }

    /// Whether every level of every channel maps to itself.
    pub open spec fn is_identity(self) -> bool {
        forall|channel: int, i: int|
            0 <= channel < 3 && 0 <= i < 256 ==> (#[trigger] self.lut[channel][i]) as int == i
    }

    /// The tables of the neutral settings: every level maps to itself.
    pub fn default() -> (r: Lut4ColorSettings)
        ensures
            r.is_identity(),
    {
        let mut s = Lut4ColorSettings { lut: [[0u8; 256]; 3] };
        let neutral = ColorSettings::default();
        s.update_lut(&neutral);
        proof {
            assert forall|channel: int, i: int| 0 <= channel < 3 && 0 <= i < 256 implies (
            #[trigger] s.lut[channel][i]) as int == i by {
                lemma_identity_table(neutral, channel, i);
            }
        }
        s
    }

    /// Recomputes the three tables from `colset`, all entries at once.
    pub fn update_lut(&mut self, colset: &ColorSettings)
        ensures
            final(self).is_table_of(*colset),
            forall|channel: int, i: int|
                0 <= channel < 3 && 0 <= i < 256 && !colset.shows(channel) ==> (
                #[trigger] final(self).lut[channel][i]) == 0,
    {
        let mut red: [u8; 256] = [0u8; 256];
        let mut green: [u8; 256] = [0u8; 256];
        let mut blue: [u8; 256] = [0u8; 256];
        let mut i: usize = 0;
        while i < 256
            invariant
                i <= 256,
                forall|j: int| 0 <= j < i ==> red@[j] as int == colset.table_entry(0, j),
                forall|j: int| 0 <= j < i ==> green@[j] as int == colset.table_entry(1, j),
                forall|j: int| 0 <= j < i ==> blue@[j] as int == colset.table_entry(2, j),
            decreases 256 - i,
        {
            let v: u8 = colset.level(i as u8);
            red[i] = if colset.show_r {
                v
            } else {
                0
            };
            green[i] = if colset.show_g {
                v
            } else {
                0
            };
            blue[i] = if colset.show_b {
                v
            } else {
                0
            };
            i += 1;
        }
        self.lut = [red, green, blue];
        assert(self.lut@[0] == red && self.lut@[1] == green && self.lut@[2] == blue);
    }
}

/// Under the power one the output level is the brightness counted in 255ths
/// and rounded down.
pub proof fn lemma_identity_level(n: int, d: int)
    requires
        0 <= n <= d,
        0 < d,
    ensures
        gamma_level(identity_steps(), n, d) == (255 * n) / d,
{
    let q = (255 * n) / d;
    vstd::arithmetic::div_mod::lemma_fundamental_div_mod(255 * n, d);
    vstd::arithmetic::div_mod::lemma_mod_bound(255 * n, d);
    assert(0 <= q <= 255) by (nonlinear_arith)
        requires
            0 <= n <= d,
            0 < d,
            255 * n == d * q + (255 * n) % d,
            0 <= (255 * n) % d < d,
    ;
    lemma_identity_level_upto(n, d, 255);
}

proof fn lemma_identity_level_upto(n: int, d: int, k: int)
    requires
        0 <= n <= d,
        0 < d,
        (255 * n) / d <= k <= 255,
    ensures
        level_upto(identity_steps(), n, d, k) == (255 * n) / d,
    decreases k,
{
    let q = (255 * n) / d;
    vstd::arithmetic::div_mod::lemma_fundamental_div_mod(255 * n, d);
    vstd::arithmetic::div_mod::lemma_mod_bound(255 * n, d);
    if k > 0 {
        assert(identity_steps()[k] == k * GAMMA_UNIT);
        if k > q {
            assert(k * GAMMA_UNIT * d > n * GAMMA_SCALE) by (nonlinear_arith)
                requires
                    k >= q + 1,
                    0 < d,
                    255 * n == d * q + (255 * n) % d,
                    (255 * n) % d < d,
                    GAMMA_SCALE == 255 * GAMMA_UNIT,
                    GAMMA_UNIT > 0,
            ;
            lemma_identity_level_upto(n, d, k - 1);
        } else {
            assert(k * GAMMA_UNIT * d <= n * GAMMA_SCALE) by (nonlinear_arith)
                requires
                    k == q,
                    0 < d,
                    255 * n == d * q + (255 * n) % d,
                    0 <= (255 * n) % d,
                    GAMMA_SCALE == 255 * GAMMA_UNIT,
                    GAMMA_UNIT > 0,
            ;
        }
    }
}

/// With the power one and neither contrast nor brightness changed, the curve
/// hands every level through, mirrored where the picture is inverted.
pub proof fn lemma_straight_curve(settings: ColorSettings, i: int)
    requires
        settings.gamma.is_identity(),
        settings.contrast == 0,
        settings.brightness == 0,
        0 <= i <= 255,
    ensures
        settings.curve(i) == settings.source_level(i),
{
    let j = settings.source_level(i);
    assert(tone_den(0) == 258_825_000_000);
    assert(effective_contrast(0) == 0);
    assert(1015 * (1000 + 0) * (1000 * j + 255 * 0 - 127_500) + 127_500_000 * (1015 - 0)
        == 1_015_000_000 * j) by (nonlinear_arith);
    assert(tone_num(j, 0, 0) == 1_015_000_000 * j);
    assert(toned(j, 0, 0) == 1_015_000_000 * j);
    lemma_identity_level(1_015_000_000 * j, 258_825_000_000);
    assert((255 * (1_015_000_000 * j)) / 258_825_000_000 == j) by {
        assert(255 * (1_015_000_000 * j) == 258_825_000_000 * j);
        vstd::arithmetic::div_mod::lemma_div_multiples_vanish(j, 258_825_000_000);
    }
}

/// The tables of the neutral settings map every level of every channel to
/// itself.
pub proof fn lemma_identity_table(settings: ColorSettings, channel: int, i: int)
    requires
        settings.is_neutral(),
        0 <= channel < 3,
        0 <= i <= 255,
    ensures
        settings.table_entry(channel, i) == i,
{
    lemma_straight_curve(settings, i);
}

/// A hidden channel has zero in its whole table, whatever the gamma, the
/// contrast and the brightness are.
pub proof fn lemma_hidden_channel_is_zero(settings: ColorSettings, channel: int, i: int)
    requires
        !settings.shows(channel),
    ensures
        settings.table_entry(channel, i) == 0,
{
}

/// Inverting is its own inverse: the table of the settings that only invert,
/// looked up twice, gives every level back.
pub proof fn lemma_invert_twice(settings: ColorSettings, channel: int, i: int)
    requires
        settings.gamma.is_identity(),
        settings.contrast == 0,
        settings.brightness == 0,
        settings.invert,
        settings.shows(channel),
        0 <= i <= 255,
    ensures
        settings.table_entry(channel, i) == 255 - i,
        settings.table_entry(channel, settings.table_entry(channel, i)) == i,
{
    lemma_straight_curve(settings, i);
    lemma_straight_curve(settings, 255 - i);
}


/// A brighter input reaches every output level that a darker one reaches.
proof fn lemma_level_rises(steps: Seq<u32>, n: int, m: int, d: int, k: int)
    requires
        n <= m,
        0 <= d,
    ensures
        level_upto(steps, n, d, k) <= level_upto(steps, m, d, k),
        level_upto(steps, n, d, k) <= k || k < 0,
    decreases k,
{
    if k > 0 {
        lemma_level_rises(steps, n, m, d, k - 1);
        assert(n * GAMMA_SCALE <= m * GAMMA_SCALE) by (nonlinear_arith)
            requires
                n <= m,
        ;
    }
}

/// The curve never falls: of two input levels the brighter one gets an
/// output level that is at least as bright, whatever the settings are.
/// Where the picture is inverted it is the darker one.
pub proof fn lemma_curve_is_monotone(settings: ColorSettings, i: int, j: int)
    requires
        0 <= i <= j <= 255,
    ensures
        !settings.invert ==> settings.curve(i) <= settings.curve(j),
        settings.invert ==> settings.curve(i) >= settings.curve(j),
{
    let c = effective_contrast(settings.contrast as int);
    let b = settings.brightness as int;
    let lo = if settings.invert {
        255 - j
    } else {
        i
    };
    let hi = if settings.invert {
        255 - i
    } else {
        j
    };
    assert(tone_num(lo, b, settings.contrast as int) <= tone_num(hi, b, settings.contrast as int))
        by (nonlinear_arith)
        requires
            lo <= hi,
            0 <= 1000 + c,
            tone_num(lo, b, settings.contrast as int) == 1015 * (1000 + c) * (1000 * lo + 255 * b
                - 127_500) + 127_500_000 * (1015 - c),
            tone_num(hi, b, settings.contrast as int) == 1015 * (1000 + c) * (1000 * hi + 255 * b
                - 127_500) + 127_500_000 * (1015 - c),
    ;
    lemma_level_rises(
        settings.gamma.steps@,
        toned(lo, b, settings.contrast as int),
        toned(hi, b, settings.contrast as int),
        tone_den(settings.contrast as int),
        255,
    );
}

/// At the lowest contrast the curve is flat: every input level gets the
/// output level of the middle brightness.
pub proof fn lemma_lowest_contrast_is_flat(settings: ColorSettings, i: int)
    requires
        settings.contrast <= -1000,
    ensures
        settings.curve(i) == gamma_level(settings.gamma.steps@, 256_912_500_000, 513_825_000_000),
{
    let level = settings.source_level(i);
    let b = settings.brightness as int;
    assert(effective_contrast(settings.contrast as int) == -1000);
    assert(1015 * (1000 + -1000) * (1000 * level + 255 * b - 127_500) == 0) by (nonlinear_arith);
}


/// Rising thresholds are above zero from the first level on.
proof fn lemma_rising_is_positive(steps: Seq<u32>, k: int)
    requires
        is_rising(steps),
        1 <= k <= 255,
    ensures
        steps[k] > 0,
    decreases k,
{
    if k > 1 {
        lemma_rising_is_positive(steps, k - 1);
    }
    assert(steps[k - 1] < steps[k - 1 + 1]);
}

/// No brightness at all reaches no level above black.
proof fn lemma_black_reaches_nothing(steps: Seq<u32>, d: int, k: int)
    requires
        is_rising(steps),
        0 < d,
        k <= 255,
    ensures
        level_upto(steps, 0, d, k) == 0,
    decreases k,
{
    if k > 0 {
        lemma_rising_is_positive(steps, k);
        assert(steps[k] * d > 0) by (nonlinear_arith)
            requires
                steps[k] > 0,
                d > 0,
        ;
        lemma_black_reaches_nothing(steps, d, k - 1);
    }
}

/// A response whose thresholds rise from zero to `GAMMA_SCALE` keeps black
/// and white: no brightness gets level 0, full brightness level 255.
pub proof fn lemma_response_keeps_black_and_white(gamma: Gamma, d: int)
    requires
        gamma.is_response(),
        0 < d,
    ensures
        gamma_level(gamma.steps@, 0, d) == 0,
        gamma_level(gamma.steps@, d, d) == 255,
{
    lemma_black_reaches_nothing(gamma.steps@, d, 255);
    assert(GAMMA_SCALE * d == d * GAMMA_SCALE) by (nonlinear_arith);
}

/// Under such a response, with neither contrast nor brightness changed,
/// the curve maps black to black and white to white, or to each other
/// where the picture is inverted.
pub proof fn lemma_curve_keeps_the_ends(settings: ColorSettings)
    requires
        settings.gamma.is_response(),
        settings.contrast == 0,
        settings.brightness == 0,
    ensures
        settings.curve(0) == settings.source_level(0),
        settings.curve(255) == settings.source_level(255),
{
    assert(effective_contrast(0) == 0);
    assert(tone_den(0) == 258_825_000_000);
    assert(1015 * (1000 + 0) * (1000 * 0 + 255 * 0 - 127_500) + 127_500_000 * (1015 - 0) == 0)
        by (nonlinear_arith);
    assert(1015 * (1000 + 0) * (1000 * 255 + 255 * 0 - 127_500) + 127_500_000 * (1015 - 0)
        == 258_825_000_000) by (nonlinear_arith);
    assert(toned(0, 0, 0) == 0);
    assert(toned(255, 0, 0) == 258_825_000_000);
    lemma_response_keeps_black_and_white(settings.gamma, 258_825_000_000);
}

} // verus!
