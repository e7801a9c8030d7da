//! The five-minutes-left chime: two rising notes.
use vstd::prelude::*;

verus! {

pub const SAMPLE_RATE: u32 = 24_000;

/// 0-100. Loud enough to hear across a room, not loud enough to startle.
pub const VOLUME: u8 = 60;

/// The codec derives its internal clocks from MCLK; 256x is the usual multiple.
pub const MCLK_HZ: u32 = 6_144_000;

/// Hard ceiling on any single tone: a stuck or mis-sized buffer must not leave a tone running
/// indefinitely in a child's bedroom.
pub const MAX_TONE_MS: u32 = 400;

/// Samples for one tone, sized at the ceiling so the buffer itself enforces the limit.
pub const MAX_SAMPLES: usize = 9_600;

pub const WARNING_GAP_MS: u32 = 60;

/// (frequency, milliseconds) for the two notes of the warning.
pub fn warning_notes() -> (r: [(u32, u32); 2])
    ensures
        r@[0] == (880u32, 120u32),
        r@[1] == (1174u32, 160u32),
        clamped(r@[0].1) + WARNING_GAP_MS + clamped(r@[1].1) < 1_000,
{
    [(880, 120), (1174, 160)]
}

/// How long a tone is played that is asked for with `ms` milliseconds.
pub open spec fn clamped(ms: u32) -> int {
    if ms < MAX_TONE_MS {
        ms as int
    } else {
        MAX_TONE_MS as int
    }
}

/// How many samples a tone of `ms` milliseconds has, the ceiling observed.
pub fn samples_for(ms: u32) -> (r: usize)
    ensures
        r == clamped(ms) * 24,
        r <= MAX_SAMPLES,
{
    let short: usize = if ms < MAX_TONE_MS {
        ms as usize
    } else {
        MAX_TONE_MS as usize
    };
    let samples: usize = (24_000 * short) / 1000;
    if samples < MAX_SAMPLES {
        samples
    } else {
        MAX_SAMPLES
    }
}

/// A quotient rounded toward zero, for a positive divisor.
pub open spec fn toward_zero(a: int, b: int) -> int {
    if a >= 0 {
        a / b
    } else {
        -((-a) / b)
    }
}

/// Samples in one period of a tone.
pub open spec fn period_of(hz: u32) -> int {
    let p = SAMPLE_RATE as int / (if hz < 1 {
        1
    } else {
        hz as int
    });
    if p < 2 {
        2
    } else {
        p
    }
}

/// A triangle wave between -9000 and 9000. Triangle rather than square: a square wave's
/// harmonics through a small speaker are unpleasantly harsh.
pub open spec fn triangle(phase: int, period: int) -> int {
    let half = period / 2;
    if phase < half {
        phase * 18_000 / half - 9_000
    } else {
        9_000 - (phase - half) * 18_000 / (period - half)
    }
}

/// How long the tone takes to fade in, and out again.
pub open spec fn fade_of(len: int) -> int {
    if len / 8 < 1 {
        1
    } else {
        len / 8
    }
}

/// The loudness of a sample, out of 256. The fade suppresses the click that a hard start and
/// stop makes.
pub open spec fn envelope(i: int, len: int) -> int {
    if i < fade_of(len) {
        i * 256 / fade_of(len)
    } else if i >= len - fade_of(len) {
        (len - i) * 256 / fade_of(len)
    } else {
        256
    }
}

/// The sample at `i` of a tone of `len` samples.
pub open spec fn sample(i: int, len: int, hz: u32) -> int {
    toward_zero(triangle(i % period_of(hz), period_of(hz)) * envelope(i, len), 256)
}

/// The wave stays within its peak.
pub proof fn the_wave_stays_within_its_peak(phase: int, period: int)
    requires
        0 <= phase < period,
        2 <= period,
    ensures
        -9_000 <= triangle(phase, period) <= 9_000,
{
    let half = period / 2;
    if phase < half {
        assert(0 <= phase * 18_000 / half <= 18_000) by (nonlinear_arith)
            requires
                0 <= phase < half,
        ;
    } else {
        let (p, q) = (phase - half, period - half);
        assert(0 <= p * 18_000 / q <= 18_000) by (nonlinear_arith)
            requires
                0 <= p < q,
        ;
    }
}

/// The envelope stays between silence and full volume.
pub proof fn the_envelope_stays_in_range(i: int, len: int)
    requires
        0 <= i < len,
    ensures
        0 <= envelope(i, len) <= 256,
        i == 0 ==> envelope(i, len) == 0,
{
    let fade = fade_of(len);
    if i < fade {
        assert(0 <= i * 256 / fade <= 256) by (nonlinear_arith)
            requires
                0 <= i < fade,
        ;
        if i == 0 {
            assert(0int * 256 / fade == 0) by (nonlinear_arith)
                requires
                    fade > 0,
            ;
        }
    } else if i >= len - fade {
        let j = len - i;
        assert(0 <= j * 256 / fade <= 256) by (nonlinear_arith)
            requires
                0 <= j <= fade,
                0 < fade,
        ;
    }
}

/// Every sample stays within the peak of the wave.
pub proof fn samples_stay_within_the_peak(i: int, len: int, hz: u32)
    requires
        0 <= i < len,
    ensures
        -9_000 <= sample(i, len, hz) <= 9_000,
{
    let period = period_of(hz);
    the_wave_stays_within_its_peak(i % period, period);
    the_envelope_stays_in_range(i, len);
    let (t, e) = (triangle(i % period, period), envelope(i, len));
    assert(-9_000 * 256 <= t * e <= 9_000 * 256) by (nonlinear_arith)
        requires
            -9_000 <= t <= 9_000,
            0 <= e <= 256,
    ;
}

fn tone_sample(i: usize, len: usize, hz: u32) -> (r: i16)
    requires
        i < len,
    ensures
        r == sample(i as int, len as int, hz),
{
    let per: u32 = SAMPLE_RATE / (if hz < 1 {
        1
    } else {
        hz
    });
    let period: usize = if per < 2 {
        2
    } else {
        per as usize
    };
    let half: usize = period / 2;
    let phase: usize = i % period;
    let fade: usize = if len / 8 < 1 {
        1
    } else {
        len / 8
    };
    proof {
        assert(SAMPLE_RATE / (if hz < 1 {
            1
        } else {
            hz
        }) <= SAMPLE_RATE) by (nonlinear_arith);
        assert(period == period_of(hz));
        assert(fade == fade_of(len as int));
        the_wave_stays_within_its_peak(phase as int, period as int);
        the_envelope_stays_in_range(i as int, len as int);
        samples_stay_within_the_peak(i as int, len as int, hz);
        assert(0 <= phase * 18_000 <= 24_000 * 18_000) by (nonlinear_arith)
            requires
                0 <= phase <= 24_000,
        ;
    }
    let tri: i32 = if phase < half {
        (phase as i32 * 18_000) / half as i32 - 9_000
    } else {
        9_000 - ((phase - half) as i32 * 18_000) / (period - half) as i32
    };
    assert(tri == triangle(phase as int, period as int));
    let loud: i32 = if i < fade {
        (i as u128 * 256 / fade as u128) as i32
    } else if i >= len - fade {
        ((len - i) as u128 * 256 / fade as u128) as i32
    } else {
        256
    };
    assert(loud == envelope(i as int, len as int));
    proof {
        assert(-9_000 * 256 <= tri * loud <= 9_000 * 256) by (nonlinear_arith)
            requires
                -9_000 <= tri <= 9_000,
                0 <= loud <= 256,
        ;
    }
    let product: i32 = tri * loud;
    if product >= 0 {
        (product / 256) as i16
    } else {
        (-((-product) / 256)) as i16
    }
}

/// Fill a buffer with a tone: a triangle wave, with a short fade in and out.
pub fn fill_tone(buf: &mut [i16], hz: u32)
    ensures
        final(buf)@.len() == old(buf)@.len(),
        forall|i: int|
            0 <= i < final(buf)@.len() ==> #[trigger] final(buf)@[i] == sample(
                i,
                old(buf)@.len() as int,
                hz,
            ),
{
    let len: usize = buf.len();
    let mut i: usize = 0;
    while i < len
        invariant
            i <= len == buf@.len(),
            forall|j: int| 0 <= j < i ==> #[trigger] buf@[j] == sample(j, len as int, hz),
        decreases len - i,
    {
        let s: i16 = tone_sample(i, len, hz);
        buf[i] = s;
        i += 1;
    }
}

/// The samples of a single tone; nothing to play where it lasts no time at all.
pub fn beep(hz: u32, ms: u32) -> (r: Option<Vec<i16>>)
    ensures
        r is None <==> ms == 0,
        match r {
            None => true,
            Some(tone) => {
                &&& tone@.len() == clamped(ms) * 24
                &&& forall|i: int|
                    0 <= i < tone@.len() ==> #[trigger] tone@[i] == sample(i, clamped(ms) * 24, hz)
            },
        },
{
    let len: usize = samples_for(ms);
    if len == 0 {
        return None;
    }
    let mut tone: Vec<i16> = Vec::new();
    let mut i: usize = 0;
    while i < len
        invariant
            i <= len,
            tone@.len() == i,
        decreases len - i,
    {
        tone.push(0);
        i += 1;
    }
    fill_tone(tone.as_mut_slice(), hz);
    Some(tone)
}

/// A tone has the pitch that was asked for, as near as whole samples allow.
pub proof fn a_tone_has_its_pitch(hz: u32)
    requires
        1 <= hz <= 12_000,
    ensures
        period_of(hz) * hz <= 24_000 < (period_of(hz) + 1) * hz,
{
    let h = hz as int;
    vstd::arithmetic::div_mod::lemma_fundamental_div_mod(24_000, h);
    let q = 24_000int / h;
    assert(q >= 2) by (nonlinear_arith)
        requires
            q == 24_000int / h,
            1 <= h <= 12_000,
    ;
    assert(q * h == h * q) by (nonlinear_arith);
    assert((q + 1) * h == h * q + h) by (nonlinear_arith);
}

/// The wave climbs from its lowest point to its highest in the first half of a period and falls in
/// the second.
pub proof fn the_wave_climbs_and_falls(period: int)
    requires
        2 <= period,
    ensures
        triangle(0, period) == -9_000,
        triangle(period / 2, period) == 9_000,
        forall|a: int, b: int|
            0 <= a <= b < period / 2 ==> #[trigger] triangle(a, period) <= #[trigger] triangle(
                b,
                period,
            ),
        forall|a: int, b: int|
            period / 2 <= a <= b < period ==> #[trigger] triangle(a, period) >= #[trigger] triangle(
                b,
                period,
            ),
{
    let half = period / 2;
    assert(0int * 18_000 / half == 0) by (nonlinear_arith)
        requires
            half > 0,
    ;
    assert(0int * 18_000 / (period - half) == 0) by (nonlinear_arith)
        requires
            period - half > 0,
    ;
    assert forall|a: int, b: int| 0 <= a <= b < half implies #[trigger] triangle(a, period)
        <= #[trigger] triangle(b, period) by {
        vstd::arithmetic::div_mod::lemma_div_is_ordered(a * 18_000, b * 18_000, half);
    }
    assert forall|a: int, b: int| half <= a <= b < period implies #[trigger] triangle(a, period)
        >= #[trigger] triangle(b, period) by {
        vstd::arithmetic::div_mod::lemma_div_is_ordered(
            (a - half) * 18_000,
            (b - half) * 18_000,
            period - half,
        );
    }
}

/// A tone fades in over its first eighth and out over its last, and is at its full volume in
/// between. None lasts longer than 400 milliseconds.
pub proof fn a_tone_fades_in_and_out(i: int, len: int, ms: u32)
    requires
        8 <= len,
        0 <= i < len,
    ensures
        len / 8 <= i < len - len / 8 ==> envelope(i, len) == 256,
        0 < i < len / 8 ==> envelope(i, len) == envelope(len - i, len),
        i < len / 8 ==> envelope(i, len) < 256,
        clamped(ms) <= 400,
        ms <= 400 ==> clamped(ms) == ms,
{
    let fade = len / 8;
    if i < fade {
        assert(i * 256 / fade < 256) by (nonlinear_arith)
            requires
                0 <= i < fade,
        ;
    }
}

/// At full volume a sample is the wave itself, period after period.
pub proof fn at_full_volume_the_wave_is_heard(i: int, len: int, hz: u32)
    requires
        8 <= len,
        len / 8 <= i < len - len / 8,
    ensures
        sample(i, len, hz) == triangle(i % period_of(hz), period_of(hz)),
{
}

} // verus!
