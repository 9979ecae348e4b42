//! One-period wave tables for the four waveform kinds.
use vstd::prelude::*;

verus! {

/// The amplitude that stands for 1.0.
pub const AMPLITUDE_ONE: i32 = 16777216;

/// The waveform kinds a table can be generated for.
#[derive(Clone, Copy, Debug, PartialEq, Eq, Structural)]
pub enum WaveType {
    Sine,
    Square,
    Saw,
    Triangle,
}

/// The scale, `2^40`, at which the sine series is evaluated.
pub const SINE_FIX: u128 = 0x100_0000_0000;

/// `pi / 2` times `SINE_FIX`, rounded to the nearest integer.
pub const HALF_PI_FIX: u128 = 1727108826179;

/// One Horner step of the sine series: `1 - z^2 t / k` at scale `SINE_FIX`.
pub open spec fn series_step(z2: int, t: int, k: int) -> int {
    SINE_FIX - (z2 * t) / (SINE_FIX as int * k)
}

/// `sin(pi/2 * w / n)` in amplitude units, for `0 <= w <= n`: the Taylor
/// series of the sine up to `z^13`, evaluated by Horner's rule at scale
/// `SINE_FIX`, then rounded to `AMPLITUDE_ONE` (`SINE_FIX / 2^16`) and capped
/// at 1.
pub open spec fn quarter_sine(w: int, n: int) -> int {
    let z = (w * HALF_PI_FIX) / n;
    let z2 = (z * z) / (SINE_FIX as int);
    let t = series_step(
        z2,
        series_step(
            z2,
            series_step(
                z2,
                series_step(z2, series_step(z2, series_step(z2, SINE_FIX as int, 156), 110), 72),
                42,
            ),
            20,
        ),
        6,
    );
    let s = ((z * t) / (SINE_FIX as int) + 0x8000) / 0x1_0000;
    if s > AMPLITUDE_ONE {
        AMPLITUDE_ONE as int
    } else {
        s
    }
}

/// Sine sample `i` of a table of `n` samples, `sin(2 pi i / n)`: the angle
/// is reduced to its quarter period `4 i / n` and the offset `4 i % n`
/// within it, and the sine of the reduced angle is `quarter_sine`.
pub open spec fn sine_sample(i: int, n: int) -> int {
    let q = (4 * i) / n;
    let r = (4 * i) % n;
    if q == 0 {
        quarter_sine(r, n)
    } else if q == 1 {
        quarter_sine(n - r, n)
    } else if q == 2 {
        -quarter_sine(r, n)
    } else {
        -quarter_sine(n - r, n)
    }
}

/// Square sample `i`: +1 where the sine of the period is non-negative
/// (the first half, both ends included), -1 elsewhere.
pub open spec fn square_sample(i: int, n: int) -> int {
    if 2 * i <= n {
        AMPLITUDE_ONE as int
    } else {
        -AMPLITUDE_ONE
    }
}

/// Triangle sample `i`: a rising ramp from -1 over the first `n / 2`
/// samples, then a falling ramp from +1 over the rest.
pub open spec fn triangle_sample(i: int, n: int) -> int {
    let h = n / 2;
    if i < h {
        -AMPLITUDE_ONE + (2 * AMPLITUDE_ONE * i) / h
    } else {
        AMPLITUDE_ONE - (2 * AMPLITUDE_ONE * (i - h)) / (n - h)
    }
}

/// Saw sample `i`: one falling ramp from +1 to just above -1.
pub open spec fn saw_sample(i: int, n: int) -> int {
    AMPLITUDE_ONE - (2 * AMPLITUDE_ONE * i) / n
}

/// Sample `i` of a table of `n` samples for `wave`.
pub open spec fn wave_sample(wave: WaveType, i: int, n: int) -> int {
    match wave {
        WaveType::Sine => sine_sample(i, n),
        WaveType::Square => square_sample(i, n),
        WaveType::Saw => saw_sample(i, n),
        WaveType::Triangle => triangle_sample(i, n),
    }
}

/// `t` is the table of `n` samples for one period of `wave`.
pub open spec fn table_matches(t: Seq<i32>, wave: WaveType, n: int) -> bool {
    &&& t.len() == n
    &&& forall|i: int| 0 <= i < n ==> t[i] as int == #[trigger] wave_sample(wave, i, n)
}

/// Every sample lies in `[-1, 1]`.
pub open spec fn in_unit_range(t: Seq<i32>) -> bool {
    forall|i: int| 0 <= i < t.len() ==> -AMPLITUDE_ONE <= #[trigger] t[i] <= AMPLITUDE_ONE
}

proof fn lemma_series_step(z2: int, t: int, k: int)
    requires
        0 <= z2 <= 3 * SINE_FIX,
        0 <= t <= SINE_FIX,
        k >= 6,
    ensures
        0 <= z2 * t <= 3 * SINE_FIX * SINE_FIX,
        0 <= series_step(z2, t, k) <= SINE_FIX,
{
    let f = SINE_FIX as int;
    assert(0 <= z2 * t <= 3 * f * f) by (nonlinear_arith)
        requires
            0 <= z2 <= 3 * f,
            0 <= t <= f,
    ;
    assert(0 <= (z2 * t) / (f * k) <= f) by (nonlinear_arith)
        requires
            0 <= z2 * t <= 3 * f * f,
            k >= 6,
            f > 0,
    ;
}

/// The bounds that keep the evaluation of `quarter_sine` in `u128`, and its
/// range `[0, 1]`.
proof fn lemma_quarter_sine(w: int, n: int)
    requires
        0 <= w <= n,
        n > 0,
    ensures
        0 <= (w * HALF_PI_FIX) / n <= HALF_PI_FIX,
        0 <= ((w * HALF_PI_FIX) / n) * ((w * HALF_PI_FIX) / n) <= HALF_PI_FIX * HALF_PI_FIX,
        0 <= (((w * HALF_PI_FIX) / n) * ((w * HALF_PI_FIX) / n)) / (SINE_FIX as int) <= 3 * SINE_FIX,
        0 <= quarter_sine(w, n) <= AMPLITUDE_ONE,
        w == 0 ==> quarter_sine(w, n) == 0,
{
    let h = HALF_PI_FIX as int;
    let f = SINE_FIX as int;
    let z = (w * h) / n;
    assert(0 <= z <= h) by (nonlinear_arith)
        requires
            0 <= w <= n,
            n > 0,
            h > 0,
            z == (w * h) / n,
    ;
    assert(0 <= z * z <= h * h) by (nonlinear_arith)
        requires
            0 <= z <= h,
    ;
    let z2 = (z * z) / f;
    assert(0 <= z2 <= (h * h) / f) by (nonlinear_arith)
        requires
            0 <= z * z <= h * h,
            f > 0,
            z2 == (z * z) / f,
    ;
    let t1 = series_step(z2, f, 156);
    lemma_series_step(z2, f, 156);
    let t2 = series_step(z2, t1, 110);
    lemma_series_step(z2, t1, 110);
    let t3 = series_step(z2, t2, 72);
    lemma_series_step(z2, t2, 72);
    let t4 = series_step(z2, t3, 42);
    lemma_series_step(z2, t3, 42);
    let t5 = series_step(z2, t4, 20);
    lemma_series_step(z2, t4, 20);
    let t = series_step(z2, t5, 6);
    lemma_series_step(z2, t5, 6);
    assert(0 <= z * t <= h * f) by (nonlinear_arith)
        requires
            0 <= z <= h,
            0 <= t <= f,
    ;
    assert(0 <= (z * t) / f) by (nonlinear_arith)
        requires
            0 <= z * t,
            f > 0,
    ;
    if w == 0 {
        assert(0 * h == 0);
        assert(z == 0);
        assert(z * t == 0) by (nonlinear_arith)
            requires
                z == 0,
        ;
    }
}

/// The sine of a quarter period in amplitude units, as `quarter_sine` states it.
fn quarter_sine_value(w: u128, n: u128) -> (r: i32)
    requires
        w <= n,
        0 < n <= 0x8000_0000,
    ensures
        r == quarter_sine(w as int, n as int),
{
    proof {
        lemma_quarter_sine(w as int, n as int);
    }
    let z = (w * HALF_PI_FIX) / n;
    let z2 = (z * z) / SINE_FIX;
    let mut t: u128 = SINE_FIX;
    proof {
        lemma_series_step(z2 as int, t as int, 156);
    }
    t = SINE_FIX - (z2 * t) / (SINE_FIX * 156);
    proof {
        lemma_series_step(z2 as int, t as int, 110);
    }
    t = SINE_FIX - (z2 * t) / (SINE_FIX * 110);
    proof {
        lemma_series_step(z2 as int, t as int, 72);
    }
    t = SINE_FIX - (z2 * t) / (SINE_FIX * 72);
    proof {
        lemma_series_step(z2 as int, t as int, 42);
    }
    t = SINE_FIX - (z2 * t) / (SINE_FIX * 42);
    proof {
        lemma_series_step(z2 as int, t as int, 20);
    }
    t = SINE_FIX - (z2 * t) / (SINE_FIX * 20);
    proof {
        lemma_series_step(z2 as int, t as int, 6);
    }
    t = SINE_FIX - (z2 * t) / (SINE_FIX * 6);
    assert(z * t <= HALF_PI_FIX * SINE_FIX) by (nonlinear_arith)
        requires
            z <= HALF_PI_FIX,
            t <= SINE_FIX,
    ;
    let s = ((z * t) / SINE_FIX + 0x8000) / 0x1_0000;
    if s > AMPLITUDE_ONE as u128 {
        AMPLITUDE_ONE
    } else {
        s as i32
    }
}

/// The sine table of `size` samples.
pub fn make_sine_wave(size: i32) -> (table: Vec<i32>)
    requires
        size > 0,
    ensures
        table_matches(table@, WaveType::Sine, size as int),
        in_unit_range(table@),
        table@[0] == 0,
{
    let n = size as u128;
    let mut table: Vec<i32> = Vec::with_capacity(size as usize);
    let mut i: u128 = 0;
    while i < n
        invariant
            n == size,
            0 < size,
            i <= n,
            table@.len() == i,
            forall|j: int| 0 <= j < i ==> table@[j] as int == #[trigger] sine_sample(j, n as int),
            in_unit_range(table@),
        decreases n - i,
    {
        let q = (4 * i) / n;
        let r = (4 * i) % n;
        let w = if q == 0 || q == 2 {
            r
        } else {
            n - r
        };
        proof {
            lemma_quarter_sine(w as int, n as int);
        }
        let v = quarter_sine_value(w, n);
        let value = if q < 2 {
            v
        } else {
            -v
        };
        table.push(value);
        i = i + 1;
    }
    proof {
        let m = size as int;
        assert(table@[0] as int == sine_sample(0, m));
        assert((4 * 0int) / m == 0 && (4 * 0int) % m == 0) by (nonlinear_arith)
            requires
                m > 0,
        ;
        lemma_quarter_sine(0, m);
    }
    table
}

/// A ramp of `2 * AMPLITUDE_ONE` over `d` samples stays below its top.
proof fn lemma_ramp(x: int, d: int)
    requires
        0 <= x < d,
    ensures
        0 <= (2 * AMPLITUDE_ONE * x) / d < 2 * AMPLITUDE_ONE,
        d <= 0x8000_0000 ==> 2 * AMPLITUDE_ONE * x < 0x200_0000_0000_0000,
{
    assert(d <= 0x8000_0000 ==> 2 * AMPLITUDE_ONE * x < 0x200_0000_0000_0000) by (nonlinear_arith)
        requires
            0 <= x < d,
    ;
    assert(0 <= (2 * AMPLITUDE_ONE * x) / d < 2 * AMPLITUDE_ONE) by (nonlinear_arith)
        requires
            0 <= x < d,
    ;
}

/// The square table of `size` samples: every sample is exactly +1 or -1.
pub fn make_square_wave(size: i32) -> (table: Vec<i32>)
    requires
        size > 0,
    ensures
        table_matches(table@, WaveType::Square, size as int),
        forall|i: int|
            0 <= i < table@.len() ==> #[trigger] table@[i] == AMPLITUDE_ONE || table@[i]
                == -AMPLITUDE_ONE,
{
    let n = size as u64;
    let mut table: Vec<i32> = Vec::with_capacity(size as usize);
    let mut i: u64 = 0;
    while i < n
        invariant
            n == size,
            0 < size,
            i <= n,
            table@.len() == i,
            forall|j: int| 0 <= j < i ==> table@[j] as int == #[trigger] square_sample(j, n as int),
        decreases n - i,
    {
        if 2 * i <= n {
            table.push(AMPLITUDE_ONE);
        } else {
            table.push(-AMPLITUDE_ONE);
        }
        i = i + 1;
    }
    proof {
        lemma_table_range(table@, WaveType::Square, size as int);
    }
    table
}

/// The triangle table of `size` samples.
pub fn make_triangle_wave(size: i32) -> (table: Vec<i32>)
    requires
        size > 0,
    ensures
        table_matches(table@, WaveType::Triangle, size as int),
        in_unit_range(table@),
{
    let n = size as i64;
    let half = n / 2;
    let rest = n - half;
    let mut table: Vec<i32> = Vec::with_capacity(size as usize);
    let mut i: i64 = 0;
    while i < n
        invariant
            n == size,
            0 < size,
            half == n / 2,
            rest == n - half,
            0 <= i <= n,
            table@.len() == i,
            forall|j: int|
                0 <= j < i ==> table@[j] as int == #[trigger] triangle_sample(j, n as int),
        decreases n - i,
    {
        if i < half {
            proof {
                lemma_ramp(i as int, half as int);
            }
            let step = (2 * (AMPLITUDE_ONE as i64) * i) / half;
            table.push((-(AMPLITUDE_ONE as i64) + step) as i32);
        } else {
            proof {
                lemma_ramp((i - half) as int, rest as int);
            }
            let step = (2 * (AMPLITUDE_ONE as i64) * (i - half)) / rest;
            table.push(((AMPLITUDE_ONE as i64) - step) as i32);
        }
        i = i + 1;
    }
    proof {
        lemma_table_range(table@, WaveType::Triangle, size as int);
    }
    table
}

/// The saw table of `size` samples: every sample lies in `(-1, 1]`.
pub fn make_saw_wave(size: i32) -> (table: Vec<i32>)
    requires
        size > 0,
    ensures
        table_matches(table@, WaveType::Saw, size as int),
        forall|i: int|
            0 <= i < table@.len() ==> -AMPLITUDE_ONE < #[trigger] table@[i] <= AMPLITUDE_ONE,
{
    let n = size as i64;
    let mut table: Vec<i32> = Vec::with_capacity(size as usize);
    let mut i: i64 = 0;
    while i < n
        invariant
            n == size,
            0 < size,
            0 <= i <= n,
            table@.len() == i,
            forall|j: int| 0 <= j < i ==> table@[j] as int == #[trigger] saw_sample(j, n as int),
        decreases n - i,
    {
        proof {
            lemma_ramp(i as int, n as int);
        }
        let step = (2 * (AMPLITUDE_ONE as i64) * i) / n;
        table.push(((AMPLITUDE_ONE as i64) - step) as i32);
        i = i + 1;
    }
    proof {
        lemma_table_range(table@, WaveType::Saw, size as int);
    }
    table
}

/// Every sample of every kind lies in `[-1, 1]`; a saw never reaches -1.
pub proof fn lemma_wave_sample_range(wave: WaveType, i: int, n: int)
    requires
        0 <= i < n,
        n <= 0x7fff_ffff,
    ensures
        -AMPLITUDE_ONE <= wave_sample(wave, i, n) <= AMPLITUDE_ONE,
        wave is Saw ==> -AMPLITUDE_ONE < wave_sample(wave, i, n),
        wave is Square ==> (wave_sample(wave, i, n) == AMPLITUDE_ONE || wave_sample(wave, i, n)
            == -AMPLITUDE_ONE),
{
    match wave {
        WaveType::Sine => {
            assert(0 <= (4 * i) % n < n) by (nonlinear_arith)
                requires
                    n > 0,
            ;
            lemma_quarter_sine((4 * i) % n, n);
            lemma_quarter_sine(n - (4 * i) % n, n);
        },
        WaveType::Square => {},
        WaveType::Saw => {
            lemma_ramp(i, n);
        },
        WaveType::Triangle => {
            if i < n / 2 {
                lemma_ramp(i, n / 2);
            } else {
                lemma_ramp(i - n / 2, n - n / 2);
            }
        },
    }
}

/// What every sample of a table of each kind satisfies.
pub proof fn lemma_table_range(t: Seq<i32>, wave: WaveType, n: int)
    requires
        table_matches(t, wave, n),
        n <= 0x7fff_ffff,
    ensures
        in_unit_range(t),
        wave is Saw ==> forall|i: int| 0 <= i < t.len() ==> -AMPLITUDE_ONE < #[trigger] t[i],
        wave is Square ==> forall|i: int|
            0 <= i < t.len() ==> #[trigger] t[i] == AMPLITUDE_ONE || t[i] == -AMPLITUDE_ONE,
{
    assert forall|i: int| 0 <= i < t.len() implies -AMPLITUDE_ONE <= #[trigger] t[i]
        <= AMPLITUDE_ONE && (wave is Saw ==> -AMPLITUDE_ONE < t[i]) && (wave is Square ==> (t[i]
        == AMPLITUDE_ONE || t[i] == -AMPLITUDE_ONE)) by {
        lemma_wave_sample_range(wave, i, n);
        assert(t[i] as int == wave_sample(wave, i, n));
    }
}

/// The table of `size` samples for one period of `wave`.
pub fn generate(wave: WaveType, size: i32) -> (table: Vec<i32>)
    requires
        size > 0,
    ensures
        table_matches(table@, wave, size as int),
        in_unit_range(table@),
        wave is Saw ==> forall|i: int| 0 <= i < table@.len() ==> -AMPLITUDE_ONE < #[trigger] table@[i],
        wave is Square ==> forall|i: int|
            0 <= i < table@.len() ==> #[trigger] table@[i] == AMPLITUDE_ONE || table@[i]
                == -AMPLITUDE_ONE,
        wave is Sine ==> table@[0] == 0,
{
    let table = match wave {
        WaveType::Sine => make_sine_wave(size),
        WaveType::Square => make_square_wave(size),
        WaveType::Saw => make_saw_wave(size),
        WaveType::Triangle => make_triangle_wave(size),
    };
    proof {
        lemma_table_range(table@, wave, size as int);
    }
    table
}

} // verus!
