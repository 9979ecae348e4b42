//! The sample renderer: a phase accumulator per voice, nearest-lower-index
//! table lookup, and a normalised mix.
use vstd::prelude::*;
use vstd::arithmetic::div_mod::{
    lemma_add_mod_noop_right,
    lemma_fundamental_div_mod_converse_div,
};
use crate::voices::Voice;

verus! {

/// One full period of phase: a phase `p` stands for `p / 2^32`.
pub open spec fn phase_period() -> int {
    0x1_0000_0000
}

/// The phase advance per sample, `freq / sample_rate` of a period, with the
/// frequency in millihertz and the sample rate in hertz, rounded down.
pub open spec fn phase_step(freq: u32, sample_rate: u32) -> int {
    (freq * phase_period()) / (sample_rate * 1000)
}

/// The phase of `v` after `frames` render steps, wrapped modulo one period.
pub open spec fn phase_after(v: Voice, sample_rate: u32, frames: int) -> u32 {
    ((v.phase + frames * phase_step(v.freq, sample_rate)) % phase_period()) as u32
}

/// The voices after `frames` render steps: same frequencies, advanced phases.
pub open spec fn voices_after_frames(vs: Seq<Voice>, sample_rate: u32, frames: int) -> Seq<
    Voice,
> {
    Seq::new(
        vs.len(),
        |i: int| Voice { freq: vs[i].freq, phase: phase_after(vs[i], sample_rate, frames) },
    )
}

/// The nearest lower table index for a phase: `floor(phase * (len - 1))`.
pub open spec fn table_index(phase: u32, len: int) -> int {
    (phase * (len - 1)) / phase_period()
}

/// The sum of the table samples that the voices read at their phases.
pub open spec fn voices_sum(table: Seq<i32>, vs: Seq<Voice>) -> int
    decreases vs.len(),
{
    if vs.len() == 0 {
        0
    } else {
        voices_sum(table, vs.drop_last()) + table[table_index(vs.last().phase, table.len() as int)]
    }
}

/// Integer division rounding toward zero.
pub open spec fn div_toward_zero(x: int, d: int) -> int {
    if x >= 0 {
        x / d
    } else {
        -((-x) / d)
    }
}

/// One output frame: the mean of the samples the voices read, times 0.3;
/// silence when no voice sounds.
pub open spec fn frame_output(table: Seq<i32>, vs: Seq<Voice>) -> int {
    if vs.len() == 0 {
        0
    } else {
        div_toward_zero(3 * voices_sum(table, vs), 10 * (vs.len() as int))
    }
}

/// The number of frames in a buffer of `len` samples with `channels`
/// samples per frame; a partial last frame counts.
pub open spec fn frames_in(len: int, channels: int) -> int {
    (len + channels - 1) / channels
}

proof fn lemma_index_in_table(phase: u32, len: int)
    requires
        len > 0,
    ensures
        0 <= table_index(phase, len) < len,
{
    let m = len - 1;
    assert(0 <= phase * m <= (phase_period() - 1) * m) by (nonlinear_arith)
        requires
            0 <= phase < phase_period(),
            m >= 0,
    ;
    assert((phase * m) / phase_period() <= m) by (nonlinear_arith)
        requires
            0 <= phase * m <= (phase_period() - 1) * m,
            m >= 0,
    ;
    assert((phase * m) / phase_period() >= 0) by (nonlinear_arith)
        requires
            0 <= phase * m,
    ;
}

proof fn lemma_mix_bound(x: int, n: int)
    requires
        n > 0,
        0 <= x <= 3 * n * 0x8000_0000,
    ensures
        0 <= x / (10 * n) < 0x8000_0000,
{
    let d = 10 * n;
    let q = x / d;
    assert(q * d <= x && q >= 0) by (nonlinear_arith)
        requires
            d > 0,
            q == x / d,
            x >= 0,
    ;
    assert(q * 10 <= 3 * 0x8000_0000) by (nonlinear_arith)
        requires
            q * d <= 3 * n * 0x8000_0000,
            d == 10 * n,
            n > 0,
    ;
}

/// Advancing by one step after `frames` steps is advancing by `frames + 1`.
pub proof fn lemma_frames_compose(vs: Seq<Voice>, sample_rate: u32, frames: int)
    requires
        frames >= 0,
        sample_rate > 0,
    ensures
        voices_after_frames(voices_after_frames(vs, sample_rate, frames), sample_rate, 1)
            == voices_after_frames(vs, sample_rate, frames + 1),
{
    let a = voices_after_frames(vs, sample_rate, frames);
    let b = voices_after_frames(a, sample_rate, 1);
    let c = voices_after_frames(vs, sample_rate, frames + 1);
    assert forall|i: int| 0 <= i < vs.len() implies b[i] == c[i] by {
        let s = phase_step(vs[i].freq, sample_rate);
        let x = vs[i].phase + frames * s;
        assert(s >= 0) by (nonlinear_arith)
            requires
                s == (vs[i].freq * phase_period()) / (sample_rate * 1000),
                sample_rate > 0,
        ;
        assert(x >= 0) by (nonlinear_arith)
            requires
                x == vs[i].phase + frames * s,
                s >= 0,
                frames >= 0,
        ;
        lemma_add_mod_noop_right(s, x, phase_period());
        assert(x + s == vs[i].phase + (frames + 1) * s) by (nonlinear_arith)
            requires
                x == vs[i].phase + frames * s,
        ;
    }
    assert(b =~= c);
}

/// The phase increment of one step, as `phase_step` states it.
fn phase_increment(freq: u32, sample_rate: u32) -> (r: u64)
    requires
        sample_rate > 0,
    ensures
        r == phase_step(freq, sample_rate),
        r < 0x80_0000_0000_0000,
{
    let num = (freq as u64) * 0x1_0000_0000u64;
    let den = (sample_rate as u64) * 1000;
    assert(num / den <= num / 1000) by (nonlinear_arith)
        requires
            den >= 1000,
            num >= 0,
    ;
    assert(num / 1000 < 0x80_0000_0000_0000) by (nonlinear_arith)
        requires
            0 <= num < 0x1_0000_0000_0000_0000,
    ;
    num / den
}

/// Renders one frame: returns the mixed sample and advances every phase by
/// one step.
pub fn render_frame(table: &Vec<i32>, voices: &mut Vec<Voice>, sample_rate: u32) -> (out: i32)
    requires
        table.len() > 0,
        sample_rate > 0,
    ensures
        out == frame_output(table@, old(voices)@),
        final(voices)@ == voices_after_frames(old(voices)@, sample_rate, 1),
{
    let n = voices.len();
    let len = table.len();
    let mut sum: i128 = 0;
    let mut i: usize = 0;
    while i < n
        invariant
            n == voices.len(),
            n == old(voices)@.len(),
            len == table.len(),
            len > 0,
            sample_rate > 0,
            i <= n,
            sum == voices_sum(table@, old(voices)@.subrange(0, i as int)),
            -(i * 0x8000_0000) <= sum <= i * 0x8000_0000,
            forall|j: int|
                i <= j < n ==> #[trigger] voices@[j] == old(voices)@[j],
            forall|j: int|
                0 <= j < i ==> #[trigger] voices@[j] == voices_after_frames(
                    old(voices)@,
                    sample_rate,
                    1,
                )[j],
        decreases n - i,
    {
        let v = voices[i];
        proof {
            lemma_index_in_table(v.phase, len as int);
        }
        let index = ((v.phase as u128) * ((len - 1) as u128) / 0x1_0000_0000u128) as usize;
        sum = sum + table[index] as i128;
        let step = phase_increment(v.freq, sample_rate);
        let phase = (((v.phase as u64) + step) % 0x1_0000_0000u64) as u32;
        voices.set(i, Voice { freq: v.freq, phase });
        assert(old(voices)@.subrange(0, i + 1).drop_last() =~= old(voices)@.subrange(0, i as int));
        i = i + 1;
    }
    assert(old(voices)@.subrange(0, n as int) =~= old(voices)@);
    assert(voices@ =~= voices_after_frames(old(voices)@, sample_rate, 1));
    if n == 0 {
        0
    } else {
        let d = 10 * (n as u128);
        if sum >= 0 {
            proof {
                lemma_mix_bound(3 * sum, n as int);
            }
            ((3 * (sum as u128)) / d) as i32
        } else {
            proof {
                lemma_mix_bound(-3 * sum, n as int);
            }
            -(((3 * ((-sum) as u128)) / d) as i32)
        }
    }
}

/// Fills `buffer` frame by frame: each frame of `channels` samples (the last
/// one may be partial) holds one mixed sample, and the phases advance by one
/// step per frame.
pub fn render_buffer(
    table: &Vec<i32>,
    voices: &mut Vec<Voice>,
    buffer: &mut Vec<i32>,
    channels: usize,
    sample_rate: u32,
)
    requires
        table.len() > 0,
        channels > 0,
        sample_rate > 0,
    ensures
        final(buffer)@.len() == old(buffer)@.len(),
        forall|k: int|
            0 <= k < old(buffer)@.len() ==> #[trigger] final(buffer)@[k] == frame_output(
                table@,
                voices_after_frames(old(voices)@, sample_rate, k / (channels as int)),
            ),
        final(voices)@ == voices_after_frames(
            old(voices)@,
            sample_rate,
            frames_in(old(buffer)@.len() as int, channels as int),
        ),
{
    let len = buffer.len();
    let ghost v0 = voices@;
    let ghost ch = channels as int;
    let mut start: usize = 0;
    let ghost mut frames: int = 0;
    proof {
        lemma_fundamental_div_mod_converse_div(ch - 1, ch, 0, ch - 1);
        assert(voices_after_frames(v0, sample_rate, 0) =~= v0);
    }
    while start < len
        invariant
            len == buffer.len(),
            len == old(buffer)@.len(),
            v0 == old(voices)@,
            ch == channels,
            ch > 0,
            table.len() > 0,
            sample_rate > 0,
            start <= len,
            frames >= 0,
            frames == (start + ch - 1) / ch,
            start < len ==> start == frames * ch,
            voices@ == voices_after_frames(v0, sample_rate, frames),
            forall|k: int|
                0 <= k < start ==> #[trigger] buffer@[k] == frame_output(
                    table@,
                    voices_after_frames(v0, sample_rate, k / ch),
                ),
        decreases len - start,
    {
        let ghost before = voices@;
        let out = render_frame(table, voices, sample_rate);
        proof {
            lemma_frames_compose(v0, sample_rate, frames);
        }
        let end = if len - start < channels {
            len
        } else {
            start + channels
        };
        let mut k = start;
        while k < end
            invariant
                len == buffer.len(),
                start <= k <= end,
                end <= len,
                start == frames * ch,
                end - start <= ch,
                ch > 0,
                frames >= 0,
                out == frame_output(table@, voices_after_frames(v0, sample_rate, frames)),
                forall|j: int|
                    0 <= j < k ==> #[trigger] buffer@[j] == frame_output(
                        table@,
                        voices_after_frames(v0, sample_rate, j / ch),
                    ),
            decreases end - k,
        {
            proof {
                lemma_fundamental_div_mod_converse_div(k as int, ch, frames, k - start);
            }
            buffer.set(k, out);
            k = k + 1;
        }
        proof {
            assert((end + ch - 1) == (frames + 1) * ch + (end - start - 1)) by (nonlinear_arith)
                requires
                    start == frames * ch,
            ;
            lemma_fundamental_div_mod_converse_div(
                end + ch - 1,
                ch,
                frames + 1,
                end - start - 1,
            );
            frames = frames + 1;
        }
        start = end;
    }
}

} // verus!
