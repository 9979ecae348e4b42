//! The synthesizer: one wave table and the sounding voices behind one API
//! for note events, waveform switches and rendering.
use vstd::prelude::*;
use vstd::arithmetic::div_mod::lemma_fundamental_div_mod;
use crate::render::{
    frame_output, frames_in, phase_period, render_buffer, render_frame, voices_after_frames,
    div_toward_zero,
};
use crate::voices::{
    note_off, note_on, voices_after_off, voices_after_on, voices_wf, Voice,
};
use crate::wavetable::{generate, in_unit_range, table_matches, WaveType};

verus! {

/// The number of samples in the synthesizer's wave table.
pub const TABLE_SIZE: i32 = 1024;

pub struct Synth {
    pub wave_table: Vec<i32>,
    pub voices: Vec<Voice>,
}

/// The value at a table position `index / 2^32`, interpolated linearly
/// between the samples at its floor and its ceiling (rounded toward the
/// floor's sample).
pub open spec fn lerp_value(table: Seq<i32>, index: u64) -> int {
    let lo: int = index as int / phase_period();
    let frac: int = index as int % phase_period();
    let hi: int = if frac == 0 {
        lo
    } else {
        lo + 1
    };
    table[lo] + div_toward_zero((table[hi] - table[lo]) * frac, phase_period())
}

impl Synth {
    /// The table is one period of some waveform at full size, and the voices
    /// have distinct positive frequencies.
    pub open spec fn wf(&self) -> bool {
        &&& self.wave_table@.len() == TABLE_SIZE
        &&& in_unit_range(self.wave_table@)
        &&& voices_wf(self.voices@)
    }

    /// A synthesizer with a sine table and no voices.
    pub fn new() -> (s: Self)
        ensures
            s.wf(),
            table_matches(s.wave_table@, WaveType::Sine, TABLE_SIZE as int),
            s.voices@.len() == 0,
    {
        Synth { wave_table: generate(WaveType::Sine, TABLE_SIZE), voices: Vec::new() }
    }

    /// Note-on: a new voice at phase 0, unless one has exactly `freq`.
    pub fn on(&mut self, freq: u32)
        requires
            old(self).wf(),
            freq > 0,
        ensures
            final(self).wf(),
            final(self).voices@ == voices_after_on(old(self).voices@, freq),
            final(self).wave_table@ == old(self).wave_table@,
    {
        note_on(&mut self.voices, freq);
    }

    /// Note-off: removes every voice within 0.1 Hz of `freq`.
    pub fn off(&mut self, freq: u32)
        requires
            old(self).wf(),
        ensures
            final(self).wf(),
            final(self).voices@ == voices_after_off(old(self).voices@, freq),
            final(self).wave_table@ == old(self).wave_table@,
    {
        note_off(&mut self.voices, freq);
    }

    /// Replaces the table by a fresh one for `wave`; the voices keep their
    /// phases.
    pub fn change_wave(&mut self, wave: WaveType)
        requires
            old(self).wf(),
        ensures
            final(self).wf(),
            table_matches(final(self).wave_table@, wave, TABLE_SIZE as int),
            final(self).voices@ == old(self).voices@,
    {
        self.wave_table = generate(wave, TABLE_SIZE);
    }

    /// The number of sounding voices.
    pub fn voice_count(&self) -> (r: usize)
        ensures
            r == self.voices@.len(),
    {
        self.voices.len()
    }

    /// Renders one frame and advances every voice by one step.
    pub fn render_sample(&mut self, sample_rate: u32) -> (out: i32)
        requires
            old(self).wf(),
            sample_rate > 0,
        ensures
            final(self).wf(),
            out == frame_output(old(self).wave_table@, old(self).voices@),
            final(self).voices@ == voices_after_frames(old(self).voices@, sample_rate, 1),
            final(self).wave_table@ == old(self).wave_table@,
    {
        let out = render_frame(&self.wave_table, &mut self.voices, sample_rate);
        proof {
            lemma_frames_keep_wf(old(self).voices@, sample_rate, 1);
        }
        out
    }

    /// Fills `buffer` with frames of `channels` equal samples, advancing the
    /// voices one step per frame.
    pub fn render(&mut self, buffer: &mut Vec<i32>, channels: usize, sample_rate: u32)
        requires
            old(self).wf(),
            channels > 0,
            sample_rate > 0,
        ensures
            final(self).wf(),
            final(buffer)@.len() == old(buffer)@.len(),
            forall|k: int|
                0 <= k < old(buffer)@.len() ==> #[trigger] final(buffer)@[k] == frame_output(
                    old(self).wave_table@,
                    voices_after_frames(old(self).voices@, sample_rate, k / (channels as int)),
                ),
            final(self).voices@ == voices_after_frames(
                old(self).voices@,
                sample_rate,
                frames_in(old(buffer)@.len() as int, channels as int),
            ),
            final(self).wave_table@ == old(self).wave_table@,
    {
        render_buffer(&self.wave_table, &mut self.voices, buffer, channels, sample_rate);
        proof {
            lemma_frames_keep_wf(
                old(self).voices@,
                sample_rate,
                frames_in(old(buffer)@.len() as int, channels as int),
            );
        }
    }

    /// Linear interpolation at the table position `index / 2^32`.
    pub fn get_lerp(table: &Vec<i32>, index: u64) -> (r: i32)
        requires
            table@.len() > 0,
            index <= (table@.len() - 1) * phase_period(),
        ensures
            r == lerp_value(table@, index),
    {
        let lo = (index / 0x1_0000_0000u64) as usize;
        let frac = index % 0x1_0000_0000u64;
        proof {
            let m = phase_period();
            let q = index as int / m;
            let f = index as int % m;
            lemma_fundamental_div_mod(index as int, m);
            let l = table@.len() - 1;
            assert(q <= l && (f > 0 ==> q < l)) by (nonlinear_arith)
                requires
                    index == m * q + f,
                    0 <= f < m,
                    index <= l * m,
                    m > 0,
            ;
            assert(lo == q && frac == f);
            assert(lo < table@.len());
            assert(frac > 0 ==> lo + 1 < table@.len());
        }
        assert(frac != 0 ==> lo + 1 < table.len());
        let hi = if frac == 0 {
            lo
        } else {
            lo + 1
        };
        let a = table[lo] as i64;
        let b = table[hi] as i64;
        let diff = b - a;
        if diff >= 0 {
            proof {
                lemma_part_bound(diff as int, frac as int);
            }
            assert((diff as u128) * (frac as u128) < 0x10_0000_0000_0000_0000) by (nonlinear_arith)
                requires
                    0 <= diff < 0x1_0000_0000,
                    0 <= frac < 0x1_0000_0000,
            ;
            let part = ((diff as u128) * (frac as u128)) / 0x1_0000_0000u128;
            assert(diff * frac >= 0) by (nonlinear_arith)
                requires
                    diff >= 0,
                    frac >= 0,
            ;
            assert(div_toward_zero(diff * frac, phase_period()) == part);
            (a + part as i64) as i32
        } else {
            proof {
                lemma_part_bound(-diff as int, frac as int);
            }
            assert(((-diff) as u128) * (frac as u128) < 0x10_0000_0000_0000_0000) by (nonlinear_arith)
                requires
                    0 < -diff < 0x1_0000_0000,
                    0 <= frac < 0x1_0000_0000,
            ;
            let part = (((-diff) as u128) * (frac as u128)) / 0x1_0000_0000u128;
            proof {
                if frac == 0 {
                    assert(diff * frac == 0);
                    assert((-diff) * frac == 0);
                    assert(0int / phase_period() == 0);
                } else {
                    assert(diff * frac < 0 && -(diff * frac) == (-diff) * frac) by (nonlinear_arith)
                        requires
                            diff < 0,
                            frac > 0,
                    ;
                }
            }
            assert(div_toward_zero(diff * frac, phase_period()) == -part);
            (a - part as i64) as i32
        }
    }
}

proof fn lemma_part_bound(d: int, frac: int)
    requires
        d >= 0,
        0 <= frac < phase_period(),
    ensures
        0 <= (d * frac) / phase_period() <= d,
{
    assert(0 <= d * frac <= d * phase_period()) by (nonlinear_arith)
        requires
            d >= 0,
            0 <= frac < phase_period(),
    ;
    assert(0 <= (d * frac) / phase_period() <= d) by (nonlinear_arith)
        requires
            0 <= d * frac <= d * phase_period(),
    ;
}

/// Render steps keep the frequencies, so the voices stay well formed.
pub proof fn lemma_frames_keep_wf(vs: Seq<Voice>, sample_rate: u32, frames: int)
    requires
        voices_wf(vs),
    ensures
        voices_wf(voices_after_frames(vs, sample_rate, frames)),
{
    let r = voices_after_frames(vs, sample_rate, frames);
    assert forall|i: int, j: int|
        0 <= i < r.len() && 0 <= j < r.len() && i != j implies #[trigger] r[i].freq
        != #[trigger] r[j].freq by {
        assert(r[i].freq == vs[i].freq && r[j].freq == vs[j].freq);
    }
    assert forall|i: int| 0 <= i < r.len() implies #[trigger] r[i].freq > 0 by {
        assert(r[i].freq == vs[i].freq);
    }
}

} // verus!
