//! Properties that relate several operations of the synthesizer.
use vstd::prelude::*;
use crate::render::{frame_output, phase_after, phase_period, phase_step, voices_after_frames};
use crate::voices::{
    has_freq, lemma_after_off_members, near, voices_after_off, voices_after_on, Voice,
};
use crate::wavetable::{table_matches, wave_sample, WaveType};

verus! {

/// A second note-on at the same frequency changes nothing; from silence,
/// note-on twice leaves exactly one voice.
pub proof fn lemma_on_twice(vs: Seq<Voice>, freq: u32)
    ensures
        voices_after_on(voices_after_on(vs, freq), freq) == voices_after_on(vs, freq),
        vs.len() == 0 ==> voices_after_on(voices_after_on(vs, freq), freq).len() == 1,
{
    let once = voices_after_on(vs, freq);
    if !has_freq(vs, freq) {
        assert(once[vs.len() as int].freq == freq);
    }
    assert(has_freq(once, freq));
}

/// After a note-off, no voice within the tolerance of its frequency sounds;
/// in particular a note-on followed by a note-off within the tolerance leaves
/// no voice at the note's frequency.
pub proof fn lemma_off_removes_near(vs: Seq<Voice>, on_freq: u32, off_freq: u32)
    requires
        near(on_freq, off_freq),
    ensures
        forall|i: int|
            0 <= i < voices_after_off(vs, off_freq).len() ==> !near(
                #[trigger] voices_after_off(vs, off_freq)[i].freq,
                off_freq,
            ),
        !has_freq(voices_after_off(voices_after_on(vs, on_freq), off_freq), on_freq),
{
    let r = voices_after_off(vs, off_freq);
    assert forall|i: int| 0 <= i < r.len() implies !near(#[trigger] r[i].freq, off_freq) by {
        assert(r.contains(r[i]));
        lemma_after_off_members(vs, off_freq, r[i]);
    }
    let r2 = voices_after_off(voices_after_on(vs, on_freq), off_freq);
    if has_freq(r2, on_freq) {
        let i = choose|i: int| 0 <= i < r2.len() && #[trigger] r2[i].freq == on_freq;
        assert(r2.contains(r2[i]));
        lemma_after_off_members(voices_after_on(vs, on_freq), off_freq, r2[i]);
    }
}

/// A note-off outside the tolerance of a note's frequency leaves the note
/// sounding.
pub proof fn lemma_off_keeps_far(vs: Seq<Voice>, on_freq: u32, off_freq: u32)
    requires
        !near(on_freq, off_freq),
    ensures
        has_freq(voices_after_off(voices_after_on(vs, on_freq), off_freq), on_freq),
{
    let once = voices_after_on(vs, on_freq);
    let i: int = if has_freq(vs, on_freq) {
        choose|i: int| 0 <= i < vs.len() && #[trigger] vs[i].freq == on_freq
    } else {
        vs.len() as int
    };
    assert(once[i].freq == on_freq);
    assert(once.contains(once[i]));
    lemma_after_off_members(once, off_freq, once[i]);
    let r = voices_after_off(once, off_freq);
    let k = choose|k: int| 0 <= k < r.len() && r[k] == once[i];
    assert(r[k].freq == on_freq);
}

/// With no voices, every frame of every render is silence.
pub proof fn lemma_silence(table: Seq<i32>, sample_rate: u32, frames: int)
    ensures
        frame_output(table, voices_after_frames(Seq::<Voice>::empty(), sample_rate, frames)) == 0,
{
}

/// A voice whose frequency equals the sample rate advances one full period
/// per step, so its phase is back where it was after one step.
pub proof fn lemma_full_period_step(v: Voice, sample_rate: u32)
    requires
        sample_rate > 0,
        v.freq == sample_rate * 1000,
    ensures
        phase_step(v.freq, sample_rate) == phase_period(),
        phase_after(v, sample_rate, 1) == v.phase,
{
    let d = sample_rate * 1000;
    assert((d * phase_period()) / d == phase_period()) by (nonlinear_arith)
        requires
            d > 0,
    ;
    assert((v.phase + phase_period()) % phase_period() == v.phase as int) by (nonlinear_arith)
        requires
            0 <= v.phase < phase_period(),
    ;
}

/// A table is determined by its waveform kind and size alone, so switching
/// to another kind and back restores the same table.
pub proof fn lemma_table_determined(t1: Seq<i32>, t2: Seq<i32>, wave: WaveType, n: int)
    requires
        table_matches(t1, wave, n),
        table_matches(t2, wave, n),
    ensures
        t1 == t2,
{
    assert forall|i: int| 0 <= i < n implies t1[i] == t2[i] by {
        assert(t1[i] as int == wave_sample(wave, i, n));
        assert(t2[i] as int == wave_sample(wave, i, n));
    }
    assert(t1 =~= t2);
}

} // verus!
