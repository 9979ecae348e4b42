//! The set of sounding voices: note-on with exact de-duplication, note-off
//! with a tolerance window.
use vstd::prelude::*;

verus! {

/// Note-off removes every voice whose frequency differs by less than this
/// many millihertz (0.1 Hz).
pub const FREQ_TOLERANCE_MHZ: u32 = 100;

/// One sounding note: its frequency in millihertz, and its oscillator phase as
/// a fraction `phase / 2^32` of a period.
#[derive(Clone, Copy, Debug, PartialEq, Eq, Structural)]
pub struct Voice {
    pub freq: u32,
    pub phase: u32,
}

/// Two frequencies are within the note-off tolerance of each other.
pub open spec fn near(a: u32, b: u32) -> bool {
    -(FREQ_TOLERANCE_MHZ as int) < a - b < FREQ_TOLERANCE_MHZ
}

pub open spec fn has_freq(vs: Seq<Voice>, freq: u32) -> bool {
    exists|i: int| 0 <= i < vs.len() && #[trigger] vs[i].freq == freq
}

/// No two voices share a frequency, and every frequency is positive.
pub open spec fn voices_wf(vs: Seq<Voice>) -> bool {
    &&& forall|i: int| 0 <= i < vs.len() ==> #[trigger] vs[i].freq > 0
    &&& forall|i: int, j: int|
        0 <= i < vs.len() && 0 <= j < vs.len() && i != j ==> #[trigger] vs[i].freq
            != #[trigger] vs[j].freq
}

/// The voices after a note-on at `freq`: unchanged when a voice has exactly
/// that frequency, else one more voice at phase 0.
pub open spec fn voices_after_on(vs: Seq<Voice>, freq: u32) -> Seq<Voice> {
    if has_freq(vs, freq) {
        vs
    } else {
        vs.push(Voice { freq, phase: 0 })
    }
}

/// The voices after a note-off at `freq`: those not near `freq`, in order.
pub open spec fn voices_after_off(vs: Seq<Voice>, freq: u32) -> Seq<Voice>
    decreases vs.len(),
{
    if vs.len() == 0 {
        vs
    } else {
        let rest = voices_after_off(vs.drop_last(), freq);
        if near(vs.last().freq, freq) {
            rest
        } else {
            rest.push(vs.last())
        }
    }
}

proof fn lemma_push_contains(s: Seq<Voice>, x: Voice, v: Voice)
    ensures
        s.push(x).contains(v) <==> (s.contains(v) || v == x),
{
    let t = s.push(x);
    if s.contains(v) {
        let k = choose|k: int| 0 <= k < s.len() && s[k] == v;
        assert(t[k] == v);
    }
    if v == x {
        assert(t[s.len() as int] == v);
    }
    if t.contains(v) && v != x {
        let k = choose|k: int| 0 <= k < t.len() && t[k] == v;
        assert(s[k] == v);
    }
}

/// What a note-off keeps is exactly what lies away from its frequency.
pub proof fn lemma_after_off_members(vs: Seq<Voice>, freq: u32, v: Voice)
    ensures
        voices_after_off(vs, freq).contains(v) <==> (vs.contains(v) && !near(v.freq, freq)),
    decreases vs.len(),
{
    if vs.len() == 0 {
    } else {
        let init = vs.drop_last();
        lemma_after_off_members(init, freq, v);
        assert(vs =~= init.push(vs.last()));
        lemma_push_contains(init, vs.last(), v);
        let r = voices_after_off(init, freq);
        lemma_push_contains(r, vs.last(), v);
    }
}

/// A note-off keeps the voices well formed.
pub proof fn lemma_after_off_wf(vs: Seq<Voice>, freq: u32)
    requires
        voices_wf(vs),
    ensures
        voices_wf(voices_after_off(vs, freq)),
    decreases vs.len(),
{
    if vs.len() > 0 {
        let init = vs.drop_last();
        let last = vs.last();
        assert(vs =~= init.push(last));
        assert(voices_wf(init));
        lemma_after_off_wf(init, freq);
        let r = voices_after_off(init, freq);
        if !near(last.freq, freq) {
            let s = r.push(last);
            assert forall|i: int| 0 <= i < r.len() implies #[trigger] r[i].freq != last.freq && r[i].freq > 0 by {
                assert(r.contains(r[i]));
                lemma_after_off_members(init, freq, r[i]);
                let k = choose|k: int| 0 <= k < init.len() && init[k] == r[i];
                assert(vs[k] == r[i]);
                assert(vs[vs.len() - 1] == last);
            }
            assert forall|i: int| 0 <= i < s.len() implies #[trigger] s[i].freq > 0 by {
                if i < r.len() {
                    assert(s[i] == r[i]);
                } else {
                    assert(vs[vs.len() - 1] == last);
                }
            }
            assert forall|i: int, j: int|
                0 <= i < s.len() && 0 <= j < s.len() && i != j implies #[trigger] s[i].freq
                != #[trigger] s[j].freq by {
                if i < r.len() {
                    assert(s[i] == r[i]);
                }
                if j < r.len() {
                    assert(s[j] == r[j]);
                }
            }
        }
    }
}

/// Adds a voice at `freq` unless one has exactly that frequency.
pub fn note_on(voices: &mut Vec<Voice>, freq: u32)
    requires
        voices_wf(old(voices)@),
        freq > 0,
    ensures
        final(voices)@ == voices_after_on(old(voices)@, freq),
        voices_wf(final(voices)@),
{
    let n = voices.len();
    let mut i: usize = 0;
    while i < n
        invariant
            n == voices.len(),
            voices@ == old(voices)@,
            voices_wf(voices@),
            i <= n,
            forall|j: int| 0 <= j < i ==> #[trigger] voices@[j].freq != freq,
        decreases n - i,
    {
        if voices[i].freq == freq {
            assert(has_freq(voices@, freq));
            return;
        }
        i = i + 1;
    }
    assert(!has_freq(voices@, freq));
    voices.push(Voice { freq, phase: 0 });
    assert(voices@[n as int].freq == freq);
}

/// Removes every voice whose frequency is within the tolerance of `freq`.
pub fn note_off(voices: &mut Vec<Voice>, freq: u32)
    requires
        voices_wf(old(voices)@),
    ensures
        final(voices)@ == voices_after_off(old(voices)@, freq),
        voices_wf(final(voices)@),
{
    let n = voices.len();
    let mut kept: Vec<Voice> = Vec::new();
    let mut i: usize = 0;
    while i < n
        invariant
            n == voices.len(),
            voices@ == old(voices)@,
            i <= n,
            kept@ == voices_after_off(voices@.subrange(0, i as int), freq),
        decreases n - i,
    {
        let v = voices[i];
        assert(voices@.subrange(0, i as int + 1).drop_last() =~= voices@.subrange(0, i as int));
        let diff: i64 = v.freq as i64 - freq as i64;
        if !(-(FREQ_TOLERANCE_MHZ as i64) < diff && diff < FREQ_TOLERANCE_MHZ as i64) {
            kept.push(v);
        }
        i = i + 1;
    }
    assert(voices@.subrange(0, n as int) =~= voices@);
    proof {
        lemma_after_off_wf(voices@, freq);
    }
    *voices = kept;
}

} // verus!
