//! The audio graph and its pull algorithm.
//!
//! A [`Graph`] is an arena of [`Node`]s; a node names its inputs by arena
//! index, and every input index points strictly below the node's own index.
//! One call of [`Graph::audio_requested`] pulls a buffer of audio from a node:
//! the node's inputs are pulled recursively into fresh scratch buffers, each
//! scratch buffer is mixed into the output with the per-channel gain derived
//! from the node's volume and pan, and the node's own processing step runs
//! last over the fully mixed buffer.

use vstd::arithmetic::div_mod::lemma_mod_bound;
use vstd::arithmetic::div_mod::lemma_mod_multiples_vanish;
use vstd::arithmetic::div_mod::lemma_small_mod;
use vstd::arithmetic::mul::lemma_mul_inequality;
use vstd::prelude::*;

verus! {

use crate::gain::channel_gain;
use crate::gain::gain_fits;
use crate::gain::gain_left;
use crate::gain::gain_right;
use crate::gain::lemma_gain_center;
use crate::gain::lemma_scaled_unit;
use crate::gain::mul_scaled;
use crate::gain::scaled;
use crate::gain::Panning;
use crate::gain::Volume;
use crate::gain::UNIT;

/// The shape of one processing cycle: how many frames to produce and how many
/// interleaved channels each frame carries. Supplied by the stream driver and
/// immutable for the duration of one pull.
#[derive(Clone, Copy, PartialEq, Eq, Structural, Debug)]
pub struct Settings {
    pub frames: u16,
    pub channels: u16,
}

impl Settings {
    /// Number of samples in one interleaved buffer for these settings.
    pub open spec fn spec_sample_count(self) -> int {
        self.frames as int * self.channels as int
    }

    /// Number of samples in one interleaved buffer: frames times channels.
    pub fn sample_count(&self) -> (n: usize)
        ensures
            n == self.spec_sample_count(),
    {
        proof {
            assert(self.frames as int * self.channels as int <= 65535 * 65535)
                by (nonlinear_arith)
                requires
                    self.frames <= 65535,
                    self.channels <= 65535,
            ;
        }
        (self.frames as usize) * (self.channels as usize)
    }
}

/// What a node does when audio is requested of it: a `Mixer` pulls its inputs
/// and mixes them into the buffer it was handed; a `Source` is a generator
/// that overwrites the buffer with a signal of its own — here the simplest
/// one, a constant sample value — and never looks at its inputs.
#[derive(Clone, Copy, PartialEq, Eq, Structural, Debug)]
pub enum NodeKind {
    Mixer,
    Source { value: i64 },
}

/// One processing unit of the audio graph: an amplitude, a stereo position,
/// the arena indices of its inputs in mixing order, and its behavior.
#[derive(Clone, Debug)]
pub struct Node {
    pub volume: Volume,
    pub panning: Panning,
    pub inputs: Vec<usize>,
    pub kind: NodeKind,
}

impl Node {
    /// The volume of this node.
    pub fn vol(&self) -> (v: Volume)
        ensures
            v == self.volume,
    {
        self.volume
    }

    /// The pan position of this node: `-UNIT` left, `0` center, `UNIT` right.
    pub fn pan(&self) -> (p: Panning)
        ensures
            p == self.panning,
    {
        self.panning
    }

    /// The arena indices of this node's inputs, in mixing order.
    pub fn inputs(&self) -> (ins: &Vec<usize>)
        ensures
            ins@ == self.inputs@,
    {
        &self.inputs
    }

    /// The gain applied to each of the two stereo channels, `(left, right)`,
    /// derived from volume and pan by the equal-gain law of [`crate::gain`].
    pub fn vol_per_channel(&self) -> (g: (i64, i64))
        requires
            gain_fits(self.volume as int, self.panning as int),
        ensures
            g.0 as int == gain_left(self.volume as int, self.panning as int),
            g.1 as int == gain_right(self.volume as int, self.panning as int),
    {
        if self.panning >= 0 {
            let away = if self.panning >= UNIT {
                self.panning - UNIT
            } else {
                UNIT - self.panning
            };
            (mul_scaled(self.volume, away), self.volume)
        } else {
            (self.volume, mul_scaled(self.volume, self.panning + UNIT))
        }
    }

    /// Post-mix hook: transform the fully mixed buffer in place. Every kind of
    /// node here uses the default processing, which leaves the buffer alone.
    #[allow(unused_variables)]
    pub fn process_buffer(&self, output: &mut Vec<i64>, settings: Settings)
        ensures
            final(output)@ == old(output)@,
    {
    }
}

impl Default for Node {
    /// A fresh node: full volume, centered, no inputs, plain mixing behavior.
    fn default() -> (n: Node)
        ensures
            n.volume == UNIT,
            n.panning == 0,
            n.inputs@.len() == 0,
            n.kind == NodeKind::Mixer,
    {
        Node { volume: UNIT, panning: 0, inputs: Vec::new(), kind: NodeKind::Mixer }
    }
}

/// A buffer of machine samples viewed as unbounded integers, the domain the
/// mixing model is stated over.
pub open spec fn as_ints(s: Seq<i64>) -> Seq<int> {
    s.map_values(|v: i64| v as int)
}

/// An all-zero signal of the given length: the content of a fresh scratch
/// buffer.
pub open spec fn zero_signal(len: int) -> Seq<int> {
    Seq::new(len as nat, |i: int| 0)
}

/// One sample of an incoming signal mixed into an accumulator: the sample is
/// scaled by the channel gain and added on.
pub open spec fn mix_sample(acc: int, sample: int, gain: int) -> int {
    acc + scaled(sample * gain)
}

/// Every machine step of mixing one sample stays inside `i64`: the product
/// with the gain fits, and so does the new accumulator value.
pub open spec fn mix_sample_fits(acc: int, sample: int, gain: int) -> bool {
    &&& -(i64::MAX as int) <= sample * gain <= i64::MAX as int
    &&& i64::MIN as int <= mix_sample(acc, sample, gain) <= i64::MAX as int
}

/// A whole incoming buffer mixed into an accumulator. Buffers are
/// interleaved, so the sample at index `idx` belongs to channel
/// `idx % channels` and is scaled by that channel's gain.
pub open spec fn mix_signal(
    acc: Seq<int>,
    incoming: Seq<int>,
    vol: int,
    pan: int,
    channels: int,
) -> Seq<int> {
    Seq::new(
        acc.len(),
        |idx: int| mix_sample(acc[idx], incoming[idx], channel_gain(vol, pan, idx % channels)),
    )
}

/// The accumulator partway through one input: samples below `upto` are
/// already mixed, the rest still hold their previous values.
pub open spec fn mix_signal_upto(
    acc: Seq<int>,
    incoming: Seq<int>,
    vol: int,
    pan: int,
    channels: int,
    upto: int,
) -> Seq<int> {
    Seq::new(
        acc.len(),
        |idx: int|
            if idx < upto {
                mix_sample(acc[idx], incoming[idx], channel_gain(vol, pan, idx % channels))
            } else {
                acc[idx]
            },
    )
}

/// Every machine step of mixing `incoming` into `acc` stays inside `i64`.
pub open spec fn mix_fits(
    acc: Seq<int>,
    incoming: Seq<int>,
    vol: int,
    pan: int,
    channels: int,
) -> bool {
    forall|idx: int|
        0 <= idx < acc.len() ==> mix_sample_fits(
            #[trigger] acc[idx],
            incoming[idx],
            channel_gain(vol, pan, idx % channels),
        )
}

/// A zero-filled buffer of the given length: the scratch allocation made for
/// each input before it is pulled.
pub fn zeroed(len: usize) -> (v: Vec<i64>)
    ensures
        v@.len() == len,
        as_ints(v@) == zero_signal(len as int),
{
    let mut v: Vec<i64> = Vec::new();
    while v.len() < len
        invariant
            v@.len() <= len,
            forall|i: int| 0 <= i < v@.len() ==> v@[i] == 0,
        decreases len - v@.len(),
    {
        v.push(0);
    }
    proof {
        assert(as_ints(v@) =~= zero_signal(len as int));
    }
    v
}

/// A tree-shaped audio graph held as an arena of nodes.
pub struct Graph {
    pub nodes: Vec<Node>,
}

impl Graph {
    /// Well-formed: every input reference points strictly downward in the
    /// arena, so the graph is acyclic and every pull walks a finite tree.
    pub open spec fn wf(self) -> bool {
        forall|i: int, k: int|
            0 <= i < self.nodes@.len() && 0 <= k < self.nodes@[i].inputs@.len()
                ==> (#[trigger] self.nodes@[i].inputs@[k]) < i
    }

    /// The buffer one pull of node `n` leaves behind, starting from buffer
    /// contents `buf`. A `Source` overwrites the buffer with its own signal;
    /// a `Mixer` mixes each of its inputs' signals into `buf` in input order,
    /// each input pulled into a zero buffer of its own. The processing step
    /// of every kind here is the no-op default, so it adds nothing.
    pub open spec fn pull(self, n: int, buf: Seq<int>, s: Settings) -> Seq<int>
        decreases n, self.nodes@[n].inputs@.len() + 1,
        when self.wf() && 0 <= n < self.nodes@.len()
    {
        match self.nodes@[n].kind {
            NodeKind::Source { value } => Seq::new(buf.len(), |i: int| value as int),
            NodeKind::Mixer => self.mix_inputs(n, self.nodes@[n].inputs@.len() as int, buf, s),
        }
    }

    /// The buffer after the first `k` inputs of node `n` are mixed into `buf`.
    pub open spec fn mix_inputs(self, n: int, k: int, buf: Seq<int>, s: Settings) -> Seq<int>
        decreases n, k,
        when self.wf() && 0 <= n < self.nodes@.len() && 0 <= k <= self.nodes@[n].inputs@.len()
    {
        if k <= 0 {
            buf
        } else {
            let child = self.nodes@[n].inputs@[k - 1] as int;
            mix_signal(
                self.mix_inputs(n, k - 1, buf, s),
                self.pull(child, zero_signal(buf.len() as int), s),
                self.nodes@[n].volume as int,
                self.nodes@[n].panning as int,
                s.channels as int,
            )
        }
    }

    /// Every arithmetic step of one full pull of node `n` stays inside `i64`
    /// — the machine limit a pull is subject to; the mixing model itself has
    /// none.
    pub open spec fn pull_fits(self, n: int, buf: Seq<int>, s: Settings) -> bool
        decreases n, self.nodes@[n].inputs@.len() + 1,
        when self.wf() && 0 <= n < self.nodes@.len()
    {
        match self.nodes@[n].kind {
            NodeKind::Source { .. } => true,
            NodeKind::Mixer => {
                &&& gain_fits(self.nodes@[n].volume as int, self.nodes@[n].panning as int)
                &&& self.mix_inputs_fit(n, self.nodes@[n].inputs@.len() as int, buf, s)
            },
        }
    }

    /// Every arithmetic step of mixing the first `k` inputs of node `n` into
    /// `buf` stays inside `i64`, pulls of the inputs themselves included.
    pub open spec fn mix_inputs_fit(self, n: int, k: int, buf: Seq<int>, s: Settings) -> bool
        decreases n, k,
        when self.wf() && 0 <= n < self.nodes@.len() && 0 <= k <= self.nodes@[n].inputs@.len()
    {
        if k <= 0 {
            true
        } else {
            let child = self.nodes@[n].inputs@[k - 1] as int;
            let scratch = zero_signal(buf.len() as int);
            &&& self.mix_inputs_fit(n, k - 1, buf, s)
            &&& self.pull_fits(child, scratch, s)
            &&& mix_fits(
                self.mix_inputs(n, k - 1, buf, s),
                self.pull(child, scratch, s),
                self.nodes@[n].volume as int,
                self.nodes@[n].panning as int,
                s.channels as int,
            )
        }
    }

    /// Mixing preserves the buffer's length.
    pub proof fn lemma_mix_inputs_len(self, n: int, k: int, buf: Seq<int>, s: Settings)
        requires
            self.wf(),
            0 <= n < self.nodes@.len(),
            0 <= k <= self.nodes@[n].inputs@.len(),
        ensures
            self.mix_inputs(n, k, buf, s).len() == buf.len(),
        decreases k,
    {
        if k > 0 {
            self.lemma_mix_inputs_len(n, k - 1, buf, s);
        }
    }

    /// A pull hands back a buffer of the same length it was given.
    pub proof fn lemma_pull_len(self, n: int, buf: Seq<int>, s: Settings)
        requires
            self.wf(),
            0 <= n < self.nodes@.len(),
        ensures
            self.pull(n, buf, s).len() == buf.len(),
    {
        match self.nodes@[n].kind {
            NodeKind::Source { .. } => {},
            NodeKind::Mixer => {
                self.lemma_mix_inputs_len(n, self.nodes@[n].inputs@.len() as int, buf, s);
            },
        }
    }

    /// True exactly when the arena is well-formed: every input index points
    /// strictly below its node's own index.
    pub fn check_wf(&self) -> (b: bool)
        ensures
            b == self.wf(),
    {
        let mut i: usize = 0;
        while i < self.nodes.len()
            invariant
                i <= self.nodes@.len(),
                forall|i2: int, k2: int|
                    0 <= i2 < i && 0 <= k2 < self.nodes@[i2].inputs@.len()
                        ==> (#[trigger] self.nodes@[i2].inputs@[k2]) < i2,
            decreases self.nodes@.len() - i,
        {
            let mut k: usize = 0;
            while k < self.nodes[i].inputs.len()
                invariant
                    i < self.nodes@.len(),
                    k <= self.nodes@[i as int].inputs@.len(),
                    forall|k2: int|
                        0 <= k2 < k ==> (#[trigger] self.nodes@[i as int].inputs@[k2]) < i,
                decreases self.nodes@[i as int].inputs@.len() - k,
            {
                if self.nodes[i].inputs[k] >= i {
                    return false;
                }
                k += 1;
            }
            i += 1;
        }
        true
    }

    /// Pull one buffer of audio from node `n` into `output`, which must hold
    /// exactly `frames * channels` interleaved samples. A source node
    /// synthesizes straight into the buffer; a mixer pulls each input into a
    /// fresh zero scratch buffer and accumulates it into `output`, scaling
    /// each sample by the gain of the channel it belongs to. The gains are
    /// computed once, before the first input is pulled. After all inputs are
    /// mixed, the node's processing step runs once over the whole buffer.
    #[verifier::loop_isolation(false)]
    pub fn audio_requested(&self, n: usize, output: &mut Vec<i64>, settings: Settings)
        requires
            self.wf(),
            n < self.nodes@.len(),
            settings.channels <= 2,
            old(output)@.len() == settings.spec_sample_count(),
            self.pull_fits(n as int, as_ints(old(output)@), settings),
        ensures
            final(output)@.len() == old(output)@.len(),
            as_ints(final(output)@) == self.pull(n as int, as_ints(old(output)@), settings),
        decreases n,
    {
        let ghost buf0: Seq<int> = as_ints(old(output)@);
        let frames = settings.frames as usize;
        let channels = settings.channels as usize;
        let sample_count = settings.sample_count();
        match self.nodes[n].kind {
            NodeKind::Source { value } => {
                let mut idx: usize = 0;
                while idx < sample_count
                    invariant
                        idx <= sample_count,
                        output@.len() == sample_count,
                        forall|q: int| 0 <= q < idx ==> output@[q] == value,
                    decreases sample_count - idx,
                {
                    output[idx] = value;
                    idx += 1;
                }
                self.nodes[n].process_buffer(output, settings);
                proof {
                    assert(as_ints(output@) =~= self.pull(n as int, buf0, settings));
                }
            },
            NodeKind::Mixer => {
                let gains = self.nodes[n].vol_per_channel();
                let ghost vol: int = self.nodes@[n as int].volume as int;
                let ghost pan: int = self.nodes@[n as int].panning as int;
                let num = self.nodes[n].inputs.len();
                let mut t: usize = 0;
                while t < num
                    invariant
                        t <= num,
                        output@.len() == sample_count,
                        as_ints(output@) == self.mix_inputs(n as int, t as int, buf0, settings),
                    decreases num - t,
                {
                    proof {
                        self.lemma_mix_inputs_fit_prefix(
                            n as int,
                            num as int,
                            t as int,
                            buf0,
                            settings,
                        );
                    }
                    let child = self.nodes[n].inputs[t];
                    let ghost scratch0: Seq<int> = zero_signal(buf0.len() as int);
                    let mut working = zeroed(sample_count);
                    self.audio_requested(child, &mut working, settings);
                    let ghost acc: Seq<int> = self.mix_inputs(n as int, t as int, buf0, settings);
                    let ghost incoming: Seq<int> = self.pull(child as int, scratch0, settings);
                    proof {
                        assert(as_ints(working@) == incoming);
                        assert(mix_fits(acc, incoming, vol, pan, settings.channels as int));
                    }
                    let mut i: usize = 0;
                    while i < frames
                        invariant
                            i <= frames,
                            working@.len() == sample_count,
                            as_ints(working@) == incoming,
                            output@.len() == sample_count,
                            as_ints(output@) == mix_signal_upto(
                                acc,
                                incoming,
                                vol,
                                pan,
                                channels as int,
                                i as int * channels as int,
                            ),
                        decreases frames - i,
                    {
                        let mut j: usize = 0;
                        while j < channels
                            invariant
                                i < frames,
                                j <= channels,
                                working@.len() == sample_count,
                                as_ints(working@) == incoming,
                                output@.len() == sample_count,
                                as_ints(output@) == mix_signal_upto(
                                    acc,
                                    incoming,
                                    vol,
                                    pan,
                                    channels as int,
                                    i as int * channels as int + j as int,
                                ),
                            decreases channels - j,
                        {
                            proof {
                                lemma_mul_inequality(i as int + 1, frames as int, channels as int);
                                assert((i as int) * (channels as int) + (channels as int) == ((
                                i as int) + 1) * (channels as int)) by (nonlinear_arith);
                                assert((i as int) * (channels as int) + (j as int) < (
                                frames as int) * (channels as int));
                            }
                            let idx = i * channels + j;
                            proof {
                                lemma_mod_multiples_vanish(i as int, j as int, channels as int);
                                lemma_small_mod(j as nat, channels as nat);
                                assert((channels as int) * (i as int) == (i as int) * (
                                channels as int)) by (nonlinear_arith);
                                assert(idx as int == (i as int) * (channels as int) + (j as int));
                                assert(idx as int % channels as int == j as int);
                                assert(mix_sample_fits(
                                    acc[idx as int],
                                    incoming[idx as int],
                                    channel_gain(vol, pan, idx as int % channels as int),
                                ));
                            }
                            let g = if j == 0 {
                                gains.0
                            } else {
                                gains.1
                            };
                            let term = mul_scaled(working[idx], g);
                            proof {
                                assert(acc.len() == sample_count);
                                assert(as_ints(output@)[idx as int] == output@[idx as int] as int);
                                assert(output@[idx as int] as int == acc[idx as int]);
                            }
                            let cur = output[idx];
                            let ghost out_before: Seq<i64> = output@;
                            output[idx] = cur + term;
                            proof {
                                let upto: int = idx as int + 1;
                                assert forall|q: int| 0 <= q < acc.len() implies as_ints(output@)[q]
                                    == mix_signal_upto(
                                    acc,
                                    incoming,
                                    vol,
                                    pan,
                                    channels as int,
                                    upto,
                                )[q] by {
                                    if q == idx as int {
                                        assert((cur + term) as int == mix_sample(
                                            acc[q],
                                            incoming[q],
                                            channel_gain(vol, pan, q % channels as int),
                                        ));
                                    } else {
                                        assert(output@[q] == out_before[q]);
                                        assert(as_ints(out_before)[q] == mix_signal_upto(
                                            acc,
                                            incoming,
                                            vol,
                                            pan,
                                            channels as int,
                                            idx as int,
                                        )[q]);
                                    }
                                }
                                assert(as_ints(output@) =~= mix_signal_upto(
                                    acc,
                                    incoming,
                                    vol,
                                    pan,
                                    channels as int,
                                    i as int * channels as int + j as int + 1,
                                ));
                            }
                            j += 1;
                        }
                        proof {
                            assert(i as int * channels as int + channels as int
                                == (i as int + 1) * channels as int) by (nonlinear_arith);
                        }
                        i += 1;
                    }
                    proof {
                        assert(mix_signal_upto(
                            acc,
                            incoming,
                            vol,
                            pan,
                            channels as int,
                            frames as int * channels as int,
                        ) =~= mix_signal(acc, incoming, vol, pan, channels as int));
                        assert(as_ints(output@) == self.mix_inputs(
                            n as int,
                            t as int + 1,
                            buf0,
                            settings,
                        ));
                    }
                    t += 1;
                }
                self.nodes[n].process_buffer(output, settings);
            },
        }
    }

    /// Law: a mixer with no inputs leaves the buffer it is handed exactly as
    /// it was — only the processing step could change it, and the default
    /// processing is a no-op.
    pub proof fn lemma_pull_no_inputs(self, n: int, buf: Seq<int>, s: Settings)
        requires
            self.wf(),
            0 <= n < self.nodes@.len(),
            self.nodes@[n].kind is Mixer,
            self.nodes@[n].inputs@.len() == 0,
        ensures
            self.pull(n, buf, s) == buf,
    {
    }

    /// Law: a mixer with a single input and no-op processing reproduces its
    /// input's signal scaled exactly by the per-channel gain, sample for
    /// sample, added onto the buffer it was handed.
    pub proof fn lemma_pull_one_input(self, n: int, buf: Seq<int>, s: Settings)
        requires
            self.wf(),
            0 <= n < self.nodes@.len(),
            self.nodes@[n].kind is Mixer,
            self.nodes@[n].inputs@.len() == 1,
        ensures
            self.pull(n, buf, s).len() == buf.len(),
            forall|idx: int|
                0 <= idx < buf.len() ==> self.pull(n, buf, s)[idx] == mix_sample(
                    buf[idx],
                    self.pull(
                        self.nodes@[n].inputs@[0] as int,
                        zero_signal(buf.len() as int),
                        s,
                    )[idx],
                    channel_gain(
                        self.nodes@[n].volume as int,
                        self.nodes@[n].panning as int,
                        idx % s.channels as int,
                    ),
                ),
    {
        reveal_with_fuel(Graph::mix_inputs, 2);
        let child = self.nodes@[n].inputs@[0] as int;
        let zs = zero_signal(buf.len() as int);
        self.lemma_pull_len(child, zs, s);
        assert(self.mix_inputs(n, 1, buf, s) == mix_signal(
            buf,
            self.pull(child, zs, s),
            self.nodes@[n].volume as int,
            self.nodes@[n].panning as int,
            s.channels as int,
        ));
    }

    /// Law: two inputs that each produce the constant sample `v`, mixed at
    /// full volume and center pan — a gain of one on both channels — into a
    /// zero buffer, give `2 * v` at every sample.
    pub proof fn lemma_pull_two_constant_sources(self, n: int, v: i64, s: Settings)
        requires
            self.wf(),
            0 <= n < self.nodes@.len(),
            self.nodes@[n].kind is Mixer,
            self.nodes@[n].inputs@.len() == 2,
            self.nodes@[self.nodes@[n].inputs@[0] as int].kind == (NodeKind::Source { value: v }),
            self.nodes@[self.nodes@[n].inputs@[1] as int].kind == (NodeKind::Source { value: v }),
            self.nodes@[n].volume == UNIT,
            self.nodes@[n].panning == 0,
            1 <= s.channels <= 2,
        ensures
            forall|idx: int|
                0 <= idx < s.spec_sample_count() ==> self.pull(
                    n,
                    zero_signal(s.spec_sample_count()),
                    s,
                )[idx] == 2 * v as int,
    {
        reveal_with_fuel(Graph::mix_inputs, 3);
        let len: int = s.spec_sample_count();
        let zs = zero_signal(len);
        let c0: int = self.nodes@[n].inputs@[0] as int;
        let c1: int = self.nodes@[n].inputs@[1] as int;
        lemma_gain_center(UNIT as int);
        let one = self.mix_inputs(n, 1, zs, s);
        assert forall|idx: int| 0 <= idx < len implies self.mix_inputs(n, 2, zs, s)[idx] == 2 * (
        v as int) by {
            lemma_mod_bound(idx, s.channels as int);
            lemma_scaled_unit(v as int);
            assert(channel_gain(UNIT as int, 0, idx % s.channels as int) == UNIT as int);
            assert(one[idx] == v as int);
        }
    }

    /// From "mixing the first `k` inputs fits" follows "mixing the first
    /// `j + 1` fit" for any `j < k`, which names the facts the mixing loop
    /// needs when it reaches input `j`.
    proof fn lemma_mix_inputs_fit_prefix(self, n: int, k: int, j: int, buf: Seq<int>, s: Settings)
        requires
            self.wf(),
            0 <= n < self.nodes@.len(),
            0 <= j < k <= self.nodes@[n].inputs@.len(),
            self.mix_inputs_fit(n, k, buf, s),
        ensures
            self.mix_inputs_fit(n, j + 1, buf, s),
        decreases k,
    {
        if j + 1 < k {
            self.lemma_mix_inputs_fit_prefix(n, k - 1, j, buf, s);
        }
    }
}

/// A unit that is the terminus of an external audio stream: the stream
/// collaborator hands it each block of interleaved samples as it arrives.
/// What a receiver does with a block is its own affair, so nothing is
/// prescribed here; this capability is independent of the pull algorithm.
pub trait InputNode {
    /// Receive one block of incoming audio.
    fn audio_received(&mut self, input: &Vec<i64>, settings: Settings);
}

} // verus!
