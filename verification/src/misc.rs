//! Small shared types.

use crate::slice_config::SliceConfig;
use crate::F32Bits;
use vstd::prelude::*;

verus! {

/// What a slicer hands over: the layers of a print, first to last, and the
/// configuration that they were sliced with.
pub struct SliceResult<'a, Layer> {
    pub layers: Vec<Layer>,
    pub slice_config: &'a SliceConfig,
}

/// A layer that is built run by run and then turned into its stored form.
/// An encoder for another dialect of the format implements this trait; the
/// container does not depend on which one is used.
pub trait EncodableLayer: Sized {
    /// The stored form of a layer.
    type Output: Send;

    /// The runs added so far.
    spec fn added(&self) -> Seq<Run>;

    /// Whether the encoder is in a state that its own methods left it in.
    spec fn ready(&self) -> bool;

    /// An encoder to which no run has been added.
    fn new() -> (e: Self)
        ensures
            e.ready(),
            e.added() == Seq::<Run>::empty(),
    ;

    /// Adds a run of `length` pixels of `value`.
    fn add_run(&mut self, length: u64, value: u8)
        requires
            old(self).ready(),
        ensures
            final(self).ready(),
            final(self).added() == old(self).added().push(Run { length, value }),
    ;

    /// What an implementation promises of the stored form `out` that
    /// [`Self::finish`] makes of the encoder.
    spec fn finished(
        &self,
        layer: usize,
        config: SliceConfig,
        layer_position_z: F32Bits,
        out: Self::Output,
    ) -> bool;

    /// The stored form of layer number `layer`, counted from zero, of a
    /// print with the given configuration. `layer_position_z` is the height
    /// of the layer: the layer height times the number of the layer counted
    /// from one.
    fn finish(
        self,
        layer: usize,
        config: &SliceConfig,
        layer_position_z: F32Bits,
    ) -> (out: Self::Output)
        requires
            self.ready(),
        ensures
            self.finished(layer, *config, layer_position_z, out),
    ;
}

/// A number of consecutive pixels of one value.
#[derive(Debug, Clone, Copy, PartialEq, Eq, Structural)]
pub struct Run {
    pub length: u64,
    pub value: u8,
}

/// The pixels that a sequence of runs stands for, in order.
pub open spec fn expand(runs: Seq<Run>) -> Seq<u8>
    decreases runs.len(),
{
    if runs.len() == 0 {
        Seq::empty()
    } else {
        expand(runs.drop_last()) + Seq::new(runs.last().length as nat, |i: int| runs.last().value)
    }
}

/// The number of pixels that a sequence of runs stands for.
pub open spec fn total_length(runs: Seq<Run>) -> nat
    decreases runs.len(),
{
    if runs.len() == 0 {
        0
    } else {
        total_length(runs.drop_last()) + runs.last().length as nat
    }
}

/// The value of the last run, or zero where there is none.
pub open spec fn last_value(runs: Seq<Run>) -> u8 {
    if runs.len() == 0 {
        0
    } else {
        runs.last().value
    }
}

/// The runs of equal neighbours that a row-major pixel sequence falls into.
pub open spec fn runs_of(pixels: Seq<u8>) -> Seq<Run>
    decreases pixels.len(),
{
    if pixels.len() == 0 {
        Seq::empty()
    } else {
        let before = runs_of(pixels.drop_last());
        if before.len() > 0 && before.last().value == pixels.last() {
            before.drop_last().push(
                Run { length: (before.last().length + 1) as u64, value: pixels.last() },
            )
        } else {
            before.push(Run { length: 1, value: pixels.last() })
        }
    }
}

/// Expanding is additive over concatenation.
pub proof fn lemma_expand_concat(a: Seq<Run>, b: Seq<Run>)
    ensures
        expand(a + b) == expand(a) + expand(b),
        total_length(a + b) == total_length(a) + total_length(b),
    decreases b.len(),
{
    if b.len() == 0 {
        assert(a + b =~= a);
        assert(expand(a) + expand(b) =~= expand(a));
    } else {
        assert((a + b).drop_last() =~= a + b.drop_last());
        lemma_expand_concat(a, b.drop_last());
        assert(expand(a + b) =~= expand(a) + expand(b));
    }
}

/// A run in front of others expands to its own pixels in front of theirs.
pub proof fn lemma_expand_first(run: Run, rest: Seq<Run>)
    ensures
        expand(seq![run] + rest) == Seq::new(run.length as nat, |i: int| run.value) + expand(rest),
        total_length(seq![run] + rest) == run.length + total_length(rest),
{
    lemma_expand_concat(seq![run], rest);
    assert(seq![run].drop_last() =~= Seq::<Run>::empty());
    assert(expand(Seq::<Run>::empty()) =~= Seq::<u8>::empty());
    assert(total_length(Seq::<Run>::empty()) == 0);
    assert(expand(seq![run]) =~= Seq::new(run.length as nat, |i: int| run.value));
}

/// A sequence of runs expands to as many pixels as its lengths add up to.
pub proof fn lemma_expand_len(runs: Seq<Run>)
    ensures
        expand(runs).len() == total_length(runs),
    decreases runs.len(),
{
    if runs.len() > 0 {
        lemma_expand_len(runs.drop_last());
    }
}

/// Splitting pixels into runs loses nothing: the runs expand to the pixels,
/// no run is empty, no run is longer than the picture, and neighbouring
/// runs differ in value.
pub proof fn lemma_runs_of(pixels: Seq<u8>)
    requires
        pixels.len() <= u64::MAX,
    ensures
        expand(runs_of(pixels)) == pixels,
        total_length(runs_of(pixels)) == pixels.len(),
        forall|i: int| 0 <= i < runs_of(pixels).len() ==> 1 <= #[trigger] runs_of(pixels)[i].length,
        forall|i: int|
            0 <= i < runs_of(pixels).len() - 1 ==> #[trigger] runs_of(pixels)[i].value
                != runs_of(pixels)[i + 1].value,
        pixels.len() > 0 ==> runs_of(pixels).len() > 0 && runs_of(pixels).last().value
            == pixels.last(),
    decreases pixels.len(),
{
    if pixels.len() > 0 {
        let head = pixels.drop_last();
        let before = runs_of(head);
        lemma_runs_of(head);
        lemma_expand_len(before);
        let v = pixels.last();
        if before.len() > 0 && before.last().value == v {
            let n = before.last().length;
            assert(total_length(before) == total_length(before.drop_last()) + n);
            assert(n + 1 <= u64::MAX);
            let grown = before.drop_last().push(Run { length: (n + 1) as u64, value: v });
            assert(grown.drop_last() =~= before.drop_last());
            assert(Seq::new((n + 1) as nat, |i: int| v) =~= Seq::new(n as nat, |i: int| v).push(v));
            assert(expand(grown) =~= expand(before).push(v));
            assert(expand(before).push(v) =~= pixels);
        } else {
            let grown = before.push(Run { length: 1, value: v });
            assert(grown.drop_last() =~= before);
            assert(Seq::new(1nat, |i: int| v) =~= seq![v]);
            assert(expand(grown) =~= expand(before).push(v));
            assert(expand(before).push(v) =~= pixels);
        }
    }
}

} // verus!
