//! Debouncing of one digital line with a confirmation count of two.
//!
//! The raw samples are kept in the two-sample shift register of `debouncr`;
//! the confirmed level is kept beside it, so that an edge is reported only
//! when the line settles at the level opposite to the confirmed one.

use debouncr::{Debouncer, Repeat2};
use vstd::prelude::*;

verus! {

/// Number of equal consecutive samples that confirm a new level.
pub const CONFIRMATIONS: u8 = 2;

/// A confirmed change of level.
#[derive(Clone, Copy, Debug, PartialEq, Eq, Structural)]
pub enum Edge {
    /// The line settled at the asserted level.
    Rising,
    /// The line settled at the released level.
    Falling,
}

impl Edge {
    /// The edge that confirms `level`.
    pub open spec fn towards(level: bool) -> Edge {
        if level {
            Edge::Rising
        } else {
            Edge::Falling
        }
    }

    /// The number under which the edge is reported.
    pub open spec fn spec_code(self) -> u8 {
        match self {
            Edge::Rising => 0,
            Edge::Falling => 1,
        }
    }

    /// The number under which the edge is reported: 0 for rising, 1 for
    /// falling.
    pub fn code(self) -> (code: u8)
        ensures
            code == self.spec_code(),
    {
        match self {
            Edge::Rising => 0,
            Edge::Falling => 1,
        }
    }
}

#[verifier::external_type_specification]
#[verifier::external_body]
#[verifier::reject_recursive_types(S)]
#[verifier::reject_recursive_types(M)]
pub struct ExDebouncer<S, M>(Debouncer<S, M>);

#[verifier::external_type_specification]
#[verifier::external_body]
pub struct ExRepeat2(Repeat2);

// The state byte of a `debouncr` register: bit 0 is the latest sample, bit 1
// the one before it.
pub uninterp spec fn register_bits(register: Debouncer<u8, Repeat2>) -> u8;

/// The register after `sample` is shifted in behind the latest sample.
pub open spec fn shifted(bits: u8, sample: bool) -> u8 {
    ((bits << 1) | (if sample { 1u8 } else { 0u8 })) & 0b11
}

/// What the register reports when `sample` is shifted into `bits`: nothing
/// while it already holds two samples equal to `sample`, else the edge of the
/// level at which the two latest samples agree.
pub open spec fn register_edge(bits: u8, sample: bool) -> Option<Edge> {
    if bits == 0b11 && sample {
        None
    } else if bits == 0 && !sample {
        None
    } else if shifted(bits, sample) == 0b11 {
        Some(Edge::Rising)
    } else if shifted(bits, sample) == 0 {
        Some(Edge::Falling)
    } else {
        None
    }
}

/// `debouncr::debounce_2`: a register whose two samples both equal
/// `initial`. Not proved; taken from the source of `debouncr`.
#[verifier::external_body]
fn new_register(initial: bool) -> (register: Debouncer<u8, Repeat2>)
    ensures
        register_bits(register) == if initial { 0b11u8 } else { 0u8 },
{
    debouncr::debounce_2(initial)
}

/// `Debouncer::<u8, Repeat2>::update`: shifts `sample` into the register and
/// reports the edge that `register_edge` describes. Not proved; taken from
/// the source of `debouncr`.
#[verifier::external_body]
fn shift_sample(register: &mut Debouncer<u8, Repeat2>, sample: bool) -> (edge: Option<Edge>)
    ensures
        register_bits(*final(register)) == shifted(register_bits(*old(register)), sample),
        edge == register_edge(register_bits(*old(register)), sample),
{
    match register.update(sample) {
        Some(debouncr::Edge::Rising) => Some(Edge::Rising),
        Some(debouncr::Edge::Falling) => Some(Edge::Falling),
        None => None,
    }
}

/// What a debouncer stands for: the confirmed level, and how many of the
/// latest samples in a row contradict it.
pub struct DebounceModel {
    /// The confirmed level: `true` is asserted.
    pub confirmed: bool,
    /// Length of the run of samples, since the last confirmed transition,
    /// that are opposite to the confirmed level.
    pub streak: nat,
}

impl DebounceModel {
    /// The model of a debouncer that starts at `initial`.
    pub open spec fn initial(initial: bool) -> DebounceModel {
        DebounceModel { confirmed: initial, streak: 0 }
    }

    /// The edge that `sample` confirms, if it completes a run of
    /// `CONFIRMATIONS` samples opposite to the confirmed level.
    pub open spec fn edge_on(self, sample: bool) -> Option<Edge> {
        if sample != self.confirmed && self.streak + 1 >= CONFIRMATIONS {
            Some(Edge::towards(sample))
        } else {
            None
        }
    }

    /// The model after `sample`: a sample at the confirmed level clears the
    /// run, an opposite one extends it, and a complete run moves the
    /// confirmed level and clears the run.
    pub open spec fn step(self, sample: bool) -> DebounceModel {
        if sample == self.confirmed {
            DebounceModel { confirmed: self.confirmed, streak: 0 }
        } else if self.streak + 1 >= CONFIRMATIONS {
            DebounceModel { confirmed: sample, streak: 0 }
        } else {
            DebounceModel { confirmed: self.confirmed, streak: self.streak + 1 }
        }
    }

    /// The model after all of `samples`, in order.
    pub open spec fn after(self, samples: Seq<bool>) -> DebounceModel
        decreases samples.len(),
    {
        if samples.len() == 0 {
            self
        } else {
            self.after(samples.drop_last()).step(samples.last())
        }
    }

    /// What the debouncer reports for `samples[i]` when it is fed `samples`
    /// in order.
    pub open spec fn emitted(self, samples: Seq<bool>, i: int) -> Option<Edge>
        recommends
            0 <= i < samples.len(),
    {
        self.after(samples.take(i)).edge_on(samples[i])
    }
}

proof fn lemma_streak_bounded(start: DebounceModel, samples: Seq<bool>)
    requires
        start.streak <= 1,
    ensures
        start.after(samples).streak <= 1,
    decreases samples.len(),
{
    if samples.len() > 0 {
        lemma_streak_bounded(start, samples.drop_last());
    }
}

/// Fed to a debouncer that starts at `initial`, a sequence of samples
/// yields an edge at a sample exactly when that sample and the one before it
/// are both opposite to the level confirmed so far. The edge leads to the
/// sample's level, which is confirmed from then on.
pub proof fn lemma_edge_iff_two_opposite(initial: bool, samples: Seq<bool>, i: int)
    requires
        0 <= i < samples.len(),
    ensures
        ({
            let start = DebounceModel::initial(initial);
            let before = start.after(samples.take(i));
            let edge = start.emitted(samples, i);
            &&& edge.is_some() <==> i >= 1 && samples[i - 1] != before.confirmed && samples[i]
                != before.confirmed
            &&& edge.is_some() ==> edge == Some(Edge::towards(samples[i]))
            &&& edge.is_some() ==> start.after(samples.take(i + 1)) == DebounceModel::initial(
                samples[i],
            )
        }),
{
    let start = DebounceModel::initial(initial);
    assert(samples.take(i + 1).drop_last() =~= samples.take(i));
    if i >= 1 {
        assert(samples.take(i).drop_last() =~= samples.take(i - 1));
        lemma_streak_bounded(start, samples.take(i - 1));
    }
}

/// A sample at the confirmed level ends a confirmation in progress: no edge
/// is reported and the run of opposite samples is cleared.
pub proof fn lemma_contradicting_sample_resets(model: DebounceModel, sample: bool)
    requires
        model.streak >= 1,
        sample == model.confirmed,
    ensures
        model.edge_on(sample).is_none(),
        model.step(sample) == DebounceModel::initial(model.confirmed),
{
}

/// A single opposite sample, with none before it since the last confirmed
/// transition, never yields an edge.
pub proof fn lemma_single_sample_is_silent(model: DebounceModel, sample: bool)
    requires
        model.streak == 0,
    ensures
        model.edge_on(sample).is_none(),
        model.step(sample).confirmed == model.confirmed,
{
}

/// The debouncer of one line.
pub struct DebounceState {
    samples: Debouncer<u8, Repeat2>,
    confirmed: bool,
}

impl View for DebounceState {
    type V = DebounceModel;

    closed spec fn view(&self) -> DebounceModel {
        DebounceModel {
            confirmed: self.confirmed,
            streak: if (register_bits(self.samples) & 1 == 1) != self.confirmed {
                1
            } else {
                0
            },
        }
    }
}

proof fn lemma_shifted(bits: u8, sample: bool)
    requires
        bits <= 3,
    ensures
        shifted(bits, sample) <= 3,
        (shifted(bits, sample) & 1 == 1) == sample,
        shifted(bits, sample) == 3 <==> (bits & 1 == 1) && sample,
        shifted(bits, sample) == 0 <==> !(bits & 1 == 1) && !sample,
{
    let low: u8 = if sample { 1u8 } else { 0u8 };
    assert(bits <= 3 && (low == 0 || low == 1) ==> {
        let next = ((bits << 1) | low) & 0b11;
        &&& next <= 3
        &&& ((next & 1 == 1) <==> low == 1)
        &&& (next == 3 <==> (bits & 1 == 1) && low == 1)
        &&& (next == 0 <==> !(bits & 1 == 1) && low == 0)
    }) by (bit_vector);
}

impl DebounceState {
    /// The register holds two samples, and where they agree they agree with
    /// the confirmed level.
    pub closed spec fn wf(&self) -> bool {
        let bits = register_bits(self.samples);
        &&& bits <= 3
        &&& bits == 3 ==> self.confirmed
        &&& bits == 0 ==> !self.confirmed
    }

    /// A debouncer whose confirmed level is `initial`.
    pub fn new(initial: bool) -> (state: DebounceState)
        ensures
            state.wf(),
            state@ == DebounceModel::initial(initial),
    {
        let state = DebounceState { samples: new_register(initial), confirmed: initial };
        proof {
            assert(3u8 & 1 == 1) by (bit_vector);
            assert(0u8 & 1 == 0) by (bit_vector);
        }
        state
    }

    /// The confirmed level.
    pub fn confirmed(&self) -> (level: bool)
        ensures
            level == self@.confirmed,
    {
        self.confirmed
    }

    /// Takes one raw sample. Reports an edge exactly when the sample
    /// completes a run of two samples opposite to the confirmed level, which
    /// then becomes the confirmed level; a sample at the confirmed level
    /// clears a run in progress.
    pub fn update(&mut self, sample: bool) -> (edge: Option<Edge>)
        requires
            old(self).wf(),
        ensures
            final(self).wf(),
            final(self)@ == old(self)@.step(sample),
            edge == old(self)@.edge_on(sample),
    {
        proof {
            lemma_shifted(register_bits(self.samples), sample);
        }
        let raw = shift_sample(&mut self.samples, sample);
        match raw {
            Some(Edge::Rising) => {
                if self.confirmed {
                    None
                } else {
                    self.confirmed = true;
                    Some(Edge::Rising)
                }
            },
            Some(Edge::Falling) => {
                if self.confirmed {
                    self.confirmed = false;
                    Some(Edge::Falling)
                } else {
                    None
                }
            },
            None => None,
        }
    }
}

} // verus!
