use crate::bitvec::{
    all_same_size, bits_of, compressed, compressed_len, equally_sized, is_packed, size_of_first,
    BitVec, CompressedBitVec,
};
use std::collections::VecDeque;
use vstd::prelude::*;
use vstd::std_specs::cmp::PartialEqSpec;

verus! {

/// A run of game controller states, one for each game tick.
#[derive(Debug)]
pub struct ControllerSequence {
    // Game tick of first element in seq.
    start_tick: usize,
    // Sequence of game controller states.
    seq: VecDeque<BitVec>,
}

/// A `ControllerSequence` in the form in which it travels over the network.
#[derive(Debug)]
pub struct CompressedControllerSequence {
    start_tick: usize,
    comp_seq: CompressedBitVec,
}

impl ControllerSequence {
    /// The game tick of the first controller state, or where there is none, of the next one.
    pub closed spec fn start(&self) -> usize {
        self.start_tick
    }

    /// The bits of each controller state, in order of ticks.
    pub closed spec fn inputs(&self) -> Seq<Seq<bool>> {
        bits_of(self.seq@)
    }

    /// The bits of the controller state of a game tick, if there is one.
    pub open spec fn at_tick(&self, tick: int) -> Option<Seq<bool>> {
        if self.start() <= tick < self.start() + self.inputs().len() {
            Some(self.inputs()[tick - self.start()])
        } else {
            None
        }
    }

    /// The number of bits of the compressed form.
    pub open spec fn compressed_bits(&self) -> nat {
        compressed(self.inputs()).len()
    }

    /// `comp` is the compressed form, which stands for the whole sequence.
    pub open spec fn is_compressed_to(&self, comp: CompressedControllerSequence) -> bool {
        &&& comp.start() == self.start()
        &&& comp.states().payload() == compressed(self.inputs())
        &&& is_packed(comp.states().words(), comp.states().last_bits())
        &&& comp.states().element_bits() == size_of_first(self.inputs())
        &&& comp.decoded() == Some(self.inputs())
    }

    /// A sequence has no more controller states than a `usize` counts.
    pub proof fn lemma_len_fits(&self)
        ensures
            self.inputs().len() <= usize::MAX,
    {
        assert(self.seq.len() == self.inputs().len());
    }

    /// An empty sequence that starts at the first tick.
    pub fn new() -> (r: Self)
        ensures
            r.start() == 0,
            r.inputs() == Seq::<Seq<bool>>::empty(),
    {
        let r = ControllerSequence { start_tick: 0, seq: VecDeque::new() };
        assert(r.inputs() =~= Seq::empty());
        r
    }

    /// Adds the controller state of the tick after the last one.
    pub fn push(&mut self, bitvec: BitVec)
        ensures
            final(self).start() == old(self).start(),
            final(self).inputs() == old(self).inputs().push(bitvec@),
    {
        let ghost before = self.inputs();
        self.seq.push_back(bitvec);
        assert(self.inputs() =~= before.push(bitvec@));
    }

    /// Where `cont_seq` starts later than `self` does, adds those of its controller states that
    /// are left after skipping one for each tick between the two starts.
    pub fn append(&mut self, cont_seq: ControllerSequence)
        requires
            i64::MIN <= tick_delta(cont_seq.start(), old(self).start()) <= i64::MAX,
        ensures
            final(self).start() == old(self).start(),
            final(self).inputs() == old(self).inputs() + appended(
                tick_delta(cont_seq.start(), old(self).start()),
                cont_seq.inputs(),
            ),
    {
        let ghost before = self.inputs();
        let tick_delta = cont_seq.start_tick as i64 - self.start_tick as i64;
        if tick_delta > 0 {
            let skipped = tick_delta as usize;
            let mut i: usize = if skipped < cont_seq.seq.len() {
                skipped
            } else {
                cont_seq.seq.len()
            };
            let ghost first = i as int;
            assert(before + cont_seq.inputs().subrange(first, first) =~= before);
            while i < cont_seq.seq.len()
                invariant
                    self.start() == old(self).start(),
                    0 <= first <= i <= cont_seq.seq@.len(),
                    self.inputs() == before + cont_seq.inputs().subrange(first, i as int),
                decreases cont_seq.seq@.len() - i,
            {
                let ghost so_far = self.inputs();
                self.push(cont_seq.seq[i].clone());
                assert(self.inputs() =~= before + cont_seq.inputs().subrange(first, i + 1));
                i = i + 1;
            }
            assert(cont_seq.inputs().subrange(first, i as int) =~= appended(
                tick_delta as int,
                cont_seq.inputs(),
            ));
        } else {
            assert(before + Seq::<Seq<bool>>::empty() =~= before);
        }
    }

    /// Whether all controller states have the same number of bits.
    pub fn is_equally_sized(&self) -> (r: bool)
        ensures
            r == all_same_size(self.inputs()),
    {
        for i in 0..self.seq.len()
            invariant
                forall|j: int|
                    0 <= j < i ==> (#[trigger] self.inputs()[j]).len() == size_of_first(
                        self.inputs(),
                    ),
        {
            assert(self.inputs()[i as int] == self.seq@[i as int]@);
            assert(self.inputs()[0] == self.seq@[0]@);
            if self.seq[i].len() != self.seq[0].len() {
                return false;
            }
        }
        true
    }

    /// Whether the number of bits of the compressed form fits a `usize`.
    pub fn compressed_size_fits(&self) -> (r: bool)
        ensures
            r == (self.compressed_bits() <= usize::MAX),
    {
        compressed_len(&self.seq).is_some()
    }

    /// The compressed form, or `None` where the controller states are not equally sized.
    pub fn to_compressed(&self) -> (r: Option<CompressedControllerSequence>)
        requires
            self.compressed_bits() <= usize::MAX,
        ensures
            r is Some <==> all_same_size(self.inputs()),
            r matches Some(comp) ==> self.is_compressed_to(comp),
    {
        match CompressedBitVec::compress(&self.seq) {
            Some(comp_seq) => Some(
                CompressedControllerSequence { start_tick: self.start_tick, comp_seq },
            ),
            None => None,
        }
    }

    /// The tick after that of the last controller state.
    pub fn last_tick(&self) -> (r: usize)
        requires
            self.start() + self.inputs().len() <= usize::MAX,
        ensures
            r == self.start() + self.inputs().len(),
    {
        self.start_tick + self.seq.len()
    }

    pub fn is_empty(&self) -> (r: bool)
        ensures
            r == (self.inputs().len() == 0),
    {
        self.seq.len() == 0
    }

    /// Removes the controller states of all ticks before `tick`. The sequence then starts at the
    /// tick of the first state that is left.
    pub fn remove_till_tick(&mut self, tick: usize)
        ensures
            ({
                let k = removed_count(
                    old(self).start() as int,
                    old(self).inputs().len() as int,
                    tick as int,
                );
                &&& final(self).start() == old(self).start() + k
                &&& final(self).inputs() == old(self).inputs().skip(k)
            }),
            forall|t: int| #[trigger]
                final(self).at_tick(t) == (if t < tick {
                    None
                } else {
                    old(self).at_tick(t)
                }),
    {
        let ghost before = self.inputs();
        assert(before.skip(0) =~= before);
        if tick > self.start_tick {
            let tick_count = tick - self.start_tick;
            let end: usize = if tick_count < self.seq.len() {
                tick_count
            } else {
                self.seq.len()
            };
            let mut i: usize = 0;
            while i < end
                invariant
                    i <= end <= before.len(),
                    self.start() == old(self).start(),
                    self.inputs() == before.skip(i as int),
                decreases end - i,
            {
                let ghost left = self.inputs();
                assert(left.len() == before.len() - i);
                let _ = self.seq.pop_front();
                assert(self.inputs() =~= left.skip(1));
                i = i + 1;
                assert(left.skip(1) =~= before.skip(i as int));
            }
            self.start_tick = self.start_tick + end;
        }
    }
}

/// The number of ticks from `earlier` to `later`, both read as signed 64-bit integers.
pub open spec fn tick_delta(later: usize, earlier: usize) -> int {
    (later as i64) - (earlier as i64)
}

/// What is added of `inputs` that start `tick_delta` ticks later.
pub open spec fn appended(tick_delta: int, inputs: Seq<Seq<bool>>) -> Seq<Seq<bool>> {
    if 0 < tick_delta < inputs.len() {
        inputs.skip(tick_delta)
    } else {
        Seq::empty()
    }
}

/// How many of `count` controller states from tick `start` on are those of ticks before `tick`.
pub open spec fn removed_count(start: int, count: int, tick: int) -> int {
    if tick <= start {
        0
    } else if tick - start < count {
        tick - start
    } else {
        count
    }
}

/// Removing the states before one tick and then those before another is removing the states before
/// the later of the two. So it makes no difference in what order acknowledgements come, nor how
/// often each does.
pub proof fn lemma_removals_add_up(start: int, inputs: Seq<Seq<bool>>, first: int, second: int)
    ensures
        ({
            let later = if first < second {
                second
            } else {
                first
            };
            let count = inputs.len() as int;
            let k = removed_count(start, count, first);
            let l = removed_count(start + k, count - k, second);
            &&& inputs.skip(k).skip(l) == inputs.skip(removed_count(start, count, later))
            &&& k + l == removed_count(start, count, later)
        }),
{
    let k = removed_count(start, inputs.len() as int, first);
    let l = removed_count(start + k, inputs.len() - k, second);
    assert(inputs.skip(k).skip(l) =~= inputs.skip(k + l));
}

impl CompressedControllerSequence {
    /// The game tick of the first controller state.
    pub closed spec fn start(&self) -> usize {
        self.start_tick
    }

    /// The controller states that this value stands for, if it stands for any.
    pub open spec fn decoded(&self) -> Option<Seq<Seq<bool>>> {
        self.states().decoded()
    }

    /// The compressed controller states.
    pub closed spec fn states(&self) -> CompressedBitVec {
        self.comp_seq
    }

    /// Both values start at the same tick and have the same payload.
    pub open spec fn same(&self, other: &Self) -> bool {
        self.start() == other.start() && self.states().same(&other.states())
    }

    /// The sequence of the compressed states `comp_seq` from tick `start_tick` on.
    pub fn from_parts(start_tick: usize, comp_seq: CompressedBitVec) -> (r: Self)
        ensures
            r.start() == start_tick,
            r.states() == comp_seq,
    {
        CompressedControllerSequence { start_tick, comp_seq }
    }

    /// The start tick and the compressed states.
    pub fn into_parts(self) -> (r: (usize, CompressedBitVec))
        ensures
            r.0 == self.start(),
            r.1 == self.states(),
    {
        (self.start_tick, self.comp_seq)
    }

    /// The sequence that was compressed, or `None` where the payload stands for none.
    pub fn to_controller_sequence(self) -> (r: Option<ControllerSequence>)
        ensures
            self.decoded() == (match r {
                Some(sequence) => Some(sequence.inputs()),
                None => None,
            }),
            r matches Some(sequence) ==> {
                &&& sequence.start() == self.start()
                &&& equally_sized(self.states().element_bits(), sequence.inputs())
            },
    {
        match self.comp_seq.decompress() {
            Some(seq) => Some(ControllerSequence { start_tick: self.start_tick, seq }),
            None => None,
        }
    }
}

impl Clone for ControllerSequence {
    fn clone(&self) -> (r: Self)
        ensures
            r.start() == self.start(),
            r.inputs() == self.inputs(),
    {
        let r = ControllerSequence { start_tick: self.start_tick, seq: self.seq.clone() };
        assert(r.inputs() =~= self.inputs()) by {
            assert forall|i: int| 0 <= i < self.seq@.len() implies self.seq@[i]@
                == r.seq@[i]@ by {
                assert(cloned::<BitVec>(self.seq@[i], r.seq@[i]));
            }
        }
        r
    }
}

impl Clone for CompressedControllerSequence {
    fn clone(&self) -> (r: Self)
        ensures
            r.same(self),
    {
        CompressedControllerSequence {
            start_tick: self.start_tick,
            comp_seq: self.comp_seq.clone(),
        }
    }
}

impl PartialEq for CompressedControllerSequence {
    fn eq(&self, other: &Self) -> (r: bool) {
        self.start_tick == other.start_tick && self.comp_seq == other.comp_seq
    }
}

impl vstd::std_specs::cmp::PartialEqSpecImpl for CompressedControllerSequence {
    open spec fn obeys_eq_spec() -> bool {
        true
    }

    open spec fn eq_spec(&self, other: &Self) -> bool {
        self.same(other)
    }
}

/// A sequence has a controller state for each tick from its start on, in order, and for no other
/// tick.
pub proof fn lemma_states_follow_the_ticks(sequence: ControllerSequence, tick: int)
    ensures
        sequence.start() <= tick < sequence.start() + sequence.inputs().len() ==> sequence.at_tick(
            tick,
        ) == Some(sequence.inputs()[tick - sequence.start()]),
        !(sequence.start() <= tick < sequence.start() + sequence.inputs().len())
            ==> sequence.at_tick(tick) is None,
{
}

/// Of the states from tick `start` on, those that are removed are those of ticks before `tick`: a
/// state is among the removed ones exactly when its tick is earlier.
pub proof fn lemma_earlier_ticks_are_removed(start: int, count: int, tick: int, t: int)
    requires
        start <= t < start + count,
    ensures
        0 <= removed_count(start, count, tick) <= count,
        t < start + removed_count(start, count, tick) <==> t < tick,
{
}

/// What is appended of states that start later: all but as many as there are ticks between the
/// starts. Of states that start no later, nothing is.
pub proof fn lemma_appended_states(delta: int, inputs: Seq<Seq<bool>>, i: int)
    ensures
        delta <= 0 || delta >= inputs.len() ==> appended(delta, inputs).len() == 0,
        0 < delta < inputs.len() ==> appended(delta, inputs).len() == inputs.len() - delta,
        0 < delta && 0 <= i && delta + i < inputs.len() ==> appended(delta, inputs)[i]
            == inputs[delta + i],
{
}

/// The number of ticks between two starts is their difference, as far as signed integers count.
pub proof fn lemma_ticks_between_starts(later: usize, earlier: usize)
    requires
        later <= i64::MAX,
        earlier <= i64::MAX,
    ensures
        tick_delta(later, earlier) == later - earlier,
{
}

/// A sequence survives compression and the network: what is made of the values that were received
/// has the same controller state at every tick.
pub proof fn lemma_sequence_survives(
    sequence: ControllerSequence,
    comp: CompressedControllerSequence,
    received: CompressedControllerSequence,
    back: ControllerSequence,
)
    requires
        sequence.is_compressed_to(comp),
        received.start() == comp.start(),
        received.states().words() == comp.states().words(),
        received.states().last_bits() == comp.states().last_bits(),
        received.states().element_bits() == comp.states().element_bits(),
        back.start() == received.start(),
        received.decoded() == Some(back.inputs()),
    ensures
        back.start() == sequence.start(),
        back.inputs() == sequence.inputs(),
        forall|t: int| #[trigger] back.at_tick(t) == sequence.at_tick(t),
        comp.states().payload() == compressed(sequence.inputs()),
        comp.states().element_bits() == size_of_first(sequence.inputs()),
{
}

/// A compressed sequence stands for what its states do, and equals another exactly when it starts
/// at the same tick and has the same states.
pub proof fn lemma_compressed_sequence_is_its_states(
    a: CompressedControllerSequence,
    b: CompressedControllerSequence,
)
    ensures
        a.decoded() == a.states().decoded(),
        a.eq_spec(&b) <==> a.start() == b.start() && a.states().words() == b.states().words()
            && a.states().last_bits() == b.states().last_bits() && a.states().element_bits()
            == b.states().element_bits(),
{
}

} // verus!
