//! A delay line: the recent history of a signal, newest sample first, from
//! which the sample pushed a set number of steps ago is read back.
//!
//! The line keeps at most `limit` samples. It is made with room for twice
//! its delay (and for at least one sample), and when the delay is raised
//! beyond half of that room, the room grows to the samples held plus twice
//! the new delay; samples already held are never dropped by that change.
use std::collections::VecDeque;
use vstd::prelude::*;

verus! {

/// The abstract state of a delay line.
pub ghost struct DelayLineState<T> {
    /// How many steps back the line reads.
    pub delay: nat,
    /// How many samples the line keeps.
    pub limit: nat,
    /// The samples kept, newest first.
    pub history: Seq<T>,
}

/// A delay line over samples of type `T`.
#[derive(Debug)]
pub struct DelayLine<T> {
    delay: usize,
    limit: usize,
    history: VecDeque<T>,
}

/// The room a line with delay `delay` is made with: twice the delay, and
/// never less than one sample.
pub open spec fn initial_limit(delay: nat) -> nat {
    if delay == 0 { 1 } else { 2 * delay }
}

/// The position in the history that a line with delay `delay` reads: the
/// sample pushed `delay` steps ago; a delay of zero reads like a delay of one.
pub open spec fn tap_index(delay: nat) -> nat {
    if delay == 0 { 0 } else { (delay - 1) as nat }
}

/// What a line with delay `delay` and history `history` reads.
pub open spec fn tap_of<T>(history: Seq<T>, delay: nat) -> Option<T> {
    if tap_index(delay) < history.len() {
        Some(history[tap_index(delay) as int])
    } else {
        None
    }
}

/// The history after pushing `x`: when the line is full its oldest sample
/// makes room for the new one.
pub open spec fn push_step<T>(history: Seq<T>, limit: nat, x: T) -> Seq<T> {
    seq![x] + if history.len() == limit { history.drop_last() } else { history }
}

/// The history after pushing each sample of `samples` in order.
pub open spec fn push_all<T>(history: Seq<T>, limit: nat, samples: Seq<T>) -> Seq<T>
    decreases samples.len(),
{
    if samples.len() == 0 {
        history
    } else {
        push_step(push_all(history, limit, samples.drop_last()), limit, samples.last())
    }
}

/// The room after the delay is set to `delay` on a line holding `held`
/// samples with room for `limit`.
pub open spec fn limit_after_set_delay(limit: nat, held: nat, delay: nat) -> nat {
    if limit < 2 * delay { held + 2 * delay } else { limit }
}

impl<T> View for DelayLine<T> {
    type V = DelayLineState<T>;

    closed spec fn view(&self) -> DelayLineState<T> {
        DelayLineState {
            delay: self.delay as nat,
            limit: self.limit as nat,
            history: self.history@,
        }
    }
}

/// A line's state is consistent: it never holds more than its room, and its
/// room is at least one sample and at least twice its delay.
pub open spec fn state_wf<T>(s: DelayLineState<T>) -> bool {
    &&& s.history.len() <= s.limit
    &&& 1 <= s.limit
    &&& 2 * s.delay <= s.limit
}

impl<T> DelayLine<T> {
    #[verifier::type_invariant]
    closed spec fn inv(self) -> bool {
        state_wf(self@)
    }
}

impl<T: Copy> DelayLine<T> {
    /// A silent line that reads `delay` steps back.
    pub fn new(delay: usize) -> (line: Self)
        requires
            delay <= usize::MAX / 2,
        ensures
            line@.delay == delay,
            line@.limit == initial_limit(delay as nat),
            delay == 0 ==> line@.limit == 1,
            delay > 0 ==> line@.limit == 2 * delay,
            line@.history == Seq::<T>::empty(),
            state_wf(line@),
    {
        let limit: usize = if delay == 0 { 1 } else { delay * 2 };
        DelayLine { delay, limit, history: VecDeque::with_capacity(delay * 2) }
    }

    /// How many steps back the line reads.
    pub fn delay(&self) -> (d: usize)
        ensures
            d == self@.delay,
            state_wf(self@),
    {
        proof {
            use_type_invariant(self);
        }
        self.delay
    }

    /// How many samples the line keeps.
    pub fn limit(&self) -> (l: usize)
        ensures
            l == self@.limit,
            state_wf(self@),
    {
        proof {
            use_type_invariant(self);
        }
        self.limit
    }

    /// How many samples the line holds now.
    pub fn len(&self) -> (n: usize)
        ensures
            n == self@.history.len(),
            state_wf(self@),
    {
        proof {
            use_type_invariant(self);
        }
        self.history.len()
    }

    /// Reads the sample pushed `delay` steps ago, or `None` while fewer
    /// samples are held.
    pub fn tap(&self) -> (r: Option<T>)
        ensures
            r == tap_of(self@.history, self@.delay),
            state_wf(self@),
    {
        proof {
            use_type_invariant(self);
        }
        let index: usize = if self.delay == 0 { 0 } else { self.delay - 1 };
        if index < self.history.len() {
            Some(self.history[index])
        } else {
            None
        }
    }

    /// Pushes the newest sample; a full line first drops its oldest one.
    pub fn push(&mut self, x: T)
        ensures
            final(self)@.delay == old(self)@.delay,
            final(self)@.limit == old(self)@.limit,
            final(self)@.history == push_step(old(self)@.history, old(self)@.limit, x),
            state_wf(final(self)@),
    {
        proof {
            use_type_invariant(&*self);
        }
        let mut history: VecDeque<T> = VecDeque::new();
        std::mem::swap(&mut history, &mut self.history);
        if history.len() == self.limit {
            history.pop_back();
        }
        history.push_front(x);
        assert(history@ =~= push_step(old(self)@.history, old(self)@.limit, x));
        self.history = history;
    }

    /// Makes the line read `delay` steps back, growing its room when the
    /// new delay needs more than it has. The samples held stay as they are.
    pub fn set_delay(&mut self, delay: usize)
        requires
            delay <= usize::MAX / 2,
            old(self)@.history.len() + 2 * delay <= usize::MAX,
        ensures
            final(self)@.delay == delay,
            final(self)@.limit == limit_after_set_delay(
                old(self)@.limit,
                old(self)@.history.len(),
                delay as nat,
            ),
            old(self)@.limit < 2 * delay ==> final(self)@.limit == old(self)@.history.len() + 2 * delay,
            old(self)@.limit >= 2 * delay ==> final(self)@.limit == old(self)@.limit,
            final(self)@.history == old(self)@.history,
            state_wf(final(self)@),
    {
        proof {
            use_type_invariant(&*self);
        }
        let twice: usize = delay * 2;
        if self.limit < twice {
            let mut history: VecDeque<T> = VecDeque::new();
            std::mem::swap(&mut history, &mut self.history);
            let grown: usize = history.len() + twice;
            reserve_exact(&mut history, twice);
            self.history = history;
            self.limit = grown;
        }
        self.delay = delay;
    }
}

/// The history after any run of pushes is the pushed samples, newest
/// first, followed by what was held before, cut to the line's room.
pub proof fn lemma_history_after_pushes<T>(history: Seq<T>, limit: nat, samples: Seq<T>)
    requires
        history.len() <= limit,
        1 <= limit,
    ensures
        push_all(history, limit, samples) == (samples.reverse() + history).take(
            if samples.len() + history.len() <= limit { samples.len() + history.len() } else { limit } as int,
        ),
    decreases samples.len(),
{
    if samples.len() == 0 {
        assert(samples.reverse() + history =~= history);
        assert(history.take(history.len() as int) =~= history);
    } else {
        let prev = samples.drop_last();
        let x = samples.last();
        lemma_history_after_pushes(history, limit, prev);
        let p = push_all(history, limit, prev);
        let all_prev = prev.reverse() + history;
        let all = samples.reverse() + history;
        assert(all =~= seq![x] + all_prev) by {
            assert forall|i: int| 0 <= i < all.len() implies all[i] == (seq![x] + all_prev)[i] by {
                if i < samples.len() {
                    if i > 0 {
                        assert(samples.reverse()[i] == prev.reverse()[i - 1]);
                    }
                }
            }
        }
        if p.len() == limit {
            assert(push_all(history, limit, samples) =~= all.take(limit as int));
        } else {
            assert(push_all(history, limit, samples) =~= all.take(
                (samples.len() + history.len()) as int,
            ));
        }
    }
}

/// A delay line echoes: once at least `max(delay, 1)` samples have been
/// pushed, it reads back exactly the sample pushed that many steps ago.
pub proof fn lemma_echo<T>(history: Seq<T>, limit: nat, delay: nat, samples: Seq<T>)
    requires
        state_wf(DelayLineState { delay, limit, history }),
        tap_index(delay) < samples.len(),
    ensures
        tap_of(push_all(history, limit, samples), delay) == Some(
            samples[samples.len() - 1 - tap_index(delay)],
        ),
{
    lemma_history_after_pushes(history, limit, samples);
    let k = tap_index(delay);
    assert(k < limit);
    assert(samples.reverse()[k as int] == samples[samples.len() - 1 - k]);
}

/// A new line is silent: it reads nothing until `max(delay, 1)` samples
/// have been pushed.
pub proof fn lemma_silent_start<T>(limit: nat, delay: nat, samples: Seq<T>)
    requires
        1 <= limit,
        samples.len() <= tap_index(delay),
    ensures
        tap_of(push_all(Seq::<T>::empty(), limit, samples), delay) == None::<T>,
{
    lemma_history_after_pushes(Seq::<T>::empty(), limit, samples);
}

/// What a line reads: with delay `d >= 1`, the `d`-th newest sample held
/// (position `d - 1`), or nothing while fewer than `d` are held; a delay of
/// zero reads the newest sample.
pub proof fn lemma_tap_reads<T>(history: Seq<T>, delay: nat)
    ensures
        1 <= delay <= history.len() ==> tap_of(history, delay) == Some(history[delay - 1]),
        1 <= delay && history.len() < delay ==> tap_of(history, delay) == None::<T>,
        delay == 0 && 0 < history.len() ==> tap_of(history, delay) == Some(history[0]),
        delay == 0 && history.len() == 0 ==> tap_of(history, delay) == None::<T>,
{
}

/// Pushing puts the new sample first and shifts every held sample one
/// place back; a full line loses its oldest sample, any other line grows by
/// one.
pub proof fn lemma_push_newest_first<T>(history: Seq<T>, limit: nat, x: T)
    requires
        history.len() <= limit,
        1 <= limit,
    ensures
        push_step(history, limit, x)[0] == x,
        history.len() < limit ==> push_step(history, limit, x).len() == history.len() + 1,
        history.len() == limit ==> push_step(history, limit, x).len() == limit,
        forall|i: int| 1 <= i < push_step(history, limit, x).len()
            ==> #[trigger] push_step(history, limit, x)[i] == history[i - 1],
{
}

/// The echo, stated by steps: on any consistent line with delay `d >= 1`,
/// once at least `d` samples have been pushed the line reads exactly the
/// sample pushed `d` steps ago; with delay zero it reads the last one
/// pushed.
pub proof fn lemma_echo_by_steps<T>(history: Seq<T>, limit: nat, delay: nat, samples: Seq<T>)
    requires
        history.len() <= limit,
        1 <= limit,
        2 * delay <= limit,
        1 <= samples.len(),
        delay <= samples.len(),
    ensures
        1 <= delay ==> tap_of(push_all(history, limit, samples), delay) == Some(
            samples[samples.len() - delay],
        ),
        delay == 0 ==> tap_of(push_all(history, limit, samples), delay) == Some(
            samples[samples.len() - 1],
        ),
{
    lemma_history_after_pushes(history, limit, samples);
    let all = samples.reverse() + history;
    if 1 <= delay {
        assert(delay - 1 < limit);
        assert(all[delay - 1] == samples[samples.len() - delay]);
    } else {
        assert(all[0] == samples[samples.len() - 1]);
    }
    lemma_tap_reads(push_all(history, limit, samples), delay);
}

/// Calls `VecDeque::reserve_exact`, which only sets aside memory: the
/// contract claims that the items held are unchanged. What memory is set
/// aside is left unsaid.
#[verifier::external_body]
fn reserve_exact<T>(deque: &mut VecDeque<T>, additional: usize)
    requires
        old(deque)@.len() + additional <= usize::MAX,
    ensures
        final(deque)@ == old(deque)@,
{
    deque.reserve_exact(additional);
}

} // verus!
