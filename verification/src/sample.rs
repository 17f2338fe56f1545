//! Sampling a stream: a second stream, the sampler, decides when a value is let through.
//!
//! Each poll first polls the source stream. When the source has ended the
//! sampled stream ends. When the source yields an item, that item replaces
//! the value held so far, and the value it replaced is what a tick of the
//! sampler in the same poll lets through. Then the sampler is polled: a tick
//! emits that value if there is one (else the poll is pending), the sampler's
//! end ends the sampled stream, and a pending sampler leaves the poll pending.

use vstd::prelude::*;

use crate::poll::PollNext;

verus! {

/// The state of a stream sampled by another: the source stream, the sampler
/// and the value held from the source.
#[derive(Debug)]
pub struct Sample<T, S, V> {
    stream: T,
    sampler: S,
    value: Option<V>,
}

/// The contents of a [`Sample`], as the contracts speak of them.
pub struct SampleView<T, S, V> {
    /// The source stream.
    pub stream: T,
    /// The stream whose items decide when a value is let through.
    pub sampler: S,
    /// The last item taken from the source.
    pub value: Option<V>,
}

impl<T, S, V> View for Sample<T, S, V> {
    type V = SampleView<T, S, V>;

    closed spec fn view(&self) -> SampleView<T, S, V> {
        SampleView { stream: self.stream, sampler: self.sampler, value: self.value }
    }
}

/// What a sampled stream does once its source has been polled.
#[derive(Debug, Clone, Copy, PartialEq, Eq)]
pub enum SampleStage<V> {
    /// The source has ended: the sampled stream ends, and the sampler is not polled.
    End,
    /// The sampler is polled next; a tick lets through the value given here, if any.
    PollSampler(Option<V>),
}

/// The state after the source's poll gave `ev`, and the stage that follows.
pub open spec fn source_step<T, S, V>(pre: SampleView<T, S, V>, ev: PollNext<V>) -> (SampleView<T, S, V>, SampleStage<V>) {
    match ev {
        PollNext::Item(v) => (SampleView { value: Some(v), ..pre }, SampleStage::PollSampler(pre.value)),
        PollNext::Done => (pre, SampleStage::End),
        PollNext::Pending => (pre, SampleStage::PollSampler(None)),
    }
}

/// What the sampled stream reports, from the stage after the source's poll
/// and what polling the sampler gave (not looked at when the source ended).
pub open spec fn sample_output<V, U>(stage: SampleStage<V>, sampler_ev: PollNext<U>) -> PollNext<V> {
    match stage {
        SampleStage::End => PollNext::Done,
        SampleStage::PollSampler(prev) => match sampler_ev {
            PollNext::Item(_) => match prev {
                Some(v) => PollNext::Item(v),
                None => PollNext::Pending,
            },
            PollNext::Done => PollNext::Done,
            PollNext::Pending => PollNext::Pending,
        },
    }
}

/// Samples `stream` with `sampler`, holding no value yet.
pub fn sample<T, S, V>(stream: T, sampler: S) -> (s: Sample<T, S, V>)
    ensures
        s@.stream == stream,
        s@.sampler == sampler,
        s@.value is None,
{
    Sample { stream, sampler, value: None }
}

impl<T, S, V> Sample<T, S, V> {
    /// Acquires a reference to the underlying stream that this combinator is
    /// pulling from.
    pub fn get_ref(&self) -> (r: &T)
        ensures
            *r == self@.stream,
    {
        &self.stream
    }

    /// Acquires a mutable reference to the underlying stream that this combinator
    /// is pulling from.
    ///
    /// Note that care must be taken to avoid tampering with the state of the stream
    /// which may otherwise confuse this combinator.
    pub fn get_mut(&mut self) -> (r: &mut T)
        ensures
            *r == old(self)@.stream,
            final(self)@.stream == *final(r),
            final(self)@.sampler == old(self)@.sampler,
            final(self)@.value == old(self)@.value,
    {
        &mut self.stream
    }

    /// Consumes this combinator, returning the underlying stream.
    ///
    /// Note that this may discard intermediate state of this combinator, so care
    /// should be taken to avoid losing resources when this is called.
    pub fn into_inner(self) -> (r: T)
        ensures
            r == self@.stream,
    {
        self.stream
    }

    /// The sampler, to be polled.
    pub fn get_sampler_mut(&mut self) -> (r: &mut S)
        ensures
            *r == old(self)@.sampler,
            final(self)@.sampler == *final(r),
            final(self)@.stream == old(self)@.stream,
            final(self)@.value == old(self)@.value,
    {
        &mut self.sampler
    }

    /// Decides the first half of a poll, given what polling the source gave:
    /// an item replaces the held value, and the replaced value is what a tick
    /// may let through; the source's end ends the sampled stream; a pending
    /// source leaves nothing to let through.
    pub fn poll_source_step(&mut self, source_poll: PollNext<V>) -> (stage: SampleStage<V>)
        ensures
            (final(self)@, stage) == source_step(old(self)@, source_poll),
    {
        match source_poll {
            PollNext::Item(value) => {
                let prev = self.value.take();
                self.value = Some(value);
                SampleStage::PollSampler(prev)
            },
            PollNext::Done => SampleStage::End,
            PollNext::Pending => SampleStage::PollSampler(None),
        }
    }
}

impl<V> SampleStage<V> {
    /// Decides the end of a poll, given what polling the sampler gave (when
    /// the source has ended the sampler is not polled, and `sampler_poll` is
    /// not looked at).
    pub fn poll_sampler_step<U>(self, sampler_poll: PollNext<U>) -> (out: PollNext<V>)
        ensures
            out == sample_output(self, sampler_poll),
    {
        match self {
            SampleStage::End => PollNext::Done,
            SampleStage::PollSampler(prev) => match sampler_poll {
                PollNext::Item(_) => match prev {
                    Some(value) => PollNext::Item(value),
                    None => PollNext::Pending,
                },
                PollNext::Done => PollNext::Done,
                PollNext::Pending => PollNext::Pending,
            },
        }
    }
}

/// One whole poll of a sampled stream: the source's poll gave `source_ev`
/// and the sampler's gave `sampler_ev`. The sampled stream ends exactly when
/// one of the two ended; it emits exactly when the source yielded an item and
/// the sampler ticked while a value was held, and what it emits is the value
/// held before this poll; the source's item is held afterwards.
pub proof fn lemma_sample_poll<T, S, V, U>(pre: SampleView<T, S, V>, source_ev: PollNext<V>, sampler_ev: PollNext<U>)
    ensures
        ({
            let (post, stage) = source_step(pre, source_ev);
            let out = sample_output(stage, sampler_ev);
            &&& (out is Done <==> (source_ev is Done || sampler_ev is Done))
            &&& (out is Item <==> (source_ev is Item && sampler_ev is Item && pre.value is Some))
            &&& (out is Item ==> out->Item_0 == pre.value->0)
            &&& (source_ev is Item ==> post.value == Some(source_ev->Item_0))
            &&& (!(source_ev is Item) ==> post == pre)
            &&& post.stream == pre.stream
            &&& post.sampler == pre.sampler
        }),
{
}

/// The items among a run of poll outcomes, in order.
pub open spec fn items_of<V>(evs: Seq<PollNext<V>>) -> Seq<V>
    decreases evs.len(),
{
    if evs.len() == 0 {
        Seq::empty()
    } else {
        let earlier = items_of(evs.drop_last());
        match evs.last() {
            PollNext::Item(v) => earlier.push(v),
            _ => earlier,
        }
    }
}

/// Whether `a` is `b` with some of its elements left out and the rest kept
/// in order.
pub open spec fn is_subsequence<V>(a: Seq<V>, b: Seq<V>) -> bool
    decreases b.len(),
{
    if a.len() == 0 {
        true
    } else if b.len() == 0 {
        false
    } else if a.last() == b.last() {
        is_subsequence(a.drop_last(), b.drop_last()) || is_subsequence(a, b.drop_last())
    } else {
        is_subsequence(a, b.drop_last())
    }
}

/// A run of polls of a sampled stream: `states[k]` is the state before the
/// `k`-th poll, in which the source gave `source_evs[k]`, the sampler gave
/// `sampler_evs[k]` and the sampled stream reported `outs[k]`.
pub open spec fn is_sample_run<T, S, V, U>(
    states: Seq<SampleView<T, S, V>>,
    source_evs: Seq<PollNext<V>>,
    sampler_evs: Seq<PollNext<U>>,
    outs: Seq<PollNext<V>>,
) -> bool {
    &&& states.len() == outs.len() + 1
    &&& source_evs.len() == outs.len()
    &&& sampler_evs.len() == outs.len()
    &&& forall|k: int|
        #![trigger outs[k]]
        0 <= k < outs.len() ==> {
            &&& states[k + 1] == source_step(states[k], source_evs[k]).0
            &&& outs[k] == sample_output(source_step(states[k], source_evs[k]).1, sampler_evs[k])
        }
}

/// Over any run of polls of a sampled stream that starts holding no value
/// (as [`sample`] builds it), the items it emits, in order, are items that
/// the source yielded, in the same order, each emitted at most once.
pub proof fn lemma_samples_are_a_subsequence<T, S, V, U>(
    states: Seq<SampleView<T, S, V>>,
    source_evs: Seq<PollNext<V>>,
    sampler_evs: Seq<PollNext<U>>,
    outs: Seq<PollNext<V>>,
)
    requires
        is_sample_run(states, source_evs, sampler_evs, outs),
        states[0].value is None,
    ensures
        is_subsequence(items_of(outs), items_of(source_evs)),
{
    let n = outs.len() as int;
    lemma_sample_run_prefix(states, source_evs, sampler_evs, outs, n);
    assert(source_evs.take(n) =~= source_evs);
    assert(outs.take(n) =~= outs);
    let items = items_of(source_evs);
    if items.len() > 0 {
        lemma_subsequence_extend(items_of(outs), items.drop_last(), items.last());
        assert(items.drop_last().push(items.last()) =~= items);
    }
}

/// After the first `n` polls of a run, the value held is the source's last
/// item so far, and what was emitted is a subsequence of the items before it.
proof fn lemma_sample_run_prefix<T, S, V, U>(
    states: Seq<SampleView<T, S, V>>,
    source_evs: Seq<PollNext<V>>,
    sampler_evs: Seq<PollNext<U>>,
    outs: Seq<PollNext<V>>,
    n: int,
)
    requires
        is_sample_run(states, source_evs, sampler_evs, outs),
        states[0].value is None,
        0 <= n <= outs.len(),
    ensures
        ({
            let items = items_of(source_evs.take(n));
            let emitted = items_of(outs.take(n));
            &&& items.len() == 0 ==> emitted.len() == 0 && states[n].value is None
            &&& items.len() > 0 ==> states[n].value == Some(items.last()) && is_subsequence(
                emitted,
                items.drop_last(),
            )
        }),
    decreases n,
{
    if n > 0 {
        let m = n - 1;
        lemma_sample_run_prefix(states, source_evs, sampler_evs, outs, m);
        assert(source_evs.take(n).drop_last() =~= source_evs.take(m));
        assert(outs.take(n).drop_last() =~= outs.take(m));
        assert(source_evs.take(n).last() == source_evs[m]);
        assert(outs.take(n).last() == outs[m]);
        let out = outs[m];
        let items = items_of(source_evs.take(m));
        let emitted = items_of(outs.take(m));
        if let PollNext::Item(v) = source_evs[m] {
            let items2 = items.push(v);
            assert(items2.drop_last() =~= items);
            if let PollNext::Item(x) = out {
                lemma_subsequence_push_both(emitted, items.drop_last(), x);
                assert(items.drop_last().push(items.last()) =~= items);
            } else if items.len() > 0 {
                lemma_subsequence_extend(emitted, items.drop_last(), items.last());
                assert(items.drop_last().push(items.last()) =~= items);
            }
        }
    }
}

/// A subsequence of `b` is a subsequence of `b` with one more element.
proof fn lemma_subsequence_extend<V>(a: Seq<V>, b: Seq<V>, x: V)
    requires
        is_subsequence(a, b),
    ensures
        is_subsequence(a, b.push(x)),
{
    assert(b.push(x).drop_last() =~= b);
}

/// Appending the same element to a subsequence and to the sequence keeps it
/// a subsequence.
proof fn lemma_subsequence_push_both<V>(a: Seq<V>, b: Seq<V>, x: V)
    requires
        is_subsequence(a, b),
    ensures
        is_subsequence(a.push(x), b.push(x)),
{
    assert(a.push(x).drop_last() =~= a);
    assert(b.push(x).drop_last() =~= b);
}

} // verus!
