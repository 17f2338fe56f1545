//! Switching: a stream of streams flattened so that only the latest inner
//! stream is followed.
//!
//! Each poll first drains the outer stream: every inner stream it yields
//! replaces (and drops) the one followed so far, and the outer stream's end
//! ends the switched stream. Once the outer stream is pending, the current
//! inner stream, if any, is polled: its items are passed through, while its
//! end, or its being pending, leaves the poll pending. Only the outer stream
//! ends the switched stream.

use vstd::prelude::*;

use crate::poll::PollNext;

verus! {

/// The state of a switched stream: the outer stream and the inner stream
/// followed now.
#[derive(Debug)]
pub struct SwitchStream<St, I> {
    stream: St,
    inner: Option<I>,
}

/// The contents of a [`SwitchStream`], as the contracts speak of them.
pub struct SwitchView<St, I> {
    /// The outer stream, which yields inner streams.
    pub stream: St,
    /// The inner stream followed now, if the outer stream has yielded one.
    pub inner: Option<I>,
}

impl<St, I> View for SwitchStream<St, I> {
    type V = SwitchView<St, I>;

    closed spec fn view(&self) -> SwitchView<St, I> {
        SwitchView { stream: self.stream, inner: self.inner }
    }
}

/// What a switched stream does after one poll of its outer stream.
#[derive(Debug, Clone, Copy, PartialEq, Eq)]
pub enum OuterStep {
    /// The outer stream yielded an inner stream: poll the outer stream again.
    PollOuterAgain,
    /// The outer stream is pending: poll the current inner stream.
    PollInner,
    /// The outer stream has ended: so has the switched stream.
    End,
}

/// The state after the outer stream's poll gave `ev`, and what follows.
pub open spec fn outer_step<St, I>(pre: SwitchView<St, I>, ev: PollNext<I>) -> (SwitchView<St, I>, OuterStep) {
    match ev {
        PollNext::Item(inner) => (SwitchView { inner: Some(inner), ..pre }, OuterStep::PollOuterAgain),
        PollNext::Done => (pre, OuterStep::End),
        PollNext::Pending => (pre, OuterStep::PollInner),
    }
}

/// What the switched stream reports once the outer stream is pending, given
/// whether an inner stream is followed and what polling it gave.
pub open spec fn inner_output<V>(has_inner: bool, ev: PollNext<V>) -> PollNext<V> {
    if has_inner {
        match ev {
            PollNext::Item(v) => PollNext::Item(v),
            _ => PollNext::Pending,
        }
    } else {
        PollNext::Pending
    }
}

/// The state after the outer stream's polls gave each of `evs` in turn, all
/// of them inner streams.
pub open spec fn after_outer_items<St, I>(pre: SwitchView<St, I>, evs: Seq<PollNext<I>>) -> SwitchView<St, I>
    decreases evs.len(),
{
    if evs.len() == 0 {
        pre
    } else {
        outer_step(after_outer_items(pre, evs.drop_last()), evs.last()).0
    }
}

impl<St, I> SwitchStream<St, I> {
    /// A switched stream over `stream` that follows no inner stream yet.
    pub fn new(stream: St) -> (s: Self)
        ensures
            s@.stream == stream,
            s@.inner is None,
    {
        SwitchStream { stream, inner: None }
    }

    /// The outer stream, to be polled.
    pub fn outer_mut(&mut self) -> (r: &mut St)
        ensures
            *r == old(self)@.stream,
            final(self)@.stream == *final(r),
            final(self)@.inner == old(self)@.inner,
    {
        &mut self.stream
    }

    /// The inner stream followed now, to be polled, if there is one.
    pub fn inner_mut(&mut self) -> (r: Option<&mut I>)
        ensures
            r is Some <==> old(self)@.inner is Some,
            r is Some ==> *r->0 == old(self)@.inner->0,
            r is Some ==> final(self)@.inner == Some(*final(r->0)),
            r is None ==> final(self)@.inner == old(self)@.inner,
            final(self)@.stream == old(self)@.stream,
    {
        self.inner.as_mut()
    }

    /// Decides what follows one poll of the outer stream: a new inner stream
    /// replaces the current one and the outer stream is polled again; the
    /// outer stream's end ends the switched stream; a pending outer stream
    /// hands over to the inner stream.
    pub fn poll_outer_step(&mut self, outer_poll: PollNext<I>) -> (step: OuterStep)
        ensures
            (final(self)@, step) == outer_step(old(self)@, outer_poll),
    {
        match outer_poll {
            PollNext::Item(inner) => {
                self.inner = Some(inner);
                OuterStep::PollOuterAgain
            },
            PollNext::Done => OuterStep::End,
            PollNext::Pending => OuterStep::PollInner,
        }
    }

    /// Decides the end of a poll, given what polling the current inner stream
    /// gave (not looked at when there is none): its items are passed through;
    /// its end, like its being pending or there being none, leaves the poll
    /// pending.
    pub fn poll_inner_step<V>(&self, inner_poll: PollNext<V>) -> (out: PollNext<V>)
        ensures
            out == inner_output(self@.inner is Some, inner_poll),
    {
        if self.inner.is_some() {
            match inner_poll {
                PollNext::Item(value) => PollNext::Item(value),
                PollNext::Done => PollNext::Pending,
                PollNext::Pending => PollNext::Pending,
            }
        } else {
            PollNext::Pending
        }
    }
}

/// The switched stream ends exactly when its outer stream ends: the outer
/// poll's end is the only way to the end, and nothing an inner stream gives
/// ends it.
pub proof fn lemma_only_outer_end_ends<St, I, V>(
    pre: SwitchView<St, I>,
    outer_ev: PollNext<I>,
    has_inner: bool,
    inner_ev: PollNext<V>,
)
    ensures
        (outer_step(pre, outer_ev).1 == OuterStep::End) <==> outer_ev is Done,
        !(inner_output(has_inner, inner_ev) is Done),
{
}

/// One poll of the outer stream never touches the outer stream itself; an
/// inner stream it yields becomes the one followed and the outer stream is
/// polled again; its being pending changes nothing and hands over to the
/// inner stream; its end changes nothing and ends the switched stream.
pub proof fn lemma_outer_poll_effect<St, I>(pre: SwitchView<St, I>, ev: PollNext<I>)
    ensures
        outer_step(pre, ev).0.stream == pre.stream,
        ev is Item ==> outer_step(pre, ev).0.inner == Some(ev->Item_0),
        ev is Item ==> outer_step(pre, ev).1 == OuterStep::PollOuterAgain,
        !(ev is Item) ==> outer_step(pre, ev).0 == pre,
        ev is Pending ==> outer_step(pre, ev).1 == OuterStep::PollInner,
{
}

/// Only the current inner stream's items come out, unchanged.
pub proof fn lemma_items_pass_through<V>(has_inner: bool, inner_ev: PollNext<V>)
    ensures
        inner_output(has_inner, inner_ev) is Item <==> (has_inner && inner_ev is Item),
        inner_output(has_inner, inner_ev) is Item ==> inner_output(has_inner, inner_ev) == inner_ev,
{
}

/// After a run of outer polls that each yielded an inner stream, the inner
/// stream followed is the last one yielded (the earlier ones are dropped),
/// and the outer stream is the same.
pub proof fn lemma_latest_inner_wins<St, I>(pre: SwitchView<St, I>, evs: Seq<PollNext<I>>)
    requires
        evs.len() > 0,
        forall|k: int| 0 <= k < evs.len() ==> #[trigger] evs[k] is Item,
    ensures
        after_outer_items(pre, evs).inner == Some(evs.last()->Item_0),
        after_outer_items(pre, evs).stream == pre.stream,
    decreases evs.len(),
{
    let rest = evs.drop_last();
    assert(evs.last() is Item);
    if rest.len() > 0 {
        assert(rest.last() == evs[rest.len() - 1]);
        lemma_latest_inner_wins(pre, rest);
    } else {
        assert(after_outer_items(pre, rest) == pre);
    }
}

} // verus!
