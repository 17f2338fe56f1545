//! Combining two streams into a stream of pairs of their latest items.
//!
//! Each poll of the combined stream polls every input that has not ended yet,
//! records the items they yield, and emits the pair of latest items when at
//! least one input yielded a fresh item and both inputs have yielded at least
//! one item so far. The combined stream ends once both inputs have ended.
//! Otherwise a poll is pending only while a polled input is pending (which is
//! what arranges for the combined stream to be woken again); when every
//! polled input was ready and still no pair can be emitted, an input has
//! ended without ever yielding an item, no pair can ever be formed, and the
//! combined stream ends: it drops the input that still goes on, so that its
//! end, like every end, is final and no input is polled again.

use vstd::prelude::*;

use crate::poll::PollNext;

verus! {

/// The state of a stream that combines the latest items of two streams.
///
/// An input stream is dropped once it has ended; the latest item of each
/// input is kept for the rest of the combined stream's life.
#[derive(Debug)]
pub struct CombineLatestStream<St1, St2, T> {
    first: Option<St1>,
    second: Option<St2>,
    first_latest: Option<T>,
    second_latest: Option<T>,
}

/// The contents of a [`CombineLatestStream`], as the contracts speak of them.
pub struct CombineLatestView<St1, St2, T> {
    /// The first input, or `None` once it has ended.
    pub first: Option<St1>,
    /// The second input, or `None` once it has ended.
    pub second: Option<St2>,
    /// The last item that the first input yielded.
    pub first_latest: Option<T>,
    /// The last item that the second input yielded.
    pub second_latest: Option<T>,
}

impl<St1, St2, T> View for CombineLatestStream<St1, St2, T> {
    type V = CombineLatestView<St1, St2, T>;

    closed spec fn view(&self) -> CombineLatestView<St1, St2, T> {
        CombineLatestView {
            first: self.first,
            second: self.second,
            first_latest: self.first_latest,
            second_latest: self.second_latest,
        }
    }
}

/// One input after a poll that gave `ev`: the stream that is still held, the
/// latest item, and whether the poll gave a fresh item. An input that has
/// already ended is not polled, so `ev` does not touch it.
pub open spec fn input_after_poll<S, T>(stream: Option<S>, latest: Option<T>, ev: PollNext<T>) -> (
    Option<S>,
    Option<T>,
    bool,
) {
    match stream {
        None => (None, latest, false),
        Some(s) => match ev {
            PollNext::Pending => (Some(s), latest, false),
            PollNext::Item(v) => (Some(s), Some(v), true),
            PollNext::Done => (None, latest, false),
        },
    }
}

/// Whether an input that had not ended was pending in a poll that gave `ev`.
pub open spec fn input_waiting<S, T>(stream: Option<S>, ev: PollNext<T>) -> bool {
    stream is Some && ev is Pending
}

/// Whether both inputs have ended.
pub open spec fn both_ended<St1, St2, T>(s: CombineLatestView<St1, St2, T>) -> bool {
    s.first is None && s.second is None
}

/// What the combined stream reports in state `s` (after its inputs were
/// polled), where `fresh` says whether an input yielded an item in this poll
/// and `waiting` whether an input that had not ended was pending in it.
pub open spec fn combined_output<St1, St2, T: Clone>(
    s: CombineLatestView<St1, St2, T>,
    fresh: bool,
    waiting: bool,
    out: PollNext<(T, T)>,
) -> bool {
    if both_ended(s) {
        out is Done
    } else if fresh && s.first_latest is Some && s.second_latest is Some {
        &&& out is Item
        &&& cloned(s.first_latest->0, out->Item_0.0)
        &&& cloned(s.second_latest->0, out->Item_0.1)
    } else if waiting {
        out is Pending
    } else {
        out is Done
    }
}

/// One poll of the combined stream: from state `pre`, the first input's poll
/// gave `ev1` and the second's gave `ev2`; the state becomes `post` and the
/// combined stream reports `out`. When the poll ends the combined stream
/// because no pair can ever be formed, both inputs are dropped.
pub open spec fn is_poll_step<St1, St2, T: Clone>(
    pre: CombineLatestView<St1, St2, T>,
    ev1: PollNext<T>,
    ev2: PollNext<T>,
    post: CombineLatestView<St1, St2, T>,
    out: PollNext<(T, T)>,
) -> bool {
    let a = input_after_poll(pre.first, pre.first_latest, ev1);
    let b = input_after_poll(pre.second, pre.second_latest, ev2);
    let fresh = a.2 || b.2;
    let waiting = input_waiting(pre.first, ev1) || input_waiting(pre.second, ev2);
    let pair = fresh && a.1 is Some && b.1 is Some;
    let ends_without_pair = !(a.0 is None && b.0 is None) && !pair && !waiting;
    &&& post.first == (if ends_without_pair { None } else { a.0 })
    &&& post.first_latest == a.1
    &&& post.second == (if ends_without_pair { None } else { b.0 })
    &&& post.second_latest == b.1
    &&& combined_output(post, fresh, waiting, out)
}

/// A run of polls: `states[k]` is the state before the `k`-th poll, in which
/// the inputs gave `evs1[k]` and `evs2[k]` and the combined stream reported
/// `outs[k]`.
pub open spec fn is_poll_run<St1, St2, T: Clone>(
    states: Seq<CombineLatestView<St1, St2, T>>,
    evs1: Seq<PollNext<T>>,
    evs2: Seq<PollNext<T>>,
    outs: Seq<PollNext<(T, T)>>,
) -> bool {
    &&& states.len() == outs.len() + 1
    &&& evs1.len() == outs.len()
    &&& evs2.len() == outs.len()
    &&& forall|k: int|
        #![trigger outs[k]]
        0 <= k < outs.len() ==> is_poll_step(states[k], evs1[k], evs2[k], states[k + 1], outs[k])
}

/// The same state with the roles of the two inputs exchanged.
pub open spec fn swapped<St1, St2, T>(s: CombineLatestView<St1, St2, T>) -> CombineLatestView<St2, St1, T> {
    CombineLatestView {
        first: s.second,
        second: s.first,
        first_latest: s.second_latest,
        second_latest: s.first_latest,
    }
}

/// Combines two streams into one that yields pairs of their latest items.
pub fn combine_latest<St1, St2, T>(stream1: St1, stream2: St2) -> (s: CombineLatestStream<St1, St2, T>)
    ensures
        s@.first == Some(stream1),
        s@.second == Some(stream2),
        s@.first_latest is None,
        s@.second_latest is None,
{
    CombineLatestStream::new(stream1, stream2)
}

impl<St1, St2, T> CombineLatestStream<St1, St2, T> {
    /// A combined stream over `stream1` and `stream2` that has seen no item yet.
    pub fn new(stream1: St1, stream2: St2) -> (s: Self)
        ensures
            s@.first == Some(stream1),
            s@.second == Some(stream2),
            s@.first_latest is None,
            s@.second_latest is None,
    {
        CombineLatestStream { first: Some(stream1), second: Some(stream2), first_latest: None, second_latest: None }
    }

    /// The first input, to be polled, while it has not ended.
    pub fn first_stream_mut(&mut self) -> (r: Option<&mut St1>)
        ensures
            r is Some <==> old(self)@.first is Some,
            r is Some ==> *r->0 == old(self)@.first->0,
            r is Some ==> final(self)@.first == Some(*final(r->0)),
            r is None ==> final(self)@.first == old(self)@.first,
            final(self)@.second == old(self)@.second,
            final(self)@.first_latest == old(self)@.first_latest,
            final(self)@.second_latest == old(self)@.second_latest,
    {
        self.first.as_mut()
    }

    /// The second input, to be polled, while it has not ended.
    pub fn second_stream_mut(&mut self) -> (r: Option<&mut St2>)
        ensures
            r is Some <==> old(self)@.second is Some,
            r is Some ==> *r->0 == old(self)@.second->0,
            r is Some ==> final(self)@.second == Some(*final(r->0)),
            r is None ==> final(self)@.second == old(self)@.second,
            final(self)@.first == old(self)@.first,
            final(self)@.first_latest == old(self)@.first_latest,
            final(self)@.second_latest == old(self)@.second_latest,
    {
        self.second.as_mut()
    }
}

impl<St1, St2, T: Clone> CombineLatestStream<St1, St2, T> {
    /// Decides one poll of the combined stream, given what polling each input
    /// that has not ended gave (`first_poll`, `second_poll`; for an input that
    /// has ended the value is not looked at).
    ///
    /// An input that yields an item has it recorded as its latest; an input
    /// that ends is dropped. The result is the end once both inputs have
    /// ended, else the pair of latest items (cloned) when some input yielded
    /// an item in this poll and both have yielded one so far, else pending
    /// when a polled input was pending, else (every polled input was ready,
    /// and an input has ended without ever yielding) the end, with both
    /// inputs dropped so that the end is final.
    pub fn poll_step(&mut self, first_poll: PollNext<T>, second_poll: PollNext<T>) -> (out: PollNext<(T, T)>)
        ensures
            is_poll_step(old(self)@, first_poll, second_poll, final(self)@, out),
    {
        let mut fresh = false;
        let mut waiting = false;
        if self.first.is_some() {
            match first_poll {
                PollNext::Item(value) => {
                    self.first_latest = Some(value);
                    fresh = true;
                },
                PollNext::Done => {
                    self.first = None;
                },
                PollNext::Pending => {
                    waiting = true;
                },
            }
        }
        if self.second.is_some() {
            match second_poll {
                PollNext::Item(value) => {
                    self.second_latest = Some(value);
                    fresh = true;
                },
                PollNext::Done => {
                    self.second = None;
                },
                PollNext::Pending => {
                    waiting = true;
                },
            }
        }
        if self.first.is_none() && self.second.is_none() {
            return PollNext::Done;
        }
        if fresh {
            if let (Some(value1), Some(value2)) = (&self.first_latest, &self.second_latest) {
                return PollNext::Item((value1.clone(), value2.clone()));
            }
        }
        if waiting {
            PollNext::Pending
        } else {
            self.first = None;
            self.second = None;
            PollNext::Done
        }
    }
}

/// Once both inputs have ended, every later poll reports the end and leaves
/// the state as it was.
pub proof fn lemma_end_is_final<St1, St2, T: Clone>(
    pre: CombineLatestView<St1, St2, T>,
    ev1: PollNext<T>,
    ev2: PollNext<T>,
    post: CombineLatestView<St1, St2, T>,
    out: PollNext<(T, T)>,
)
    requires
        both_ended(pre),
        is_poll_step(pre, ev1, ev2, post, out),
    ensures
        out is Done,
        post == pre,
{
}

/// Whenever the combined stream reports its end, both inputs are dropped, so
/// (by [`lemma_end_is_final`]) every later poll reports the end again and
/// polls neither input.
pub proof fn lemma_end_drops_both_inputs<St1, St2, T: Clone>(
    pre: CombineLatestView<St1, St2, T>,
    ev1: PollNext<T>,
    ev2: PollNext<T>,
    post: CombineLatestView<St1, St2, T>,
    out: PollNext<(T, T)>,
)
    requires
        is_poll_step(pre, ev1, ev2, post, out),
        out is Done,
    ensures
        both_ended(post),
{
}

/// Over a run of polls, once the combined stream has reported its end, every
/// later poll starts with both inputs dropped (so neither is polled), reports
/// the end again and leaves the state as it was.
pub proof fn lemma_end_is_final_over_a_run<St1, St2, T: Clone>(
    states: Seq<CombineLatestView<St1, St2, T>>,
    evs1: Seq<PollNext<T>>,
    evs2: Seq<PollNext<T>>,
    outs: Seq<PollNext<(T, T)>>,
    j: int,
    k: int,
)
    requires
        is_poll_run(states, evs1, evs2, outs),
        0 <= j < k < outs.len(),
        outs[j] is Done,
    ensures
        both_ended(states[k]),
        states[k + 1] == states[j + 1],
        outs[k] is Done,
    decreases k - j,
{
    assert(is_poll_step(states[j], evs1[j], evs2[j], states[j + 1], outs[j]));
    assert(is_poll_step(states[k], evs1[k], evs2[k], states[k + 1], outs[k]));
    if k > j + 1 {
        lemma_end_is_final_over_a_run(states, evs1, evs2, outs, j, k - 1);
    } else {
        lemma_end_drops_both_inputs(states[j], evs1[j], evs2[j], states[j + 1], outs[j]);
    }
    lemma_end_is_final(states[k], evs1[k], evs2[k], states[k + 1], outs[k]);
}

/// An input that has ended stays ended, and what it is said to give in a
/// later poll changes nothing.
pub proof fn lemma_ended_input_stays_ended<St1, St2, T: Clone>(
    pre: CombineLatestView<St1, St2, T>,
    ev1: PollNext<T>,
    ev2: PollNext<T>,
    post: CombineLatestView<St1, St2, T>,
    out: PollNext<(T, T)>,
)
    requires
        is_poll_step(pre, ev1, ev2, post, out),
    ensures
        pre.first is None ==> post.first is None && post.first_latest == pre.first_latest,
        pre.second is None ==> post.second is None && post.second_latest == pre.second_latest,
{
}

/// The combined stream does not end while an input goes on and the other
/// input has yielded an item or goes on too.
pub proof fn lemma_no_end_while_an_input_lives<St1, St2, T: Clone>(
    pre: CombineLatestView<St1, St2, T>,
    ev1: PollNext<T>,
    ev2: PollNext<T>,
    post: CombineLatestView<St1, St2, T>,
    out: PollNext<(T, T)>,
)
    requires
        is_poll_step(pre, ev1, ev2, post, out),
        ({
            &&& pre.first is Some && !(ev1 is Done)
            &&& (pre.second is Some && !(ev2 is Done)) || post.second_latest is Some
        }) || ({
            &&& pre.second is Some && !(ev2 is Done)
            &&& (pre.first is Some && !(ev1 is Done)) || post.first_latest is Some
        }),
    ensures
        !(out is Done),
{
}

/// A poll is pending only when an input that had not ended was pending in
/// it, so that input has arranged for the combined stream to be woken again.
pub proof fn lemma_pending_only_while_an_input_waits<St1, St2, T: Clone>(
    pre: CombineLatestView<St1, St2, T>,
    ev1: PollNext<T>,
    ev2: PollNext<T>,
    post: CombineLatestView<St1, St2, T>,
    out: PollNext<(T, T)>,
)
    requires
        is_poll_step(pre, ev1, ev2, post, out),
        out is Pending,
    ensures
        input_waiting(pre.first, ev1) || input_waiting(pre.second, ev2),
{
}

/// When every input polled was ready, the combined stream is ready: with a
/// pair, or with its end; it ends while an input still went on only when an
/// input has ended without ever yielding an item, so that no pair can ever
/// be formed.
pub proof fn lemma_all_ready_is_ready<St1, St2, T: Clone>(
    pre: CombineLatestView<St1, St2, T>,
    ev1: PollNext<T>,
    ev2: PollNext<T>,
    post: CombineLatestView<St1, St2, T>,
    out: PollNext<(T, T)>,
)
    requires
        is_poll_step(pre, ev1, ev2, post, out),
        !input_waiting(pre.first, ev1),
        !input_waiting(pre.second, ev2),
    ensures
        !(out is Pending),
        out is Done && ((pre.first is Some && !(ev1 is Done)) || (pre.second is Some && !(ev2 is Done)))
            ==> post.first_latest is None || post.second_latest is None,
{
}

/// A pair is emitted only in a poll in which a live input yielded an item,
/// and only once both inputs have yielded an item.
pub proof fn lemma_pairs_only_on_fresh_items<St1, St2, T: Clone>(
    pre: CombineLatestView<St1, St2, T>,
    ev1: PollNext<T>,
    ev2: PollNext<T>,
    post: CombineLatestView<St1, St2, T>,
    out: PollNext<(T, T)>,
)
    requires
        is_poll_step(pre, ev1, ev2, post, out),
        out is Item,
    ensures
        (pre.first is Some && ev1 is Item) || (pre.second is Some && ev2 is Item),
        post.first_latest is Some,
        post.second_latest is Some,
{
}

/// A fresh item of the first input, once the second input has yielded an
/// item, is emitted at once, paired with the second input's latest item.
pub proof fn lemma_first_item_is_paired_with_latest_second<St1, St2, T: Clone>(
    pre: CombineLatestView<St1, St2, T>,
    v: T,
    ev2: PollNext<T>,
    post: CombineLatestView<St1, St2, T>,
    out: PollNext<(T, T)>,
)
    requires
        is_poll_step(pre, PollNext::Item(v), ev2, post, out),
        pre.first is Some,
        post.second_latest is Some,
    ensures
        out is Item,
        cloned(v, out->Item_0.0),
        cloned(post.second_latest->0, out->Item_0.1),
{
}

/// A fresh item of the second input, once the first input has yielded an
/// item, is emitted at once, paired with the first input's latest item.
pub proof fn lemma_second_item_is_paired_with_latest_first<St1, St2, T: Clone>(
    pre: CombineLatestView<St1, St2, T>,
    ev1: PollNext<T>,
    v: T,
    post: CombineLatestView<St1, St2, T>,
    out: PollNext<(T, T)>,
)
    requires
        is_poll_step(pre, ev1, PollNext::Item(v), post, out),
        pre.second is Some,
        post.first_latest is Some,
    ensures
        out is Item,
        cloned(post.first_latest->0, out->Item_0.0),
        cloned(v, out->Item_0.1),
{
}

/// Combining the same inputs the other way round mirrors the combined
/// stream: over runs of polls in which each input gives the same outcomes,
/// the states correspond with the inputs exchanged, both runs are pending,
/// emit, or end at the same polls, and where one emits a pair of clones of
/// the latest items `(a, b)` the other emits a pair of clones of `(b, a)`.
pub proof fn lemma_swapped_inputs_mirror<St1, St2, T: Clone>(
    xs: Seq<CombineLatestView<St1, St2, T>>,
    evs1: Seq<PollNext<T>>,
    evs2: Seq<PollNext<T>>,
    outs_x: Seq<PollNext<(T, T)>>,
    ys: Seq<CombineLatestView<St2, St1, T>>,
    outs_y: Seq<PollNext<(T, T)>>,
)
    requires
        is_poll_run(xs, evs1, evs2, outs_x),
        is_poll_run(ys, evs2, evs1, outs_y),
        ys[0] == swapped(xs[0]),
    ensures
        forall|k: int| 0 <= k < xs.len() ==> #[trigger] ys[k] == swapped(xs[k]),
        forall|k: int|
            0 <= k < outs_x.len() ==> {
                &&& (#[trigger] outs_x[k] is Pending <==> outs_y[k] is Pending)
                &&& (outs_x[k] is Done <==> outs_y[k] is Done)
                &&& (outs_x[k] is Item <==> outs_y[k] is Item)
            },
        forall|k: int|
            0 <= k < outs_x.len() && #[trigger] outs_x[k] is Item ==> {
                let a = xs[k + 1].first_latest->0;
                let b = xs[k + 1].second_latest->0;
                &&& cloned(a, outs_x[k]->Item_0.0)
                &&& cloned(b, outs_x[k]->Item_0.1)
                &&& cloned(b, outs_y[k]->Item_0.0)
                &&& cloned(a, outs_y[k]->Item_0.1)
            },
{
    assert forall|k: int| 0 <= k < xs.len() implies #[trigger] ys[k] == swapped(xs[k]) by {
        lemma_swapped_states(xs, evs1, evs2, outs_x, ys, outs_y, k);
    }
    assert forall|k: int| 0 <= k < outs_x.len() implies {
        &&& (#[trigger] outs_x[k] is Pending <==> outs_y[k] is Pending)
        &&& (outs_x[k] is Done <==> outs_y[k] is Done)
        &&& (outs_x[k] is Item <==> outs_y[k] is Item)
        &&& (outs_x[k] is Item ==> {
            let a = xs[k + 1].first_latest->0;
            let b = xs[k + 1].second_latest->0;
            &&& cloned(a, outs_x[k]->Item_0.0)
            &&& cloned(b, outs_x[k]->Item_0.1)
            &&& cloned(b, outs_y[k]->Item_0.0)
            &&& cloned(a, outs_y[k]->Item_0.1)
        })
    } by {
        lemma_swapped_states(xs, evs1, evs2, outs_x, ys, outs_y, k);
        lemma_swapped_states(xs, evs1, evs2, outs_x, ys, outs_y, k + 1);
        assert(is_poll_step(xs[k], evs1[k], evs2[k], xs[k + 1], outs_x[k]));
        assert(is_poll_step(ys[k], evs2[k], evs1[k], ys[k + 1], outs_y[k]));
    }
}

/// The states of two runs over the inputs taken the other way round
/// correspond at every poll.
proof fn lemma_swapped_states<St1, St2, T: Clone>(
    xs: Seq<CombineLatestView<St1, St2, T>>,
    evs1: Seq<PollNext<T>>,
    evs2: Seq<PollNext<T>>,
    outs_x: Seq<PollNext<(T, T)>>,
    ys: Seq<CombineLatestView<St2, St1, T>>,
    outs_y: Seq<PollNext<(T, T)>>,
    n: int,
)
    requires
        is_poll_run(xs, evs1, evs2, outs_x),
        is_poll_run(ys, evs2, evs1, outs_y),
        ys[0] == swapped(xs[0]),
        0 <= n < xs.len(),
    ensures
        ys[n] == swapped(xs[n]),
    decreases n,
{
    if n > 0 {
        lemma_swapped_states(xs, evs1, evs2, outs_x, ys, outs_y, n - 1);
        assert(is_poll_step(xs[n - 1], evs1[n - 1], evs2[n - 1], xs[n], outs_x[n - 1]));
        assert(is_poll_step(ys[n - 1], evs2[n - 1], evs1[n - 1], ys[n], outs_y[n - 1]));
    }
}

/// An input's latest item changes only when that input, while it goes on,
/// yields an item, and then it is that item: the input's end, its being
/// pending, and whatever is said of it once it has ended leave its latest
/// item as it was.
pub proof fn lemma_latest_changes_only_by_an_item<St1, St2, T: Clone>(
    pre: CombineLatestView<St1, St2, T>,
    ev1: PollNext<T>,
    ev2: PollNext<T>,
    post: CombineLatestView<St1, St2, T>,
    out: PollNext<(T, T)>,
)
    requires
        is_poll_step(pre, ev1, ev2, post, out),
    ensures
        pre.first is Some && ev1 is Item ==> post.first_latest == Some(ev1->Item_0),
        !(pre.first is Some && ev1 is Item) ==> post.first_latest == pre.first_latest,
        pre.second is Some && ev2 is Item ==> post.second_latest == Some(ev2->Item_0),
        !(pre.second is Some && ev2 is Item) ==> post.second_latest == pre.second_latest,
{
}

/// An input is dropped only by its own end or by the end of the combined
/// stream: an input that goes on in a poll that does not end the combined
/// stream (whether it yields an item, is pending, or a pair is emitted) is
/// still held afterwards, unchanged, and a dropped input never comes back.
pub proof fn lemma_inputs_dropped_only_at_an_end<St1, St2, T: Clone>(
    pre: CombineLatestView<St1, St2, T>,
    ev1: PollNext<T>,
    ev2: PollNext<T>,
    post: CombineLatestView<St1, St2, T>,
    out: PollNext<(T, T)>,
)
    requires
        is_poll_step(pre, ev1, ev2, post, out),
    ensures
        pre.first is Some && !(ev1 is Done) && !(out is Done) ==> post.first == pre.first,
        pre.second is Some && !(ev2 is Done) && !(out is Done) ==> post.second == pre.second,
        post.first is Some ==> post.first == pre.first,
        post.second is Some ==> post.second == pre.second,
{
}

/// Over a run of polls: once the first input has yielded `x`, every item `w`
/// that the second input later yields while it goes on is emitted at once,
/// as a pair of clones of `(x, w)`, as long as the first input has yielded
/// nothing newer, whether or not the first input has ended meanwhile.
pub proof fn lemma_first_item_pairs_with_later_second_items<St1, St2, T: Clone>(
    states: Seq<CombineLatestView<St1, St2, T>>,
    evs1: Seq<PollNext<T>>,
    evs2: Seq<PollNext<T>>,
    outs: Seq<PollNext<(T, T)>>,
    i: int,
    k: int,
    x: T,
    w: T,
)
    requires
        is_poll_run(states, evs1, evs2, outs),
        0 <= i < k < outs.len(),
        states[i].first is Some,
        evs1[i] == PollNext::Item(x),
        forall|j: int| #![trigger evs1[j]] i < j <= k ==> !(states[j].first is Some && evs1[j] is Item),
        states[k].second is Some,
        evs2[k] == PollNext::Item(w),
    ensures
        outs[k] is Item,
        cloned(x, outs[k]->Item_0.0),
        cloned(w, outs[k]->Item_0.1),
{
    lemma_first_latest_kept(states, evs1, evs2, outs, i, k, x);
    assert(is_poll_step(states[k], evs1[k], evs2[k], states[k + 1], outs[k]));
    assert(!(states[k].first is Some && evs1[k] is Item));
}

/// The first input's latest item stays `x` from the poll that yielded it for
/// as long as it yields nothing newer.
proof fn lemma_first_latest_kept<St1, St2, T: Clone>(
    states: Seq<CombineLatestView<St1, St2, T>>,
    evs1: Seq<PollNext<T>>,
    evs2: Seq<PollNext<T>>,
    outs: Seq<PollNext<(T, T)>>,
    i: int,
    k: int,
    x: T,
)
    requires
        is_poll_run(states, evs1, evs2, outs),
        0 <= i < k < outs.len(),
        states[i].first is Some,
        evs1[i] == PollNext::Item(x),
        forall|j: int| #![trigger evs1[j]] i < j <= k ==> !(states[j].first is Some && evs1[j] is Item),
    ensures
        states[k].first_latest == Some(x),
    decreases k - i,
{
    let m = k - 1;
    assert(is_poll_step(states[m], evs1[m], evs2[m], states[k], outs[m]));
    if m > i {
        lemma_first_latest_kept(states, evs1, evs2, outs, i, m, x);
        assert(!(states[m].first is Some && evs1[m] is Item));
    }
    lemma_latest_changes_only_by_an_item(states[m], evs1[m], evs2[m], states[k], outs[m]);
}

/// Over a run of polls: once the second input has yielded `y`, every item `v`
/// that the first input later yields while it goes on is emitted at once,
/// as a pair of clones of `(v, y)`, as long as the second input has yielded
/// nothing newer, whether or not the second input has ended meanwhile.
pub proof fn lemma_second_item_pairs_with_later_first_items<St1, St2, T: Clone>(
    states: Seq<CombineLatestView<St1, St2, T>>,
    evs1: Seq<PollNext<T>>,
    evs2: Seq<PollNext<T>>,
    outs: Seq<PollNext<(T, T)>>,
    i: int,
    k: int,
    y: T,
    v: T,
)
    requires
        is_poll_run(states, evs1, evs2, outs),
        0 <= i < k < outs.len(),
        states[i].second is Some,
        evs2[i] == PollNext::Item(y),
        forall|j: int| #![trigger evs2[j]] i < j <= k ==> !(states[j].second is Some && evs2[j] is Item),
        states[k].first is Some,
        evs1[k] == PollNext::Item(v),
    ensures
        outs[k] is Item,
        cloned(v, outs[k]->Item_0.0),
        cloned(y, outs[k]->Item_0.1),
{
    lemma_second_latest_kept(states, evs1, evs2, outs, i, k, y);
    assert(is_poll_step(states[k], evs1[k], evs2[k], states[k + 1], outs[k]));
    assert(!(states[k].second is Some && evs2[k] is Item));
}

/// The second input's latest item stays `y` from the poll that yielded it for
/// as long as it yields nothing newer.
proof fn lemma_second_latest_kept<St1, St2, T: Clone>(
    states: Seq<CombineLatestView<St1, St2, T>>,
    evs1: Seq<PollNext<T>>,
    evs2: Seq<PollNext<T>>,
    outs: Seq<PollNext<(T, T)>>,
    i: int,
    k: int,
    y: T,
)
    requires
        is_poll_run(states, evs1, evs2, outs),
        0 <= i < k < outs.len(),
        states[i].second is Some,
        evs2[i] == PollNext::Item(y),
        forall|j: int| #![trigger evs2[j]] i < j <= k ==> !(states[j].second is Some && evs2[j] is Item),
    ensures
        states[k].second_latest == Some(y),
    decreases k - i,
{
    let m = k - 1;
    assert(is_poll_step(states[m], evs1[m], evs2[m], states[k], outs[m]));
    if m > i {
        lemma_second_latest_kept(states, evs1, evs2, outs, i, m, y);
        assert(!(states[m].second is Some && evs2[m] is Item));
    }
    lemma_latest_changes_only_by_an_item(states[m], evs1[m], evs2[m], states[k], outs[m]);
}

} // verus!
