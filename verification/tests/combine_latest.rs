use rx_parity::combine_latest::CombineLatestStream;
use rx_parity::{combine_latest, PollNext};

type State = CombineLatestStream<&'static str, &'static str, u64>;

#[test]
fn new_polls_both_inputs() {
    let mut s: State = CombineLatestStream::new("a", "b");
    assert_eq!(s.first_stream_mut().map(|r| *r), Some("a"));
    assert_eq!(s.second_stream_mut().map(|r| *r), Some("b"));
}

#[test]
fn combine_latest_builds_fresh_state() {
    let mut s: State = combine_latest("x", "y");
    assert_eq!(s.first_stream_mut().map(|r| *r), Some("x"));
    assert_eq!(s.poll_step(PollNext::Pending, PollNext::Pending), PollNext::Pending);
}

#[test]
fn nothing_emitted_before_both_inputs_yield() {
    let mut s: State = CombineLatestStream::new("a", "b");
    assert_eq!(s.poll_step(PollNext::Item(1), PollNext::Pending), PollNext::Pending);
    assert_eq!(s.poll_step(PollNext::Item(2), PollNext::Pending), PollNext::Pending);
    assert_eq!(s.poll_step(PollNext::Pending, PollNext::Item(10)), PollNext::Item((2, 10)));
}

#[test]
fn fresh_item_is_paired_with_latest_of_other() {
    let mut s: State = CombineLatestStream::new("a", "b");
    assert_eq!(s.poll_step(PollNext::Item(1), PollNext::Item(10)), PollNext::Item((1, 10)));
    assert_eq!(s.poll_step(PollNext::Item(2), PollNext::Pending), PollNext::Item((2, 10)));
    assert_eq!(s.poll_step(PollNext::Pending, PollNext::Item(20)), PollNext::Item((2, 20)));
    assert_eq!(s.poll_step(PollNext::Item(3), PollNext::Item(30)), PollNext::Item((3, 30)));
}

#[test]
fn no_fresh_item_means_pending() {
    let mut s: State = CombineLatestStream::new("a", "b");
    assert_eq!(s.poll_step(PollNext::Item(1), PollNext::Item(10)), PollNext::Item((1, 10)));
    assert_eq!(s.poll_step(PollNext::Pending, PollNext::Pending), PollNext::Pending);
}

#[test]
fn one_ended_input_does_not_end_combined() {
    let mut s: State = CombineLatestStream::new("a", "b");
    assert_eq!(s.poll_step(PollNext::Item(1), PollNext::Item(10)), PollNext::Item((1, 10)));
    assert_eq!(s.poll_step(PollNext::Done, PollNext::Pending), PollNext::Pending);
    assert!(s.first_stream_mut().is_none());
    // the ended input's latest item is still paired with new items of the other
    assert_eq!(s.poll_step(PollNext::Item(99), PollNext::Item(11)), PollNext::Item((1, 11)));
}

#[test]
fn end_once_both_end_and_stays_ended() {
    let mut s: State = CombineLatestStream::new("a", "b");
    assert_eq!(s.poll_step(PollNext::Done, PollNext::Pending), PollNext::Pending);
    assert_eq!(s.poll_step(PollNext::Item(5), PollNext::Done), PollNext::Done);
    assert!(s.first_stream_mut().is_none());
    assert!(s.second_stream_mut().is_none());
    assert_eq!(s.poll_step(PollNext::Item(6), PollNext::Item(7)), PollNext::Done);
}

#[test]
fn fresh_item_with_other_ending_in_same_poll() {
    let mut s: State = CombineLatestStream::new("a", "b");
    assert_eq!(s.poll_step(PollNext::Pending, PollNext::Item(10)), PollNext::Pending);
    assert_eq!(s.poll_step(PollNext::Item(1), PollNext::Done), PollNext::Item((1, 10)));
}

#[test]
fn stream_access_reaches_the_held_input() {
    let mut s: CombineLatestStream<Vec<u64>, Vec<u64>, u64> = CombineLatestStream::new(vec![1], vec![2]);
    s.first_stream_mut().unwrap().push(3);
    assert_eq!(s.first_stream_mut().map(|v| v.clone()), Some(vec![1, 3]));
    assert_eq!(s.second_stream_mut().map(|v| v.clone()), Some(vec![2]));
}

#[test]
fn all_ready_without_pair_ends() {
    // the second input ends without ever yielding: no pair can ever be formed
    let mut s: State = CombineLatestStream::new("a", "b");
    assert_eq!(s.poll_step(PollNext::Item(1), PollNext::Done), PollNext::Done);
    // the end is final: the input that still went on is dropped too
    assert!(s.first_stream_mut().is_none());
    assert!(s.second_stream_mut().is_none());
    assert_eq!(s.poll_step(PollNext::Pending, PollNext::Pending), PollNext::Done);
}

#[test]
fn earlier_end_without_item_then_other_ready_ends() {
    let mut s: State = CombineLatestStream::new("a", "b");
    assert_eq!(s.poll_step(PollNext::Done, PollNext::Pending), PollNext::Pending);
    assert_eq!(s.poll_step(PollNext::Pending, PollNext::Item(5)), PollNext::Done);
    assert!(s.second_stream_mut().is_none());
    assert_eq!(s.poll_step(PollNext::Pending, PollNext::Item(6)), PollNext::Done);
}

#[test]
fn pending_only_while_a_live_input_waits() {
    let mut s: State = CombineLatestStream::new("a", "b");
    assert_eq!(s.poll_step(PollNext::Pending, PollNext::Item(5)), PollNext::Pending);
    assert_eq!(s.poll_step(PollNext::Item(1), PollNext::Pending), PollNext::Item((1, 5)));
    // the first input has ended; the placeholder it is given does not count as waiting
    assert_eq!(s.poll_step(PollNext::Done, PollNext::Pending), PollNext::Pending);
    assert_eq!(s.poll_step(PollNext::Pending, PollNext::Item(6)), PollNext::Item((1, 6)));
}

#[test]
fn swapped_inputs_give_mirrored_pairs() {
    let evs1 = [PollNext::Item(1), PollNext::Pending, PollNext::Item(2), PollNext::Done, PollNext::Pending];
    let evs2 = [PollNext::Pending, PollNext::Item(10), PollNext::Pending, PollNext::Item(20), PollNext::Done];
    let mut x: State = CombineLatestStream::new("a", "b");
    let mut y: State = CombineLatestStream::new("b", "a");
    for k in 0..evs1.len() {
        let ox = x.poll_step(evs1[k], evs2[k]);
        let oy = y.poll_step(evs2[k], evs1[k]);
        let mirrored = match ox {
            PollNext::Item((p, q)) => PollNext::Item((q, p)),
            PollNext::Pending => PollNext::Pending,
            PollNext::Done => PollNext::Done,
        };
        assert_eq!(oy, mirrored);
    }
}
