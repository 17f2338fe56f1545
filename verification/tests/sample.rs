use rx_parity::{sample, PollNext, Sample, SampleStage};

type State = Sample<Vec<u64>, &'static str, u64>;

fn poll(s: &mut State, source: PollNext<u64>, sampler: PollNext<()>) -> PollNext<u64> {
    let stage = s.poll_source_step(source);
    stage.poll_sampler_step(sampler)
}

#[test]
fn accessors_reach_the_source() {
    let mut s: State = sample(vec![1, 2], "tick");
    assert_eq!(s.get_ref(), &vec![1, 2]);
    s.get_mut().push(3);
    assert_eq!(s.get_ref(), &vec![1, 2, 3]);
    assert_eq!(*s.get_sampler_mut(), "tick");
    assert_eq!(s.into_inner(), vec![1, 2, 3]);
}

#[test]
fn source_item_hands_over_previous_value() {
    let mut s: State = sample(vec![], "tick");
    assert_eq!(s.poll_source_step(PollNext::Item(1)), SampleStage::PollSampler(None));
    assert_eq!(s.poll_source_step(PollNext::Item(2)), SampleStage::PollSampler(Some(1)));
    assert_eq!(s.poll_source_step(PollNext::Pending), SampleStage::PollSampler(None));
    assert_eq!(s.poll_source_step(PollNext::Done), SampleStage::End);
}

#[test]
fn tick_emits_value_held_before_the_new_item() {
    let mut s: State = sample(vec![], "tick");
    assert_eq!(poll(&mut s, PollNext::Item(1), PollNext::Item(())), PollNext::Pending);
    assert_eq!(poll(&mut s, PollNext::Item(2), PollNext::Item(())), PollNext::Item(1));
    assert_eq!(poll(&mut s, PollNext::Item(3), PollNext::Pending), PollNext::Pending);
    assert_eq!(poll(&mut s, PollNext::Item(4), PollNext::Item(())), PollNext::Item(3));
}

#[test]
fn tick_without_source_item_is_pending() {
    let mut s: State = sample(vec![], "tick");
    assert_eq!(poll(&mut s, PollNext::Item(1), PollNext::Pending), PollNext::Pending);
    assert_eq!(poll(&mut s, PollNext::Pending, PollNext::Item(())), PollNext::Pending);
}

#[test]
fn source_end_ends_whatever_the_sampler() {
    let mut s: State = sample(vec![], "tick");
    assert_eq!(poll(&mut s, PollNext::Item(1), PollNext::Pending), PollNext::Pending);
    assert_eq!(poll(&mut s, PollNext::Done, PollNext::Item(())), PollNext::Done);
}

#[test]
fn sampler_end_ends() {
    let mut s: State = sample(vec![], "tick");
    assert_eq!(poll(&mut s, PollNext::Item(1), PollNext::Done), PollNext::Done);
}

#[test]
fn stage_end_ignores_sampler() {
    let stage: SampleStage<u64> = SampleStage::End;
    assert_eq!(stage.poll_sampler_step(PollNext::Item(())), PollNext::Done);
    let stage: SampleStage<u64> = SampleStage::PollSampler(Some(7));
    assert_eq!(stage.poll_sampler_step(PollNext::<()>::Pending), PollNext::Pending);
}

#[test]
fn emitted_items_are_a_subsequence_of_source_items() {
    let source = [
        PollNext::Item(1),
        PollNext::Item(2),
        PollNext::Pending,
        PollNext::Item(3),
        PollNext::Item(4),
        PollNext::Item(5),
        PollNext::Item(6),
    ];
    let sampler = [
        PollNext::Item(()),
        PollNext::Item(()),
        PollNext::Item(()),
        PollNext::Pending,
        PollNext::Item(()),
        PollNext::Item(()),
        PollNext::Item(()),
    ];
    let mut s: State = sample(vec![], "tick");
    let mut emitted = Vec::new();
    for k in 0..source.len() {
        if let PollNext::Item(v) = poll(&mut s, source[k], sampler[k]) {
            emitted.push(v);
        }
    }
    assert_eq!(emitted, vec![1, 3, 4, 5]);
}
