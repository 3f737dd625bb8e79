//! Thinning out a stream of events at random.

use crate::binary32::Binary32;
use vstd::prelude::*;

verus! {

/// What clipping leaves of `events`: element `i` stays where `draws[i]` is
/// less than `prob`, and those that stay keep their order.
pub open spec fn clipped<T>(events: Seq<T>, draws: Seq<Binary32>, prob: Binary32) -> Seq<T>
    decreases events.len(),
{
    if events.len() == 0 {
        Seq::empty()
    } else {
        let before = clipped(events.drop_last(), draws, prob);
        if draws[events.len() - 1].spec_less_than(prob) {
            before.push(events.last())
        } else {
            before
        }
    }
}

/// Every draw lies in the half-open interval from zero to one.
pub open spec fn are_unit_draws(draws: Seq<Binary32>) -> bool {
    forall|i: int| 0 <= i < draws.len() ==> (#[trigger] draws[i]).in_unit_interval()
}

/// Thins out `events` by the given draws: element `i` stays exactly if
/// `draws[i]` is less than `prob`.
pub fn clipping_with_draws<T>(events: &mut Vec<T>, draws: &Vec<Binary32>, prob: Binary32)
    requires
        old(events).len() <= draws.len(),
    ensures
        final(events)@ == clipped(old(events)@, draws@, prob),
{
    let mut given: Vec<T> = Vec::new();
    std::mem::swap(events, &mut given);
    let ghost all = given@;
    let mut i: usize = 0;
    for event in it: given
        invariant
            it.seq() == all,
            i == it.index(),
            all.len() <= draws.len(),
            events@ == clipped(all.take(i as int), draws@, prob),
    {
        assert(all.take(i + 1).drop_last() == all.take(i as int));
        if draws[i].less_than(prob) {
            events.push(event);
        }
        i += 1;
    }
    assert(all.take(all.len() as int) == all);
}

/// A number drawn by `rand::Rng::next_f32` from the generator that
/// `rand::thread_rng` hands out, as its bit pattern. Taken on trust: the
/// number lies in the half-open interval from zero to one. Nothing is said
/// of which number it is.
#[verifier::external_body]
fn unit_draw() -> (draw: Binary32)
    ensures
        draw.in_unit_interval(),
{
    Binary32::from_bits(rand::Rng::next_f32(&mut rand::thread_rng()).to_bits())
}

/// Thins out `events`: one number is drawn for each element, uniformly
/// between zero and one, and the element stays exactly if its draw is less
/// than `prob`. So each element stays with probability `prob`, independently
/// of the others, and what stays keeps its order. With a probability that
/// is not above zero nothing stays, with one that is not below one
/// everything does.
pub fn clipping<T>(events: &mut Vec<T>, prob: Binary32)
    ensures
        exists|draws: Seq<Binary32>|
            draws.len() == old(events).len() && are_unit_draws(draws) && final(events)@
                == #[trigger] clipped(old(events)@, draws, prob),
        prob == Binary32::zero() ==> final(events)@ == Seq::<T>::empty(),
        prob == Binary32::one() ==> final(events)@ == old(events)@,
        !Binary32::zero().spec_less_than(prob) ==> final(events)@ == Seq::<T>::empty(),
        !prob.is_nan() && !prob.spec_less_than(Binary32::one()) ==> final(events)@ == old(
            events,
        )@,
{
    let count: usize = events.len();
    let mut draws: Vec<Binary32> = Vec::new();
    while draws.len() < count
        invariant
            draws.len() <= count,
            are_unit_draws(draws@),
        decreases count - draws.len(),
    {
        draws.push(unit_draw());
    }
    proof {
        if !Binary32::zero().spec_less_than(prob) {
            lemma_clip_leaves_nothing(events@, draws@, prob);
        }
        if !prob.is_nan() && !prob.spec_less_than(Binary32::one()) {
            lemma_clip_leaves_all(events@, draws@, prob);
        }
    }
    clipping_with_draws(events, &draws, prob);
}

/// Clipping with a probability that is not above zero leaves nothing,
/// whatever was drawn between zero and one.
pub proof fn lemma_clip_leaves_nothing<T>(events: Seq<T>, draws: Seq<Binary32>, prob: Binary32)
    requires
        events.len() <= draws.len(),
        are_unit_draws(draws),
        !Binary32::zero().spec_less_than(prob),
    ensures
        clipped(events, draws, prob) == Seq::<T>::empty(),
    decreases events.len(),
{
    if events.len() > 0 {
        lemma_clip_leaves_nothing(events.drop_last(), draws, prob);
    }
}

/// Clipping with a probability that is not below one leaves everything as
/// it is, whatever was drawn between zero and one.
pub proof fn lemma_clip_leaves_all<T>(events: Seq<T>, draws: Seq<Binary32>, prob: Binary32)
    requires
        events.len() <= draws.len(),
        are_unit_draws(draws),
        !prob.is_nan(),
        !prob.spec_less_than(Binary32::one()),
    ensures
        clipped(events, draws, prob) == events,
    decreases events.len(),
{
    if events.len() > 0 {
        lemma_clip_leaves_all(events.drop_last(), draws, prob);
    }
}

/// Clipping with probability zero leaves nothing, whatever was drawn
/// between zero and one.
pub proof fn lemma_clip_with_zero<T>(events: Seq<T>, draws: Seq<Binary32>)
    requires
        events.len() <= draws.len(),
        are_unit_draws(draws),
    ensures
        clipped(events, draws, Binary32::zero()) == Seq::<T>::empty(),
{
    lemma_clip_leaves_nothing(events, draws, Binary32::zero());
}

/// Clipping with probability one leaves everything as it is, whatever was
/// drawn between zero and one.
pub proof fn lemma_clip_with_one<T>(events: Seq<T>, draws: Seq<Binary32>)
    requires
        events.len() <= draws.len(),
        are_unit_draws(draws),
    ensures
        clipped(events, draws, Binary32::one()) == events,
{
    lemma_clip_leaves_all(events, draws, Binary32::one());
}

/// `places` are the places of `events` whose draw is less than `prob`, in
/// rising order, and `kept` holds what stands at these places.
pub open spec fn picks<T>(
    places: Seq<int>,
    events: Seq<T>,
    draws: Seq<Binary32>,
    prob: Binary32,
    kept: Seq<T>,
) -> bool {
    &&& places.len() == kept.len()
    &&& forall|a: int, b: int|
        0 <= a < b < places.len() ==> #[trigger] places[a] < #[trigger] places[b]
    &&& forall|a: int|
        0 <= a < places.len() ==> 0 <= #[trigger] places[a] < events.len()
            && draws[places[a]].spec_less_than(prob) && kept[a] == events[places[a]]
    &&& forall|i: int|
        0 <= i < events.len() && (#[trigger] draws[i]).spec_less_than(prob) ==> places.contains(i)
}

/// Clipping keeps order and adds nothing: what stays is what stood at the
/// places whose draw is less than `prob`, in the order of the places.
pub proof fn lemma_clip_is_a_selection<T>(events: Seq<T>, draws: Seq<Binary32>, prob: Binary32)
    requires
        events.len() <= draws.len(),
    ensures
        exists|places: Seq<int>| picks(places, events, draws, prob, clipped(events, draws, prob)),
    decreases events.len(),
{
    if events.len() == 0 {
        assert(picks(Seq::<int>::empty(), events, draws, prob, clipped(events, draws, prob)));
    } else {
        let n = events.len() - 1;
        let before = clipped(events.drop_last(), draws, prob);
        lemma_clip_is_a_selection(events.drop_last(), draws, prob);
        let earlier = choose|places: Seq<int>|
            picks(places, events.drop_last(), draws, prob, before);
        let places = if draws[n].spec_less_than(prob) {
            earlier.push(n)
        } else {
            earlier
        };
        assert forall|i: int|
            0 <= i < events.len() && (#[trigger] draws[i]).spec_less_than(
                prob,
            ) implies places.contains(i) by {
            if i < n {
                let a = choose|a: int| 0 <= a < earlier.len() && earlier[a] == i;
                assert(places[a] == i);
            } else {
                assert(places[earlier.len() as int] == n);
            }
        }
        assert(picks(places, events, draws, prob, clipped(events, draws, prob)));
    }
}

} // verus!
