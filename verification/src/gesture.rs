//! Hover feedback over a whole drag gesture.
//!
//! During one gesture the pointer wanders across the list, firing
//! drag-enter and drag-leave events. This module models such an event
//! trace over the hover flags of a list and proves the gesture-wide
//! guarantees: under the platform's ordering (the pointer leaves one
//! element before its hover lands on the next), at most one element ever
//! shows the drag-over indicator, and leaving the hovered element clears
//! the indicator everywhere.

use vstd::prelude::*;

verus! {

/// One hover-relevant pointer event, naming the list position it fired on.
#[derive(Clone, Copy, Debug, PartialEq, Eq, Structural)]
pub enum HoverEvent {
    Enter(usize),
    Leave(usize),
}

/// The hover flags after one event. An event aimed outside the list
/// touches nothing.
pub open spec fn apply_hover(h: Seq<bool>, e: HoverEvent) -> Seq<bool> {
    match e {
        HoverEvent::Enter(i) => if (i as int) < h.len() {
            h.update(i as int, true)
        } else {
            h
        },
        HoverEvent::Leave(i) => if (i as int) < h.len() {
            h.update(i as int, false)
        } else {
            h
        },
    }
}

/// The hover flags after a whole trace of events, first event first.
pub open spec fn run_hover(h: Seq<bool>, es: Seq<HoverEvent>) -> Seq<bool>
    decreases es.len(),
{
    if es.len() == 0 {
        h
    } else {
        run_hover(apply_hover(h, es[0]), es.drop_first())
    }
}

/// The platform's ordering guarantee for one event: an enter fires only
/// once no other element still shows the indicator, because the pointer's
/// leave on the previous target fires first.
pub open spec fn step_ok(h: Seq<bool>, e: HoverEvent) -> bool {
    match e {
        HoverEvent::Enter(i) => forall|p: int|
            0 <= p < h.len() && #[trigger] h[p] ==> p == i as int,
        HoverEvent::Leave(_) => true,
    }
}

/// A trace every step of which respects the platform's ordering.
pub open spec fn trace_ok(h: Seq<bool>, es: Seq<HoverEvent>) -> bool
    decreases es.len(),
{
    es.len() == 0 || (step_ok(h, es[0]) && trace_ok(apply_hover(h, es[0]), es.drop_first()))
}

/// At most one element shows the drag-over indicator.
pub open spec fn at_most_one_hover(h: Seq<bool>) -> bool {
    forall|p: int, q: int|
        0 <= p < h.len() && 0 <= q < h.len() && #[trigger] h[p] && #[trigger] h[q] ==> p == q
}

/// No element shows the drag-over indicator.
pub open spec fn none_hovered(h: Seq<bool>) -> bool {
    forall|p: int| 0 <= p < h.len() ==> !(#[trigger] h[p])
}

/// Law: across any well-ordered trace of drag-enter and drag-leave events
/// over any targets, at most one element carries the hover indicator at
/// any time.
pub proof fn lemma_hover_exclusive(h: Seq<bool>, es: Seq<HoverEvent>)
    requires
        at_most_one_hover(h),
        trace_ok(h, es),
    ensures
        at_most_one_hover(run_hover(h, es)),
    decreases es.len(),
{
    if es.len() > 0 {
        let h2 = apply_hover(h, es[0]);
        assert(at_most_one_hover(h2)) by {
            match es[0] {
                HoverEvent::Enter(i) => {
                    if (i as int) < h.len() {
                        assert forall|p: int, q: int|
                            0 <= p < h2.len() && 0 <= q < h2.len() && #[trigger] h2[p]
                                && #[trigger] h2[q] implies p == q by {
                            if p != i as int {
                                assert(h[p]);
                            }
                            if q != i as int {
                                assert(h[q]);
                            }
                        }
                    }
                },
                HoverEvent::Leave(i) => {
                    if (i as int) < h.len() {
                        assert forall|p: int, q: int|
                            0 <= p < h2.len() && 0 <= q < h2.len() && #[trigger] h2[p]
                                && #[trigger] h2[q] implies p == q by {
                            assert(h[p] && h[q]);
                        }
                    }
                },
            }
        }
        lemma_hover_exclusive(h2, es.drop_first());
    }
}

/// Law: once the pointer leaves the element that was the only one showing
/// the indicator, no element shows it any more. A drag-end without a drop
/// needs no extra cleanup beyond this.
pub proof fn lemma_leave_clears(h: Seq<bool>, i: usize)
    requires
        forall|p: int| 0 <= p < h.len() && #[trigger] h[p] ==> p == i as int,
    ensures
        none_hovered(apply_hover(h, HoverEvent::Leave(i))),
{
}

} // verus!
