//! What stands between the store and a subscriber: a view is handed on only
//! where it differs from the one handed on last.

use vstd::prelude::*;
use crate::order_book::Summary;
use crate::order_book::SummaryView;

verus! {

/// What one subscriber has been given last.
#[derive(Clone, Debug)]
pub struct Subscriber {
    pub delivered: Summary,
}

/// What is handed on when the subscriber holds `cursor` and the store
/// shows `current`.
pub open spec fn handed_on(cursor: SummaryView, current: SummaryView) -> Option<SummaryView> {
    if current == cursor {
        None
    } else {
        Some(current)
    }
}

/// What the subscriber holds after it was shown `states`, one by one.
pub open spec fn cursor_after(first: SummaryView, states: Seq<SummaryView>) -> SummaryView {
    if states.len() == 0 {
        first
    } else {
        states.last()
    }
}

/// All that is handed on while the subscriber is shown `states`, one by one.
pub open spec fn deliveries(first: SummaryView, states: Seq<SummaryView>) -> Seq<SummaryView>
    decreases states.len(),
{
    if states.len() == 0 {
        Seq::empty()
    } else {
        let before = deliveries(first, states.drop_last());
        match handed_on(cursor_after(first, states.drop_last()), states.last()) {
            Some(view) => before.push(view),
            None => before,
        }
    }
}

/// The view handed on last is the one that the subscriber holds.
pub proof fn lemma_last_delivery(first: SummaryView, states: Seq<SummaryView>)
    ensures
        deliveries(first, states).len() == 0 ==> cursor_after(first, states) == first,
        deliveries(first, states).len() > 0 ==> deliveries(first, states).last() == cursor_after(
            first,
            states,
        ),
    decreases states.len(),
{
    if states.len() > 0 {
        lemma_last_delivery(first, states.drop_last());
    }
}

/// Whatever the store shows and however often, a subscriber is never given
/// the same view twice in a row, and never the view it started with first.
pub proof fn law_no_duplicate_delivery(first: SummaryView, states: Seq<SummaryView>)
    ensures
        forall|i: int|
            0 <= i < deliveries(first, states).len() - 1 ==> #[trigger] deliveries(first, states)[i]
                != deliveries(first, states)[i + 1],
        deliveries(first, states).len() > 0 ==> deliveries(first, states)[0] != first,
    decreases states.len(),
{
    if states.len() > 0 {
        law_no_duplicate_delivery(first, states.drop_last());
        lemma_last_delivery(first, states.drop_last());
    }
}

impl Subscriber {
    /// A subscriber that has been given nothing yet: it holds the empty view.
    pub fn new() -> (r: Subscriber)
        ensures
            r.delivered@ == SummaryView::empty(),
    {
        Subscriber { delivered: Summary::new() }
    }

    /// Shows the subscriber what the store holds now. Where that differs from what
    /// the subscriber holds, a copy is handed out for delivery; either way
    /// the subscriber then holds the current view.
    pub fn offer(&mut self, current: &Summary) -> (r: Option<Summary>)
        ensures
            match r {
                Some(view) => handed_on(old(self).delivered@, current@) == Some(view@),
                None => handed_on(old(self).delivered@, current@) is None,
            },
            final(self).delivered@ == current@,
    {
        if self.delivered.same_as(current) {
            None
        } else {
            self.delivered = current.copy();
            Some(current.copy())
        }
    }
}

} // verus!
